//! The validation core of a confidential-transaction ledger with issued
//! assets.
//!
//! A block is a header and a body of inputs, outputs, kernels and asset
//! actions. This library decides whether a block is a valid step of the
//! ledger: whether its commitments balance, whether its proofs and
//! signatures verify, whether its reward and its issued assets are accounted
//! for. It never learns an amount.
//!
//! The modules, from the leaves up: `ser` and `hex` encode and decode;
//! `hash`, `secp` and `time` call the hashing, curve and calendar libraries;
//! `consensus` holds the chain's parameters; `asset`, `issued_asset` and
//! `standard_asset` describe assets and the signed actions on them;
//! `committed` sums commitments; `transaction` holds bodies and their
//! validation; `verifier_cache` remembers what was verified; `pow`, `block`
//! and `compact_block` hold headers, blocks and their compact form.

pub mod ser;
pub mod hex;
pub mod time;
pub mod consensus;
pub mod hash;
pub mod secp;
pub mod pow;
pub mod committed;
pub mod asset;
pub mod issued_asset;
pub mod standard_asset;
pub mod transaction;
pub mod verifier_cache;
pub mod block;
pub mod compact_block;
