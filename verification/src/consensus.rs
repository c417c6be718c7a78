//! The chain's fixed parameters: rewards, weights, timing and versions.

use vstd::prelude::*;

verus! {

/// Target time between two blocks, in seconds.
pub const BLOCK_TIME_SEC: u64 = 60;

/// How many block intervals a header's time may lie in the future.
pub const MAX_FUTURE_BLOCKS: u64 = 12;

/// The reward of a block before the first halving, in the smallest unit.
pub const BASE_REWARD: u64 = 60_000_000_000;

/// Number of blocks after which the reward halves.
pub const HALVING_INTERVAL: u64 = 1_051_200;

/// Number of blocks between two scheduled header versions.
pub const HARD_FORK_INTERVAL: u64 = 262_080;

/// Number of header versions that are scheduled.
pub const SCHEDULED_VERSIONS: u64 = 3;

/// Weight of one input in a block.
pub const BLOCK_INPUT_WEIGHT: u64 = 1;

/// Weight of one output in a block.
pub const BLOCK_OUTPUT_WEIGHT: u64 = 21;

/// Weight of one kernel in a block.
pub const BLOCK_KERNEL_WEIGHT: u64 = 3;

/// Greatest weight of a block.
pub const MAX_BLOCK_WEIGHT: u64 = 40_000;

/// How many blocks must stand on the block of a coinbase output before the
/// output can be spent.
pub const COINBASE_MATURITY: u64 = 1_440;

/// Number of packed nonces in a proof of work.
pub const PROOF_SIZE: u64 = 42;

/// The edge size of the secondary proof of work.
pub const SECOND_POW_EDGE_BITS: u8 = 29;

/// The least edge size of the primary proof of work.
pub const MIN_EDGE_BITS: u8 = 31;

/// The block subsidy at `height`: the base reward, halved once for each
/// halving interval that has passed, and nothing after 64 halvings.
pub open spec fn spec_subsidy(height: u64) -> u64 {
    if height / HALVING_INTERVAL >= 64 {
        0
    } else {
        BASE_REWARD >> (height / HALVING_INTERVAL)
    }
}

/// The reward of the block at `height` that collects `fee`: subsidy plus
/// fees, held at the greatest 64-bit value.
pub open spec fn spec_reward(height: u64, fee: u64) -> u64 {
    if spec_subsidy(height) + fee > u64::MAX {
        u64::MAX
    } else {
        (spec_subsidy(height) + fee) as u64
    }
}

/// The block subsidy at `height`.
pub fn subsidy(height: u64) -> (r: u64)
    ensures
        r == spec_subsidy(height),
        r <= BASE_REWARD,
{
    let halvings: u64 = height / HALVING_INTERVAL;
    if halvings >= 64 {
        0
    } else {
        let r: u64 = BASE_REWARD >> halvings;
        assert(BASE_REWARD >> halvings <= BASE_REWARD) by (bit_vector);
        r
    }
}

/// The reward of the block at `height` that collects `fee`.
pub fn reward(height: u64, fee: u64) -> (r: u64)
    ensures
        r == spec_reward(height, fee),
{
    subsidy(height).saturating_add(fee)
}

/// The header version in force at `height`.
pub open spec fn spec_header_version(height: u64) -> u16 {
    if height / HARD_FORK_INTERVAL >= SCHEDULED_VERSIONS {
        SCHEDULED_VERSIONS as u16
    } else {
        (height / HARD_FORK_INTERVAL + 1) as u16
    }
}

/// Whether a header at `height` may carry `version`: the height lies on the
/// schedule and the version is the one in force there.
pub open spec fn spec_valid_header_version(height: u64, version: u16) -> bool {
    height / HARD_FORK_INTERVAL < SCHEDULED_VERSIONS && version == spec_header_version(height)
}

/// The header version in force at `height`.
pub fn header_version(height: u64) -> (v: u16)
    ensures
        v == spec_header_version(height),
        1 <= v <= SCHEDULED_VERSIONS,
{
    let step: u64 = height / HARD_FORK_INTERVAL;
    if step >= SCHEDULED_VERSIONS {
        SCHEDULED_VERSIONS as u16
    } else {
        (step + 1) as u16
    }
}

/// Tells whether a header at `height` may carry `version`.
pub fn valid_header_version(height: u64, version: u16) -> (r: bool)
    ensures
        r == spec_valid_header_version(height, version),
{
    height / HARD_FORK_INTERVAL < SCHEDULED_VERSIONS && version == header_version(height)
}

/// How many confirmations a block at height `created_at` has when the chain
/// stands at height `head`: the block itself and each block on it.
pub open spec fn spec_confirmations(created_at: u64, head: u64) -> int {
    if head < created_at {
        0
    } else {
        head - created_at + 1
    }
}

/// Whether a coinbase output of the block at height `created_at` can be
/// spent while the chain stands at height `head`: its block must have one
/// confirmation more than the coinbase maturity.
pub open spec fn spec_coinbase_mature(created_at: u64, head: u64) -> bool {
    spec_confirmations(created_at, head) >= COINBASE_MATURITY + 1
}

/// Checks that a coinbase output of the block at height `created_at` can be
/// spent while the chain stands at height `head`.
pub fn verify_coinbase_maturity(created_at: u64, head: u64) -> (r: Result<
    (),
    crate::transaction::TxError,
>)
    ensures
        r == (if spec_coinbase_mature(created_at, head) {
            Ok::<(), crate::transaction::TxError>(())
        } else {
            Err::<(), crate::transaction::TxError>(crate::transaction::TxError::ImmatureCoinbase)
        }),
{
    if head >= created_at && head - created_at >= COINBASE_MATURITY {
        Ok(())
    } else {
        Err(crate::transaction::TxError::ImmatureCoinbase)
    }
}

/// A coinbase output that can be spent at one height of the chain can be
/// spent at every later one.
pub proof fn lemma_maturity_is_kept(created_at: u64, head: u64, later: u64)
    requires
        spec_coinbase_mature(created_at, head),
        head <= later,
    ensures
        spec_coinbase_mature(created_at, later),
{
}

} // verus!
