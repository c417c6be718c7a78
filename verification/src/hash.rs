//! Hashes of encoded values.
//!
//! The hash of a value is the 32-byte BLAKE2b digest of its encoding, computed
//! by the `blake2_rfc` library. Short identifiers are made with SipHash-2-4
//! from the `siphasher` library.

use vstd::prelude::*;
use std::hash::Hasher;
use crate::ser::Wire;

verus! {

/// A 32-byte hash.
#[derive(Clone, Copy, Debug, PartialEq, Eq, Hash)]
pub struct Hash(pub [u8; 32]);

impl Hash {
    /// Whether every byte of the hash is zero.
    pub open spec fn is_zero(&self) -> bool {
        forall|i: int| 0 <= i < 32 ==> self.0@[i] == 0
    }

    /// The hash that stands for "none": 32 zero bytes.
    pub fn zero() -> (r: Hash)
        ensures
            r.is_zero(),
    {
        Hash([0u8; 32])
    }

    /// Whether two hashes hold the same bytes.
    pub fn same(&self, other: &Hash) -> (r: bool)
        ensures
            r == (*self == *other),
    {
        let r = crate::ser::bytes_eq(self.0.as_slice(), other.0.as_slice());
        proof {
            if r {
                assert(self.0 =~= other.0);
            }
        }
        r
    }
}

/// The 32-byte BLAKE2b digest of `data`, without a key.
pub uninterp spec fn spec_blake2b(data: Seq<u8>) -> Hash;

/// The SipHash-2-4 of `data` under the key `(k0, k1)`.
pub uninterp spec fn spec_siphash24(k0: u64, k1: u64, data: Seq<u8>) -> u64;

/// Calls `blake2_rfc::blake2b::blake2b` for a digest of 32 bytes with an
/// empty key. The digest is a function of the data.
#[verifier::external_body]
pub(crate) fn blake2b(data: &[u8]) -> (h: Hash)
    ensures
        h == spec_blake2b(data@),
{
    let digest = blake2_rfc::blake2b::blake2b(32, &[], data);
    let mut out = [0u8; 32];
    out.copy_from_slice(digest.as_bytes());
    Hash(out)
}

/// Calls `SipHasher24::new_with_keys`, feeds it the data and takes what
/// `finish` returns. The result is a function of the keys and the data.
#[verifier::external_body]
pub(crate) fn siphash24(k0: u64, k1: u64, data: &[u8]) -> (r: u64)
    ensures
        r == spec_siphash24(k0, k1, data@),
{
    let mut hasher = siphasher::sip::SipHasher24::new_with_keys(k0, k1);
    hasher.write(data);
    hasher.finish()
}

/// The hash of a value: that of its encoding.
pub fn hash_of<T: Wire>(x: &T) -> (h: Hash)
    ensures
        h == spec_blake2b(x.ser()),
{
    let mut bytes: Vec<u8> = Vec::new();
    x.write(&mut bytes);
    assert(bytes@ =~= x.ser());
    blake2b(bytes.as_slice())
}

} // verus!
