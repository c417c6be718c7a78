//! Assets: 64-byte generator encodings that identify what a commitment commits to.

use vstd::prelude::*;
use crate::ser::{bytes_eq, read_array, write_bytes, SerError, Wire};

verus! {

/// Length in bytes of an asset's generator encoding.
pub const ASSET_LEN: usize = 64;

/// A generator point: the two coordinates of a curve point, 32 bytes each,
/// big-endian.
#[derive(Clone, Copy, Debug, PartialEq, Eq)]
pub struct Generator(pub [u8; 64]);

/// An asset, identified by the 64-byte encoding of its generator point.
/// Assets are equal, and ordered, byte by byte.
#[derive(Clone, Copy, Debug, PartialEq, Eq, PartialOrd, Ord, Hash)]
pub struct Asset(pub [u8; 64]);

/// The bytes of the native asset's generator.
pub open spec fn spec_native_generator() -> Seq<u8> {
    seq![
        0x50u8, 0x92, 0x9b, 0x74, 0xc1, 0xa0, 0x49, 0x54,
        0xb7, 0x8b, 0x4b, 0x60, 0x35, 0xe9, 0x7a, 0x5e,
        0x07, 0x8a, 0x5a, 0x0f, 0x28, 0xec, 0x96, 0xd5,
        0x47, 0xbf, 0xee, 0x9a, 0xce, 0x80, 0x3a, 0xc0,
        0x31, 0xd3, 0xc6, 0x86, 0x39, 0x73, 0x92, 0x6e,
        0x04, 0x9e, 0x63, 0x7c, 0xb1, 0xb5, 0xf4, 0x0a,
        0x36, 0xda, 0xc2, 0x8a, 0xf1, 0x76, 0x69, 0x68,
        0xc3, 0x0c, 0x23, 0x13, 0xf3, 0xa3, 0x89, 0x04,
    ]
}

impl View for Asset {
    type V = Seq<u8>;

    open spec fn view(&self) -> Seq<u8> {
        self.0@
    }
}

impl Asset {
    /// The asset whose generator is `g`.
    pub fn from_generator(g: Generator) -> (asset: Asset)
        ensures
            asset.0 == g.0,
    {
        Asset(g.0)
    }

    /// Wraps 64 raw bytes as an asset.
    pub fn from_bytes(bytes: [u8; 64]) -> (asset: Asset)
        ensures
            asset.0 == bytes,
    {
        Asset(bytes)
    }

    /// The generator of the asset.
    pub fn to_generator(&self) -> (g: Generator)
        ensures
            g.0 == self.0,
    {
        Generator(self.0)
    }

    /// The bytes of the asset.
    pub fn to_bytes(&self) -> (bytes: Vec<u8>)
        ensures
            bytes@ == self@,
    {
        let mut out: Vec<u8> = Vec::new();
        write_bytes(&mut out, self.0.as_slice());
        assert(out@ =~= self@);
        out
    }

    /// Whether the asset is the legacy stand-in for the native asset:
    /// 64 zero bytes.
    pub open spec fn spec_is_main(&self) -> bool {
        forall|i: int| 0 <= i < 64 ==> self@[i] == 0
    }

    /// Whether the asset is the native asset, given by its generator.
    pub open spec fn spec_is_native(&self) -> bool {
        self@ == spec_native_generator()
    }

    /// The legacy stand-in for the native asset: 64 zero bytes.
    pub fn main() -> (asset: Asset)
        ensures
            asset.spec_is_main(),
    {
        Asset([0u8; 64])
    }

    /// Tells whether the asset is the native asset.
    pub fn is_native(&self) -> (r: bool)
        ensures
            r == self.spec_is_native(),
    {
        let native = Asset::default();
        bytes_eq(self.0.as_slice(), native.0.as_slice())
    }

    /// The hash of the asset: that of its 64 bytes.
    pub fn hash(&self) -> (h: crate::hash::Hash)
        ensures
            h == crate::hash::spec_blake2b(self@),
    {
        crate::hash::hash_of(self)
    }

    /// Whether two assets hold the same bytes.
    pub fn same(&self, other: &Asset) -> (r: bool)
        ensures
            r == (*self == *other),
    {
        let r = bytes_eq(self.0.as_slice(), other.0.as_slice());
        proof {
            if r {
                assert(self.0 =~= other.0);
            }
        }
        r
    }
}

/// Reads `secp256k1zkp::constants::GENERATOR_H`, the generator under which
/// the curve library commits to values: the two coordinates that its source
/// gives, 32 bytes each.
#[verifier::external_body]
fn native_generator() -> (g: [u8; 64])
    ensures
        g@ == spec_native_generator(),
{
    secp256k1zkp::constants::GENERATOR_H
}

impl Default for Asset {
    /// The native asset.
    fn default() -> (asset: Asset)
        ensures
            asset.spec_is_native(),
    {
        let bytes = native_generator();
        Asset(bytes)
    }
}

impl Wire for Asset {
    open spec fn wf(&self) -> bool {
        true
    }

    open spec fn ser(&self) -> Seq<u8> {
        self@
    }

    open spec fn read_err(s: Seq<u8>, pos: int) -> Option<SerError> {
        if pos + ASSET_LEN > s.len() {
            Some(SerError::UnexpectedEof)
        } else {
            None
        }
    }

    open spec fn read_len(s: Seq<u8>, pos: int) -> int {
        ASSET_LEN as int
    }

    fn write(&self, out: &mut Vec<u8>) {
        write_bytes(out, self.0.as_slice());
    }

    fn read(buf: &[u8], pos: usize) -> (r: Result<(Self, usize), SerError>) {
        match read_array::<64>(buf, pos) {
            Ok((bytes, p)) => Ok((Asset(bytes), p)),
            Err(e) => Err(e),
        }
    }

    proof fn lemma_ser_injective(a: Self, b: Self) {
        assert(a.0 =~= b.0);
    }

    proof fn lemma_readable(x: Self, s: Seq<u8>, pos: int) {
    }
}

} // verus!
