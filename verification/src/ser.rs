//! Binary encoding primitives: big-endian integers and fixed-width byte strings.
//!
//! Writers append to a byte vector. Readers take a buffer and a position and
//! return the value read together with the position that follows it.

use vstd::prelude::*;

verus! {

/// Why a value could not be read from, or written as, bytes.
#[derive(Clone, Copy, Debug, PartialEq, Eq, Structural)]
pub enum SerError {
    /// The buffer ended before the value did.
    UnexpectedEof,
    /// The bytes do not encode a value that the rules admit.
    CorruptedData,
    /// A list announces more items than are admitted.
    TooLargeRead,
    /// A text is not a hexadecimal encoding of bytes.
    HexError,
    /// The bytes of a key or of an asset action are not what they should be.
    InvalidInput,
}

/// The big-endian encoding of a 16-bit integer.
#[verifier::opaque]
pub open spec fn u16_be(v: u16) -> Seq<u8> {
    seq![((v >> 8) & 0xff) as u8, (v & 0xff) as u8]
}

/// The big-endian encoding of a 32-bit integer.
#[verifier::opaque]
pub open spec fn u32_be(v: u32) -> Seq<u8> {
    seq![
        ((v >> 24) & 0xff) as u8,
        ((v >> 16) & 0xff) as u8,
        ((v >> 8) & 0xff) as u8,
        (v & 0xff) as u8,
    ]
}

/// The big-endian encoding of a 64-bit integer.
#[verifier::opaque]
pub open spec fn u64_be(v: u64) -> Seq<u8> {
    seq![
        ((v >> 56) & 0xff) as u8,
        ((v >> 48) & 0xff) as u8,
        ((v >> 40) & 0xff) as u8,
        ((v >> 32) & 0xff) as u8,
        ((v >> 24) & 0xff) as u8,
        ((v >> 16) & 0xff) as u8,
        ((v >> 8) & 0xff) as u8,
        (v & 0xff) as u8,
    ]
}

/// The upper half of a 128-bit integer.
pub open spec fn spec_high(v: u128) -> u64 {
    ((v >> 64) & 0xffff_ffff_ffff_ffff) as u64
}

/// The lower half of a 128-bit integer.
pub open spec fn spec_low(v: u128) -> u64 {
    (v & 0xffff_ffff_ffff_ffff) as u64
}

/// The big-endian encoding of a 128-bit integer.
pub open spec fn u128_be(v: u128) -> Seq<u8> {
    u64_be(spec_high(v)) + u64_be(spec_low(v))
}

/// The big-endian two's complement encoding of a signed 64-bit integer.
pub open spec fn i64_be(v: i64) -> Seq<u8> {
    u64_be(v as u64)
}

/// The 16-bit integer that two big-endian bytes encode.
#[verifier::opaque]
pub open spec fn be_u16(s: Seq<u8>) -> u16 {
    (s[0] as u16) << 8 | (s[1] as u16)
}

/// The 32-bit integer that four big-endian bytes encode.
#[verifier::opaque]
pub open spec fn be_u32(s: Seq<u8>) -> u32 {
    (s[0] as u32) << 24 | (s[1] as u32) << 16 | (s[2] as u32) << 8 | (s[3] as u32)
}

/// The 64-bit integer that eight big-endian bytes encode.
#[verifier::opaque]
pub open spec fn be_u64(s: Seq<u8>) -> u64 {
    (s[0] as u64) << 56 | (s[1] as u64) << 48 | (s[2] as u64) << 40 | (s[3] as u64) << 32 | (
    s[4] as u64) << 24 | (s[5] as u64) << 16 | (s[6] as u64) << 8 | (s[7] as u64)
}

/// The 128-bit integer that sixteen big-endian bytes encode.
pub open spec fn be_u128(s: Seq<u8>) -> u128 {
    (be_u64(s.subrange(0, 8)) as u128) << 64 | (be_u64(s.subrange(8, 16)) as u128)
}

/// The signed 64-bit integer that eight big-endian bytes encode.
pub open spec fn be_i64(s: Seq<u8>) -> i64 {
    be_u64(s) as i64
}

/// Decoding an encoded 16-bit integer gives it back.
proof fn lemma_u16_round_trip(v: u16)
    ensures
        u16_be(v).len() == 2,
        be_u16(u16_be(v)) == v,
{
    reveal(u16_be);
    reveal(be_u16);
    assert((v >> 8) & 0xff < 256 && v & 0xff < 256 && ((v >> 8) & 0xff) << 8 | (v & 0xff) == v)
        by (bit_vector);
}

/// Encoding a decoded 16-bit integer gives the bytes back.
proof fn lemma_u16_round_trip_bytes(s: Seq<u8>)
    requires
        s.len() == 2,
    ensures
        u16_be(be_u16(s)) == s,
{
    reveal(u16_be);
    reveal(be_u16);
    let a = s[0] as u16;
    let b = s[1] as u16;
    assert(a < 256 && b < 256 ==> ((a << 8 | b) >> 8) & 0xff == a && (a << 8 | b) & 0xff == b)
        by (bit_vector);
    assert(u16_be(be_u16(s)) =~= s);
}

/// Decoding an encoded 32-bit integer gives it back.
proof fn lemma_u32_round_trip(v: u32)
    ensures
        u32_be(v).len() == 4,
        be_u32(u32_be(v)) == v,
{
    reveal(u32_be);
    reveal(be_u32);
    assert((v >> 24) & 0xff < 256 && (v >> 16) & 0xff < 256 && (v >> 8) & 0xff < 256 && v & 0xff
        < 256 && ((v >> 24) & 0xff) << 24 | ((v >> 16) & 0xff) << 16 | ((v >> 8) & 0xff) << 8 | (v
        & 0xff) == v) by (bit_vector);
}

/// Encoding a decoded 32-bit integer gives the bytes back.
proof fn lemma_u32_round_trip_bytes(s: Seq<u8>)
    requires
        s.len() == 4,
    ensures
        u32_be(be_u32(s)) == s,
{
    reveal(u32_be);
    reveal(be_u32);
    let a = s[0] as u32;
    let b = s[1] as u32;
    let c = s[2] as u32;
    let d = s[3] as u32;
    assert(a < 256 && b < 256 && c < 256 && d < 256 ==> {
        let x = a << 24 | b << 16 | c << 8 | d;
        (x >> 24) & 0xff == a && (x >> 16) & 0xff == b && (x >> 8) & 0xff == c && x & 0xff == d
    }) by (bit_vector);
    assert(u32_be(be_u32(s)) =~= s);
}

/// Decoding an encoded 64-bit integer gives it back.
proof fn lemma_u64_round_trip(v: u64)
    ensures
        u64_be(v).len() == 8,
        be_u64(u64_be(v)) == v,
{
    reveal(u64_be);
    reveal(be_u64);
    assert((v >> 56) & 0xff < 256 && (v >> 48) & 0xff < 256 && (v >> 40) & 0xff < 256 && (v >> 32)
        & 0xff < 256 && (v >> 24) & 0xff < 256 && (v >> 16) & 0xff < 256 && (v >> 8) & 0xff < 256
        && v & 0xff < 256 && ((v >> 56) & 0xff) << 56 | ((v >> 48) & 0xff) << 48 | ((v >> 40)
        & 0xff) << 40 | ((v >> 32) & 0xff) << 32 | ((v >> 24) & 0xff) << 24 | ((v >> 16) & 0xff)
        << 16 | ((v >> 8) & 0xff) << 8 | (v & 0xff) == v) by (bit_vector);
}

/// Encoding a decoded 64-bit integer gives the bytes back.
proof fn lemma_u64_round_trip_bytes(s: Seq<u8>)
    requires
        s.len() == 8,
    ensures
        u64_be(be_u64(s)) == s,
{
    reveal(u64_be);
    reveal(be_u64);
    let a = s[0] as u64;
    let b = s[1] as u64;
    let c = s[2] as u64;
    let d = s[3] as u64;
    let e = s[4] as u64;
    let f = s[5] as u64;
    let g = s[6] as u64;
    let h = s[7] as u64;
    assert(a < 256 && b < 256 && c < 256 && d < 256 && e < 256 && f < 256 && g < 256 && h < 256
        ==> {
        let x = a << 56 | b << 48 | c << 40 | d << 32 | e << 24 | f << 16 | g << 8 | h;
        (x >> 56) & 0xff == a && (x >> 48) & 0xff == b && (x >> 40) & 0xff == c && (x >> 32) & 0xff
            == d && (x >> 24) & 0xff == e && (x >> 16) & 0xff == f && (x >> 8) & 0xff == g && x
            & 0xff == h
    }) by (bit_vector);
    assert(u64_be(be_u64(s)) =~= s);
}

/// Decoding an encoded 128-bit integer gives it back.
proof fn lemma_u128_round_trip(v: u128)
    ensures
        u128_be(v).len() == 16,
        be_u128(u128_be(v)) == v,
{
    let hi = spec_high(v);
    let lo = spec_low(v);
    lemma_u64_round_trip(hi);
    lemma_u64_round_trip(lo);
    let s = u128_be(v);
    assert(s.subrange(0, 8) =~= u64_be(hi));
    assert(s.subrange(8, 16) =~= u64_be(lo));
    assert((v >> 64) & 0xffff_ffff_ffff_ffff <= 0xffff_ffff_ffff_ffff && v
        & 0xffff_ffff_ffff_ffff <= 0xffff_ffff_ffff_ffff && ((v >> 64) & 0xffff_ffff_ffff_ffff)
        << 64 | (v & 0xffff_ffff_ffff_ffff) == v) by (bit_vector);
}

/// Encoding a decoded 128-bit integer gives the bytes back.
proof fn lemma_u128_round_trip_bytes(s: Seq<u8>)
    requires
        s.len() == 16,
    ensures
        u128_be(be_u128(s)) == s,
{
    let hi = be_u64(s.subrange(0, 8));
    let lo = be_u64(s.subrange(8, 16));
    lemma_u64_round_trip_bytes(s.subrange(0, 8));
    lemma_u64_round_trip_bytes(s.subrange(8, 16));
    let h = hi as u128;
    let l = lo as u128;
    assert(h <= 0xffff_ffff_ffff_ffff && l <= 0xffff_ffff_ffff_ffff ==> ((h << 64 | l) >> 64)
        & 0xffff_ffff_ffff_ffff == h && (h << 64 | l) & 0xffff_ffff_ffff_ffff == l)
        by (bit_vector);
    assert(spec_high(be_u128(s)) == hi);
    assert(spec_low(be_u128(s)) == lo);
    assert(u128_be(be_u128(s)) =~= s.subrange(0, 8) + s.subrange(8, 16));
    assert(s.subrange(0, 8) + s.subrange(8, 16) =~= s);
}

/// Decoding an encoded integer gives the integer back, and every encoding has
/// the width of its type.
pub proof fn lemma_be_round_trip()
    ensures
        forall|v: u16| #![trigger u16_be(v)] u16_be(v).len() == 2 && be_u16(u16_be(v)) == v,
        forall|v: u32| #![trigger u32_be(v)] u32_be(v).len() == 4 && be_u32(u32_be(v)) == v,
        forall|v: u64| #![trigger u64_be(v)] u64_be(v).len() == 8 && be_u64(u64_be(v)) == v,
        forall|v: u128| #![trigger u128_be(v)] u128_be(v).len() == 16 && be_u128(u128_be(v)) == v,
        forall|v: i64| #![trigger i64_be(v)] i64_be(v).len() == 8 && be_i64(i64_be(v)) == v,
{
    assert forall|v: u16| #![trigger u16_be(v)] u16_be(v).len() == 2 && be_u16(u16_be(v)) == v by {
        lemma_u16_round_trip(v);
    }
    assert forall|v: u32| #![trigger u32_be(v)] u32_be(v).len() == 4 && be_u32(u32_be(v)) == v by {
        lemma_u32_round_trip(v);
    }
    assert forall|v: u64| #![trigger u64_be(v)] u64_be(v).len() == 8 && be_u64(u64_be(v)) == v by {
        lemma_u64_round_trip(v);
    }
    assert forall|v: u128| #![trigger u128_be(v)]
        u128_be(v).len() == 16 && be_u128(u128_be(v)) == v by {
        lemma_u128_round_trip(v);
    }
    assert forall|v: i64| #![trigger i64_be(v)] i64_be(v).len() == 8 && be_i64(i64_be(v)) == v by {
        lemma_u64_round_trip(v as u64);
        assert((v as u64) as i64 == v) by (bit_vector);
    }
}

/// Encoding a decoded integer gives the bytes back.
pub proof fn lemma_be_round_trip_bytes()
    ensures
        forall|s: Seq<u8>| #![trigger be_u16(s)] s.len() == 2 ==> u16_be(be_u16(s)) == s,
        forall|s: Seq<u8>| #![trigger be_u32(s)] s.len() == 4 ==> u32_be(be_u32(s)) == s,
        forall|s: Seq<u8>| #![trigger be_u64(s)] s.len() == 8 ==> u64_be(be_u64(s)) == s,
        forall|s: Seq<u8>| #![trigger be_u128(s)] s.len() == 16 ==> u128_be(be_u128(s)) == s,
        forall|s: Seq<u8>| #![trigger be_i64(s)] s.len() == 8 ==> i64_be(be_i64(s)) == s,
{
    assert forall|s: Seq<u8>| #![trigger be_u16(s)] s.len() == 2 implies u16_be(be_u16(s)) == s by {
        lemma_u16_round_trip_bytes(s);
    }
    assert forall|s: Seq<u8>| #![trigger be_u32(s)] s.len() == 4 implies u32_be(be_u32(s)) == s by {
        lemma_u32_round_trip_bytes(s);
    }
    assert forall|s: Seq<u8>| #![trigger be_u64(s)] s.len() == 8 implies u64_be(be_u64(s)) == s by {
        lemma_u64_round_trip_bytes(s);
    }
    assert forall|s: Seq<u8>| #![trigger be_u128(s)] s.len() == 16 implies u128_be(be_u128(s))
        == s by {
        lemma_u128_round_trip_bytes(s);
    }
    assert forall|s: Seq<u8>| #![trigger be_i64(s)] s.len() == 8 implies i64_be(be_i64(s)) == s by {
        lemma_u64_round_trip_bytes(s);
        let u = be_u64(s);
        assert((u as i64) as u64 == u) by (bit_vector);
    }
}

/// Appends one byte.
pub fn write_u8(out: &mut Vec<u8>, v: u8)
    ensures
        final(out)@ == old(out)@ + seq![v],
{
    out.push(v);
    assert(out@ =~= old(out)@ + seq![v]);
}

/// Appends a 16-bit integer, big-endian.
pub fn write_u16(out: &mut Vec<u8>, v: u16)
    ensures
        final(out)@ == old(out)@ + u16_be(v),
{
    proof {
        reveal(u16_be);
    }
    assert((v >> 8) & 0xff < 256 && v & 0xff < 256) by (bit_vector);
    out.push(((v >> 8) & 0xff) as u8);
    out.push((v & 0xff) as u8);
    assert(out@ =~= old(out)@ + u16_be(v));
}

/// Appends a 32-bit integer, big-endian.
pub fn write_u32(out: &mut Vec<u8>, v: u32)
    ensures
        final(out)@ == old(out)@ + u32_be(v),
{
    proof {
        reveal(u32_be);
    }
    assert((v >> 24) & 0xff < 256 && (v >> 16) & 0xff < 256 && (v >> 8) & 0xff < 256 && v & 0xff
        < 256) by (bit_vector);
    out.push(((v >> 24) & 0xff) as u8);
    out.push(((v >> 16) & 0xff) as u8);
    out.push(((v >> 8) & 0xff) as u8);
    out.push((v & 0xff) as u8);
    assert(out@ =~= old(out)@ + u32_be(v));
}

/// Appends a 64-bit integer, big-endian.
pub fn write_u64(out: &mut Vec<u8>, v: u64)
    ensures
        final(out)@ == old(out)@ + u64_be(v),
{
    proof {
        reveal(u64_be);
    }
    assert((v >> 56) & 0xff < 256 && (v >> 48) & 0xff < 256 && (v >> 40) & 0xff < 256 && (v >> 32)
        & 0xff < 256 && (v >> 24) & 0xff < 256 && (v >> 16) & 0xff < 256 && (v >> 8) & 0xff < 256
        && v & 0xff < 256) by (bit_vector);
    out.push(((v >> 56) & 0xff) as u8);
    out.push(((v >> 48) & 0xff) as u8);
    out.push(((v >> 40) & 0xff) as u8);
    out.push(((v >> 32) & 0xff) as u8);
    out.push(((v >> 24) & 0xff) as u8);
    out.push(((v >> 16) & 0xff) as u8);
    out.push(((v >> 8) & 0xff) as u8);
    out.push((v & 0xff) as u8);
    assert(out@ =~= old(out)@ + u64_be(v));
}

/// Appends a 128-bit integer, big-endian.
pub fn write_u128(out: &mut Vec<u8>, v: u128)
    ensures
        final(out)@ == old(out)@ + u128_be(v),
{
    assert((v >> 64) & 0xffff_ffff_ffff_ffff <= 0xffff_ffff_ffff_ffff && v
        & 0xffff_ffff_ffff_ffff <= 0xffff_ffff_ffff_ffff) by (bit_vector);
    let hi: u64 = ((v >> 64) & 0xffff_ffff_ffff_ffff) as u64;
    let lo: u64 = (v & 0xffff_ffff_ffff_ffff) as u64;
    write_u64(out, hi);
    write_u64(out, lo);
    assert(out@ =~= old(out)@ + u128_be(v));
}

/// Appends a signed 64-bit integer, big-endian two's complement.
pub fn write_i64(out: &mut Vec<u8>, v: i64)
    ensures
        final(out)@ == old(out)@ + i64_be(v),
{
    write_u64(out, v as u64);
}

/// Appends the bytes of `bytes` as they stand.
pub fn write_bytes(out: &mut Vec<u8>, bytes: &[u8])
    ensures
        final(out)@ == old(out)@ + bytes@,
{
    let ghost start = out@;
    let n = bytes.len();
    let mut i: usize = 0;
    while i < n
        invariant
            n == bytes@.len(),
            i <= n,
            out@ == start + bytes@.subrange(0, i as int),
        decreases n - i,
    {
        out.push(bytes[i]);
        i += 1;
        assert(out@ =~= start + bytes@.subrange(0, i as int));
    }
    assert(bytes@.subrange(0, n as int) =~= bytes@);
}

/// Whether `n` more bytes can be read from position `pos` of a buffer of
/// length `len`.
pub open spec fn in_bounds(len: nat, pos: usize, n: nat) -> bool {
    pos + n <= len
}

/// Reads one byte.
pub fn read_u8(buf: &[u8], pos: usize) -> (r: Result<(u8, usize), SerError>)
    ensures
        match r {
            Ok((v, p)) => in_bounds(buf@.len(), pos, 1) && p == pos + 1 && v == buf@[pos as int],
            Err(e) => !in_bounds(buf@.len(), pos, 1) && e == SerError::UnexpectedEof,
        },
{
    if pos >= buf.len() {
        return Err(SerError::UnexpectedEof);
    }
    Ok((buf[pos], pos + 1))
}

/// Reads a 16-bit big-endian integer.
pub fn read_u16(buf: &[u8], pos: usize) -> (r: Result<(u16, usize), SerError>)
    ensures
        match r {
            Ok((v, p)) => in_bounds(buf@.len(), pos, 2) && p == pos + 2 && v == be_u16(
                buf@.subrange(pos as int, pos + 2),
            ),
            Err(e) => !in_bounds(buf@.len(), pos, 2) && e == SerError::UnexpectedEof,
        },
{
    proof {
        reveal(be_u16);
    }
    if buf.len() < 2 || pos > buf.len() - 2 {
        return Err(SerError::UnexpectedEof);
    }
    let v: u16 = (buf[pos] as u16) << 8 | (buf[pos + 1] as u16);
    assert(buf@.subrange(pos as int, pos + 2) =~= buf@.subrange(pos as int, pos + 2));
    Ok((v, pos + 2))
}

/// Reads a 32-bit big-endian integer.
pub fn read_u32(buf: &[u8], pos: usize) -> (r: Result<(u32, usize), SerError>)
    ensures
        match r {
            Ok((v, p)) => in_bounds(buf@.len(), pos, 4) && p == pos + 4 && v == be_u32(
                buf@.subrange(pos as int, pos + 4),
            ),
            Err(e) => !in_bounds(buf@.len(), pos, 4) && e == SerError::UnexpectedEof,
        },
{
    proof {
        reveal(be_u32);
    }
    if buf.len() < 4 || pos > buf.len() - 4 {
        return Err(SerError::UnexpectedEof);
    }
    let v: u32 = (buf[pos] as u32) << 24 | (buf[pos + 1] as u32) << 16 | (buf[pos + 2] as u32) << 8 | (
    buf[pos + 3] as u32);
    assert(buf@.subrange(pos as int, pos + 4) =~= buf@.subrange(pos as int, pos + 4));
    Ok((v, pos + 4))
}

/// Reads a 64-bit big-endian integer.
pub fn read_u64(buf: &[u8], pos: usize) -> (r: Result<(u64, usize), SerError>)
    ensures
        match r {
            Ok((v, p)) => in_bounds(buf@.len(), pos, 8) && p == pos + 8 && v == be_u64(
                buf@.subrange(pos as int, pos + 8),
            ),
            Err(e) => !in_bounds(buf@.len(), pos, 8) && e == SerError::UnexpectedEof,
        },
{
    proof {
        reveal(be_u64);
    }
    if buf.len() < 8 || pos > buf.len() - 8 {
        return Err(SerError::UnexpectedEof);
    }
    let v: u64 = (buf[pos] as u64) << 56 | (buf[pos + 1] as u64) << 48 | (buf[pos + 2] as u64) << 40 | (
    buf[pos + 3] as u64) << 32 | (buf[pos + 4] as u64) << 24 | (buf[pos + 5] as u64) << 16 | (
    buf[pos + 6] as u64) << 8 | (buf[pos + 7] as u64);
    assert(buf@.subrange(pos as int, pos + 8) =~= buf@.subrange(pos as int, pos + 8));
    Ok((v, pos + 8))
}

/// Reads a 128-bit big-endian integer.
pub fn read_u128(buf: &[u8], pos: usize) -> (r: Result<(u128, usize), SerError>)
    ensures
        match r {
            Ok((v, p)) => in_bounds(buf@.len(), pos, 16) && p == pos + 16 && v == be_u128(
                buf@.subrange(pos as int, pos + 16),
            ),
            Err(e) => !in_bounds(buf@.len(), pos, 16) && e == SerError::UnexpectedEof,
        },
{
    let (hi, p1) = match read_u64(buf, pos) {
        Ok(v) => v,
        Err(e) => { return Err(e); },
    };
    let (lo, p2) = match read_u64(buf, p1) {
        Ok(v) => v,
        Err(e) => { return Err(e); },
    };
    let v: u128 = (hi as u128) << 64 | (lo as u128);
    proof {
        let s = buf@.subrange(pos as int, pos + 16);
        assert(s.subrange(0, 8) =~= buf@.subrange(pos as int, pos + 8));
        assert(s.subrange(8, 16) =~= buf@.subrange(pos + 8, pos + 16));
    }
    Ok((v, p2))
}

/// Reads a signed 64-bit big-endian integer.
pub fn read_i64(buf: &[u8], pos: usize) -> (r: Result<(i64, usize), SerError>)
    ensures
        match r {
            Ok((v, p)) => in_bounds(buf@.len(), pos, 8) && p == pos + 8 && v == be_i64(
                buf@.subrange(pos as int, pos + 8),
            ),
            Err(e) => !in_bounds(buf@.len(), pos, 8) && e == SerError::UnexpectedEof,
        },
{
    match read_u64(buf, pos) {
        Ok((v, p)) => Ok((v as i64, p)),
        Err(e) => Err(e),
    }
}

/// Reads `N` bytes as they stand.
pub fn read_array<const N: usize>(buf: &[u8], pos: usize) -> (r: Result<([u8; N], usize), SerError>)
    ensures
        match r {
            Ok((a, p)) => in_bounds(buf@.len(), pos, N as nat) && p == pos + N && a@
                == buf@.subrange(pos as int, pos + N),
            Err(e) => !in_bounds(buf@.len(), pos, N as nat) && e == SerError::UnexpectedEof,
        },
{
    if buf.len() < N || pos > buf.len() - N {
        return Err(SerError::UnexpectedEof);
    }
    let mut a = [0u8; N];
    let mut i: usize = 0;
    let len = buf.len();
    while i < N
        invariant
            i <= N,
            len == buf@.len(),
            pos + N <= len,
            a@.len() == N,
            forall|j: int| 0 <= j < i ==> a@[j] == buf@[pos + j],
        decreases N - i,
    {
        a[i] = buf[pos + i];
        i += 1;
    }
    assert(a@ =~= buf@.subrange(pos as int, pos + N));
    Ok((a, pos + N))
}

/// An array of `N` zero bytes.
pub fn zeroed<const N: usize>() -> (a: [u8; N])
    ensures
        forall|j: int| 0 <= j < N ==> a@[j] == 0,
{
    let a = [0u8; N];
    assert forall|j: int| 0 <= j < N implies a@[j] == 0 by {
        vstd::array::axiom_spec_array_fill_for_copy_type::<u8, N>(0u8);
    }
    a
}

/// Whether two byte strings hold the same bytes.
pub fn bytes_eq(a: &[u8], b: &[u8]) -> (r: bool)
    ensures
        r == (a@ == b@),
{
    if a.len() != b.len() {
        return false;
    }
    let n = a.len();
    let mut i: usize = 0;
    while i < n
        invariant
            n == a@.len(),
            n == b@.len(),
            i <= n,
            forall|j: int| 0 <= j < i ==> a@[j] == b@[j],
        decreases n - i,
    {
        if a[i] != b[i] {
            return false;
        }
        i += 1;
    }
    assert(a@ =~= b@);
    true
}

/// A value with a binary encoding.
///
/// `ser` is the encoding. `read_err` says, of a buffer and a position, why no
/// value can be read there, or `None` when one can; `read_len` is then the
/// length of its encoding.
pub trait Wire: Sized {
    /// Whether the value is one that reading gives: one whose encoding can
    /// be read back as the value itself.
    spec fn wf(&self) -> bool;

    /// The encoding of the value.
    spec fn ser(&self) -> Seq<u8>;

    /// Why no value can be read at `pos`, or `None` when one can.
    spec fn read_err(s: Seq<u8>, pos: int) -> Option<SerError>;

    /// The length of the encoding that starts at `pos`.
    spec fn read_len(s: Seq<u8>, pos: int) -> int;

    /// Appends the encoding of the value.
    fn write(&self, out: &mut Vec<u8>)
        ensures
            final(out)@ == old(out)@ + self.ser(),
    ;

    /// Reads a value at `pos`; gives it with the position that follows it.
    fn read(buf: &[u8], pos: usize) -> (r: Result<(Self, usize), SerError>)
        ensures
            match r {
                Ok((x, p)) => {
                    &&& Self::read_err(buf@, pos as int) is None
                    &&& p == pos + Self::read_len(buf@, pos as int)
                    &&& pos <= p <= buf@.len()
                    &&& x.wf()
                    &&& x.ser() == buf@.subrange(pos as int, p as int)
                },
                Err(e) => Self::read_err(buf@, pos as int) == Some(e),
            },
    ;

    /// Two well-formed values with the same encoding are the same value.
    proof fn lemma_ser_injective(a: Self, b: Self)
        requires
            a.wf(),
            b.wf(),
            a.ser() == b.ser(),
        ensures
            a == b,
    ;

    /// Where the encoding of a well-formed value stands in a buffer, a value
    /// of that length can be read.
    proof fn lemma_readable(x: Self, s: Seq<u8>, pos: int)
        requires
            x.wf(),
            0 <= pos,
            pos + x.ser().len() <= s.len(),
            s.subrange(pos, pos + x.ser().len()) == x.ser(),
        ensures
            Self::read_err(s, pos) is None,
            Self::read_len(s, pos) == x.ser().len(),
    ;
}

/// Whether every item of a list is well formed.
pub open spec fn all_wf<T: Wire>(items: Seq<T>) -> bool {
    forall|i: int| 0 <= i < items.len() ==> (#[trigger] items[i]).wf()
}

/// The encodings of the items of a list, one after the other.
pub open spec fn ser_list<T: Wire>(items: Seq<T>) -> Seq<u8>
    decreases items.len(),
{
    if items.len() == 0 {
        Seq::empty()
    } else {
        ser_list(items.drop_last()) + items.last().ser()
    }
}

/// Why `n` values cannot be read one after the other from `pos` on, or `None`
/// when they can.
pub open spec fn list_read_err<T: Wire>(s: Seq<u8>, pos: int, n: nat) -> Option<SerError>
    decreases n,
{
    if n == 0 {
        None
    } else {
        match T::read_err(s, pos) {
            Some(e) => Some(e),
            None => list_read_err::<T>(s, pos + T::read_len(s, pos), (n - 1) as nat),
        }
    }
}

/// The length of the encodings of `n` values that start at `pos`.
pub open spec fn list_read_len<T: Wire>(s: Seq<u8>, pos: int, n: nat) -> int
    decreases n,
{
    if n == 0 {
        0
    } else {
        T::read_len(s, pos) + list_read_len::<T>(s, pos + T::read_len(s, pos), (n - 1) as nat)
    }
}

/// Appends the encodings of the items of a list.
pub fn write_list<T: Wire>(out: &mut Vec<u8>, items: &Vec<T>)
    ensures
        final(out)@ == old(out)@ + ser_list(items@),
{
    let ghost start = out@;
    let n = items.len();
    let mut i: usize = 0;
    assert(ser_list(items@.take(0)) =~= Seq::<u8>::empty());
    assert(out@ =~= start + ser_list(items@.take(0)));
    while i < n
        invariant
            n == items@.len(),
            i <= n,
            out@ == start + ser_list(items@.take(i as int)),
        decreases n - i,
    {
        let ghost before = out@;
        items[i].write(out);
        proof {
            let next = items@.take(i + 1);
            assert(next.drop_last() =~= items@.take(i as int));
            assert(next.last() == items@[i as int]);
            assert(out@ =~= start + ser_list(next));
        }
        i += 1;
    }
    assert(items@.take(n as int) =~= items@);
}

/// Reading `n` values from `pos` gives the same answer as reading `i` of them
/// and then the rest.
proof fn lemma_list_read_split<T: Wire>(s: Seq<u8>, pos: int, i: nat, n: nat)
    requires
        i <= n,
        list_read_err::<T>(s, pos, i) is None,
    ensures
        list_read_err::<T>(s, pos, n) == list_read_err::<T>(
            s,
            pos + list_read_len::<T>(s, pos, i),
            (n - i) as nat,
        ),
        list_read_len::<T>(s, pos, n) == list_read_len::<T>(s, pos, i) + list_read_len::<T>(
            s,
            pos + list_read_len::<T>(s, pos, i),
            (n - i) as nat,
        ),
    decreases i,
{
    if i > 0 {
        lemma_list_read_split::<T>(s, pos + T::read_len(s, pos), (i - 1) as nat, (n - 1) as nat);
    }
}

/// Reads `n` values one after the other from `pos` on.
#[verifier::rlimit(40)]
pub fn read_list<T: Wire>(buf: &[u8], pos: usize, n: usize) -> (r: Result<(Vec<T>, usize), SerError>)
    requires
        pos <= buf@.len(),
    ensures
        match r {
            Ok((v, p)) => {
                &&& list_read_err::<T>(buf@, pos as int, n as nat) is None
                &&& v@.len() == n
                &&& p == pos + list_read_len::<T>(buf@, pos as int, n as nat)
                &&& pos <= p <= buf@.len()
                &&& all_wf(v@)
                &&& ser_list(v@) == buf@.subrange(pos as int, p as int)
            },
            Err(e) => list_read_err::<T>(buf@, pos as int, n as nat) == Some(e),
        },
{
    let mut v: Vec<T> = Vec::new();
    let mut cur: usize = pos;
    let mut i: usize = 0;
    assert(ser_list(v@) =~= buf@.subrange(pos as int, cur as int));
    while i < n
        invariant
            i <= n,
            pos <= cur <= buf@.len(),
            v@.len() == i,
            all_wf(v@),
            list_read_err::<T>(buf@, pos as int, i as nat) is None,
            cur == pos + list_read_len::<T>(buf@, pos as int, i as nat),
            ser_list(v@) == buf@.subrange(pos as int, cur as int),
        decreases n - i,
    {
        proof {
            lemma_list_read_split::<T>(buf@, pos as int, i as nat, n as nat);
            lemma_list_read_split::<T>(buf@, pos as int, i as nat, (i + 1) as nat);
        }
        match T::read(buf, cur) {
            Ok((x, p)) => {
                proof {
                    let next = v@.push(x);
                    assert(next.drop_last() =~= v@);
                    assert(next.last() == x);
                    assert(ser_list(next) =~= buf@.subrange(pos as int, p as int));
                    assert(list_read_err::<T>(buf@, p as int, 0) is None);
                    assert(list_read_len::<T>(buf@, p as int, 0) == 0);
                }
                v.push(x);
                cur = p;
            },
            Err(e) => {
                return Err(e);
            },
        }
        i += 1;
    }
    Ok((v, cur))
}

/// A value that can be told from another of its type.
pub trait Identity: Sized + Copy {
    /// Whether two values count as the same one.
    spec fn same_as(&self, other: &Self) -> bool;

    /// Tells whether two values count as the same one.
    fn is_same(&self, other: &Self) -> (r: bool)
        ensures
            r == self.same_as(other),
    ;
}

/// Whether a list holds a value that counts as the same as `x`.
pub open spec fn spec_holds<T: Identity>(items: Seq<T>, x: T) -> bool {
    exists|i: int| 0 <= i < items.len() && (#[trigger] items[i]).same_as(&x)
}

/// The first of each group of values that count as the same, in the order
/// of the list.
pub open spec fn spec_dedup<T: Identity>(items: Seq<T>) -> Seq<T>
    decreases items.len(),
{
    if items.len() == 0 {
        Seq::empty()
    } else if spec_holds(spec_dedup(items.drop_last()), items.last()) {
        spec_dedup(items.drop_last())
    } else {
        spec_dedup(items.drop_last()).push(items.last())
    }
}

/// Tells whether a list holds a value that counts as the same as `x`.
pub fn holds<T: Identity>(items: &Vec<T>, x: &T) -> (r: bool)
    ensures
        r == spec_holds(items@, *x),
{
    let n = items.len();
    let mut i: usize = 0;
    while i < n
        invariant
            n == items@.len(),
            i <= n,
            forall|j: int| 0 <= j < i ==> !(#[trigger] items@[j]).same_as(x),
        decreases n - i,
    {
        if items[i].is_same(x) {
            return true;
        }
        i += 1;
    }
    false
}

/// Keeps the first of each group of values that count as the same.
pub fn dedup<T: Identity>(items: &Vec<T>) -> (r: Vec<T>)
    ensures
        r@ == spec_dedup(items@),
{
    let mut r: Vec<T> = Vec::new();
    let n = items.len();
    let mut i: usize = 0;
    assert(items@.take(0) =~= Seq::<T>::empty());
    while i < n
        invariant
            n == items@.len(),
            i <= n,
            r@ == spec_dedup(items@.take(i as int)),
        decreases n - i,
    {
        proof {
            let next = items@.take(i + 1);
            assert(next.drop_last() =~= items@.take(i as int));
            assert(next.last() == items@[i as int]);
        }
        if !holds(&r, &items[i]) {
            r.push(items[i]);
        }
        i += 1;
    }
    assert(items@.take(n as int) =~= items@);
    r
}

/// After `dedup` no two values of the list count as the same.
pub proof fn lemma_dedup_distinct<T: Identity>(items: Seq<T>)
    ensures
        forall|i: int, j: int|
            #![trigger spec_dedup(items)[i], spec_dedup(items)[j]]
            0 <= i < j < spec_dedup(items).len() ==> !spec_dedup(items)[i].same_as(
                &spec_dedup(items)[j],
            ),
    decreases items.len(),
{
    if items.len() > 0 {
        lemma_dedup_distinct(items.drop_last());
        let d = spec_dedup(items);
        let prev = spec_dedup(items.drop_last());
        let last = items.last();
        assert forall|i: int, j: int|
            #![trigger spec_dedup(items)[i], spec_dedup(items)[j]]
            0 <= i < j < d.len() implies !d[i].same_as(&d[j]) by {
            if spec_holds(prev, last) {
                assert(d == prev);
                assert(!prev[i].same_as(&prev[j]));
            } else {
                assert(d == prev.push(last));
                if j < prev.len() {
                    assert(!prev[i].same_as(&prev[j]));
                } else {
                    assert(d[j] == last);
                    assert(d[i] == prev[i]);
                    assert(!prev[i].same_as(&last));
                }
            }
        }
    }
}

/// Reading what was written gives the value back: where the encoding of `x`
/// stands in a buffer, a value can be read there, and any value that is read
/// there with its own encoding in place is `x`, with nothing left of the
/// encoding.
pub proof fn lemma_read_after_write<T: Wire>(x: T, y: T, s: Seq<u8>, pos: int)
    requires
        x.wf(),
        y.wf(),
        0 <= pos,
        pos + x.ser().len() <= s.len(),
        s.subrange(pos, pos + x.ser().len()) == x.ser(),
        pos + T::read_len(s, pos) <= s.len(),
        y.ser() == s.subrange(pos, pos + T::read_len(s, pos)),
    ensures
        T::read_err(s, pos) is None,
        T::read_len(s, pos) == x.ser().len(),
        y == x,
{
    T::lemma_readable(x, s, pos);
    T::lemma_ser_injective(x, y);
}

/// The encoding of a list is that of its first item followed by that of the
/// rest.
pub proof fn lemma_ser_list_front<T: Wire>(items: Seq<T>)
    requires
        items.len() > 0,
    ensures
        ser_list(items) == items[0].ser() + ser_list(items.skip(1)),
    decreases items.len(),
{
    let d = items.drop_last();
    if d.len() == 0 {
        assert(ser_list(d) =~= Seq::<u8>::empty());
        assert(items.skip(1) =~= Seq::<T>::empty());
        assert(ser_list(items.skip(1)) =~= Seq::<u8>::empty());
        assert(items.last() == items[0]);
        assert(ser_list(items) =~= items[0].ser() + ser_list(items.skip(1)));
    } else {
        lemma_ser_list_front(d);
        assert(items.skip(1).drop_last() =~= d.skip(1));
        assert(items.skip(1).last() == items.last());
        assert(d[0] == items[0]);
        assert(ser_list(items) =~= items[0].ser() + ser_list(items.skip(1)));
    }
}

/// Where the encoding of a list of well-formed items stands in a buffer,
/// that many items can be read, and they take the length of the encoding.
#[verifier::rlimit(40)]
pub proof fn lemma_list_readable<T: Wire>(items: Seq<T>, s: Seq<u8>, pos: int)
    requires
        all_wf(items),
        0 <= pos,
        pos + ser_list(items).len() <= s.len(),
        s.subrange(pos, pos + ser_list(items).len()) == ser_list(items),
    ensures
        list_read_err::<T>(s, pos, items.len()) is None,
        list_read_len::<T>(s, pos, items.len()) == ser_list(items).len(),
    decreases items.len(),
{
    if items.len() > 0 {
        lemma_ser_list_front(items);
        let first = items[0].ser();
        let rest = items.skip(1);
        let whole = s.subrange(pos, pos + ser_list(items).len());
        assert(s.subrange(pos, pos + first.len()) =~= whole.subrange(0, first.len() as int));
        assert(whole.subrange(0, first.len() as int) =~= first);
        T::lemma_readable(items[0], s, pos);
        let next = pos + first.len();
        assert(s.subrange(next, next + ser_list(rest).len()) =~= whole.subrange(
            first.len() as int,
            whole.len() as int,
        ));
        assert(whole.subrange(first.len() as int, whole.len() as int) =~= ser_list(rest));
        assert(all_wf(rest)) by {
            assert forall|i: int| 0 <= i < rest.len() implies (#[trigger] rest[i]).wf() by {
                assert(rest[i] == items[i + 1]);
            }
        }
        lemma_list_readable::<T>(rest, s, next);
    } else {
        assert(ser_list(items) =~= Seq::<u8>::empty());
    }
}

/// Two lists of well-formed items, equally long, with the same encoding
/// are the same list.
#[verifier::rlimit(40)]
pub proof fn lemma_ser_list_injective<T: Wire>(a: Seq<T>, b: Seq<T>)
    requires
        all_wf(a),
        all_wf(b),
        a.len() == b.len(),
        ser_list(a) == ser_list(b),
    ensures
        a == b,
    decreases a.len(),
{
    if a.len() > 0 {
        lemma_ser_list_front(a);
        lemma_ser_list_front(b);
        let s = ser_list(a);
        let fa = a[0].ser();
        let fb = b[0].ser();
        assert(s.subrange(0, fa.len() as int) =~= fa);
        assert(s.subrange(0, fb.len() as int) =~= fb);
        T::lemma_readable(a[0], s, 0);
        T::lemma_readable(b[0], s, 0);
        T::lemma_ser_injective(a[0], b[0]);
        let ra = a.skip(1);
        let rb = b.skip(1);
        assert(ser_list(ra) =~= s.subrange(fa.len() as int, s.len() as int));
        assert(ser_list(rb) =~= s.subrange(fb.len() as int, s.len() as int));
        assert(all_wf(ra)) by {
            assert forall|i: int| 0 <= i < ra.len() implies (#[trigger] ra[i]).wf() by {
                assert(ra[i] == a[i + 1]);
            }
        }
        assert(all_wf(rb)) by {
            assert forall|i: int| 0 <= i < rb.len() implies (#[trigger] rb[i]).wf() by {
                assert(rb[i] == b[i + 1]);
            }
        }
        lemma_ser_list_injective::<T>(ra, rb);
        assert(a =~= b) by {
            assert forall|i: int| 0 <= i < a.len() implies a[i] == b[i] by {
                if i > 0 {
                    assert(a[i] == ra[i - 1]);
                    assert(b[i] == rb[i - 1]);
                }
            }
        }
    } else {
        assert(a =~= b);
    }
}

} // verus!
