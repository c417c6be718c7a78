//! Bytes from hexadecimal text.

use vstd::prelude::*;
use crate::ser::SerError;
use vstd::string::StringSliceAdditionalSpecFns;

verus! {

/// The value of a hexadecimal digit, given as a character's byte.
pub open spec fn spec_hex_digit(b: u8) -> Option<u8> {
    if 0x30 <= b <= 0x39 {
        Some((b - 0x30) as u8)
    } else if 0x61 <= b <= 0x66 {
        Some((b - 0x61 + 10) as u8)
    } else if 0x41 <= b <= 0x46 {
        Some((b - 0x41 + 10) as u8)
    } else {
        None
    }
}

/// The text without a leading `0x`.
pub open spec fn spec_strip_prefix(s: Seq<u8>) -> Seq<u8> {
    if s.len() >= 2 && s[0] == 0x30 && s[1] == 0x78 {
        s.skip(2)
    } else {
        s
    }
}

/// Whether every character of a text is a hexadecimal digit.
pub open spec fn spec_all_hex(s: Seq<u8>) -> bool {
    forall|i: int| 0 <= i < s.len() ==> spec_hex_digit(#[trigger] s[i]) is Some
}

/// The byte that the two digits at `2 * i` and `2 * i + 1` stand for.
pub open spec fn spec_hex_byte(s: Seq<u8>, i: int) -> u8 {
    (spec_hex_digit(s[2 * i])->Some_0 * 16 + spec_hex_digit(s[2 * i + 1])->Some_0) as u8
}

/// The bytes that a text stands for: after an optional `0x`, two digits for
/// each byte. `None` for an odd number of characters or a character that is
/// no digit.
pub open spec fn spec_from_hex(s: Seq<u8>) -> Option<Seq<u8>> {
    let digits = spec_strip_prefix(s);
    if digits.len() % 2 != 0 || !spec_all_hex(digits) {
        None
    } else {
        Some(Seq::new((digits.len() / 2) as nat, |i: int| spec_hex_byte(digits, i)))
    }
}

/// The value of a hexadecimal digit.
pub fn hex_digit(b: u8) -> (r: Option<u8>)
    ensures
        r == spec_hex_digit(b),
        r is Some ==> r->Some_0 < 16,
{
    if 0x30 <= b && b <= 0x39 {
        Some(b - 0x30)
    } else if 0x61 <= b && b <= 0x66 {
        Some(b - 0x61 + 10)
    } else if 0x41 <= b && b <= 0x46 {
        Some(b - 0x41 + 10)
    } else {
        None
    }
}

/// The bytes that a hexadecimal text stands for.
pub fn from_hex(text: &str) -> (r: Result<Vec<u8>, SerError>)
    ensures
        match r {
            Ok(bytes) => spec_from_hex(text.spec_bytes()) == Some(bytes@),
            Err(e) => e == SerError::HexError && spec_from_hex(text.spec_bytes()) is None,
        },
{
    let s = text.as_bytes();
    let start: usize = if s.len() >= 2 && s[0] == 0x30 && s[1] == 0x78 {
        2
    } else {
        0
    };
    let ghost digits = spec_strip_prefix(s@);
    assert(digits =~= s@.skip(start as int));
    let n: usize = s.len() - start;
    if n % 2 != 0 {
        return Err(SerError::HexError);
    }
    let mut out: Vec<u8> = Vec::new();
    let mut i: usize = 0;
    while i < n / 2
        invariant
            start + n == s@.len(),
            s@ == text.spec_bytes(),
            digits == spec_strip_prefix(s@),
            digits.len() == n,
            n % 2 == 0,
            i <= n / 2,
            digits == s@.skip(start as int),
            out@.len() == i,
            forall|j: int| 0 <= j < 2 * i ==> spec_hex_digit(#[trigger] digits[j]) is Some,
            forall|j: int| 0 <= j < i ==> out@[j] == spec_hex_byte(digits, j),
        decreases n / 2 - i,
    {
        let at: usize = start + 2 * i;
        assert(digits[2 * i] == s@[at as int]);
        assert(digits[2 * i + 1] == s@[at + 1]);
        let hi = match hex_digit(s[at]) {
            Some(d) => d,
            None => {
                assert(spec_hex_digit(digits[2 * i]) is None);
                assert(!spec_all_hex(digits));
                return Err(SerError::HexError);
            },
        };
        let lo = match hex_digit(s[at + 1]) {
            Some(d) => d,
            None => {
                assert(spec_hex_digit(digits[2 * i + 1]) is None);
                assert(!spec_all_hex(digits));
                return Err(SerError::HexError);
            },
        };
        out.push(hi * 16 + lo);
        i += 1;
    }
    assert(out@ =~= spec_from_hex(s@)->Some_0);
    Ok(out)
}

} // verus!
