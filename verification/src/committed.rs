//! Sums of commitments and of blinding factors.

use vstd::prelude::*;
use crate::asset::Asset;
use crate::secp::{
    blind_sum, commit_blind, commit_from_pubkey, commit_sum, commit_value, pubkey_mul,
    pubkey_parse, spec_blind_sum, spec_commit_blind, spec_commit_from_pubkey, spec_commit_sum,
    spec_commit_value, spec_pubkey_mul, spec_pubkey_parse, spec_valid_secret, valid_secret,
    BlindingFactor, Commitment, SecpError,
};
use crate::ser::{u128_be, write_bytes, write_u128, write_u8, lemma_be_round_trip};

verus! {

/// Why a sum of commitments could not be made or does not balance.
#[derive(Clone, Copy, Debug, PartialEq, Eq)]
pub enum CommittedError {
    /// Outputs less inputs do not equal the kernels plus the offset.
    KernelSumMismatch,
    /// An overage has no absolute value of 64 bits.
    InvalidValue,
    /// The curve library reported an error.
    Secp(SecpError),
}

/// Whether a commitment is the one that stands for "nothing committed":
/// the tag byte 8 and an all-zero coordinate.
///
/// The curve library makes no commitment to the value 0 with no blinding:
/// the point would be the point at infinity, which has no encoding. Where
/// the ledger has to say "nothing committed", these bytes stand instead.
/// They are a mark, not a commitment: they are left out of every sum and
/// never handed to the curve library.
pub open spec fn spec_is_zero_commit(c: Commitment) -> bool {
    c.0@[0] == 8 && forall|i: int| 1 <= i < 33 ==> c.0@[i] == 0
}

/// The bytes that stand for "nothing committed".
pub fn zero_commit() -> (c: Commitment)
    ensures
        spec_is_zero_commit(c),
{
    let mut bytes = [0u8; 33];
    bytes[0] = 8;
    Commitment(bytes)
}

/// Tells whether a commitment stands for "nothing committed".
pub fn is_zero_commit(c: &Commitment) -> (r: bool)
    ensures
        r == spec_is_zero_commit(*c),
{
    if c.0[0] != 8 {
        return false;
    }
    let mut i: usize = 1;
    while i < 33
        invariant
            1 <= i <= 33,
            forall|j: int| 1 <= j < i ==> c.0@[j] == 0,
        decreases 33 - i,
    {
        if c.0[i] != 0 {
            return false;
        }
        i += 1;
    }
    true
}

/// The commitments of a list that commit to something, in their order.
pub open spec fn spec_nonzero(cs: Seq<Commitment>) -> Seq<Commitment> {
    cs.filter(|c: Commitment| !spec_is_zero_commit(c))
}

/// A result of the curve library as a result of this module.
pub open spec fn spec_lift<T>(r: Result<T, SecpError>) -> Result<T, CommittedError> {
    match r {
        Ok(v) => Ok(v),
        Err(e) => Err(CommittedError::Secp(e)),
    }
}

/// The sum of the positive commitments less the negative ones, leaving out
/// those that commit to nothing.
pub open spec fn spec_sum_commits(positive: Seq<Commitment>, negative: Seq<Commitment>) -> Result<
    Commitment,
    CommittedError,
> {
    spec_lift(spec_commit_sum(spec_nonzero(positive), spec_nonzero(negative)))
}

/// The commitments of a list that commit to something, in their order.
pub fn nonzero(cs: &Vec<Commitment>) -> (r: Vec<Commitment>)
    ensures
        r@ == spec_nonzero(cs@),
{
    let ghost keep = |c: Commitment| !spec_is_zero_commit(c);
    let mut r: Vec<Commitment> = Vec::new();
    let n = cs.len();
    let mut i: usize = 0;
    proof {
        reveal(Seq::filter);
        assert(cs@.take(0).filter(keep) =~= Seq::<Commitment>::empty());
    }
    while i < n
        invariant
            n == cs@.len(),
            i <= n,
            keep == |c: Commitment| !spec_is_zero_commit(c),
            r@ == cs@.take(i as int).filter(keep),
        decreases n - i,
    {
        proof {
            assert(cs@.take(i + 1) =~= cs@.take(i as int).push(cs@[i as int]));
            cs@.take(i as int).lemma_filter_push(cs@[i as int], keep);
        }
        if !is_zero_commit(&cs[i]) {
            r.push(cs[i]);
        }
        i += 1;
    }
    assert(cs@.take(n as int) =~= cs@);
    r
}

/// Sums the positive commitments less the negative ones, leaving out those
/// that commit to nothing.
pub fn sum_commits(positive: &Vec<Commitment>, negative: &Vec<Commitment>) -> (r: Result<
    Commitment,
    CommittedError,
>)
    ensures
        r == spec_sum_commits(positive@, negative@),
{
    let pos = nonzero(positive);
    let neg = nonzero(negative);
    match commit_sum(&pos, &neg) {
        Ok(c) => Ok(c),
        Err(e) => Err(CommittedError::Secp(e)),
    }
}

/// The absolute value of an overage, where it has one of 64 bits.
pub open spec fn spec_abs(overage: i64) -> Option<u64> {
    if overage == i64::MIN {
        None
    } else if overage < 0 {
        Some((-overage) as u64)
    } else {
        Some(overage as u64)
    }
}

/// The commitment to the absolute value of an overage.
pub open spec fn spec_over_commit(overage: i64) -> Result<Commitment, CommittedError> {
    match spec_abs(overage) {
        None => Err(CommittedError::InvalidValue),
        Some(v) => spec_lift(spec_commit_value(v)),
    }
}

/// Commits to the absolute value of an overage.
pub fn over_commit(overage: i64) -> (r: Result<Commitment, CommittedError>)
    ensures
        r == spec_over_commit(overage),
{
    if overage == i64::MIN {
        return Err(CommittedError::InvalidValue);
    }
    let v: u64 = if overage < 0 {
        (-overage) as u64
    } else {
        overage as u64
    };
    match commit_value(v) {
        Ok(c) => Ok(c),
        Err(e) => Err(CommittedError::Secp(e)),
    }
}

/// The blinding factors of a list that are scalars the curve library takes.
pub open spec fn spec_secrets(bs: Seq<BlindingFactor>) -> Seq<BlindingFactor> {
    bs.filter(|b: BlindingFactor| spec_valid_secret(b.0@))
}

/// Whether none of the zero offsets of a list is a scalar that the curve
/// library takes.
pub open spec fn spec_zero_is_no_secret(bs: Seq<BlindingFactor>) -> bool {
    forall|i: int| 0 <= i < bs.len() && (#[trigger] bs[i]).is_zero() ==> !spec_valid_secret(bs[i].0@)
}

/// The blinding factors of a list that are scalars the curve library takes.
/// The zero offset is none of them.
pub fn secrets(bs: &Vec<BlindingFactor>) -> (r: Vec<BlindingFactor>)
    ensures
        r@ == spec_secrets(bs@),
        forall|i: int| 0 <= i < r@.len() ==> spec_valid_secret(#[trigger] r@[i].0@),
        spec_zero_is_no_secret(bs@),
{
    let ghost keep = |b: BlindingFactor| spec_valid_secret(b.0@);
    let mut r: Vec<BlindingFactor> = Vec::new();
    let n = bs.len();
    let mut i: usize = 0;
    proof {
        reveal(Seq::filter);
        assert(bs@.take(0).filter(keep) =~= Seq::<BlindingFactor>::empty());
    }
    while i < n
        invariant
            n == bs@.len(),
            i <= n,
            keep == |b: BlindingFactor| spec_valid_secret(b.0@),
            r@ == bs@.take(i as int).filter(keep),
            forall|j: int| 0 <= j < r@.len() ==> spec_valid_secret(#[trigger] r@[j].0@),
            forall|j: int|
                0 <= j < i && (#[trigger] bs@[j]).is_zero() ==> !spec_valid_secret(bs@[j].0@),
        decreases n - i,
    {
        proof {
            assert(bs@.take(i + 1) =~= bs@.take(i as int).push(bs@[i as int]));
            bs@.take(i as int).lemma_filter_push(bs@[i as int], keep);
        }
        if valid_secret(&bs[i].0) {
            r.push(bs[i]);
        }
        i += 1;
    }
    assert(bs@.take(n as int) =~= bs@);
    r
}

/// The sum of the positive kernel offsets less the negative ones: offsets
/// that are no scalars are left out, and with no positive offset left the
/// sum is the zero offset.
pub open spec fn spec_sum_kernel_offsets(
    positive: Seq<BlindingFactor>,
    negative: Seq<BlindingFactor>,
) -> Result<BlindingFactor, CommittedError> {
    if spec_secrets(positive).len() == 0 {
        Ok(BlindingFactor::spec_zero())
    } else {
        spec_lift(spec_blind_sum(spec_secrets(positive), spec_secrets(negative)))
    }
}

/// Sums the positive kernel offsets less the negative ones. The zero
/// offset is no scalar and so is left out.
pub fn sum_kernel_offsets(positive: &Vec<BlindingFactor>, negative: &Vec<BlindingFactor>) -> (r:
    Result<BlindingFactor, CommittedError>)
    ensures
        r == spec_sum_kernel_offsets(positive@, negative@),
        spec_zero_is_no_secret(positive@),
        spec_zero_is_no_secret(negative@),
{
    let pos = secrets(positive);
    let neg = secrets(negative);
    if pos.len() == 0 {
        Ok(BlindingFactor::zero())
    } else {
        match blind_sum(&pos, &neg) {
            Ok(b) => Ok(b),
            Err(e) => Err(CommittedError::Secp(e)),
        }
    }
}

/// The kernel sum with the commitment of the offset added: the offset that
/// blinds nothing adds nothing.
pub open spec fn spec_add_offset(kernel_sum: Commitment, offset: BlindingFactor) -> Result<
    Commitment,
    CommittedError,
> {
    if offset.is_zero() {
        spec_lift(spec_commit_sum(seq![kernel_sum], Seq::empty()))
    } else {
        match spec_commit_blind(offset) {
            Err(e) => Err(CommittedError::Secp(e)),
            Ok(c) => spec_lift(spec_commit_sum(seq![kernel_sum, c], Seq::empty())),
        }
    }
}

/// Adds the commitment of the offset to the kernel sum.
pub fn add_offset(kernel_sum: &Commitment, offset: &BlindingFactor) -> (r: Result<
    Commitment,
    CommittedError,
>)
    ensures
        r == spec_add_offset(*kernel_sum, *offset),
{
    let mut commits: Vec<Commitment> = Vec::new();
    commits.push(*kernel_sum);
    if !offset.check_zero() {
        match commit_blind(offset) {
            Ok(c) => {
                commits.push(c);
            },
            Err(e) => {
                return Err(CommittedError::Secp(e));
            },
        }
    }
    let none: Vec<Commitment> = Vec::new();
    proof {
        if offset.is_zero() {
            assert(commits@ =~= seq![*kernel_sum]);
        } else {
            assert(commits@ =~= seq![*kernel_sum, spec_commit_blind(*offset)->Ok_0]);
        }
        assert(none@ =~= Seq::<Commitment>::empty());
    }
    match commit_sum(&commits, &none) {
        Ok(c) => Ok(c),
        Err(e) => Err(CommittedError::Secp(e)),
    }
}

/// The scalar that stands for an amount: 32 bytes, big-endian.
pub open spec fn spec_scalar(amount: u128) -> Seq<u8> {
    Seq::new(16, |i: int| 0u8) + u128_be(amount)
}

/// The uncompressed encoding of an asset's generator point: the byte 4 and
/// the two coordinates.
pub open spec fn spec_generator_encoding(asset: Asset) -> Seq<u8> {
    seq![4u8] + asset@
}

/// The commitment to `amount` of `asset` with no blinding: the asset's
/// generator point, multiplied by the amount, taken as a commitment. Bytes
/// that encode no curve point, and the amount 0, give the curve library's
/// error.
pub open spec fn spec_asset_commit(amount: u128, asset: Asset) -> Result<Commitment, SecpError> {
    match spec_pubkey_parse(spec_generator_encoding(asset)) {
        Err(e) => Err(e),
        Ok(generator) => match spec_pubkey_mul(generator, spec_scalar(amount)) {
            Err(e) => Err(e),
            Ok(point) => spec_commit_from_pubkey(point),
        },
    }
}

/// Commits to `amount` of `asset` with no blinding.
pub fn commit_value_with_generator(amount: u128, asset: &Asset) -> (r: Result<
    Commitment,
    SecpError,
>)
    ensures
        r == spec_asset_commit(amount, *asset),
{
    let mut encoding: Vec<u8> = Vec::new();
    write_u8(&mut encoding, 4);
    write_bytes(&mut encoding, asset.0.as_slice());
    assert(encoding@ =~= spec_generator_encoding(*asset));
    let generator = match pubkey_parse(encoding.as_slice()) {
        Ok(g) => g,
        Err(e) => { return Err(e); },
    };
    let mut be: Vec<u8> = Vec::new();
    write_u128(&mut be, amount);
    proof {
        lemma_be_round_trip();
    }
    let mut scalar = [0u8; 32];
    let mut i: usize = 0;
    while i < 16
        invariant
            i <= 16,
            be@.len() == 16,
            forall|j: int| 0 <= j < 16 ==> scalar@[j] == 0,
            forall|j: int| 16 <= j < 16 + i ==> scalar@[j] == be@[j - 16],
        decreases 16 - i,
    {
        scalar[16 + i] = be[i];
        i += 1;
    }
    assert(scalar@ =~= spec_scalar(amount));
    let point = match pubkey_mul(&generator, &scalar) {
        Ok(p) => p,
        Err(e) => { return Err(e); },
    };
    commit_from_pubkey(&point)
}

/// Zero offsets alone have the zero offset as their sum: none of them is a
/// scalar, so that none is left to be summed.
pub proof fn lemma_sum_of_zero_offsets(positive: Seq<BlindingFactor>, negative: Seq<BlindingFactor>)
    requires
        forall|i: int| 0 <= i < positive.len() ==> (#[trigger] positive[i]).is_zero(),
        spec_zero_is_no_secret(positive),
    ensures
        spec_sum_kernel_offsets(positive, negative) == Ok::<BlindingFactor, CommittedError>(
            BlindingFactor::spec_zero(),
        ),
{
    let keep = |b: BlindingFactor| spec_valid_secret(b.0@);
    let kept = positive.filter(keep);
    if kept.len() > 0 {
        positive.lemma_filter_pred(keep, 0);
        assert(kept.contains(kept[0]));
        positive.lemma_filter_contains_rev(keep, kept[0]);
        let k = choose|k: int| 0 <= k < positive.len() && positive[k] == kept[0];
        assert(positive[k].is_zero());
        assert(false);
    }
}

} // verus!
