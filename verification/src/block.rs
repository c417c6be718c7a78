//! Blocks and block headers.

use vstd::prelude::*;
use crate::committed::{
    lemma_sum_of_zero_offsets, spec_zero_is_no_secret, is_zero_commit, spec_is_zero_commit, spec_sum_kernel_offsets, sum_kernel_offsets,
    zero_commit, CommittedError,
};
use crate::consensus::{
    MAX_BLOCK_WEIGHT, header_version, reward, spec_header_version, spec_reward, spec_subsidy,
    spec_valid_header_version, subsidy, valid_header_version, BASE_REWARD, BLOCK_TIME_SEC,
    MAX_FUTURE_BLOCKS, MIN_EDGE_BITS,
};
use crate::compact_block::{
    coinbase_kernels, coinbase_outputs, spec_coinbase_kernels, spec_coinbase_outputs,
    CompactBlock,
};
use crate::hash::{blake2b, spec_blake2b};
use crate::hex::{from_hex, spec_from_hex};
use crate::issued_asset::AssetAction;
use crate::pow::{Difficulty, Proof, ProofOfWork};
use crate::secp::{
    commit_sum, commit_value, spec_commit_sum, spec_commit_value, BlindingFactor, Commitment,
    SecpError,
};
use crate::ser::{
    dedup, spec_dedup, be_i64, be_u32, be_u64, i64_be, lemma_be_round_trip, lemma_be_round_trip_bytes,
    read_array, read_i64, read_u16, read_u32, read_u64, read_u8, u16_be, u32_be, u64_be,
    write_bytes, write_i64, write_u16, write_u32, write_u64, write_u8, SerError, Wire,
};
use crate::time::{in_calendar, now_timestamp, spec_in_calendar};
use crate::verifier_cache::VerifierCache;
use crate::transaction::{
    aggregate, append_copy, cut_through, lemma_body_readable, lemma_body_ser_injective,
    lemma_cut_nothing, lemma_cut_through_removes_pairs, lemma_cut_through_twice,
    lemma_dedup_inputs_unique, lemma_dedup_outputs_unique, spec_agg_err, spec_cuttable,
    spec_asset_commit_of, spec_creates, spec_kernel_sums, spec_mint_terms, spec_overlap,
    spec_agg_inputs, spec_agg_offset, spec_agg_outputs, spec_all_assets, spec_all_inputs,
    spec_all_kernels, spec_all_outputs, spec_body_end, spec_body_read_err, spec_cut_inputs,
    spec_cut_outputs, spec_fee, spec_kernel_commits, spec_mint_overage,
    spec_output_commits, Input, KernelFeatures, Output, OutputFeatures,
    Transaction, TransactionBody, TxError, TxKernel, Weighting,
};

verus! {

/// Length of an encoded header before its proof of work.
pub const PRE_POW_LEN: usize = 299;

/// Length of an encoded header entry.
pub const HEADER_ENTRY_LEN: usize = 53;

/// The version of a header.
#[derive(Clone, Copy, Debug, PartialEq, Eq, PartialOrd, Structural)]
pub struct HeaderVersion(pub u16);

/// Why a block is refused.
#[derive(Clone, Debug, PartialEq, Eq)]
pub enum Error {
    /// Outputs less inputs do not equal the kernels plus the offset.
    KernelSumMismatch,
    /// The total kernel sum of the header is wrong.
    InvalidTotalKernelSum,
    /// The coinbase outputs do not equal the coinbase kernels plus the reward.
    CoinbaseSumMismatch,
    /// The block weighs too much.
    TooHeavy,
    /// The weight of the block's items is over the limit.
    WeightExceeded,
    /// The version is not the one in force at the block's height.
    InvalidBlockVersion(HeaderVersion),
    /// The block's time is not valid.
    InvalidBlockTime,
    /// The proof of work is not valid.
    InvalidPow,
    /// A kernel is locked until a height above the block's.
    KernelLockHeight(u64),
    /// The body is refused as a transaction body.
    Transaction(TxError),
    /// The curve library reported an error.
    Secp(SecpError),
    /// Deriving a key failed, in the words of whoever derived it.
    Keychain(String),
    /// A Merkle proof is not valid.
    MerkleProof,
    /// The balance of the commitments could not be checked.
    Committed(CommittedError),
    /// An input spends an output of the same block.
    CutThrough,
    /// A value could not be read or written.
    Serialization(SerError),
    /// Anything else, in words.
    Other(String),
}

impl Wire for HeaderVersion {
    open spec fn wf(&self) -> bool {
        true
    }

    open spec fn ser(&self) -> Seq<u8> {
        u16_be(self.0)
    }

    open spec fn read_err(s: Seq<u8>, pos: int) -> Option<SerError> {
        if pos + 2 > s.len() {
            Some(SerError::UnexpectedEof)
        } else {
            None
        }
    }

    open spec fn read_len(s: Seq<u8>, pos: int) -> int {
        2
    }

    fn write(&self, out: &mut Vec<u8>) {
        write_u16(out, self.0);
    }

    fn read(buf: &[u8], pos: usize) -> (r: Result<(Self, usize), SerError>) {
        proof {
            lemma_be_round_trip_bytes();
        }
        match read_u16(buf, pos) {
            Ok((v, p)) => Ok((HeaderVersion(v), p)),
            Err(e) => Err(e),
        }
    }

    proof fn lemma_ser_injective(a: Self, b: Self) {
        lemma_be_round_trip();
    }

    proof fn lemma_readable(x: Self, s: Seq<u8>, pos: int) {
        lemma_be_round_trip();
    }
}

impl HeaderVersion {
    /// The number of the version.
    pub fn to_u16(self) -> (v: u16)
        ensures
            v == self.0,
    {
        self.0
    }
}

/// What the header tree keeps of a header.
#[derive(Clone, Copy, Debug, PartialEq, Eq)]
pub struct HeaderEntry {
    pub hash: crate::hash::Hash,
    pub timestamp: u64,
    pub total_difficulty: Difficulty,
    pub secondary_scaling: u32,
    pub is_secondary: bool,
}

impl HeaderEntry {
    /// The encoding of the entry: hash, time, difficulty, scaling, and one
    /// byte that is 1 for a secondary proof of work and 0 otherwise.
    pub open spec fn ser(&self) -> Seq<u8> {
        self.hash.0@ + u64_be(self.timestamp) + u64_be(self.total_difficulty.num) + u32_be(
            self.secondary_scaling,
        ) + seq![
            if self.is_secondary {
                1u8
            } else {
                0u8
            },
        ]
    }

    /// Whether `self` is the entry that the 53 bytes at `pos` stand for. Any
    /// last byte but 0 stands for a secondary proof of work.
    pub open spec fn spec_read_from(&self, s: Seq<u8>, pos: int) -> bool {
        &&& self.hash.0@ == s.subrange(pos, pos + 32)
        &&& self.timestamp == be_u64(s.subrange(pos + 32, pos + 40))
        &&& self.total_difficulty.num == be_u64(s.subrange(pos + 40, pos + 48))
        &&& self.secondary_scaling == be_u32(s.subrange(pos + 48, pos + 52))
        &&& self.is_secondary == (s[pos + 52] != 0)
    }

    /// The hash of the header that the entry stands for.
    pub fn hash(&self) -> (h: crate::hash::Hash)
        ensures
            h == self.hash,
    {
        self.hash
    }

    /// Appends the encoding of the entry.
    pub fn write(&self, out: &mut Vec<u8>)
        ensures
            final(out)@ == old(out)@ + self.ser(),
            self.ser().len() == HEADER_ENTRY_LEN,
    {
        proof {
            lemma_be_round_trip();
        }
        write_bytes(out, self.hash.0.as_slice());
        write_u64(out, self.timestamp);
        write_u64(out, self.total_difficulty.num);
        write_u32(out, self.secondary_scaling);
        if self.is_secondary {
            write_u8(out, 1);
        } else {
            write_u8(out, 0);
        }
        assert(out@ =~= old(out)@ + self.ser());
    }

    /// Reads an entry at `pos`; gives it with the position that follows it.
    pub fn read(buf: &[u8], pos: usize) -> (r: Result<(HeaderEntry, usize), SerError>)
        ensures
            match r {
                Ok((x, p)) => {
                    &&& pos + HEADER_ENTRY_LEN <= buf@.len()
                    &&& p == pos + HEADER_ENTRY_LEN
                    &&& x.spec_read_from(buf@, pos as int)
                },
                Err(e) => e == SerError::UnexpectedEof && pos + HEADER_ENTRY_LEN > buf@.len(),
            },
    {
        let (hash, p1) = match read_array::<32>(buf, pos) {
            Ok(v) => v,
            Err(e) => { return Err(e); },
        };
        let (timestamp, p2) = match read_u64(buf, p1) {
            Ok(v) => v,
            Err(e) => { return Err(e); },
        };
        let (difficulty, p3) = match read_u64(buf, p2) {
            Ok(v) => v,
            Err(e) => { return Err(e); },
        };
        let (scaling, p4) = match read_u32(buf, p3) {
            Ok(v) => v,
            Err(e) => { return Err(e); },
        };
        let (flag, p5) = match read_u8(buf, p4) {
            Ok(v) => v,
            Err(e) => { return Err(e); },
        };
        Ok(
            (
                HeaderEntry {
                    hash: crate::hash::Hash(hash),
                    timestamp,
                    total_difficulty: Difficulty { num: difficulty },
                    secondary_scaling: scaling,
                    is_secondary: flag != 0,
                },
                p5,
            ),
        )
    }
}

/// Reading what was written gives the entry back.
#[verifier::rlimit(40)]
pub proof fn lemma_header_entry_round_trip(x: HeaderEntry, y: HeaderEntry, s: Seq<u8>, pos: int)
    requires
        0 <= pos,
        pos + HEADER_ENTRY_LEN <= s.len(),
        s.subrange(pos, pos + HEADER_ENTRY_LEN) == x.ser(),
        y.spec_read_from(s, pos),
    ensures
        y == x,
{
    lemma_be_round_trip();
    let sub = s.subrange(pos, pos + HEADER_ENTRY_LEN);
    assert(s.subrange(pos, pos + 32) =~= sub.subrange(0, 32));
    assert(sub.subrange(0, 32) =~= x.hash.0@);
    assert(x.hash.0 =~= y.hash.0);
    assert(s.subrange(pos + 32, pos + 40) =~= sub.subrange(32, 40));
    assert(sub.subrange(32, 40) =~= u64_be(x.timestamp));
    assert(s.subrange(pos + 40, pos + 48) =~= sub.subrange(40, 48));
    assert(sub.subrange(40, 48) =~= u64_be(x.total_difficulty.num));
    assert(s.subrange(pos + 48, pos + 52) =~= sub.subrange(48, 52));
    assert(sub.subrange(48, 52) =~= u32_be(x.secondary_scaling));
    assert(s[pos + 52] == sub[52]);
}

/// A block header.
#[derive(Clone, Copy, Debug, PartialEq, Eq)]
pub struct BlockHeader {
    /// Version of the block.
    pub version: HeaderVersion,
    /// Height of the block; the first block has height 0.
    pub height: u64,
    /// Hash of the block before this one.
    pub prev_hash: crate::hash::Hash,
    /// Root of the header tree at the header before this one.
    pub prev_root: crate::hash::Hash,
    /// Time at which the block was built, in seconds since 1970.
    pub timestamp: i64,
    /// Root of the tree of all outputs.
    pub output_root: crate::hash::Hash,
    /// Root of the tree of all range proofs.
    pub range_proof_root: crate::hash::Hash,
    /// Root of the tree of all kernels.
    pub kernel_root: crate::hash::Hash,
    /// Root of the tree of all issued assets.
    pub issue_root: crate::hash::Hash,
    /// Sum of the kernel offsets of all blocks up to and with this one.
    pub total_kernel_offset: BlindingFactor,
    /// Size of the output tree after this block.
    pub output_mmr_size: u64,
    /// Size of the kernel tree after this block.
    pub kernel_mmr_size: u64,
    /// Size of the tree of issued assets after this block.
    pub issue_mmr_size: u64,
    /// Sum of the issuance overages of all blocks up to and with this one.
    pub total_issue_overage: Commitment,
    /// The proof of work.
    pub pow: ProofOfWork,
}

/// The sum of the block subsidies from height `from` to height `to`.
pub open spec fn spec_subsidies(from: u64, to: u64) -> nat
    decreases to,
{
    if to < from {
        0
    } else if to == 0 {
        spec_subsidy(0) as nat
    } else {
        spec_subsidies(from, (to - 1) as u64) + spec_subsidy(to) as nat
    }
}

impl BlockHeader {
    /// The encoding of the header before its proof of work.
    #[verifier::opaque]
    pub open spec fn spec_pre_pow_fields(&self) -> Seq<u8> {
        u16_be(self.version.0) + u64_be(self.height) + i64_be(self.timestamp) + self.prev_hash.0@
            + self.prev_root.0@ + self.output_root.0@ + self.range_proof_root.0@
            + self.kernel_root.0@ + self.issue_root.0@ + self.total_kernel_offset.0@ + u64_be(
            self.output_mmr_size,
        ) + u64_be(self.kernel_mmr_size) + u64_be(self.issue_mmr_size)
            + self.total_issue_overage.0@
    }

    /// What a miner works on: the header without the cycle that is to be found.
    pub open spec fn spec_pre_pow(&self) -> Seq<u8> {
        self.spec_pre_pow_fields() + self.pow.spec_pre_pow() + u64_be(self.pow.nonce)
    }

    /// The hash of the header: that of the packed nonces of its proof of work.
    pub open spec fn spec_hash(&self) -> crate::hash::Hash {
        spec_blake2b(self.pow.proof.bytes())
    }

    /// The overage of the block: its subsidy, negative.
    pub open spec fn spec_overage(&self) -> i64 {
        (-(spec_subsidy(self.height) as int)) as i64
    }

    /// The overage of the chain up to and with this block: all subsidies
    /// from height 1 on, with that of height 0 where the first block had
    /// one, negative. A sum that 63 bits cannot hold counts as the greatest
    /// that they can.
    pub open spec fn spec_total_overage(&self, genesis_had_reward: bool) -> i64 {
        let first: nat = if genesis_had_reward {
            spec_subsidy(0) as nat
        } else {
            0
        };
        let total = first + spec_subsidies(1, self.height);
        if total > i64::MAX {
            (-(i64::MAX as int)) as i64
        } else {
            (-(total as int)) as i64
        }
    }

    /// The sum of the header's issuance overage and one more: where the
    /// header has none yet, the new one alone.
    pub open spec fn spec_add_issue_overage(&self, issue_overage: Commitment) -> Result<
        Commitment,
        Error,
    > {
        if spec_is_zero_commit(self.total_issue_overage) {
            Ok(issue_overage)
        } else {
            match spec_commit_sum(seq![self.total_issue_overage, issue_overage], Seq::empty()) {
                Ok(c) => Ok(c),
                Err(e) => Err(Error::Secp(e)),
            }
        }
    }

    /// Adds a commitment to the header's issuance overage.
    pub fn add_issue_overage(&self, issue_overage: Commitment) -> (r: Result<
        Commitment,
        Error,
    >)
        ensures
            r == self.spec_add_issue_overage(issue_overage),
    {
        if is_zero_commit(&self.total_issue_overage) {
            Ok(issue_overage)
        } else {
            let mut positive: Vec<Commitment> = Vec::new();
            positive.push(self.total_issue_overage);
            positive.push(issue_overage);
            let negative: Vec<Commitment> = Vec::new();
            assert(positive@ =~= seq![self.total_issue_overage, issue_overage]);
            assert(negative@ =~= Seq::<Commitment>::empty());
            match commit_sum(&positive, &negative) {
                Ok(c) => Ok(c),
                Err(e) => Err(Error::Secp(e)),
            }
        }
    }

    /// Appends the encoding of the header before its proof of work.
    #[verifier::rlimit(40)]
    pub fn write_pre_pow(&self, out: &mut Vec<u8>)
        ensures
            final(out)@ == old(out)@ + self.spec_pre_pow_fields(),
            self.spec_pre_pow_fields().len() == PRE_POW_LEN,
    {
        proof {
            lemma_be_round_trip();
            reveal(BlockHeader::spec_pre_pow_fields);
        }
        write_u16(out, self.version.0);
        write_u64(out, self.height);
        write_i64(out, self.timestamp);
        write_bytes(out, self.prev_hash.0.as_slice());
        write_bytes(out, self.prev_root.0.as_slice());
        write_bytes(out, self.output_root.0.as_slice());
        write_bytes(out, self.range_proof_root.0.as_slice());
        write_bytes(out, self.kernel_root.0.as_slice());
        write_bytes(out, self.issue_root.0.as_slice());
        write_bytes(out, self.total_kernel_offset.0.as_slice());
        write_u64(out, self.output_mmr_size);
        write_u64(out, self.kernel_mmr_size);
        write_u64(out, self.issue_mmr_size);
        write_bytes(out, self.total_issue_overage.0.as_slice());
        assert(out@ =~= old(out)@ + self.spec_pre_pow_fields());
    }

    /// What a miner works on, unhashed.
    pub fn pre_pow(&self) -> (bytes: Vec<u8>)
        ensures
            bytes@ == self.spec_pre_pow(),
    {
        let mut out: Vec<u8> = Vec::new();
        self.write_pre_pow(&mut out);
        self.pow.write_pre_pow(&mut out);
        write_u64(&mut out, self.pow.nonce);
        assert(out@ =~= self.spec_pre_pow());
        out
    }

    /// The hash of the header.
    pub fn hash(&self) -> (h: crate::hash::Hash)
        ensures
            h == self.spec_hash(),
    {
        let n = crate::pow::packed_len(self.pow.proof.edge_bits);
        let bytes = vstd::slice::slice_subrange(self.pow.proof.packed.as_slice(), 0, n);
        blake2b(bytes)
    }

    /// The work of the chain up to and with this block.
    pub fn total_difficulty(&self) -> (d: Difficulty)
        ensures
            d == self.pow.total_difficulty,
    {
        self.pow.total_difficulty
    }

    /// The overage to use when the kernel sums of the block are checked.
    pub fn overage(&self) -> (r: i64)
        ensures
            r == self.spec_overage(),
            r <= 0,
    {
        let s: u64 = subsidy(self.height);
        -(s as i64)
    }

    /// The overage to use when the kernel sums of the whole chain are checked.
    pub fn total_overage(&self, genesis_had_reward: bool) -> (r: i64)
        ensures
            r == self.spec_total_overage(genesis_had_reward),
    {
        let mut total: u128 = 0;
        if genesis_had_reward {
            total = subsidy(0) as u128;
        }
        let ghost first = total;
        let mut height: u64 = 0;
        while height < self.height
            invariant
                height <= self.height,
                total == first + spec_subsidies(1, height),
                total <= BASE_REWARD * (height + 1),
                first <= BASE_REWARD,
            decreases self.height - height,
        {
            height += 1;
            let s: u64 = subsidy(height);
            assert(BASE_REWARD * (height + 1) <= 0xffff_ffff_ffff_ffff_ffff_ffff_ffff) by (nonlinear_arith)
                requires
                    BASE_REWARD == 60_000_000_000,
                    height <= 0xffff_ffff_ffff_ffff,
            ;
            assert(BASE_REWARD * (height + 1) == BASE_REWARD * height + BASE_REWARD)
                by (nonlinear_arith);
            total = total + s as u128;
        }
        if total > i64::MAX as u128 {
            -i64::MAX
        } else {
            -(total as i64)
        }
    }

    /// The sum of the kernel offsets of all blocks up to and with this one.
    pub fn total_kernel_offset(&self) -> (b: BlindingFactor)
        ensures
            b == self.total_kernel_offset,
    {
        self.total_kernel_offset
    }

    /// What the header tree keeps of the header.
    pub fn as_elmt(&self) -> (e: HeaderEntry)
        ensures
            e.hash == self.spec_hash(),
            e.timestamp == self.timestamp as u64,
            e.total_difficulty == self.pow.total_difficulty,
            e.secondary_scaling == self.pow.secondary_scaling,
            e.is_secondary == self.pow.spec_is_secondary(),
    {
        HeaderEntry {
            hash: self.hash(),
            timestamp: self.timestamp as u64,
            total_difficulty: self.total_difficulty(),
            secondary_scaling: self.pow.secondary_scaling,
            is_secondary: self.pow.is_secondary(),
        }
    }
}

/// The issuance overage of a chain on which nothing was issued yet.
///
/// The baseline would be the commitment to the value 0 under the native
/// generator. This curve library makes no such commitment: asked for it, it
/// answers with an error, and the function asks. What stands in for it is
/// the byte pattern of `zero_commit`, the tag byte 8 before a coordinate of
/// zeros. The stand-in is no commitment and is never summed: `sum_commits`
/// leaves it out, and `add_issue_overage` puts the first overage in its
/// place.
pub fn zero_overage_commitment() -> (c: Commitment)
    ensures
        spec_commit_value(0) is Err,
        spec_is_zero_commit(c),
{
    match commit_value(0) {
        Ok(made) => made,
        Err(_) => zero_commit(),
    }
}

/// Whether a header is the default header: of height 0 and version 1 at
/// time 0, with no hashes, no offset, no tree sizes, the stand-in for
/// "nothing issued yet" as its issuance overage, and the default proof of
/// work.
pub open spec fn spec_is_default_header(h: BlockHeader) -> bool {
    &&& h.version == HeaderVersion(1)
    &&& h.height == 0
    &&& h.timestamp == 0
    &&& h.prev_hash.is_zero()
    &&& h.prev_root.is_zero()
    &&& h.output_root.is_zero()
    &&& h.range_proof_root.is_zero()
    &&& h.kernel_root.is_zero()
    &&& h.issue_root.is_zero()
    &&& h.total_kernel_offset == BlindingFactor::spec_zero()
    &&& spec_is_zero_commit(h.total_issue_overage)
    &&& h.output_mmr_size == 0
    &&& h.kernel_mmr_size == 0
    &&& h.issue_mmr_size == 0
    &&& h.pow.total_difficulty.num == 1
    &&& h.pow.secondary_scaling == 1
    &&& h.pow.nonce == 0
    &&& h.pow.proof.edge_bits == MIN_EDGE_BITS
    &&& forall|i: int| 0 <= i < crate::pow::MAX_PACKED_LEN ==> h.pow.proof.packed@[i] == 0
}

impl Default for BlockHeader {
    /// The header of height 0 and version 1 at time 0, with no hashes, no
    /// offset, no issuance and the default proof of work. Its issuance
    /// overage is the stand-in for the commitment to the value 0, which the
    /// curve library does not make.
    fn default() -> (h: BlockHeader)
        ensures
            spec_is_default_header(h),
            spec_commit_value(0) is Err,
            h.wf(),
    {
        BlockHeader {
            version: HeaderVersion(1),
            height: 0,
            timestamp: 0,
            prev_hash: crate::hash::Hash::zero(),
            prev_root: crate::hash::Hash::zero(),
            output_root: crate::hash::Hash::zero(),
            range_proof_root: crate::hash::Hash::zero(),
            kernel_root: crate::hash::Hash::zero(),
            issue_root: crate::hash::Hash::zero(),
            total_kernel_offset: BlindingFactor::zero(),
            total_issue_overage: zero_overage_commitment(),
            output_mmr_size: 0,
            kernel_mmr_size: 0,
            issue_mmr_size: 0,
            pow: ProofOfWork::default(),
        }
    }
}

/// The time that the bytes of a header announce.
pub open spec fn spec_header_timestamp(s: Seq<u8>, pos: int) -> i64 {
    be_i64(s.subrange(pos + 10, pos + 18))
}

impl Wire for BlockHeader {
    open spec fn wf(&self) -> bool {
        self.pow.wf() && spec_in_calendar(self.timestamp)
    }

    open spec fn ser(&self) -> Seq<u8> {
        self.spec_pre_pow_fields() + self.pow.ser()
    }

    open spec fn read_err(s: Seq<u8>, pos: int) -> Option<SerError> {
        if pos + PRE_POW_LEN > s.len() {
            Some(SerError::UnexpectedEof)
        } else if ProofOfWork::read_err(s, pos + PRE_POW_LEN) is Some {
            ProofOfWork::read_err(s, pos + PRE_POW_LEN)
        } else if !spec_in_calendar(spec_header_timestamp(s, pos)) {
            Some(SerError::CorruptedData)
        } else {
            None
        }
    }

    open spec fn read_len(s: Seq<u8>, pos: int) -> int {
        PRE_POW_LEN + ProofOfWork::read_len(s, pos + PRE_POW_LEN)
    }

    #[verifier::rlimit(40)]
    fn write(&self, out: &mut Vec<u8>) {
        self.write_pre_pow(out);
        self.pow.write(out);
        assert(out@ =~= old(out)@ + self.ser());
    }

    #[verifier::rlimit(40)]
    fn read(buf: &[u8], pos: usize) -> (r: Result<(Self, usize), SerError>) {
        if buf.len() < PRE_POW_LEN || pos > buf.len() - PRE_POW_LEN {
            return Err(SerError::UnexpectedEof);
        }
        let (version, p1) = match read_u16(buf, pos) {
            Ok(v) => v,
            Err(e) => { return Err(e); },
        };
        let (height, p2) = match read_u64(buf, p1) {
            Ok(v) => v,
            Err(e) => { return Err(e); },
        };
        let (timestamp, p3) = match read_i64(buf, p2) {
            Ok(v) => v,
            Err(e) => { return Err(e); },
        };
        let (prev_hash, p4) = match read_array::<32>(buf, p3) {
            Ok(v) => v,
            Err(e) => { return Err(e); },
        };
        let (prev_root, p5) = match read_array::<32>(buf, p4) {
            Ok(v) => v,
            Err(e) => { return Err(e); },
        };
        let (output_root, p6) = match read_array::<32>(buf, p5) {
            Ok(v) => v,
            Err(e) => { return Err(e); },
        };
        let (range_proof_root, p7) = match read_array::<32>(buf, p6) {
            Ok(v) => v,
            Err(e) => { return Err(e); },
        };
        let (kernel_root, p8) = match read_array::<32>(buf, p7) {
            Ok(v) => v,
            Err(e) => { return Err(e); },
        };
        let (issue_root, p9) = match read_array::<32>(buf, p8) {
            Ok(v) => v,
            Err(e) => { return Err(e); },
        };
        let (offset, p10) = match read_array::<32>(buf, p9) {
            Ok(v) => v,
            Err(e) => { return Err(e); },
        };
        let (output_mmr_size, p11) = match read_u64(buf, p10) {
            Ok(v) => v,
            Err(e) => { return Err(e); },
        };
        let (kernel_mmr_size, p12) = match read_u64(buf, p11) {
            Ok(v) => v,
            Err(e) => { return Err(e); },
        };
        let (issue_mmr_size, p13) = match read_u64(buf, p12) {
            Ok(v) => v,
            Err(e) => { return Err(e); },
        };
        let (overage, p14) = match read_array::<33>(buf, p13) {
            Ok(v) => v,
            Err(e) => { return Err(e); },
        };
        let (pow, p15) = match ProofOfWork::read(buf, p14) {
            Ok(v) => v,
            Err(e) => { return Err(e); },
        };
        if !in_calendar(timestamp) {
            return Err(SerError::CorruptedData);
        }
        let x = BlockHeader {
            version: HeaderVersion(version),
            height,
            timestamp,
            prev_hash: crate::hash::Hash(prev_hash),
            prev_root: crate::hash::Hash(prev_root),
            output_root: crate::hash::Hash(output_root),
            range_proof_root: crate::hash::Hash(range_proof_root),
            kernel_root: crate::hash::Hash(kernel_root),
            issue_root: crate::hash::Hash(issue_root),
            total_kernel_offset: BlindingFactor(offset),
            output_mmr_size,
            kernel_mmr_size,
            issue_mmr_size,
            total_issue_overage: Commitment(overage),
            pow,
        };
        proof {
            lemma_be_round_trip_bytes();
            reveal(BlockHeader::spec_pre_pow_fields);
            let s = buf@;
            let a = pos as int;
            let f1 = u16_be(version);
            assert(f1 == s.subrange(a, p1 as int));
            let f2 = f1 + u64_be(height);
            assert(f2 =~= s.subrange(a, p2 as int));
            let f3 = f2 + i64_be(timestamp);
            assert(f3 =~= s.subrange(a, p3 as int));
            let f4 = f3 + prev_hash@;
            assert(f4 =~= s.subrange(a, p4 as int));
            let f5 = f4 + prev_root@;
            assert(f5 =~= s.subrange(a, p5 as int));
            let f6 = f5 + output_root@;
            assert(f6 =~= s.subrange(a, p6 as int));
            let f7 = f6 + range_proof_root@;
            assert(f7 =~= s.subrange(a, p7 as int));
            let f8 = f7 + kernel_root@;
            assert(f8 =~= s.subrange(a, p8 as int));
            let f9 = f8 + issue_root@;
            assert(f9 =~= s.subrange(a, p9 as int));
            let f10 = f9 + offset@;
            assert(f10 =~= s.subrange(a, p10 as int));
            let f11 = f10 + u64_be(output_mmr_size);
            assert(f11 =~= s.subrange(a, p11 as int));
            let f12 = f11 + u64_be(kernel_mmr_size);
            assert(f12 =~= s.subrange(a, p12 as int));
            let f13 = f12 + u64_be(issue_mmr_size);
            assert(f13 =~= s.subrange(a, p13 as int));
            let f14 = f13 + overage@;
            assert(f14 =~= s.subrange(a, p14 as int));
            assert(x.spec_pre_pow_fields() == f14);
            assert(x.ser() =~= s.subrange(a, p15 as int));
        }
        Ok((x, p15))
    }

    #[verifier::rlimit(40)]
    proof fn lemma_ser_injective(a: Self, b: Self) {
        lemma_be_round_trip();
        let fa = a.spec_pre_pow_fields();
        let fb = b.spec_pre_pow_fields();
        lemma_pre_pow_fields(a);
        lemma_pre_pow_fields(b);
        assert(fa =~= a.ser().subrange(0, PRE_POW_LEN as int));
        assert(fb =~= b.ser().subrange(0, PRE_POW_LEN as int));
        assert(a.pow.ser() =~= a.ser().subrange(PRE_POW_LEN as int, a.ser().len() as int));
        assert(b.pow.ser() =~= b.ser().subrange(PRE_POW_LEN as int, b.ser().len() as int));
        ProofOfWork::lemma_ser_injective(a.pow, b.pow);
        lemma_pre_pow_fields(a);
        lemma_pre_pow_fields(b);
        assert(a.prev_hash.0 =~= b.prev_hash.0);
        assert(a.prev_root.0 =~= b.prev_root.0);
        assert(a.output_root.0 =~= b.output_root.0);
        assert(a.range_proof_root.0 =~= b.range_proof_root.0);
        assert(a.kernel_root.0 =~= b.kernel_root.0);
        assert(a.issue_root.0 =~= b.issue_root.0);
        assert(a.total_kernel_offset.0 =~= b.total_kernel_offset.0);
        assert(a.total_issue_overage.0 =~= b.total_issue_overage.0);
    }

    #[verifier::rlimit(40)]
    proof fn lemma_readable(x: Self, s: Seq<u8>, pos: int) {
        lemma_be_round_trip();
        lemma_pre_pow_fields(x);
        let f = x.spec_pre_pow_fields();
        let n = x.pow.ser().len() as int;
        assert(x.ser().len() == PRE_POW_LEN + n);
        let sub = s.subrange(pos, pos + PRE_POW_LEN + n);
        assert(f =~= sub.subrange(0, PRE_POW_LEN as int));
        assert(s.subrange(pos + 10, pos + 18) =~= sub.subrange(10, 18));
        assert(sub.subrange(10, 18) =~= f.subrange(10, 18));
        assert(s.subrange(pos + PRE_POW_LEN, pos + PRE_POW_LEN + n) =~= sub.subrange(
            PRE_POW_LEN as int,
            PRE_POW_LEN + n,
        ));
        assert(sub.subrange(PRE_POW_LEN as int, PRE_POW_LEN + n) =~= x.pow.ser());
        ProofOfWork::lemma_readable(x.pow, s, pos + PRE_POW_LEN);
    }
}

/// Where each field of a header stands in the encoding before the proof of
/// work.
#[verifier::rlimit(40)]
pub proof fn lemma_pre_pow_fields(h: BlockHeader)
    ensures
        h.spec_pre_pow_fields().len() == PRE_POW_LEN,
        h.spec_pre_pow_fields().subrange(0, 2) == u16_be(h.version.0),
        h.spec_pre_pow_fields().subrange(2, 10) == u64_be(h.height),
        h.spec_pre_pow_fields().subrange(10, 18) == i64_be(h.timestamp),
        h.spec_pre_pow_fields().subrange(18, 50) == h.prev_hash.0@,
        h.spec_pre_pow_fields().subrange(50, 82) == h.prev_root.0@,
        h.spec_pre_pow_fields().subrange(82, 114) == h.output_root.0@,
        h.spec_pre_pow_fields().subrange(114, 146) == h.range_proof_root.0@,
        h.spec_pre_pow_fields().subrange(146, 178) == h.kernel_root.0@,
        h.spec_pre_pow_fields().subrange(178, 210) == h.issue_root.0@,
        h.spec_pre_pow_fields().subrange(210, 242) == h.total_kernel_offset.0@,
        h.spec_pre_pow_fields().subrange(242, 250) == u64_be(h.output_mmr_size),
        h.spec_pre_pow_fields().subrange(250, 258) == u64_be(h.kernel_mmr_size),
        h.spec_pre_pow_fields().subrange(258, 266) == u64_be(h.issue_mmr_size),
        h.spec_pre_pow_fields().subrange(266, 299) == h.total_issue_overage.0@,
{
    lemma_be_round_trip();
    reveal(BlockHeader::spec_pre_pow_fields);
    let f = h.spec_pre_pow_fields();
    assert(f.subrange(0, 2) =~= u16_be(h.version.0));
    assert(f.subrange(2, 10) =~= u64_be(h.height));
    assert(f.subrange(10, 18) =~= i64_be(h.timestamp));
    assert(f.subrange(18, 50) =~= h.prev_hash.0@);
    assert(f.subrange(50, 82) =~= h.prev_root.0@);
    assert(f.subrange(82, 114) =~= h.output_root.0@);
    assert(f.subrange(114, 146) =~= h.range_proof_root.0@);
    assert(f.subrange(146, 178) =~= h.kernel_root.0@);
    assert(f.subrange(178, 210) =~= h.issue_root.0@);
    assert(f.subrange(210, 242) =~= h.total_kernel_offset.0@);
    assert(f.subrange(242, 250) =~= u64_be(h.output_mmr_size));
    assert(f.subrange(250, 258) =~= u64_be(h.kernel_mmr_size));
    assert(f.subrange(258, 266) =~= u64_be(h.issue_mmr_size));
    assert(f.subrange(266, 299) =~= h.total_issue_overage.0@);
}

/// The encoding of a proof: its edge size and its packed nonces.
pub open spec fn spec_proof_ser(proof: Proof) -> Seq<u8> {
    seq![proof.edge_bits] + proof.bytes()
}

/// The bytes of a header that is given as the text of its first part, a
/// nonce and a proof.
pub open spec fn spec_header_bytes(pre_pow: Seq<u8>, nonce: u64, proof: Proof) -> Seq<u8> {
    pre_pow + u64_be(nonce) + spec_proof_ser(proof)
}

/// Why no header can be made of the hexadecimal text of its first part, a
/// nonce and a proof, or `None` when one can.
pub open spec fn spec_from_pre_pow_err(text: Seq<u8>, nonce: u64, proof: Proof) -> Option<
    Error,
> {
    match spec_from_hex(text) {
        None => Some(Error::Serialization(SerError::HexError)),
        Some(pre_pow) => match BlockHeader::read_err(spec_header_bytes(pre_pow, nonce, proof), 0) {
            Some(e) => Some(Error::Serialization(e)),
            None => None,
        },
    }
}

impl BlockHeader {
    /// Makes a header of the hexadecimal text of its first part, a nonce and
    /// a proof.
    #[verifier::rlimit(40)]
    pub fn from_pre_pow_and_proof(pre_pow: String, nonce: u64, proof: Proof) -> (r: Result<
        BlockHeader,
        Error,
    >)
        ensures
            match r {
                Ok(h) => {
                    let text = vstd::utf8::encode_utf8(pre_pow@);
                    let bytes = spec_header_bytes(spec_from_hex(text)->Some_0, nonce, proof);
                    &&& spec_from_pre_pow_err(text, nonce, proof) is None
                    &&& h.wf()
                    &&& h.ser() == bytes.subrange(0, BlockHeader::read_len(bytes, 0))
                },
                Err(e) => spec_from_pre_pow_err(vstd::utf8::encode_utf8(pre_pow@), nonce, proof)
                    == Some(e),
            },
    {
        let mut bytes = match from_hex(pre_pow.as_str()) {
            Ok(b) => b,
            Err(e) => { return Err(Error::Serialization(e)); },
        };
        let ghost head = bytes@;
        write_u64(&mut bytes, nonce);
        write_u8(&mut bytes, proof.edge_bits);
        let n = crate::pow::packed_len(proof.edge_bits);
        write_bytes(&mut bytes, vstd::slice::slice_subrange(proof.packed.as_slice(), 0, n));
        assert(bytes@ =~= spec_header_bytes(head, nonce, proof));
        match BlockHeader::read(bytes.as_slice(), 0) {
            Ok((h, _)) => Ok(h),
            Err(e) => Err(Error::Serialization(e)),
        }
    }
}

/// A header that came over a channel that cannot be trusted and has passed
/// the checks that a header alone allows.
#[derive(Clone, Copy, Debug, PartialEq, Eq)]
pub struct UntrustedBlockHeader(BlockHeader);

/// Why a header from a channel that cannot be trusted is refused, or `None`
/// when it is not: its time must not lie more than twelve block intervals
/// after `now`, its version must be the one in force at its height, its
/// proof of work must be of the primary or the secondary kind, and the size
/// of the proof of work must have been found right. Whichever of these
/// fails, the header counts as corrupted data and nothing more is said: a
/// peer is not to learn which rule it broke.
pub open spec fn spec_untrusted_header_err(header: BlockHeader, now: i64, size_ok: bool) -> Option<
    SerError,
> {
    if header.timestamp > now + MAX_FUTURE_BLOCKS * BLOCK_TIME_SEC {
        Some(SerError::CorruptedData)
    } else if !spec_valid_header_version(header.height, header.version.0) {
        Some(SerError::CorruptedData)
    } else if !header.pow.spec_is_primary() && !header.pow.spec_is_secondary() {
        Some(SerError::CorruptedData)
    } else if !size_ok {
        Some(SerError::CorruptedData)
    } else {
        None
    }
}

/// Whether the header `h` stands at `pos` and is refused with `e` at the
/// time `now`, where `size_ok` is what the check of the proof of work's
/// size has found of it, if it was asked.
pub open spec fn spec_is_untrusted_header_failure<F: Fn(&BlockHeader) -> bool>(
    s: Seq<u8>,
    pos: int,
    now: i64,
    verify_size: F,
    h: BlockHeader,
    size_ok: bool,
    e: SerError,
) -> bool {
    &&& BlockHeader::read_err(s, pos) is None
    &&& h.wf()
    &&& h.ser() == s.subrange(pos, pos + BlockHeader::read_len(s, pos))
    &&& (size_ok || spec_untrusted_header_err(h, now, true) is Some || verify_size.ensures(
        (&h,),
        false,
    ))
    &&& spec_untrusted_header_err(h, now, size_ok) == Some(e)
}

/// Whether `r` is what reading an untrusted header at `pos` gives at the
/// time `now`: the header that stands there, where it passes every check
/// and `verify_size` has found its proof of work of the right size; the
/// error of reading it, where none can be read; or the error of the first
/// check that it fails.
pub open spec fn spec_is_untrusted_header_read<F: Fn(&BlockHeader) -> bool>(
    s: Seq<u8>,
    pos: int,
    now: i64,
    verify_size: F,
    r: Result<(UntrustedBlockHeader, usize), SerError>,
) -> bool {
    match r {
        Ok((u, p)) => {
            &&& BlockHeader::read_err(s, pos) is None
            &&& p == pos + BlockHeader::read_len(s, pos)
            &&& pos <= p <= s.len()
            &&& u.spec_header().wf()
            &&& u.spec_header().ser() == s.subrange(pos, p as int)
            &&& spec_untrusted_header_err(u.spec_header(), now, true) is None
            &&& verify_size.ensures((&u.spec_header(),), true)
        },
        Err(e) => {
            ||| BlockHeader::read_err(s, pos) == Some(e)
            ||| exists|h: BlockHeader, size_ok: bool| #[trigger]
                spec_is_untrusted_header_failure(s, pos, now, verify_size, h, size_ok, e)
        },
    }
}

impl UntrustedBlockHeader {
    /// The checks on a header that was read from a channel that cannot be
    /// trusted, given the time and what the check of the proof of work's
    /// size has found.
    pub fn check(header: &BlockHeader, now: i64, size_ok: bool) -> (r: Result<(), SerError>)
        ensures
            match r {
                Ok(()) => spec_untrusted_header_err(*header, now, size_ok) is None,
                Err(e) => spec_untrusted_header_err(*header, now, size_ok) == Some(e),
            },
    {
        let limit: i128 = (now as i128) + ((MAX_FUTURE_BLOCKS * BLOCK_TIME_SEC) as i128);
        if (header.timestamp as i128) > limit {
            return Err(SerError::CorruptedData);
        }
        if !valid_header_version(header.height, header.version.0) {
            return Err(SerError::CorruptedData);
        }
        if !header.pow.is_primary() && !header.pow.is_secondary() {
            return Err(SerError::CorruptedData);
        }
        if !size_ok {
            return Err(SerError::CorruptedData);
        }
        Ok(())
    }

    /// Reads a header at `pos` and checks it at the time `now`. The check of
    /// the proof of work's size is the caller's: `verify_size` is asked
    /// once, for the header that was read, after the other checks.
    #[verifier::rlimit(60)]
    pub fn read_at<F: Fn(&BlockHeader) -> bool>(
        buf: &[u8],
        pos: usize,
        now: i64,
        verify_size: F,
    ) -> (r: Result<(UntrustedBlockHeader, usize), SerError>)
        requires
            forall|h: &BlockHeader| #[trigger] verify_size.requires((h,)),
        ensures
            spec_is_untrusted_header_read(buf@, pos as int, now, verify_size, r),
    {
        let (header, p) = match BlockHeader::read(buf, pos) {
            Ok(v) => v,
            Err(e) => { return Err(e); },
        };
        match UntrustedBlockHeader::check(&header, now, true) {
            Err(e) => {
                proof {
                    assert(spec_untrusted_header_err(header, now, true) == Some(e));
                    assert(spec_is_untrusted_header_failure(
                        buf@,
                        pos as int,
                        now,
                        verify_size,
                        header,
                        true,
                        e,
                    ));
                }
                return Err(e);
            },
            Ok(()) => {},
        }
        let size_ok = verify_size(&header);
        match UntrustedBlockHeader::check(&header, now, size_ok) {
            Err(e) => {
                proof {
                    assert(spec_untrusted_header_err(header, now, size_ok) == Some(e));
                    assert(spec_is_untrusted_header_failure(
                        buf@,
                        pos as int,
                        now,
                        verify_size,
                        header,
                        size_ok,
                        e,
                    ));
                }
                Err(e)
            },
            Ok(()) => Ok((UntrustedBlockHeader(header), p)),
        }
    }

    /// Reads a header at `pos` and checks it at the time of the call.
    pub fn read<F: Fn(&BlockHeader) -> bool>(buf: &[u8], pos: usize, verify_size: F) -> (r: Result<
        (UntrustedBlockHeader, usize),
        SerError,
    >)
        requires
            forall|h: &BlockHeader| #[trigger] verify_size.requires((h,)),
        ensures
            exists|now: i64| spec_is_untrusted_header_read(buf@, pos as int, now, verify_size, r),
    {
        let now = now_timestamp();
        UntrustedBlockHeader::read_at(buf, pos, now, verify_size)
    }

    /// The header that has passed the checks.
    pub closed spec fn spec_header(self) -> BlockHeader {
        self.0
    }

    /// The header, now that it has passed the checks.
    pub fn into_header(self) -> (h: BlockHeader)
        ensures
            h == self.spec_header(),
    {
        self.0
    }
}

/// A block: a header and a body.
#[derive(Clone, Debug, PartialEq, Eq)]
pub struct Block {
    /// The header, with what it says of the rest.
    pub header: BlockHeader,
    /// The inputs, outputs, kernels and asset actions.
    pub body: TransactionBody,
}

/// The lock height of the first kernel that is locked until a height above
/// `height`, if there is one.
pub open spec fn spec_lock_err(kernels: Seq<TxKernel>, height: u64) -> Option<u64>
    decreases kernels.len(),
{
    if kernels.len() == 0 {
        None
    } else if kernels[0].features is HeightLocked && kernels[0].features.spec_lock_height()
        > height {
        Some(kernels[0].features.spec_lock_height())
    } else {
        spec_lock_err(kernels.skip(1), height)
    }
}

/// The kernel offset of a block: what its header's total offset adds to
/// that of the header before it. Equal totals give the zero offset.
pub open spec fn spec_block_kernel_offset(total: BlindingFactor, prev: BlindingFactor) -> Result<
    BlindingFactor,
    CommittedError,
> {
    if total == prev {
        Ok(BlindingFactor::spec_zero())
    } else {
        spec_sum_kernel_offsets(seq![total], seq![prev])
    }
}

/// A result of the curve library as a result of this module.
pub open spec fn spec_secp<T>(r: Result<T, SecpError>) -> Result<T, Error> {
    match r {
        Ok(v) => Ok(v),
        Err(e) => Err(Error::Secp(e)),
    }
}

impl Block {
    /// What the check of the coinbase says: the coinbase outputs less the
    /// commitment to the reward of the block's height and fees must equal
    /// the coinbase kernels.
    pub open spec fn spec_verify_coinbase(&self) -> Result<(), Error> {
        match spec_commit_value(spec_reward(self.header.height, spec_fee(self.body.kernels@))) {
            Err(e) => Err(Error::Secp(e)),
            Ok(over) => match spec_commit_sum(
                spec_output_commits(spec_coinbase_outputs(self.body.outputs@)),
                seq![over],
            ) {
                Err(e) => Err(Error::Secp(e)),
                Ok(out_sum) => match spec_commit_sum(
                    spec_kernel_commits(spec_coinbase_kernels(self.body.kernels@)),
                    Seq::empty(),
                ) {
                    Err(e) => Err(Error::Secp(e)),
                    Ok(kern_sum) => if kern_sum != out_sum {
                        Err(Error::CoinbaseSumMismatch)
                    } else {
                        Ok(())
                    },
                },
            },
        }
    }

    /// What the checks that need no cryptography say of the block: those of
    /// its body as a block, and no kernel may be locked until a height
    /// above the block's.
    pub open spec fn spec_validate_read(&self) -> Result<(), Error> {
        match self.body.spec_validate_read(Weighting::AsBlock) {
            Err(e) => Err(Error::Transaction(e)),
            Ok(()) => match spec_lock_err(self.body.kernels@, self.header.height) {
                Some(h) => Err(Error::KernelLockHeight(h)),
                None => Ok(()),
            },
        }
    }

    /// What full validation says of the block, given the total kernel
    /// offset of the header before it: the body must be valid as a block,
    /// no kernel may be locked above the block's height, the coinbase must
    /// balance, and the whole block must balance with its subsidy, its
    /// issuance overage and its kernel offset. Gives the sum of the kernel
    /// excesses.
    pub open spec fn spec_validate(&self, prev_kernel_offset: BlindingFactor) -> Result<
        Commitment,
        Error,
    > {
        match self.body.spec_validate(Weighting::AsBlock) {
            Err(e) => Err(Error::Transaction(e)),
            Ok(()) => match spec_lock_err(self.body.kernels@, self.header.height) {
                Some(h) => Err(Error::KernelLockHeight(h)),
                None => match self.spec_verify_coinbase() {
                    Err(e) => Err(e),
                    Ok(()) => match spec_mint_overage(self.body.assets@) {
                        Err(e) => Err(Error::Transaction(e)),
                        Ok(mint) => match spec_block_kernel_offset(
                            self.header.total_kernel_offset,
                            prev_kernel_offset,
                        ) {
                            Err(e) => Err(Error::Committed(e)),
                            Ok(offset) => match self.body.spec_verify_kernel_sums(
                                self.header.spec_overage(),
                                mint,
                                offset,
                            ) {
                                Err(e) => Err(Error::Committed(e)),
                                Ok((_, kernel_sum)) => Ok(kernel_sum),
                            },
                        },
                    },
                },
            },
        }
    }

    /// Whether `r` is what cut-through makes of the block: the block
    /// without the outputs that its inputs spend and without those inputs.
    /// Two inputs that spend the same commitment, or two outputs that carry
    /// the same, are an error.
    pub open spec fn spec_is_cut_through(&self, r: Result<Block, Error>) -> bool {
        match r {
            Ok(b) => {
                &&& spec_cuttable(self.body.inputs@, self.body.outputs@)
                &&& b.header == self.header
                &&& b.body.inputs@ == spec_cut_inputs(self.body.inputs@, self.body.outputs@)
                &&& b.body.outputs@ == spec_cut_outputs(self.body.inputs@, self.body.outputs@)
                &&& b.body.kernels@ == self.body.kernels@
                &&& b.body.assets@ == self.body.assets@
            },
            Err(e) => {
                &&& !spec_cuttable(self.body.inputs@, self.body.outputs@)
                &&& e == Error::Transaction(TxError::AggregationError)
            },
        }
    }

    /// The block with the given header and nothing in its body.
    pub fn with_header(header: BlockHeader) -> (b: Block)
        ensures
            b.header == header,
            b.body.inputs@.len() == 0,
            b.body.outputs@.len() == 0,
            b.body.kernels@.len() == 0,
            b.body.assets@.len() == 0,
    {
        Block { header, body: TransactionBody::empty() }
    }

    /// The block with its outputs and kernels replaced by the reward's.
    pub fn with_reward(self, reward_out: Output, reward_kern: TxKernel) -> (b: Block)
        ensures
            b.header == self.header,
            b.body.inputs == self.body.inputs,
            b.body.assets == self.body.assets,
            b.body.outputs@ == seq![reward_out],
            b.body.kernels@ == seq![reward_kern],
    {
        let mut b = self;
        let mut outputs: Vec<Output> = Vec::new();
        outputs.push(reward_out);
        let mut kernels: Vec<TxKernel> = Vec::new();
        kernels.push(reward_kern);
        assert(outputs@ =~= seq![reward_out]);
        assert(kernels@ =~= seq![reward_kern]);
        b.body.outputs = outputs;
        b.body.kernels = kernels;
        b
    }

    /// The hash of the block: that of its header.
    pub fn hash(&self) -> (h: crate::hash::Hash)
        ensures
            h == self.header.spec_hash(),
    {
        self.header.hash()
    }

    /// The inputs of the block.
    pub fn inputs(&self) -> (r: &Vec<Input>)
        ensures
            *r == self.body.inputs,
    {
        &self.body.inputs
    }

    /// The asset actions of the block.
    pub fn assets(&self) -> (r: &Vec<AssetAction>)
        ensures
            *r == self.body.assets,
    {
        &self.body.assets
    }

    /// The outputs of the block.
    pub fn outputs(&self) -> (r: &Vec<Output>)
        ensures
            *r == self.body.outputs,
    {
        &self.body.outputs
    }

    /// The kernels of the block.
    pub fn kernels(&self) -> (r: &Vec<TxKernel>)
        ensures
            *r == self.body.kernels,
    {
        &self.body.kernels
    }

    /// The commitments that the inputs spend.
    pub fn inputs_committed(&self) -> (r: Vec<Commitment>)
        ensures
            r@ == crate::transaction::spec_input_commits(self.body.inputs@),
    {
        self.body.inputs_committed()
    }

    /// The commitments of the outputs.
    pub fn outputs_committed(&self) -> (r: Vec<Commitment>)
        ensures
            r@ == spec_output_commits(self.body.outputs@),
    {
        self.body.outputs_committed()
    }

    /// The excess commitments of the kernels.
    pub fn kernels_committed(&self) -> (r: Vec<Commitment>)
        ensures
            r@ == spec_kernel_commits(self.body.kernels@),
    {
        self.body.kernels_committed()
    }

    /// The fees of all kernels of the block together.
    pub fn total_fees(&self) -> (r: u64)
        ensures
            r == spec_fee(self.body.kernels@),
    {
        self.body.fee()
    }

    /// The issuance overage of the block's asset actions.
    pub fn mint_overage(&self) -> (r: Result<Option<Commitment>, Error>)
        ensures
            r == (match spec_mint_overage(self.body.assets@) {
                Ok(m) => Ok::<Option<Commitment>, Error>(m),
                Err(e) => Err::<Option<Commitment>, Error>(Error::Transaction(e)),
            }),
    {
        match self.body.mint_overage() {
            Ok(m) => Ok(m),
            Err(e) => Err(Error::Transaction(e)),
        }
    }

    /// Checks the balance of the block and gives the sum of outputs less
    /// inputs and the sum of the kernel excesses.
    pub fn verify_kernel_sums(
        &self,
        overage: i64,
        mint: Option<Commitment>,
        offset: BlindingFactor,
    ) -> (r: Result<(Commitment, Commitment), CommittedError>)
        ensures
            r == self.body.spec_verify_kernel_sums(overage, mint, offset),
    {
        self.body.verify_kernel_sums(overage, mint, offset)
    }

    /// Removes each output that an input of the block spends, together with
    /// that input. What is left keeps its order. Two inputs that spend the
    /// same commitment, or two outputs that carry the same, are an error.
    pub fn cut_through(self) -> (r: Result<Block, Error>)
        ensures
            self.spec_is_cut_through(r),
    {
        let mut b = self;
        match cut_through(&mut b.body.inputs, &mut b.body.outputs) {
            Ok(()) => Ok(b),
            Err(e) => Err(Error::Transaction(e)),
        }
    }

    /// The height at which the chain stands before the block is added: one
    /// below the block's.
    pub open spec fn spec_head_before(&self) -> u64 {
        if self.header.height == 0 {
            0
        } else {
            (self.header.height - 1) as u64
        }
    }

    /// Checks that every coinbase output that the block spends has matured
    /// on the chain that the block is to be added to. The heights at which
    /// the outputs were created are the chain's to look up; they are given
    /// input by input.
    pub fn verify_coinbase_maturity(&self, created_at: &Vec<u64>) -> (r: Result<(), Error>)
        ensures
            r == (if crate::transaction::spec_spends_immature(
                self.body.inputs@,
                created_at@,
                self.spec_head_before(),
            ) {
                Err::<(), Error>(Error::Transaction(TxError::ImmatureCoinbase))
            } else {
                Ok::<(), Error>(())
            }),
    {
        let head: u64 = if self.header.height == 0 {
            0
        } else {
            self.header.height - 1
        };
        match crate::transaction::verify_coinbase_maturity(&self.body.inputs, created_at, head) {
            Ok(()) => Ok(()),
            Err(e) => Err(Error::Transaction(e)),
        }
    }

    /// The checks that need no cryptography.
    pub fn validate_read(&self) -> (r: Result<(), Error>)
        ensures
            r == self.spec_validate_read(),
    {
        match self.body.validate_read(Weighting::AsBlock) {
            Err(e) => { return Err(Error::Transaction(e)); },
            Ok(()) => {},
        }
        self.verify_kernel_lock_heights()
    }

    /// The kernel offset of the block, given the total of the header before.
    fn block_kernel_offset(&self, prev_kernel_offset: BlindingFactor) -> (r: Result<
        BlindingFactor,
        Error,
    >)
        ensures
            r == (match spec_block_kernel_offset(
                self.header.total_kernel_offset,
                prev_kernel_offset,
            ) {
                Ok(b) => Ok::<BlindingFactor, Error>(b),
                Err(e) => Err::<BlindingFactor, Error>(Error::Committed(e)),
            }),
    {
        if self.header.total_kernel_offset.same(&prev_kernel_offset) {
            Ok(BlindingFactor::zero())
        } else {
            let mut positive: Vec<BlindingFactor> = Vec::new();
            positive.push(self.header.total_kernel_offset);
            let mut negative: Vec<BlindingFactor> = Vec::new();
            negative.push(prev_kernel_offset);
            assert(positive@ =~= seq![self.header.total_kernel_offset]);
            assert(negative@ =~= seq![prev_kernel_offset]);
            match sum_kernel_offsets(&positive, &negative) {
                Ok(b) => Ok(b),
                Err(e) => Err(Error::Committed(e)),
            }
        }
    }

    /// Full validation of the block, given the total kernel offset of the
    /// header before it. Gives the sum of the kernel excesses. What the
    /// cache holds is not verified again; the answer is the same whatever
    /// the cache holds.
    pub fn validate(&self, prev_kernel_offset: &BlindingFactor, verifier: &mut VerifierCache) -> (r:
        Result<Commitment, Error>)
        requires
            old(verifier).wf(),
        ensures
            r == self.spec_validate(*prev_kernel_offset),
            final(verifier).wf(),
    {
        match self.body.validate(Weighting::AsBlock, verifier) {
            Err(e) => { return Err(Error::Transaction(e)); },
            Ok(()) => {},
        }
        match self.verify_kernel_lock_heights() {
            Err(e) => { return Err(e); },
            Ok(()) => {},
        }
        match self.verify_coinbase() {
            Err(e) => { return Err(e); },
            Ok(()) => {},
        }
        let mint = match self.mint_overage() {
            Err(e) => { return Err(e); },
            Ok(m) => m,
        };
        let offset = match self.block_kernel_offset(*prev_kernel_offset) {
            Err(e) => { return Err(e); },
            Ok(b) => b,
        };
        match self.verify_kernel_sums(self.header.overage(), mint, offset) {
            Err(e) => Err(Error::Committed(e)),
            Ok((_, kernel_sum)) => Ok(kernel_sum),
        }
    }

    /// Checks that the coinbase outputs, less the reward, equal the
    /// coinbase kernels.
    pub fn verify_coinbase(&self) -> (r: Result<(), Error>)
        ensures
            r == self.spec_verify_coinbase(),
    {
        let cb_outs = coinbase_outputs(&self.body.outputs);
        let cb_kerns = coinbase_kernels(&self.body.kernels);
        let over = match commit_value(reward(self.header.height, self.total_fees())) {
            Ok(c) => c,
            Err(e) => { return Err(Error::Secp(e)); },
        };
        let mut out_commits: Vec<Commitment> = Vec::new();
        let n = cb_outs.len();
        let mut i: usize = 0;
        while i < n
            invariant
                n == cb_outs@.len(),
                i <= n,
                out_commits@ == spec_output_commits(cb_outs@.take(i as int)),
            decreases n - i,
        {
            out_commits.push(cb_outs[i].commit);
            i += 1;
            assert(out_commits@ =~= spec_output_commits(cb_outs@.take(i as int)));
        }
        assert(cb_outs@.take(n as int) =~= cb_outs@);
        let mut kern_commits: Vec<Commitment> = Vec::new();
        let m = cb_kerns.len();
        let mut j: usize = 0;
        while j < m
            invariant
                m == cb_kerns@.len(),
                j <= m,
                kern_commits@ == spec_kernel_commits(cb_kerns@.take(j as int)),
            decreases m - j,
        {
            kern_commits.push(cb_kerns[j].excess);
            j += 1;
            assert(kern_commits@ =~= spec_kernel_commits(cb_kerns@.take(j as int)));
        }
        assert(cb_kerns@.take(m as int) =~= cb_kerns@);
        let mut overs: Vec<Commitment> = Vec::new();
        overs.push(over);
        assert(overs@ =~= seq![over]);
        let out_sum = match commit_sum(&out_commits, &overs) {
            Ok(c) => c,
            Err(e) => { return Err(Error::Secp(e)); },
        };
        let none: Vec<Commitment> = Vec::new();
        assert(none@ =~= Seq::<Commitment>::empty());
        let kern_sum = match commit_sum(&kern_commits, &none) {
            Ok(c) => c,
            Err(e) => { return Err(Error::Secp(e)); },
        };
        if !kern_sum.same(&out_sum) {
            return Err(Error::CoinbaseSumMismatch);
        }
        Ok(())
    }

    /// Checks that no kernel is locked until a height above the block's.
    fn verify_kernel_lock_heights(&self) -> (r: Result<(), Error>)
        ensures
            r == (match spec_lock_err(self.body.kernels@, self.header.height) {
                Some(h) => Err::<(), Error>(Error::KernelLockHeight(h)),
                None => Ok::<(), Error>(()),
            }),
    {
        let n = self.body.kernels.len();
        let mut i: usize = 0;
        assert(self.body.kernels@.skip(0) =~= self.body.kernels@);
        while i < n
            invariant
                n == self.body.kernels@.len(),
                i <= n,
                spec_lock_err(self.body.kernels@, self.header.height) == spec_lock_err(
                    self.body.kernels@.skip(i as int),
                    self.header.height,
                ),
            decreases n - i,
        {
            proof {
                assert(self.body.kernels@.skip(i as int).skip(1) =~= self.body.kernels@.skip(i + 1));
                assert(self.body.kernels@.skip(i as int)[0] == self.body.kernels@[i as int]);
            }
            match self.body.kernels[i].features {
                KernelFeatures::HeightLocked { lock_height, .. } => {
                    if lock_height > self.header.height {
                        return Err(Error::KernelLockHeight(lock_height));
                    }
                },
                _ => {},
            }
            i += 1;
        }
        Ok(())
    }
}

/// Why no block can be built on `prev` from the transactions and the
/// reward, or `None` when one can: the transactions must have an
/// aggregate, the offsets a sum, the asset actions an issuance overage that
/// can be added to that of `prev`, no two inputs may spend the same
/// commitment, and no two outputs, the reward's among them, may carry the
/// same.
pub open spec fn spec_from_reward_err(
    prev: BlockHeader,
    txs: Seq<Transaction>,
    reward_out: Output,
) -> Option<Error> {
    if spec_agg_err(txs) is Some {
        Some(Error::Transaction(spec_agg_err(txs)->Some_0))
    } else if spec_total_offset(prev, txs) is Err {
        Some(Error::Committed(spec_total_offset(prev, txs)->Err_0))
    } else if spec_mint_overage(spec_all_assets(txs)) is Err {
        Some(Error::Transaction(spec_mint_overage(spec_all_assets(txs))->Err_0))
    } else if spec_total_issue(prev, txs) is Err {
        Some(spec_total_issue(prev, txs)->Err_0)
    } else if !spec_cuttable(spec_agg_inputs(txs), spec_agg_outputs(txs).push(reward_out)) {
        Some(Error::Transaction(TxError::AggregationError))
    } else {
        None
    }
}

/// The total kernel offset of a block built on `prev` from the
/// transactions: their aggregate offset plus that of `prev`.
pub open spec fn spec_total_offset(prev: BlockHeader, txs: Seq<Transaction>) -> Result<
    BlindingFactor,
    CommittedError,
> {
    spec_sum_kernel_offsets(seq![spec_agg_offset(txs)->Ok_0, prev.total_kernel_offset], Seq::empty())
}

/// The total issuance overage of a block built on `prev` from the
/// transactions: that of `prev`, with the overage of their asset actions
/// added where they have one.
pub open spec fn spec_total_issue(prev: BlockHeader, txs: Seq<Transaction>) -> Result<
    Commitment,
    Error,
> {
    match spec_mint_overage(spec_all_assets(txs)) {
        Ok(Some(m)) => prev.spec_add_issue_overage(m),
        _ => Ok(prev.total_issue_overage),
    }
}

/// Whether `b` is the block built on `prev` from the transactions and the
/// reward, but for its time and its proof: one higher than `prev`, of the
/// version in force there, with the hash of `prev`, the total offset and
/// issuance, the summed difficulty, and everything else as in the default
/// header; in its body the aggregate of the transactions with the reward
/// added, after cut-through.
pub open spec fn spec_built_on(
    b: Block,
    prev: BlockHeader,
    txs: Seq<Transaction>,
    reward_out: Output,
    reward_kern: TxKernel,
    difficulty: Difficulty,
) -> bool {
    &&& b.header.version.0 == spec_header_version((prev.height + 1) as u64)
    &&& b.header.height == prev.height + 1
    &&& b.header.prev_hash == prev.spec_hash()
    &&& b.header.prev_root.is_zero()
    &&& b.header.output_root.is_zero()
    &&& b.header.range_proof_root.is_zero()
    &&& b.header.kernel_root.is_zero()
    &&& b.header.issue_root.is_zero()
    &&& Ok::<BlindingFactor, CommittedError>(b.header.total_kernel_offset) == spec_total_offset(
        prev,
        txs,
    )
    &&& b.header.output_mmr_size == 0
    &&& b.header.kernel_mmr_size == 0
    &&& b.header.issue_mmr_size == 0
    &&& Ok::<Commitment, Error>(b.header.total_issue_overage) == spec_total_issue(prev, txs)
    &&& b.header.pow.total_difficulty == difficulty.spec_plus(prev.pow.total_difficulty)
    &&& b.header.pow.secondary_scaling == 1
    &&& b.header.pow.nonce == 0
    &&& b.header.pow.proof.edge_bits == MIN_EDGE_BITS
    &&& b.header.pow.proof.wf()
    &&& b.body.inputs@ == spec_cut_inputs(spec_agg_inputs(txs), spec_agg_outputs(txs).push(reward_out))
    &&& b.body.outputs@ == spec_cut_outputs(
        spec_agg_inputs(txs),
        spec_agg_outputs(txs).push(reward_out),
    )
    &&& b.body.kernels@ == spec_all_kernels(txs).push(reward_kern)
    &&& b.body.assets@ == spec_all_assets(txs)
}

/// Whether a block is built of no transactions on a header without a kernel
/// offset: the block then holds the reward alone, and building it cannot
/// fail.
pub open spec fn spec_builds_on_nothing(prev: BlockHeader, txs: Seq<Transaction>) -> bool {
    txs.len() == 0 && prev.total_kernel_offset.is_zero()
}

/// A block of no transactions on a header without a kernel offset can be
/// built, and has no kernel offset either: the zero offset is no scalar, so
/// that nothing is summed.
pub proof fn lemma_build_on_nothing(prev: BlockHeader, txs: Seq<Transaction>, reward_out: Output)
    requires
        spec_builds_on_nothing(prev, txs),
        spec_zero_is_no_secret(seq![spec_agg_offset(txs)->Ok_0, prev.total_kernel_offset]),
    ensures
        spec_from_reward_err(prev, txs, reward_out) is None,
        spec_total_offset(prev, txs) == Ok::<BlindingFactor, CommittedError>(
            prev.total_kernel_offset,
        ),
        spec_total_issue(prev, txs) == Ok::<Commitment, Error>(prev.total_issue_overage),
{
    BlindingFactor::lemma_zero();
    let offsets = seq![spec_agg_offset(txs)->Ok_0, prev.total_kernel_offset];
    assert(offsets[0].is_zero());
    assert(offsets[1].is_zero());
    lemma_sum_of_zero_offsets(offsets, Seq::empty());
    assert(spec_all_assets(txs) =~= Seq::<AssetAction>::empty());
    assert(spec_all_inputs(txs) =~= Seq::<Input>::empty());
    assert(spec_all_outputs(txs) =~= Seq::<Output>::empty());
    assert(spec_mint_terms(spec_all_assets(txs)) == Ok::<
        (Seq<Commitment>, Seq<Commitment>),
        SecpError,
    >((Seq::empty(), Seq::empty())));
}

/// The outputs of the block that a compact block and transactions hydrate
/// to, before cut-through: those of the transactions, then the compact
/// block's own, and of each group that carries the same commitment the
/// first.
pub open spec fn spec_hydrated_outputs(cb: CompactBlock, txs: Seq<Transaction>) -> Seq<Output> {
    spec_dedup(spec_all_outputs(txs) + cb.body.out_full@)
}

impl Block {
    /// Builds a block on `prev` from transactions and a reward, at the time
    /// `now`. The block is not validated.
    #[verifier::rlimit(40)]
    pub fn from_reward_at(
        prev: &BlockHeader,
        txs: Vec<Transaction>,
        reward_out: Output,
        reward_kern: TxKernel,
        difficulty: Difficulty,
        now: i64,
    ) -> (r: Result<Block, Error>)
        requires
            prev.height < u64::MAX,
        ensures
            match r {
                Ok(b) => {
                    &&& spec_from_reward_err(*prev, txs@, reward_out) is None
                    &&& spec_built_on(b, *prev, txs@, reward_out, reward_kern, difficulty)
                    &&& b.header.timestamp == now
                    &&& forall|i: int| 0 <= i < crate::pow::MAX_PACKED_LEN ==> b.header.pow.proof.packed@[i] == 0
                },
                Err(e) => spec_from_reward_err(*prev, txs@, reward_out) == Some(e),
            },
            spec_builds_on_nothing(*prev, txs@) ==> r is Ok
                && r->Ok_0.header.total_kernel_offset == prev.total_kernel_offset
                && r->Ok_0.header.total_issue_overage == prev.total_issue_overage,
    {
        let ghost all = txs@;
        let agg = match aggregate(txs) {
            Ok(tx) => tx,
            Err(e) => { return Err(Error::Transaction(e)); },
        };
        let offset = agg.offset;
        let agg = agg.with_output(reward_out).with_kernel(reward_kern);
        let mut offsets: Vec<BlindingFactor> = Vec::new();
        offsets.push(offset);
        offsets.push(prev.total_kernel_offset);
        let none: Vec<BlindingFactor> = Vec::new();
        assert(offsets@ =~= seq![offset, prev.total_kernel_offset]);
        assert(none@ =~= Seq::<BlindingFactor>::empty());
        let summed = sum_kernel_offsets(&offsets, &none);
        proof {
            if spec_builds_on_nothing(*prev, all) {
                lemma_build_on_nothing(*prev, all, reward_out);
            }
        }
        let total_kernel_offset = match summed {
            Ok(b) => b,
            Err(e) => { return Err(Error::Committed(e)); },
        };
        let total_issue_overage = match agg.body.mint_overage() {
            Err(e) => { return Err(Error::Transaction(e)); },
            Ok(Some(m)) => match prev.add_issue_overage(m) {
                Ok(c) => c,
                Err(e) => { return Err(e); },
            },
            Ok(None) => prev.total_issue_overage,
        };
        let height: u64 = prev.height + 1;
        let version = header_version(height);
        let base = BlockHeader::default();
        let pow = ProofOfWork {
            total_difficulty: difficulty.plus(prev.pow.total_difficulty),
            secondary_scaling: base.pow.secondary_scaling,
            nonce: base.pow.nonce,
            proof: base.pow.proof,
        };
        let header = BlockHeader {
            version: HeaderVersion(version),
            height,
            timestamp: now,
            prev_hash: prev.hash(),
            prev_root: base.prev_root,
            output_root: base.output_root,
            range_proof_root: base.range_proof_root,
            kernel_root: base.kernel_root,
            issue_root: base.issue_root,
            total_kernel_offset,
            output_mmr_size: base.output_mmr_size,
            kernel_mmr_size: base.kernel_mmr_size,
            issue_mmr_size: base.issue_mmr_size,
            total_issue_overage,
            pow,
        };
        let block = Block { header, body: agg.body };
        block.cut_through()
    }

    /// Builds a block on `prev` from transactions and a reward, at the time
    /// of the call. The block is not validated.
    pub fn from_reward(
        prev: &BlockHeader,
        txs: Vec<Transaction>,
        reward_out: Output,
        reward_kern: TxKernel,
        difficulty: Difficulty,
    ) -> (r: Result<Block, Error>)
        requires
            prev.height < u64::MAX,
        ensures
            match r {
                Ok(b) => {
                    &&& spec_from_reward_err(*prev, txs@, reward_out) is None
                    &&& spec_built_on(b, *prev, txs@, reward_out, reward_kern, difficulty)
                    &&& forall|i: int| 0 <= i < crate::pow::MAX_PACKED_LEN ==> b.header.pow.proof.packed@[i] == 0
                },
                Err(e) => spec_from_reward_err(*prev, txs@, reward_out) == Some(e),
            },
            spec_builds_on_nothing(*prev, txs@) ==> r is Ok
                && r->Ok_0.header.total_kernel_offset == prev.total_kernel_offset
                && r->Ok_0.header.total_issue_overage == prev.total_issue_overage,
    {
        let now = now_timestamp();
        Block::from_reward_at(prev, txs, reward_out, reward_kern, difficulty, now)
    }

    /// Builds a block on `prev` as `from_reward` does and gives it a proof
    /// of work chosen by chance, so that the block has a hash of its own.
    pub fn new(
        prev: &BlockHeader,
        txs: Vec<Transaction>,
        difficulty: Difficulty,
        reward_output: (Output, TxKernel),
    ) -> (r: Result<Block, Error>)
        requires
            prev.height < u64::MAX,
        ensures
            match r {
                Ok(b) => {
                    &&& spec_from_reward_err(*prev, txs@, reward_output.0) is None
                    &&& spec_built_on(b, *prev, txs@, reward_output.0, reward_output.1, difficulty)
                },
                Err(e) => spec_from_reward_err(*prev, txs@, reward_output.0) == Some(e),
            },
            spec_builds_on_nothing(*prev, txs@) ==> r is Ok
                && r->Ok_0.header.total_kernel_offset == prev.total_kernel_offset
                && r->Ok_0.header.total_issue_overage == prev.total_issue_overage,
    {
        let mut block = match Block::from_reward(
            prev,
            txs,
            reward_output.0,
            reward_output.1,
            difficulty,
        ) {
            Ok(b) => b,
            Err(e) => { return Err(e); },
        };
        block.header.pow = block.header.pow.with_random_proof();
        Ok(block)
    }

    /// Makes a block of a compact block and the transactions that its short
    /// identifiers stand for. The block is not validated.
    #[verifier::rlimit(40)]
    pub fn hydrate_from(cb: CompactBlock, txs: Vec<Transaction>) -> (r: Result<Block, Error>)
        ensures
            r is Ok,
            r->Ok_0.header == cb.header,
            r->Ok_0.body.inputs@ == spec_cut_inputs(
                spec_dedup(spec_all_inputs(txs@)),
                spec_hydrated_outputs(cb, txs@),
            ),
            r->Ok_0.body.outputs@ == spec_cut_outputs(
                spec_dedup(spec_all_inputs(txs@)),
                spec_hydrated_outputs(cb, txs@),
            ),
            r->Ok_0.body.kernels@ == spec_dedup(spec_all_kernels(txs@) + cb.body.kern_full@),
            r->Ok_0.body.assets@ == spec_dedup(spec_all_assets(txs@)),
    {
        let ghost all = txs@;
        let mut inputs: Vec<Input> = Vec::new();
        let mut outputs: Vec<Output> = Vec::new();
        let mut kernels: Vec<TxKernel> = Vec::new();
        let mut assets: Vec<AssetAction> = Vec::new();
        let n = txs.len();
        let mut i: usize = 0;
        assert(all.take(0) =~= Seq::<Transaction>::empty());
        while i < n
            invariant
                n == all.len(),
                txs@ == all,
                i <= n,
                inputs@ == spec_all_inputs(all.take(i as int)),
                outputs@ == spec_all_outputs(all.take(i as int)),
                kernels@ == spec_all_kernels(all.take(i as int)),
                assets@ == spec_all_assets(all.take(i as int)),
            decreases n - i,
        {
            proof {
                let next = all.take(i + 1);
                assert(next.drop_last() =~= all.take(i as int));
                assert(next.last() == all[i as int]);
            }
            append_copy(&mut inputs, &txs[i].body.inputs);
            append_copy(&mut outputs, &txs[i].body.outputs);
            append_copy(&mut kernels, &txs[i].body.kernels);
            append_copy(&mut assets, &txs[i].body.assets);
            i += 1;
        }
        assert(all.take(n as int) =~= all);
        append_copy(&mut outputs, &cb.body.out_full);
        append_copy(&mut kernels, &cb.body.kern_full);
        let inputs = dedup(&inputs);
        let outputs = dedup(&outputs);
        let kernels = dedup(&kernels);
        let assets = dedup(&assets);
        proof {
            lemma_dedup_outputs_unique(spec_all_outputs(all) + cb.body.out_full@);
            lemma_dedup_inputs_unique(spec_all_inputs(all));
        }
        let body = TransactionBody::init(inputs, outputs, kernels, assets);
        let block = Block { header: cb.header, body };
        block.cut_through()
    }

    /// The inputs of the block, to be changed.
    pub fn inputs_mut(&mut self) -> (r: &mut Vec<Input>)
        ensures
            *r == old(self).body.inputs,
            final(self).header == old(self).header,
            final(self).body.inputs == *final(r),
            final(self).body.outputs == old(self).body.outputs,
            final(self).body.kernels == old(self).body.kernels,
            final(self).body.assets == old(self).body.assets,
    {
        &mut self.body.inputs
    }

    /// The outputs of the block, to be changed.
    pub fn outputs_mut(&mut self) -> (r: &mut Vec<Output>)
        ensures
            *r == old(self).body.outputs,
            final(self).header == old(self).header,
            final(self).body.outputs == *final(r),
            final(self).body.inputs == old(self).body.inputs,
            final(self).body.kernels == old(self).body.kernels,
            final(self).body.assets == old(self).body.assets,
    {
        &mut self.body.outputs
    }

    /// The kernels of the block, to be changed.
    pub fn kernels_mut(&mut self) -> (r: &mut Vec<TxKernel>)
        ensures
            *r == old(self).body.kernels,
            final(self).header == old(self).header,
            final(self).body.kernels == *final(r),
            final(self).body.inputs == old(self).body.inputs,
            final(self).body.outputs == old(self).body.outputs,
            final(self).body.assets == old(self).body.assets,
    {
        &mut self.body.kernels
    }

    /// Whether the header and every item of the block are such as reading
    /// gives.
    pub open spec fn wf(&self) -> bool {
        self.header.wf() && self.body.wf()
    }

    /// The encoding of the block: the header, then the body.
    pub open spec fn ser(&self) -> Seq<u8> {
        self.header.ser() + self.body.ser()
    }

    /// Appends the encoding of the block.
    pub fn write(&self, out: &mut Vec<u8>)
        ensures
            final(out)@ == old(out)@ + self.ser(),
    {
        self.header.write(out);
        self.body.write(out);
        assert(out@ =~= old(out)@ + self.ser());
    }

    /// Reads a block at `pos`; gives it with the position that follows it.
    pub fn read(buf: &[u8], pos: usize) -> (r: Result<(Block, usize), SerError>)
        ensures
            match r {
                Ok((b, p)) => {
                    &&& spec_block_read_err(buf@, pos as int) is None
                    &&& p == spec_body_end(buf@, pos + BlockHeader::read_len(buf@, pos as int))
                    &&& pos <= p <= buf@.len()
                    &&& b.wf()
                    &&& b.ser() == buf@.subrange(pos as int, p as int)
                },
                Err(e) => spec_block_read_err(buf@, pos as int) == Some(e),
            },
    {
        let (header, p1) = match BlockHeader::read(buf, pos) {
            Ok(v) => v,
            Err(e) => { return Err(e); },
        };
        let (body, p2) = match TransactionBody::read(buf, p1) {
            Ok(v) => v,
            Err(e) => { return Err(e); },
        };
        let b = Block { header, body };
        assert(b.ser() =~= buf@.subrange(pos as int, p2 as int));
        Ok((b, p2))
    }
}

/// Why no block can be read at `pos`, or `None` when one can.
pub open spec fn spec_block_read_err(s: Seq<u8>, pos: int) -> Option<SerError> {
    if BlockHeader::read_err(s, pos) is Some {
        BlockHeader::read_err(s, pos)
    } else {
        spec_body_read_err(s, pos + BlockHeader::read_len(s, pos))
    }
}

impl Default for Block {
    /// The block with the default header and nothing in its body.
    fn default() -> (b: Block)
        ensures
            spec_is_default_header(b.header),
            b.header.wf(),
            b.body.inputs@.len() == 0,
            b.body.outputs@.len() == 0,
            b.body.kernels@.len() == 0,
            b.body.assets@.len() == 0,
    {
        Block { header: BlockHeader::default(), body: TransactionBody::empty() }
    }
}

/// A block that came over a channel that cannot be trusted and has passed
/// the checks that need no cryptography.
#[derive(Clone, Debug, PartialEq, Eq)]
pub struct UntrustedBlock(Block);

/// Whether `r` is what reading an untrusted block at `pos` gives, where
/// reading its header as an untrusted header gave `header`: the error of the
/// header, or the error of reading the body after it, or corrupted data for
/// a body that fails the checks that need no cryptography, or the block.
pub open spec fn spec_is_untrusted_block_read(
    s: Seq<u8>,
    pos: int,
    header: Result<(UntrustedBlockHeader, usize), SerError>,
    r: Result<(UntrustedBlock, usize), SerError>,
) -> bool {
    match header {
        Err(e) => r == Err::<(UntrustedBlock, usize), SerError>(e),
        Ok((u, p1)) => match r {
            Ok((b, p)) => {
                &&& spec_body_read_err(s, p1 as int) is None
                &&& p == spec_body_end(s, p1 as int)
                &&& p1 <= p <= s.len()
                &&& b.spec_block().header == u.spec_header()
                &&& b.spec_block().wf()
                &&& b.spec_block().ser() == s.subrange(pos, p as int)
                &&& b.spec_block().body.spec_validate_read(Weighting::AsBlock) is Ok
            },
            Err(e) => {
                ||| spec_body_read_err(s, p1 as int) == Some(e)
                ||| {
                    &&& spec_body_read_err(s, p1 as int) is None
                    &&& e == SerError::CorruptedData
                    &&& forall|body: TransactionBody|
                        body.wf() && #[trigger] body.ser() == s.subrange(
                            p1 as int,
                            spec_body_end(s, p1 as int),
                        ) ==> body.spec_validate_read(Weighting::AsBlock) is Err
                }
            },
        },
    }
}

impl UntrustedBlock {
    /// Reads a block at `pos` and checks it at the time `now`: first the
    /// header, as an untrusted header is checked, then the body, by the
    /// checks that need no cryptography. A body that fails them counts as
    /// corrupted data.
    #[verifier::rlimit(60)]
    pub fn read_at<F: Fn(&BlockHeader) -> bool>(
        buf: &[u8],
        pos: usize,
        now: i64,
        verify_size: F,
    ) -> (r: Result<(UntrustedBlock, usize), SerError>)
        requires
            forall|h: &BlockHeader| #[trigger] verify_size.requires((h,)),
        ensures
            exists|header: Result<(UntrustedBlockHeader, usize), SerError>|
                #![trigger spec_is_untrusted_header_read(buf@, pos as int, now, verify_size, header)]
                spec_is_untrusted_header_read(buf@, pos as int, now, verify_size, header)
                    && spec_is_untrusted_block_read(buf@, pos as int, header, r),
    {
        let read = UntrustedBlockHeader::read_at(buf, pos, now, verify_size);
        let (header, p1) = match read {
            Ok(v) => v,
            Err(e) => {
                assert(spec_is_untrusted_block_read(buf@, pos as int, read, Err(e)));
                return Err(e);
            },
        };
        let (body, p2) = match TransactionBody::read(buf, p1) {
            Ok(v) => v,
            Err(e) => {
                assert(spec_is_untrusted_block_read(buf@, pos as int, read, Err(e)));
                return Err(e);
            },
        };
        match body.validate_read(Weighting::AsBlock) {
            Ok(()) => {},
            Err(_) => {
                proof {
                    assert forall|other: TransactionBody|
                        other.wf() && #[trigger] other.ser() == buf@.subrange(
                            p1 as int,
                            spec_body_end(buf@, p1 as int),
                        ) implies other.spec_validate_read(Weighting::AsBlock) is Err by {
                        lemma_body_ser_injective(body, other);
                    }
                    assert(spec_is_untrusted_block_read(
                        buf@,
                        pos as int,
                        read,
                        Err(SerError::CorruptedData),
                    ));
                }
                return Err(SerError::CorruptedData);
            },
        }
        let b = Block { header: header.into_header(), body };
        assert(b.ser() =~= buf@.subrange(pos as int, p2 as int));
        let r = Ok((UntrustedBlock(b), p2));
        assert(spec_is_untrusted_block_read(buf@, pos as int, read, r));
        r
    }

    /// Reads a block at `pos` and checks it at the time of the call.
    pub fn read<F: Fn(&BlockHeader) -> bool>(buf: &[u8], pos: usize, verify_size: F) -> (r: Result<
        (UntrustedBlock, usize),
        SerError,
    >)
        requires
            forall|h: &BlockHeader| #[trigger] verify_size.requires((h,)),
        ensures
            exists|now: i64, header: Result<(UntrustedBlockHeader, usize), SerError>|
                #![trigger spec_is_untrusted_header_read(buf@, pos as int, now, verify_size, header)]
                spec_is_untrusted_header_read(buf@, pos as int, now, verify_size, header)
                    && spec_is_untrusted_block_read(buf@, pos as int, header, r),
    {
        let now = now_timestamp();
        UntrustedBlock::read_at(buf, pos, now, verify_size)
    }

    /// The block that has passed the checks.
    pub closed spec fn spec_block(self) -> Block {
        self.0
    }

    /// The block, now that it has passed the checks.
    pub fn into_block(self) -> (b: Block)
        ensures
            b == self.spec_block(),
    {
        self.0
    }
}

/// Reading a block that was written gives the block back. Where the
/// encoding of a well-formed block that weighs no more than a block may
/// stands in a buffer, a block can be read there; and any block `back` that
/// is read there has the header and the items of `b`, hence its encoding
/// and its hash.
#[verifier::rlimit(40)]
pub proof fn lemma_block_round_trip(b: Block, back: Block, s: Seq<u8>, pos: int)
    requires
        b.wf(),
        b.body.spec_body_weight() <= MAX_BLOCK_WEIGHT,
        0 <= pos,
        pos + b.ser().len() <= s.len(),
        s.subrange(pos, pos + b.ser().len()) == b.ser(),
        back.wf(),
        spec_body_end(s, pos + BlockHeader::read_len(s, pos)) <= s.len(),
        back.ser() == s.subrange(pos, spec_body_end(s, pos + BlockHeader::read_len(s, pos))),
    ensures
        spec_block_read_err(s, pos) is None,
        spec_body_end(s, pos + BlockHeader::read_len(s, pos)) == pos + b.ser().len(),
        back.header == b.header,
        back.body.inputs@ == b.body.inputs@,
        back.body.outputs@ == b.body.outputs@,
        back.body.kernels@ == b.body.kernels@,
        back.body.assets@ == b.body.assets@,
        back.ser() == b.ser(),
        back.header.spec_hash() == b.header.spec_hash(),
{
    let h = b.header.ser();
    let e = b.ser();
    let whole = s.subrange(pos, pos + e.len());
    assert(s.subrange(pos, pos + h.len()) =~= whole.subrange(0, h.len() as int));
    assert(whole.subrange(0, h.len() as int) =~= h);
    BlockHeader::lemma_readable(b.header, s, pos);
    let p1 = pos + h.len();
    assert(s.subrange(p1, p1 + b.body.ser().len()) =~= whole.subrange(
        h.len() as int,
        e.len() as int,
    ));
    assert(whole.subrange(h.len() as int, e.len() as int) =~= b.body.ser());
    lemma_body_readable(b.body, s, p1);
    assert(back.ser() == e);
    // The header of `back` takes as many bytes as that of `b`: both can be
    // read from the same bytes.
    let h2 = back.header.ser();
    assert(e.subrange(0, h2.len() as int) =~= h2);
    assert(e.subrange(0, h.len() as int) =~= h);
    BlockHeader::lemma_readable(back.header, e, 0);
    BlockHeader::lemma_readable(b.header, e, 0);
    BlockHeader::lemma_ser_injective(b.header, back.header);
    assert(back.body.ser() =~= e.subrange(h.len() as int, e.len() as int));
    assert(b.body.ser() =~= e.subrange(h.len() as int, e.len() as int));
    lemma_body_ser_injective(b.body, back.body);
}

/// Cut-through does not change a valid block: a block that passes full
/// validation has no output that one of its inputs spends, so that what
/// cut-through gives holds the same items, and full validation gives the
/// same sum of kernel excesses for it.
pub proof fn lemma_validate_after_cut_through(b: Block, cut: Block, prev_kernel_offset: BlindingFactor)
    requires
        b.spec_validate(prev_kernel_offset) is Ok,
        b.spec_is_cut_through(Ok(cut)),
    ensures
        cut.body.inputs@ == b.body.inputs@,
        cut.body.outputs@ == b.body.outputs@,
        cut.spec_validate(prev_kernel_offset) == b.spec_validate(prev_kernel_offset),
{
    assert(b.body.spec_validate(Weighting::AsBlock) is Ok);
    assert(b.body.spec_validate_read(Weighting::AsBlock) is Ok);
    lemma_cut_nothing(b.body.inputs@, b.body.outputs@);
}

/// Cut-through never changes the kernels of a block, so the sum of the
/// kernel excesses, alone and with any offset, is the same before and
/// after, whether the block is valid or not.
pub proof fn lemma_kernel_sum_after_cut_through(b: Block, cut: Block, offset: BlindingFactor)
    requires
        b.spec_is_cut_through(Ok(cut)),
    ensures
        spec_kernel_sums(cut.body.kernels@, offset) == spec_kernel_sums(b.body.kernels@, offset),
{
}

/// Cut-through done twice is cut-through done once: what it gives has no
/// output that an input spends, and a second cut-through succeeds and
/// changes nothing.
pub proof fn lemma_cut_through_idempotent(b: Block, cut: Block, again: Result<Block, Error>)
    requires
        b.spec_is_cut_through(Ok(cut)),
        cut.spec_is_cut_through(again),
    ensures
        again is Ok,
        again->Ok_0.header == cut.header,
        again->Ok_0.body.inputs@ == cut.body.inputs@,
        again->Ok_0.body.outputs@ == cut.body.outputs@,
        again->Ok_0.body.kernels@ == cut.body.kernels@,
        again->Ok_0.body.assets@ == cut.body.assets@,
{
    lemma_cut_through_twice(b.body.inputs@, b.body.outputs@);
}

/// Cut-through removes pairs: as many inputs leave the block as outputs,
/// and an input leaves exactly when the output of its commitment does.
pub proof fn lemma_cut_through_removes_pairs_of(b: Block, cut: Block)
    requires
        b.spec_is_cut_through(Ok(cut)),
    ensures
        b.body.inputs@.len() - cut.body.inputs@.len() == b.body.outputs@.len()
            - cut.body.outputs@.len(),
        crate::transaction::spec_input_commits(
            crate::transaction::spec_cut_away_inputs(b.body.inputs@, b.body.outputs@),
        ).to_set() == spec_output_commits(
            crate::transaction::spec_cut_away_outputs(b.body.inputs@, b.body.outputs@),
        ).to_set(),
{
    lemma_cut_through_removes_pairs(b.body.inputs@, b.body.outputs@);
}

/// What cut-through gives passes the check that it is there for: no input
/// of it spends one of its outputs.
pub proof fn lemma_cut_through_leaves_no_overlap(b: Block, cut: Block)
    requires
        b.spec_is_cut_through(Ok(cut)),
    ensures
        !spec_overlap(cut.body.inputs@, cut.body.outputs@),
        cut.body.spec_validate_read(Weighting::NoLimit) is Ok,
{
    lemma_cut_through_twice(b.body.inputs@, b.body.outputs@);
}

/// Whether a kernel is locked until a height above `height`.
pub open spec fn spec_locked_above(k: TxKernel, height: u64) -> bool {
    k.features is HeightLocked && k.features.spec_lock_height() > height
}

/// Kernels that are locked alike, one by one, give the same answer to the
/// check of the lock heights.
pub proof fn lemma_lock_err_same(a: Seq<TxKernel>, b: Seq<TxKernel>, height: u64)
    requires
        a.len() == b.len(),
        forall|i: int|
            0 <= i < a.len() ==> spec_locked_above(#[trigger] a[i], height) == spec_locked_above(
                b[i],
                height,
            ) && (spec_locked_above(a[i], height) ==> a[i].features.spec_lock_height()
                == b[i].features.spec_lock_height()),
    ensures
        spec_lock_err(a, height) == spec_lock_err(b, height),
    decreases a.len(),
{
    if a.len() > 0 {
        assert(spec_locked_above(a[0], height) == spec_locked_above(b[0], height));
        let ra = a.skip(1);
        let rb = b.skip(1);
        assert forall|i: int| 0 <= i < ra.len() implies spec_locked_above(
            #[trigger] ra[i],
            height,
        ) == spec_locked_above(rb[i], height) && (spec_locked_above(ra[i], height)
            ==> ra[i].features.spec_lock_height() == rb[i].features.spec_lock_height()) by {
            assert(ra[i] == a[i + 1]);
            assert(rb[i] == b[i + 1]);
            assert(spec_locked_above(a[i + 1], height) == spec_locked_above(b[i + 1], height));
        }
        lemma_lock_err_same(ra, rb, height);
    }
}

/// The checks that need no cryptography do not look at the coinbase flag of
/// an output: a block with the flag of one output changed passes them, or
/// fails them, as the block itself does.
pub proof fn lemma_read_checks_ignore_output_flag(
    b: Block,
    changed: Block,
    i: int,
    features: OutputFeatures,
)
    requires
        0 <= i < b.body.outputs@.len(),
        changed.header == b.header,
        changed.body.inputs@ == b.body.inputs@,
        changed.body.kernels@ == b.body.kernels@,
        changed.body.assets@ == b.body.assets@,
        changed.body.outputs@ == b.body.outputs@.update(
            i,
            (Output { features, commit: b.body.outputs@[i].commit, proof: b.body.outputs@[i].proof }),
        ),
    ensures
        changed.spec_validate_read() == b.spec_validate_read(),
{
    let ins = b.body.inputs@;
    let outs = b.body.outputs@;
    let outs2 = changed.body.outputs@;
    assert forall|c: Commitment| spec_creates(outs, c) == spec_creates(outs2, c) by {
        if spec_creates(outs, c) {
            let j = choose|j: int| 0 <= j < outs.len() && (#[trigger] outs[j]).commit == c;
            assert(outs2[j].commit == c);
        }
        if spec_creates(outs2, c) {
            let j = choose|j: int| 0 <= j < outs2.len() && (#[trigger] outs2[j]).commit == c;
            assert(outs[j].commit == c);
        }
    }
    if spec_overlap(ins, outs) {
        let k = choose|k: int| 0 <= k < ins.len() && spec_creates(outs, (#[trigger] ins[k]).commit);
        assert(spec_creates(outs2, ins[k].commit));
    }
    if spec_overlap(ins, outs2) {
        let k = choose|k: int| 0 <= k < ins.len() && spec_creates(outs2, (#[trigger] ins[k]).commit);
        assert(spec_creates(outs, ins[k].commit));
    }
}

/// The checks that need no cryptography do not look at the coinbase flag of
/// a kernel: a block in which a coinbase kernel is made a plain kernel
/// without a fee passes them, or fails them, as the block itself does.
pub proof fn lemma_read_checks_ignore_kernel_flag(b: Block, changed: Block, i: int)
    requires
        0 <= i < b.body.kernels@.len(),
        b.body.kernels@[i].features is Coinbase,
        changed.header == b.header,
        changed.body.inputs@ == b.body.inputs@,
        changed.body.outputs@ == b.body.outputs@,
        changed.body.assets@ == b.body.assets@,
        changed.body.kernels@ == b.body.kernels@.update(
            i,
            (TxKernel {
                features: KernelFeatures::Plain { fee: 0 },
                excess: b.body.kernels@[i].excess,
                excess_sig: b.body.kernels@[i].excess_sig,
            }),
        ),
    ensures
        changed.spec_validate_read() == b.spec_validate_read(),
{
    lemma_lock_err_same(b.body.kernels@, changed.body.kernels@, b.header.height);
}

/// The first issuance on a chain: where the header before has no issuance
/// overage yet, the overage that is added becomes the total as it is.
pub proof fn lemma_first_issue_overage(prev: BlockHeader, issue_overage: Commitment)
    requires
        spec_is_zero_commit(prev.total_issue_overage),
    ensures
        prev.spec_add_issue_overage(issue_overage) == Ok::<Commitment, Error>(issue_overage),
{
}

/// The first issuance on a chain, as a block is built: where the header
/// before has no issuance overage yet and the transactions hold one asset
/// action, a `New` action, the total issuance overage of the block is the
/// commitment to the first supply under the generator of the new asset.
pub proof fn lemma_first_issuance_total(
    prev: BlockHeader,
    txs: Seq<Transaction>,
    action: AssetAction,
    issuance: Commitment,
)
    requires
        spec_is_zero_commit(prev.total_issue_overage),
        spec_all_assets(txs) == seq![action],
        action is New,
        spec_asset_commit_of(action) == Ok::<Commitment, SecpError>(issuance),
    ensures
        spec_mint_overage(spec_all_assets(txs)) == Ok::<Option<Commitment>, TxError>(
            Some(issuance),
        ),
        spec_total_issue(prev, txs) == Ok::<Commitment, Error>(issuance),
{
    lemma_new_action_overage(action);
    lemma_first_issue_overage(prev, issuance);
}

/// A later issuance: where the header before has an issuance overage, the
/// new total is the sum of that and of the overage that is added.
pub proof fn lemma_next_issue_overage(prev: BlockHeader, issue_overage: Commitment)
    requires
        !spec_is_zero_commit(prev.total_issue_overage),
    ensures
        prev.spec_add_issue_overage(issue_overage) == spec_secp(
            spec_commit_sum(seq![prev.total_issue_overage, issue_overage], Seq::empty()),
        ),
{
}

/// The issuance overage of a single `New` action is the commitment to the
/// first supply under the generator of the action's asset.
pub proof fn lemma_new_action_overage(action: AssetAction)
    requires
        action is New,
    ensures
        spec_mint_overage(seq![action]) == (match spec_asset_commit_of(action) {
            Ok(c) => Ok::<Option<Commitment>, TxError>(Some(c)),
            Err(e) => Err::<Option<Commitment>, TxError>(TxError::Secp(e)),
        }),
{
    let actions = seq![action];
    assert(actions.drop_last() =~= Seq::<AssetAction>::empty());
    assert(spec_mint_terms(actions.drop_last()) == Ok::<
        (Seq<Commitment>, Seq<Commitment>),
        SecpError,
    >((Seq::empty(), Seq::empty())));
    assert(actions.last() == action);
    match spec_asset_commit_of(action) {
        Ok(c) => {
            assert(Seq::<Commitment>::empty().push(c)[0] == c);
        },
        Err(_) => {},
    }
}

} // verus!
