//! Transactions: inputs, outputs, kernels and the bodies that hold them.

use vstd::prelude::*;
use crate::consensus::{
    BLOCK_INPUT_WEIGHT, BLOCK_KERNEL_WEIGHT, BLOCK_OUTPUT_WEIGHT, MAX_BLOCK_WEIGHT,
};
use crate::committed::{
    add_offset, commit_value_with_generator, over_commit, spec_add_offset, spec_asset_commit,
    spec_over_commit, spec_sum_commits, spec_sum_kernel_offsets, sum_commits, sum_kernel_offsets,
    CommittedError,
};
use crate::hash::{blake2b, spec_blake2b};
use crate::issued_asset::AssetAction;
use crate::secp::{
    aggsig_verify, bullet_proof_check, commit_sum, commit_to_pubkey, spec_aggsig_valid,
    spec_bullet_proof_check, spec_commit_sum, spec_commit_to_pubkey, BlindingFactor, Commitment,
    RangeProof, SecpError, Signature, MAX_PROOF_LEN,
};
use crate::verifier_cache::VerifierCache;
use crate::ser::{
    all_wf, be_u64, lemma_be_round_trip, lemma_be_round_trip_bytes, lemma_list_readable,
    lemma_ser_list_injective, list_read_err, list_read_len,
    read_array, read_list, read_u64, read_u8, ser_list, u64_be, write_bytes, write_list,
    write_u64, write_u8, SerError, Wire,
};

verus! {

/// What kind of output a commitment is.
#[derive(Clone, Copy, Debug, PartialEq, Eq, Hash, Structural)]
pub enum OutputFeatures {
    /// An ordinary output.
    Plain,
    /// An output that pays a block's reward.
    Coinbase,
}

impl OutputFeatures {
    /// The byte that encodes the features.
    pub open spec fn tag(self) -> u8 {
        match self {
            OutputFeatures::Plain => 0,
            OutputFeatures::Coinbase => 1,
        }
    }

    /// The byte that encodes the features.
    pub fn as_u8(&self) -> (b: u8)
        ensures
            b == self.tag(),
    {
        match self {
            OutputFeatures::Plain => 0,
            OutputFeatures::Coinbase => 1,
        }
    }

    /// The features that a byte encodes, if any.
    pub fn from_u8(b: u8) -> (r: Option<OutputFeatures>)
        ensures
            match r {
                Some(f) => f.tag() == b,
                None => b > 1,
            },
    {
        if b == 0 {
            Some(OutputFeatures::Plain)
        } else if b == 1 {
            Some(OutputFeatures::Coinbase)
        } else {
            None
        }
    }
}

/// What kind of kernel a transaction proof is, with the fields of that kind.
#[derive(Clone, Copy, Debug, PartialEq, Eq, Hash, Structural)]
pub enum KernelFeatures {
    /// An ordinary kernel, which pays a fee.
    Plain { fee: u64 },
    /// The kernel of a block's reward.
    Coinbase,
    /// A kernel that is valid only from a block height on.
    HeightLocked { fee: u64, lock_height: u64 },
}

impl KernelFeatures {
    /// The byte that encodes the kind.
    pub open spec fn tag(self) -> u8 {
        match self {
            KernelFeatures::Plain { .. } => 0,
            KernelFeatures::Coinbase => 1,
            KernelFeatures::HeightLocked { .. } => 2,
        }
    }

    /// The fee that the kernel pays: none for a coinbase kernel.
    pub open spec fn spec_fee(self) -> u64 {
        match self {
            KernelFeatures::Plain { fee } => fee,
            KernelFeatures::Coinbase => 0,
            KernelFeatures::HeightLocked { fee, .. } => fee,
        }
    }

    /// The height from which the kernel is valid: 0 unless it is height locked.
    pub open spec fn spec_lock_height(self) -> u64 {
        match self {
            KernelFeatures::Plain { .. } => 0,
            KernelFeatures::Coinbase => 0,
            KernelFeatures::HeightLocked { lock_height, .. } => lock_height,
        }
    }

    /// Whether a kind byte, a fee and a lock height make up kernel features.
    pub open spec fn spec_fields_valid(tag: u8, fee: u64, lock_height: u64) -> bool {
        tag == 2 || (tag == 0 && lock_height == 0) || (tag == 1 && fee == 0 && lock_height == 0)
    }

    /// The byte that encodes the kind.
    pub fn as_u8(&self) -> (b: u8)
        ensures
            b == self.tag(),
    {
        match self {
            KernelFeatures::Plain { .. } => 0,
            KernelFeatures::Coinbase => 1,
            KernelFeatures::HeightLocked { .. } => 2,
        }
    }

    /// The fee that the kernel pays.
    pub fn fee(&self) -> (f: u64)
        ensures
            f == self.spec_fee(),
    {
        match self {
            KernelFeatures::Plain { fee } => *fee,
            KernelFeatures::Coinbase => 0,
            KernelFeatures::HeightLocked { fee, .. } => *fee,
        }
    }

    /// The height from which the kernel is valid.
    pub fn lock_height(&self) -> (h: u64)
        ensures
            h == self.spec_lock_height(),
    {
        match self {
            KernelFeatures::Plain { .. } => 0,
            KernelFeatures::Coinbase => 0,
            KernelFeatures::HeightLocked { lock_height, .. } => *lock_height,
        }
    }

    /// The features that a kind byte, a fee and a lock height make up, if any.
    pub fn from_fields(tag: u8, fee: u64, lock_height: u64) -> (r: Option<KernelFeatures>)
        ensures
            match r {
                Some(f) => {
                    &&& Self::spec_fields_valid(tag, fee, lock_height)
                    &&& f.tag() == tag
                    &&& f.spec_fee() == fee
                    &&& f.spec_lock_height() == lock_height
                },
                None => !Self::spec_fields_valid(tag, fee, lock_height),
            },
    {
        if tag == 0 && lock_height == 0 {
            Some(KernelFeatures::Plain { fee })
        } else if tag == 1 && fee == 0 && lock_height == 0 {
            Some(KernelFeatures::Coinbase)
        } else if tag == 2 {
            Some(KernelFeatures::HeightLocked { fee, lock_height })
        } else {
            None
        }
    }
}

/// A spent output: its features and its commitment.
#[derive(Clone, Copy, Debug, PartialEq, Eq, Hash)]
pub struct Input {
    pub features: OutputFeatures,
    pub commit: Commitment,
}

/// A new output: its features, its commitment and the proof that the
/// committed value is in range.
#[derive(Clone, Copy, Debug, PartialEq, Eq, Hash)]
pub struct Output {
    pub features: OutputFeatures,
    pub commit: Commitment,
    pub proof: RangeProof,
}

/// A transaction kernel: the excess commitment and the signature made with
/// it over the features.
#[derive(Clone, Copy, Debug, PartialEq, Eq, Hash)]
pub struct TxKernel {
    pub features: KernelFeatures,
    pub excess: Commitment,
    pub excess_sig: Signature,
}

/// Length of an encoded input.
pub const INPUT_LEN: usize = 34;

/// Length of an encoded kernel.
pub const KERNEL_LEN: usize = 114;

/// Length of an encoded output before the bytes of its proof.
pub const OUTPUT_HEAD_LEN: usize = 42;

/// The bytes by which an output is known: its features and its commitment.
pub open spec fn spec_output_id(features: OutputFeatures, commit: Commitment) -> Seq<u8> {
    seq![features.tag()] + commit.0@
}

impl Input {
    /// The hash of the input: that of the features and the commitment of
    /// the output that it spends.
    pub fn hash(&self) -> (h: crate::hash::Hash)
        ensures
            h == spec_blake2b(spec_output_id(self.features, self.commit)),
    {
        crate::hash::hash_of(self)
    }

    /// The commitment that the input spends.
    pub fn commitment(&self) -> (c: Commitment)
        ensures
            c == self.commit,
    {
        self.commit
    }

    /// Whether the input spends a coinbase output.
    pub fn is_coinbase(&self) -> (r: bool)
        ensures
            r == (self.features == OutputFeatures::Coinbase),
    {
        match self.features {
            OutputFeatures::Coinbase => true,
            OutputFeatures::Plain => false,
        }
    }
}

impl Wire for Input {
    open spec fn wf(&self) -> bool {
        true
    }

    open spec fn ser(&self) -> Seq<u8> {
        seq![self.features.tag()] + self.commit.0@
    }

    open spec fn read_err(s: Seq<u8>, pos: int) -> Option<SerError> {
        if pos + 1 > s.len() {
            Some(SerError::UnexpectedEof)
        } else if s[pos] > 1 {
            Some(SerError::CorruptedData)
        } else if pos + INPUT_LEN > s.len() {
            Some(SerError::UnexpectedEof)
        } else {
            None
        }
    }

    open spec fn read_len(s: Seq<u8>, pos: int) -> int {
        INPUT_LEN as int
    }

    fn write(&self, out: &mut Vec<u8>) {
        write_u8(out, self.features.as_u8());
        write_bytes(out, self.commit.0.as_slice());
        assert(out@ =~= old(out)@ + self.ser());
    }

    fn read(buf: &[u8], pos: usize) -> (r: Result<(Self, usize), SerError>) {
        let (tag, p1) = match read_u8(buf, pos) {
            Ok(v) => v,
            Err(e) => { return Err(e); },
        };
        let features = match OutputFeatures::from_u8(tag) {
            Some(f) => f,
            None => { return Err(SerError::CorruptedData); },
        };
        let (commit, p2) = match read_array::<33>(buf, p1) {
            Ok(v) => v,
            Err(e) => { return Err(e); },
        };
        let x = Input { features, commit: Commitment(commit) };
        assert(x.ser() =~= buf@.subrange(pos as int, p2 as int));
        Ok((x, p2))
    }

    proof fn lemma_ser_injective(a: Self, b: Self) {
        assert(a.ser()[0] == a.features.tag());
        assert(b.ser()[0] == b.features.tag());
        assert forall|i: int| 0 <= i < 33 implies a.commit.0@[i] == b.commit.0@[i] by {
            assert(a.ser()[i + 1] == a.commit.0@[i]);
            assert(b.ser()[i + 1] == b.commit.0@[i]);
        }
        assert(a.commit.0 =~= b.commit.0);
    }

    proof fn lemma_readable(x: Self, s: Seq<u8>, pos: int) {
        assert(s[pos] == s.subrange(pos, pos + x.ser().len())[0]);
    }
}

impl Output {
    /// The hash of the output: that of its features and its commitment,
    /// without the range proof. An input that spends the output has the
    /// same hash.
    pub fn hash(&self) -> (h: crate::hash::Hash)
        ensures
            h == spec_blake2b(spec_output_id(self.features, self.commit)),
    {
        let spent = Input { features: self.features, commit: self.commit };
        crate::hash::hash_of(&spent)
    }

    /// The commitment of the output.
    pub fn commitment(&self) -> (c: Commitment)
        ensures
            c == self.commit,
    {
        self.commit
    }

    /// Whether the output pays a block's reward.
    pub fn is_coinbase(&self) -> (r: bool)
        ensures
            r == (self.features == OutputFeatures::Coinbase),
    {
        match self.features {
            OutputFeatures::Coinbase => true,
            OutputFeatures::Plain => false,
        }
    }
}

/// The proof length that the bytes of an output announce.
pub open spec fn spec_output_plen(s: Seq<u8>, pos: int) -> u64 {
    be_u64(s.subrange(pos + 34, pos + 42))
}

impl Wire for Output {
    open spec fn wf(&self) -> bool {
        self.proof.wf()
    }

    open spec fn ser(&self) -> Seq<u8> {
        seq![self.features.tag()] + self.commit.0@ + u64_be(self.proof.plen as u64)
            + self.proof.bytes()
    }

    open spec fn read_err(s: Seq<u8>, pos: int) -> Option<SerError> {
        if pos + 1 > s.len() {
            Some(SerError::UnexpectedEof)
        } else if s[pos] > 1 {
            Some(SerError::CorruptedData)
        } else if pos + OUTPUT_HEAD_LEN > s.len() {
            Some(SerError::UnexpectedEof)
        } else if spec_output_plen(s, pos) > MAX_PROOF_LEN {
            Some(SerError::TooLargeRead)
        } else if pos + OUTPUT_HEAD_LEN + spec_output_plen(s, pos) > s.len() {
            Some(SerError::UnexpectedEof)
        } else {
            None
        }
    }

    open spec fn read_len(s: Seq<u8>, pos: int) -> int {
        OUTPUT_HEAD_LEN + spec_output_plen(s, pos)
    }

    #[verifier::rlimit(40)]
    fn write(&self, out: &mut Vec<u8>) {
        write_u8(out, self.features.as_u8());
        write_bytes(out, self.commit.0.as_slice());
        write_u64(out, self.proof.plen as u64);
        let bytes = vstd::slice::slice_subrange(self.proof.proof.as_slice(), 0, self.proof.len());
        write_bytes(out, bytes);
        assert(out@ =~= old(out)@ + self.ser());
    }

    #[verifier::rlimit(40)]
    fn read(buf: &[u8], pos: usize) -> (r: Result<(Self, usize), SerError>) {
        let (tag, p1) = match read_u8(buf, pos) {
            Ok(v) => v,
            Err(e) => { return Err(e); },
        };
        let features = match OutputFeatures::from_u8(tag) {
            Some(f) => f,
            None => { return Err(SerError::CorruptedData); },
        };
        let (commit, p2) = match read_array::<33>(buf, p1) {
            Ok(v) => v,
            Err(e) => { return Err(e); },
        };
        let (plen, p3) = match read_u64(buf, p2) {
            Ok(v) => v,
            Err(e) => { return Err(e); },
        };
        if plen > MAX_PROOF_LEN as u64 {
            return Err(SerError::TooLargeRead);
        }
        let n: usize = plen as usize;
        if n > buf.len() - p3 {
            return Err(SerError::UnexpectedEof);
        }
        let mut proof = crate::ser::zeroed::<675>();
        let mut i: usize = 0;
        while i < n
            invariant
                i <= n <= MAX_PROOF_LEN,
                p3 + n <= buf@.len(),
                forall|j: int| 0 <= j < i ==> proof@[j] == buf@[p3 + j],
                forall|j: int| i <= j < MAX_PROOF_LEN ==> proof@[j] == 0,
            decreases n - i,
        {
            proof[i] = buf[p3 + i];
            i += 1;
        }
        let p4: usize = p3 + n;
        let x = Output { features, commit: Commitment(commit), proof: RangeProof { proof, plen: n } };
        proof {
            lemma_be_round_trip_bytes();
            assert(x.proof.bytes() =~= buf@.subrange(p3 as int, p4 as int));
            assert(u64_be(n as u64) == buf@.subrange(p2 as int, p3 as int));
            assert(x.ser() =~= buf@.subrange(pos as int, p4 as int));
        }
        Ok((x, p4))
    }

    #[verifier::rlimit(40)]
    proof fn lemma_ser_injective(a: Self, b: Self) {
        lemma_be_round_trip();
        let la = u64_be(a.proof.plen as u64);
        let lb = u64_be(b.proof.plen as u64);
        assert(a.ser()[0] == a.features.tag());
        assert(b.ser()[0] == b.features.tag());
        assert forall|i: int| 0 <= i < 33 implies a.commit.0@[i] == b.commit.0@[i] by {
            assert(a.ser()[i + 1] == a.commit.0@[i]);
            assert(b.ser()[i + 1] == b.commit.0@[i]);
        }
        assert(a.commit.0 =~= b.commit.0);
        assert(la =~= a.ser().subrange(34, 42));
        assert(lb =~= b.ser().subrange(34, 42));
        assert(a.proof.plen as u64 == b.proof.plen as u64);
        assert forall|i: int| 0 <= i < MAX_PROOF_LEN implies a.proof.proof@[i]
            == b.proof.proof@[i] by {
            if i < a.proof.plen {
                assert(a.ser()[i + 42] == a.proof.bytes()[i]);
                assert(b.ser()[i + 42] == b.proof.bytes()[i]);
                assert(a.proof.bytes()[i] == a.proof.proof@[i]);
                assert(b.proof.bytes()[i] == b.proof.proof@[i]);
            }
        }
        assert(a.proof.proof =~= b.proof.proof);
    }

    #[verifier::rlimit(40)]
    proof fn lemma_readable(x: Self, s: Seq<u8>, pos: int) {
        lemma_be_round_trip();
        let sub = s.subrange(pos, pos + x.ser().len());
        assert(s[pos] == sub[0]);
        assert(s.subrange(pos + 34, pos + 42) =~= sub.subrange(34, 42));
        assert(sub.subrange(34, 42) =~= u64_be(x.proof.plen as u64));
    }
}

impl TxKernel {
    /// Whether the kernel is that of a block's reward.
    pub fn is_coinbase(&self) -> (r: bool)
        ensures
            r == (self.features == KernelFeatures::Coinbase),
    {
        match self.features {
            KernelFeatures::Coinbase => true,
            _ => false,
        }
    }

    /// The excess commitment of the kernel.
    pub fn excess(&self) -> (c: Commitment)
        ensures
            c == self.excess,
    {
        self.excess
    }
}

/// The fee that the bytes of a kernel announce.
pub open spec fn spec_kernel_fee(s: Seq<u8>, pos: int) -> u64 {
    be_u64(s.subrange(pos + 1, pos + 9))
}

/// The lock height that the bytes of a kernel announce.
pub open spec fn spec_kernel_lock(s: Seq<u8>, pos: int) -> u64 {
    be_u64(s.subrange(pos + 9, pos + 17))
}

impl Wire for TxKernel {
    open spec fn wf(&self) -> bool {
        true
    }

    open spec fn ser(&self) -> Seq<u8> {
        seq![self.features.tag()] + u64_be(self.features.spec_fee()) + u64_be(
            self.features.spec_lock_height(),
        ) + self.excess.0@ + self.excess_sig.0@
    }

    open spec fn read_err(s: Seq<u8>, pos: int) -> Option<SerError> {
        if pos + 17 > s.len() {
            Some(SerError::UnexpectedEof)
        } else if !KernelFeatures::spec_fields_valid(
            s[pos],
            spec_kernel_fee(s, pos),
            spec_kernel_lock(s, pos),
        ) {
            Some(SerError::CorruptedData)
        } else if pos + KERNEL_LEN > s.len() {
            Some(SerError::UnexpectedEof)
        } else {
            None
        }
    }

    open spec fn read_len(s: Seq<u8>, pos: int) -> int {
        KERNEL_LEN as int
    }

    #[verifier::rlimit(40)]
    fn write(&self, out: &mut Vec<u8>) {
        proof {
            lemma_be_round_trip();
        }
        write_u8(out, self.features.as_u8());
        write_u64(out, self.features.fee());
        write_u64(out, self.features.lock_height());
        write_bytes(out, self.excess.0.as_slice());
        write_bytes(out, self.excess_sig.0.as_slice());
        assert(out@ =~= old(out)@ + self.ser());
    }

    #[verifier::rlimit(40)]
    fn read(buf: &[u8], pos: usize) -> (r: Result<(Self, usize), SerError>) {
        let (tag, p1) = match read_u8(buf, pos) {
            Ok(v) => v,
            Err(e) => { return Err(e); },
        };
        let (fee, p2) = match read_u64(buf, p1) {
            Ok(v) => v,
            Err(e) => { return Err(e); },
        };
        let (lock_height, p3) = match read_u64(buf, p2) {
            Ok(v) => v,
            Err(e) => { return Err(e); },
        };
        let features = match KernelFeatures::from_fields(tag, fee, lock_height) {
            Some(f) => f,
            None => { return Err(SerError::CorruptedData); },
        };
        let (excess, p4) = match read_array::<33>(buf, p3) {
            Ok(v) => v,
            Err(e) => { return Err(e); },
        };
        let (sig, p5) = match read_array::<64>(buf, p4) {
            Ok(v) => v,
            Err(e) => { return Err(e); },
        };
        let x = TxKernel { features, excess: Commitment(excess), excess_sig: Signature(sig) };
        proof {
            lemma_be_round_trip_bytes();
            assert(x.ser() =~= buf@.subrange(pos as int, p5 as int));
        }
        Ok((x, p5))
    }

    #[verifier::rlimit(40)]
    proof fn lemma_ser_injective(a: Self, b: Self) {
        lemma_be_round_trip();
        assert(a.ser()[0] == a.features.tag());
        assert(b.ser()[0] == b.features.tag());
        assert(u64_be(a.features.spec_fee()) =~= a.ser().subrange(1, 9));
        assert(u64_be(b.features.spec_fee()) =~= b.ser().subrange(1, 9));
        assert(u64_be(a.features.spec_lock_height()) =~= a.ser().subrange(9, 17));
        assert(u64_be(b.features.spec_lock_height()) =~= b.ser().subrange(9, 17));
        assert(a.features == b.features);
        assert forall|i: int| 0 <= i < 33 implies a.excess.0@[i] == b.excess.0@[i] by {
            assert(a.ser()[i + 17] == a.excess.0@[i]);
            assert(b.ser()[i + 17] == b.excess.0@[i]);
        }
        assert(a.excess.0 =~= b.excess.0);
        assert forall|i: int| 0 <= i < 64 implies a.excess_sig.0@[i] == b.excess_sig.0@[i] by {
            assert(a.ser()[i + 50] == a.excess_sig.0@[i]);
            assert(b.ser()[i + 50] == b.excess_sig.0@[i]);
        }
        assert(a.excess_sig.0 =~= b.excess_sig.0);
    }

    #[verifier::rlimit(40)]
    proof fn lemma_readable(x: Self, s: Seq<u8>, pos: int) {
        lemma_be_round_trip();
        let sub = s.subrange(pos, pos + x.ser().len());
        assert(s[pos] == sub[0]);
        assert(s.subrange(pos + 1, pos + 9) =~= sub.subrange(1, 9));
        assert(sub.subrange(1, 9) =~= u64_be(x.features.spec_fee()));
        assert(s.subrange(pos + 9, pos + 17) =~= sub.subrange(9, 17));
        assert(sub.subrange(9, 17) =~= u64_be(x.features.spec_lock_height()));
    }
}

/// Why a transaction or a body is refused.
#[derive(Clone, Copy, Debug, PartialEq, Eq)]
pub enum TxError {
    /// The sums of the commitments do not balance.
    KernelSumMismatch,
    /// The body weighs more than its limit.
    TooHeavy,
    /// A signature does not verify.
    IncorrectSignature,
    /// An input spends an output of the same body.
    CutThrough,
    /// Two inputs of what is being put together spend the same commitment,
    /// or two outputs carry the same.
    AggregationError,
    /// A coinbase output is spent before it has matured.
    ImmatureCoinbase,
    /// The curve library reported an error.
    Secp(SecpError),
    /// A sum of commitments or offsets could not be made.
    Committed(CommittedError),
}

/// By which limit the weight of a body is judged.
#[derive(Clone, Copy, Debug, PartialEq, Eq)]
pub enum Weighting {
    /// As a transaction: a block's limit less the room for a reward.
    AsTransaction,
    /// As a transaction under a limit of its own.
    AsLimitedTransaction(u64),
    /// As a block.
    AsBlock,
    /// Without a limit.
    NoLimit,
}

/// The weight that a reward takes in a block: one output and one kernel.
pub open spec fn spec_reward_weight() -> u64 {
    (BLOCK_OUTPUT_WEIGHT + BLOCK_KERNEL_WEIGHT) as u64
}

impl Weighting {
    /// The greatest weight that the limit admits; `None` for no limit.
    pub open spec fn spec_limit(self) -> Option<u64> {
        match self {
            Weighting::AsTransaction => Some((MAX_BLOCK_WEIGHT - spec_reward_weight()) as u64),
            Weighting::AsLimitedTransaction(max) => {
                let least = if max < MAX_BLOCK_WEIGHT {
                    max
                } else {
                    MAX_BLOCK_WEIGHT
                };
                if least < spec_reward_weight() {
                    Some(0)
                } else {
                    Some((least - spec_reward_weight()) as u64)
                }
            },
            Weighting::AsBlock => Some(MAX_BLOCK_WEIGHT),
            Weighting::NoLimit => None,
        }
    }

    /// The greatest weight that the limit admits.
    pub fn limit(&self) -> (r: Option<u64>)
        ensures
            r == self.spec_limit(),
    {
        let reward_weight: u64 = BLOCK_OUTPUT_WEIGHT + BLOCK_KERNEL_WEIGHT;
        match self {
            Weighting::AsTransaction => Some(MAX_BLOCK_WEIGHT - reward_weight),
            Weighting::AsLimitedTransaction(max) => {
                let least: u64 = if *max < MAX_BLOCK_WEIGHT {
                    *max
                } else {
                    MAX_BLOCK_WEIGHT
                };
                if least < reward_weight {
                    Some(0)
                } else {
                    Some(least - reward_weight)
                }
            },
            Weighting::AsBlock => Some(MAX_BLOCK_WEIGHT),
            Weighting::NoLimit => None,
        }
    }
}

/// The bytes whose hash a kernel's signature is made over: the kind, and
/// the fee and lock height where the kind has them.
pub open spec fn spec_kernel_msg_bytes(features: KernelFeatures) -> Seq<u8> {
    match features {
        KernelFeatures::Plain { fee } => seq![0u8] + u64_be(fee),
        KernelFeatures::Coinbase => seq![1u8],
        KernelFeatures::HeightLocked { fee, lock_height } => seq![2u8] + u64_be(fee) + u64_be(
            lock_height,
        ),
    }
}

/// Whether a kernel's signature verifies: the excess must be a curve point
/// and the signature one made with it over the hash of the features.
pub open spec fn spec_kernel_verify(k: TxKernel) -> Result<(), TxError> {
    match spec_commit_to_pubkey(k.excess) {
        Err(e) => Err(TxError::Secp(e)),
        Ok(key) => if spec_aggsig_valid(
            spec_blake2b(spec_kernel_msg_bytes(k.features)).0@,
            k.excess_sig,
            key,
        ) {
            Ok(())
        } else {
            Err(TxError::IncorrectSignature)
        },
    }
}

/// Whether an output's range proof verifies. A proof that is longer than a
/// proof can be, or that the curve library finds wrong, is reported as an
/// invalid range proof, any other failure as the curve library reports it.
pub open spec fn spec_output_verify(o: Output) -> Result<(), TxError> {
    if o.proof.plen > MAX_PROOF_LEN {
        Err(TxError::Secp(SecpError::InvalidRangeProof))
    } else {
        spec_proof_verify(o)
    }
}

/// What the curve library says of an output's range proof.
pub open spec fn spec_proof_verify(o: Output) -> Result<(), TxError> {
    match spec_bullet_proof_check(o.commit, o.proof.bytes()) {
        Ok(()) => Ok(()),
        Err(SecpError::InvalidBulletproof) => Err(TxError::Secp(SecpError::InvalidRangeProof)),
        Err(e) => Err(TxError::Secp(e)),
    }
}

/// Whether an asset action passes the check that needs no ledger.
pub open spec fn spec_action_verify(a: AssetAction) -> Result<(), TxError> {
    if a.spec_validate() {
        Ok(())
    } else {
        Err(TxError::IncorrectSignature)
    }
}

impl TxKernel {
    /// The bytes whose hash the signature is made over.
    pub fn msg_bytes(&self) -> (bytes: Vec<u8>)
        ensures
            bytes@ == spec_kernel_msg_bytes(self.features),
    {
        let mut out: Vec<u8> = Vec::new();
        match self.features {
            KernelFeatures::Plain { fee } => {
                write_u8(&mut out, 0);
                write_u64(&mut out, fee);
            },
            KernelFeatures::Coinbase => {
                write_u8(&mut out, 1);
            },
            KernelFeatures::HeightLocked { fee, lock_height } => {
                write_u8(&mut out, 2);
                write_u64(&mut out, fee);
                write_u64(&mut out, lock_height);
            },
        }
        assert(out@ =~= spec_kernel_msg_bytes(self.features));
        out
    }

    /// The message that the signature is made over.
    pub fn msg_to_sign(&self) -> (msg: crate::hash::Hash)
        ensures
            msg == spec_blake2b(spec_kernel_msg_bytes(self.features)),
    {
        let bytes = self.msg_bytes();
        blake2b(bytes.as_slice())
    }

    /// Verifies the kernel's signature.
    pub fn verify(&self) -> (r: Result<(), TxError>)
        ensures
            r == spec_kernel_verify(*self),
    {
        let key = match commit_to_pubkey(&self.excess) {
            Ok(k) => k,
            Err(e) => { return Err(TxError::Secp(e)); },
        };
        let msg = self.msg_to_sign();
        if aggsig_verify(&msg.0, &self.excess_sig, &key) {
            Ok(())
        } else {
            Err(TxError::IncorrectSignature)
        }
    }
}

impl Output {
    /// Whether two outputs are the same in every field.
    pub fn same(&self, other: &Output) -> (r: bool)
        ensures
            r == (*self == *other),
    {
        let r = self.features == other.features && self.commit.same(&other.commit)
            && self.proof.plen == other.proof.plen && crate::ser::bytes_eq(
            self.proof.proof.as_slice(),
            other.proof.proof.as_slice(),
        );
        proof {
            if r {
                assert(self.proof.proof =~= other.proof.proof);
            }
        }
        r
    }

    /// Verifies the output's range proof.
    pub fn verify_proof(&self) -> (r: Result<(), TxError>)
        ensures
            r == spec_output_verify(*self),
    {
        if self.proof.plen > MAX_PROOF_LEN {
            return Err(TxError::Secp(SecpError::InvalidRangeProof));
        }
        match bullet_proof_check(&self.commit, &self.proof) {
            Ok(()) => Ok(()),
            Err(SecpError::InvalidBulletproof) => Err(TxError::Secp(SecpError::InvalidRangeProof)),
            Err(e) => Err(TxError::Secp(e)),
        }
    }
}

/// The inputs, outputs, kernels and asset actions of a transaction or block.
#[derive(Clone, Debug, PartialEq, Eq)]
pub struct TransactionBody {
    pub inputs: Vec<Input>,
    pub outputs: Vec<Output>,
    pub kernels: Vec<TxKernel>,
    pub assets: Vec<AssetAction>,
}

/// The commitments that a list of inputs spends.
pub open spec fn spec_input_commits(inputs: Seq<Input>) -> Seq<Commitment> {
    inputs.map_values(|i: Input| i.commit)
}

/// The commitments of a list of outputs.
pub open spec fn spec_output_commits(outputs: Seq<Output>) -> Seq<Commitment> {
    outputs.map_values(|o: Output| o.commit)
}

/// The excess commitments of a list of kernels.
pub open spec fn spec_kernel_commits(kernels: Seq<TxKernel>) -> Seq<Commitment> {
    kernels.map_values(|k: TxKernel| k.excess)
}

/// Whether one of the inputs spends the commitment.
pub open spec fn spec_spends(inputs: Seq<Input>, c: Commitment) -> bool {
    exists|i: int| 0 <= i < inputs.len() && (#[trigger] inputs[i]).commit == c
}

/// Whether one of the outputs carries the commitment.
pub open spec fn spec_creates(outputs: Seq<Output>, c: Commitment) -> bool {
    exists|i: int| 0 <= i < outputs.len() && (#[trigger] outputs[i]).commit == c
}

/// Whether an input spends an output of the same lists.
pub open spec fn spec_overlap(inputs: Seq<Input>, outputs: Seq<Output>) -> bool {
    exists|i: int| 0 <= i < inputs.len() && spec_creates(outputs, (#[trigger] inputs[i]).commit)
}

/// Whether no two outputs carry the same commitment.
pub open spec fn spec_outputs_unique(outputs: Seq<Output>) -> bool {
    forall|i: int, j: int|
        0 <= i < j < outputs.len() ==> (#[trigger] outputs[i]).commit != (
        #[trigger] outputs[j]).commit
}

/// Whether no two inputs spend the same commitment.
pub open spec fn spec_inputs_unique(inputs: Seq<Input>) -> bool {
    forall|i: int, j: int|
        0 <= i < j < inputs.len() ==> (#[trigger] inputs[i]).commit != (
        #[trigger] inputs[j]).commit
}

/// Whether cut-through can be done on the lists: no two inputs spend the
/// same commitment, and no two outputs carry the same. An input then
/// matches at most one output and an output at most one input, so that what
/// cut-through removes are pairs.
pub open spec fn spec_cuttable(inputs: Seq<Input>, outputs: Seq<Output>) -> bool {
    spec_inputs_unique(inputs) && spec_outputs_unique(outputs)
}

/// The inputs that are left after cut-through: those that spend none of the
/// outputs, in their order.
pub open spec fn spec_cut_inputs(inputs: Seq<Input>, outputs: Seq<Output>) -> Seq<Input> {
    inputs.filter(|i: Input| !spec_creates(outputs, i.commit))
}

/// The outputs that are left after cut-through: those that none of the
/// inputs spends, in their order.
pub open spec fn spec_cut_outputs(inputs: Seq<Input>, outputs: Seq<Output>) -> Seq<Output> {
    outputs.filter(|o: Output| !spec_spends(inputs, o.commit))
}

/// The sum of two fees, held at the greatest 64-bit value.
pub open spec fn spec_sat_add(a: u64, b: u64) -> u64 {
    if a + b > u64::MAX {
        u64::MAX
    } else {
        (a + b) as u64
    }
}

/// The fees of a list of kernels, summed from the first on and held at the
/// greatest 64-bit value.
pub open spec fn spec_fee(kernels: Seq<TxKernel>) -> u64
    decreases kernels.len(),
{
    if kernels.len() == 0 {
        0
    } else {
        spec_sat_add(spec_fee(kernels.drop_last()), kernels.last().features.spec_fee())
    }
}

/// The weight of a body with so many inputs, outputs and kernels, held at
/// the greatest 64-bit value.
pub open spec fn spec_weight(inputs: nat, outputs: nat, kernels: nat) -> u64 {
    let w = inputs * BLOCK_INPUT_WEIGHT + outputs * BLOCK_OUTPUT_WEIGHT + kernels
        * BLOCK_KERNEL_WEIGHT;
    if w > u64::MAX {
        u64::MAX
    } else {
        w as u64
    }
}

/// The weight of so many inputs, outputs and kernels, not held at a limit.
pub fn weight_of(inputs: u64, outputs: u64, kernels: u64) -> (w: u128)
    ensures
        w == inputs * BLOCK_INPUT_WEIGHT + outputs * BLOCK_OUTPUT_WEIGHT + kernels
            * BLOCK_KERNEL_WEIGHT,
{
    let a: u128 = inputs as u128;
    let b: u128 = outputs as u128;
    let c: u128 = kernels as u128;
    assert(a * 1 + b * 21 + c * 3 <= 25 * 0xffff_ffff_ffff_ffff) by (nonlinear_arith)
        requires
            a <= 0xffff_ffff_ffff_ffff,
            b <= 0xffff_ffff_ffff_ffff,
            c <= 0xffff_ffff_ffff_ffff,
    ;
    a * 1 + b * 21 + c * 3
}

/// The answer of a check on the first item that fails it.
pub open spec fn spec_first_err<T>(
    items: Seq<T>,
    check: spec_fn(T) -> Result<(), TxError>,
) -> Result<(), TxError>
    decreases items.len(),
{
    if items.len() == 0 {
        Ok(())
    } else {
        match check(items[0]) {
            Err(e) => Err(e),
            Ok(()) => spec_first_err(items.skip(1), check),
        }
    }
}

/// The commitment to the amount of an action under the generator of its
/// asset.
pub open spec fn spec_asset_commit_of(action: AssetAction) -> Result<Commitment, SecpError> {
    spec_asset_commit(action.spec_amount(), action.spec_asset())
}

/// The commitments that the asset actions add to and take from the supply:
/// `New` and `Issue` add the commitment to their amount of their asset,
/// `Withdraw` takes it, `ChangeOwner` does neither. The first action whose
/// commitment cannot be made gives its error.
pub open spec fn spec_mint_terms(actions: Seq<AssetAction>) -> Result<
    (Seq<Commitment>, Seq<Commitment>),
    SecpError,
>
    decreases actions.len(),
{
    if actions.len() == 0 {
        Ok((Seq::empty(), Seq::empty()))
    } else {
        match spec_mint_terms(actions.drop_last()) {
            Err(e) => Err(e),
            Ok((added, taken)) => {
                let a = actions.last();
                if a is ChangeOwner {
                    Ok((added, taken))
                } else {
                    match spec_asset_commit(a.spec_amount(), a.spec_asset()) {
                        Err(e) => Err(e),
                        Ok(c) => if a is Withdraw {
                            Ok((added, taken.push(c)))
                        } else {
                            Ok((added.push(c), taken))
                        },
                    }
                }
            },
        }
    }
}

/// The issuance overage of a list of asset actions: what they add to the
/// supply less what they take, as one commitment; none where no action
/// changes a supply, and the one commitment itself where one action adds
/// and none takes.
pub open spec fn spec_mint_overage(actions: Seq<AssetAction>) -> Result<
    Option<Commitment>,
    TxError,
> {
    match spec_mint_terms(actions) {
        Err(e) => Err(TxError::Secp(e)),
        Ok((added, taken)) => if added.len() == 0 && taken.len() == 0 {
            Ok(None)
        } else if added.len() == 1 && taken.len() == 0 {
            Ok(Some(added[0]))
        } else {
            match spec_commit_sum(added, taken) {
                Ok(c) => Ok(Some(c)),
                Err(e) => Err(TxError::Secp(e)),
            }
        },
    }
}

/// The commitments on the spending side of the balance: those of the
/// inputs, then the overage where it is negative, then the issuance overage.
pub open spec fn spec_negative_side(
    inputs: Seq<Input>,
    overage: i64,
    over: Commitment,
    mint: Option<Commitment>,
) -> Seq<Commitment> {
    let with_over = if overage < 0 {
        spec_input_commits(inputs).push(over)
    } else {
        spec_input_commits(inputs)
    };
    match mint {
        Some(m) => with_over.push(m),
        None => with_over,
    }
}

/// The commitments on the creating side of the balance: those of the
/// outputs, then the overage where it is positive.
pub open spec fn spec_positive_side(outputs: Seq<Output>, overage: i64, over: Commitment) -> Seq<
    Commitment,
> {
    if overage > 0 {
        spec_output_commits(outputs).push(over)
    } else {
        spec_output_commits(outputs)
    }
}

/// Outputs less inputs, with the overage and the issuance overage.
pub open spec fn spec_utxo_sum(
    inputs: Seq<Input>,
    outputs: Seq<Output>,
    overage: i64,
    mint: Option<Commitment>,
) -> Result<Commitment, CommittedError> {
    if overage == 0 {
        // No commitment is made for an overage of nothing.
        spec_sum_commits(
            spec_output_commits(outputs),
            match mint {
                Some(m) => spec_input_commits(inputs).push(m),
                None => spec_input_commits(inputs),
            },
        )
    } else {
        match spec_over_commit(overage) {
            Err(e) => Err(e),
            Ok(over) => spec_sum_commits(
                spec_positive_side(outputs, overage, over),
                spec_negative_side(inputs, overage, over, mint),
            ),
        }
    }
}

/// The sum of the kernel excesses, alone and with the offset's commitment.
pub open spec fn spec_kernel_sums(kernels: Seq<TxKernel>, offset: BlindingFactor) -> Result<
    (Commitment, Commitment),
    CommittedError,
> {
    match spec_sum_commits(spec_kernel_commits(kernels), Seq::empty()) {
        Err(e) => Err(e),
        Ok(sum) => match spec_add_offset(sum, offset) {
            Err(e) => Err(e),
            Ok(with_offset) => Ok((sum, with_offset)),
        },
    }
}

impl TransactionBody {
    /// Whether every item of the body is one that reading gives.
    pub open spec fn wf(&self) -> bool {
        &&& crate::ser::all_wf(self.inputs@)
        &&& crate::ser::all_wf(self.outputs@)
        &&& crate::ser::all_wf(self.kernels@)
        &&& crate::ser::all_wf(self.assets@)
    }

    /// The weight of the body as part of a block.
    pub open spec fn spec_body_weight(&self) -> u64 {
        spec_weight(self.inputs@.len(), self.outputs@.len(), self.kernels@.len())
    }

    /// What the checks that need no cryptography say of the body: it must
    /// not weigh more than its limit, and no input may spend one of its
    /// outputs.
    pub open spec fn spec_validate_read(&self, weighting: Weighting) -> Result<(), TxError> {
        if self.spec_too_heavy(weighting) {
            Err(TxError::TooHeavy)
        } else if spec_overlap(self.inputs@, self.outputs@) {
            Err(TxError::CutThrough)
        } else {
            Ok(())
        }
    }

    /// What full validation says of the body: the checks that need no
    /// cryptography, then the range proof of every output, the signature of
    /// every kernel, and the signature of every asset action that names its
    /// owner. The first check that fails gives its error.
    pub open spec fn spec_validate(&self, weighting: Weighting) -> Result<(), TxError> {
        match self.spec_validate_read(weighting) {
            Err(e) => Err(e),
            Ok(()) => match spec_first_err(self.outputs@, |o: Output| spec_output_verify(o)) {
                Err(e) => Err(e),
                Ok(()) => match spec_first_err(self.kernels@, |k: TxKernel| spec_kernel_verify(k)) {
                    Err(e) => Err(e),
                    Ok(()) => spec_first_err(self.assets@, |a: AssetAction| spec_action_verify(a)),
                },
            },
        }
    }

    /// What the balance check says: outputs less inputs, with the overage
    /// and the issuance overage, must equal the kernel excesses plus the
    /// offset's commitment. Gives both sums.
    pub open spec fn spec_verify_kernel_sums(
        &self,
        overage: i64,
        mint: Option<Commitment>,
        offset: BlindingFactor,
    ) -> Result<(Commitment, Commitment), CommittedError> {
        match spec_utxo_sum(self.inputs@, self.outputs@, overage, mint) {
            Err(e) => Err(e),
            Ok(utxo_sum) => match spec_kernel_sums(self.kernels@, offset) {
                Err(e) => Err(e),
                Ok((kernel_sum, with_offset)) => if utxo_sum != with_offset {
                    Err(CommittedError::KernelSumMismatch)
                } else {
                    Ok((utxo_sum, kernel_sum))
                },
            },
        }
    }

    /// A body with nothing in it.
    pub fn empty() -> (body: TransactionBody)
        ensures
            body.inputs@.len() == 0,
            body.outputs@.len() == 0,
            body.kernels@.len() == 0,
            body.assets@.len() == 0,
            body.wf(),
    {
        TransactionBody {
            inputs: Vec::new(),
            outputs: Vec::new(),
            kernels: Vec::new(),
            assets: Vec::new(),
        }
    }

    /// A body with the given lists.
    pub fn init(
        inputs: Vec<Input>,
        outputs: Vec<Output>,
        kernels: Vec<TxKernel>,
        assets: Vec<AssetAction>,
    ) -> (body: TransactionBody)
        ensures
            body.inputs == inputs,
            body.outputs == outputs,
            body.kernels == kernels,
            body.assets == assets,
    {
        TransactionBody { inputs, outputs, kernels, assets }
    }

    /// The commitments that the inputs spend.
    pub fn inputs_committed(&self) -> (r: Vec<Commitment>)
        ensures
            r@ == spec_input_commits(self.inputs@),
    {
        let mut r: Vec<Commitment> = Vec::new();
        let n = self.inputs.len();
        let mut i: usize = 0;
        while i < n
            invariant
                n == self.inputs@.len(),
                i <= n,
                r@ == spec_input_commits(self.inputs@.take(i as int)),
            decreases n - i,
        {
            r.push(self.inputs[i].commit);
            i += 1;
            assert(r@ =~= spec_input_commits(self.inputs@.take(i as int)));
        }
        assert(self.inputs@.take(n as int) =~= self.inputs@);
        r
    }

    /// The commitments of the outputs.
    pub fn outputs_committed(&self) -> (r: Vec<Commitment>)
        ensures
            r@ == spec_output_commits(self.outputs@),
    {
        let mut r: Vec<Commitment> = Vec::new();
        let n = self.outputs.len();
        let mut i: usize = 0;
        while i < n
            invariant
                n == self.outputs@.len(),
                i <= n,
                r@ == spec_output_commits(self.outputs@.take(i as int)),
            decreases n - i,
        {
            r.push(self.outputs[i].commit);
            i += 1;
            assert(r@ =~= spec_output_commits(self.outputs@.take(i as int)));
        }
        assert(self.outputs@.take(n as int) =~= self.outputs@);
        r
    }

    /// The excess commitments of the kernels.
    pub fn kernels_committed(&self) -> (r: Vec<Commitment>)
        ensures
            r@ == spec_kernel_commits(self.kernels@),
    {
        let mut r: Vec<Commitment> = Vec::new();
        let n = self.kernels.len();
        let mut i: usize = 0;
        while i < n
            invariant
                n == self.kernels@.len(),
                i <= n,
                r@ == spec_kernel_commits(self.kernels@.take(i as int)),
            decreases n - i,
        {
            r.push(self.kernels[i].excess);
            i += 1;
            assert(r@ =~= spec_kernel_commits(self.kernels@.take(i as int)));
        }
        assert(self.kernels@.take(n as int) =~= self.kernels@);
        r
    }

    /// The fees of all kernels together.
    pub fn fee(&self) -> (r: u64)
        ensures
            r == spec_fee(self.kernels@),
    {
        let mut total: u64 = 0;
        let n = self.kernels.len();
        let mut i: usize = 0;
        while i < n
            invariant
                n == self.kernels@.len(),
                i <= n,
                total == spec_fee(self.kernels@.take(i as int)),
            decreases n - i,
        {
            proof {
                let next = self.kernels@.take(i + 1);
                assert(next.drop_last() =~= self.kernels@.take(i as int));
            }
            total = total.saturating_add(self.kernels[i].features.fee());
            i += 1;
        }
        assert(self.kernels@.take(n as int) =~= self.kernels@);
        total
    }

    /// The weight of the body as part of a block.
    pub fn body_weight_as_block(&self) -> (r: u64)
        ensures
            r == self.spec_body_weight(),
    {
        let w: u128 = weight_of(
            self.inputs.len() as u64,
            self.outputs.len() as u64,
            self.kernels.len() as u64,
        );
        if w > u64::MAX as u128 {
            u64::MAX
        } else {
            w as u64
        }
    }

    /// Whether the body weighs more than the limit admits.
    pub open spec fn spec_too_heavy(&self, weighting: Weighting) -> bool {
        match weighting.spec_limit() {
            Some(max) => self.spec_body_weight() > max,
            None => false,
        }
    }

    /// Checks the weight of the body against its limit.
    pub fn verify_weight(&self, weighting: Weighting) -> (r: Result<(), TxError>)
        ensures
            r == (if self.spec_too_heavy(weighting) {
                Err::<(), TxError>(TxError::TooHeavy)
            } else {
                Ok::<(), TxError>(())
            }),
    {
        match weighting.limit() {
            None => Ok(()),
            Some(max) => if self.body_weight_as_block() > max {
                Err(TxError::TooHeavy)
            } else {
                Ok(())
            },
        }
    }

    /// Checks that no input spends an output of the same body.
    pub fn verify_cut_through(&self) -> (r: Result<(), TxError>)
        ensures
            r == (if spec_overlap(self.inputs@, self.outputs@) {
                Err::<(), TxError>(TxError::CutThrough)
            } else {
                Ok::<(), TxError>(())
            }),
    {
        let n = self.inputs.len();
        let mut i: usize = 0;
        while i < n
            invariant
                n == self.inputs@.len(),
                i <= n,
                forall|j: int| 0 <= j < i ==> !spec_creates(self.outputs@, self.inputs@[j].commit),
            decreases n - i,
        {
            if creates(&self.outputs, &self.inputs[i].commit) {
                return Err(TxError::CutThrough);
            }
            i += 1;
        }
        Ok(())
    }

    /// The checks that need no cryptography.
    pub fn validate_read(&self, weighting: Weighting) -> (r: Result<(), TxError>)
        ensures
            r == self.spec_validate_read(weighting),
    {
        match self.verify_weight(weighting) {
            Err(e) => { return Err(e); },
            Ok(()) => {},
        }
        self.verify_cut_through()
    }

    /// Full validation of the body. What the cache holds is not verified
    /// again, and what is found right is added to it; the answer is the
    /// same whatever the cache holds.
    pub fn validate(&self, weighting: Weighting, verifier: &mut VerifierCache) -> (r: Result<
        (),
        TxError,
    >)
        requires
            old(verifier).wf(),
        ensures
            r == self.spec_validate(weighting),
            final(verifier).wf(),
    {
        match self.validate_read(weighting) {
            Err(e) => { return Err(e); },
            Ok(()) => {},
        }
        let ghost check_out = |o: Output| spec_output_verify(o);
        let n = self.outputs.len();
        let mut i: usize = 0;
        assert(self.outputs@.skip(0) =~= self.outputs@);
        while i < n
            invariant
                n == self.outputs@.len(),
                i <= n,
                verifier.wf(),
                self.spec_validate_read(weighting) is Ok,
                check_out == |o: Output| spec_output_verify(o),
                spec_first_err(self.outputs@, check_out) == spec_first_err(
                    self.outputs@.skip(i as int),
                    check_out,
                ),
            decreases n - i,
        {
            proof {
                assert(self.outputs@.skip(i as int).skip(1) =~= self.outputs@.skip(i + 1));
                assert(self.outputs@.skip(i as int)[0] == self.outputs@[i as int]);
            }
            if !verifier.is_rangeproof_verified(&self.outputs[i]) {
                match self.outputs[i].verify_proof() {
                    Err(e) => { return Err(e); },
                    Ok(()) => {},
                }
                verifier.add_rangeproof_verified(self.outputs[i]);
            }
            i += 1;
        }
        let ghost check_kern = |k: TxKernel| spec_kernel_verify(k);
        let n = self.kernels.len();
        let mut i: usize = 0;
        assert(self.kernels@.skip(0) =~= self.kernels@);
        while i < n
            invariant
                n == self.kernels@.len(),
                i <= n,
                verifier.wf(),
                self.spec_validate_read(weighting) is Ok,
                spec_first_err(self.outputs@, |o: Output| spec_output_verify(o)) is Ok,
                check_kern == |k: TxKernel| spec_kernel_verify(k),
                spec_first_err(self.kernels@, check_kern) == spec_first_err(
                    self.kernels@.skip(i as int),
                    check_kern,
                ),
            decreases n - i,
        {
            proof {
                assert(self.kernels@.skip(i as int).skip(1) =~= self.kernels@.skip(i + 1));
                assert(self.kernels@.skip(i as int)[0] == self.kernels@[i as int]);
            }
            if !verifier.is_kernel_sig_verified(&self.kernels[i]) {
                match self.kernels[i].verify() {
                    Err(e) => { return Err(e); },
                    Ok(()) => {},
                }
                verifier.add_kernel_sig_verified(self.kernels[i]);
            }
            i += 1;
        }
        let ghost check_act = |a: AssetAction| spec_action_verify(a);
        let n = self.assets.len();
        let mut i: usize = 0;
        assert(self.assets@.skip(0) =~= self.assets@);
        while i < n
            invariant
                n == self.assets@.len(),
                i <= n,
                verifier.wf(),
                self.spec_validate_read(weighting) is Ok,
                spec_first_err(self.outputs@, |o: Output| spec_output_verify(o)) is Ok,
                spec_first_err(self.kernels@, |k: TxKernel| spec_kernel_verify(k)) is Ok,
                check_act == |a: AssetAction| spec_action_verify(a),
                spec_first_err(self.assets@, check_act) == spec_first_err(
                    self.assets@.skip(i as int),
                    check_act,
                ),
            decreases n - i,
        {
            proof {
                assert(self.assets@.skip(i as int).skip(1) =~= self.assets@.skip(i + 1));
                assert(self.assets@.skip(i as int)[0] == self.assets@[i as int]);
            }
            if !self.assets[i].validate() {
                return Err(TxError::IncorrectSignature);
            }
            i += 1;
        }
        Ok(())
    }

    /// The issuance overage of the body's asset actions.
    #[verifier::rlimit(40)]
    pub fn mint_overage(&self) -> (r: Result<Option<Commitment>, TxError>)
        ensures
            r == spec_mint_overage(self.assets@),
    {
        let mut added: Vec<Commitment> = Vec::new();
        let mut taken: Vec<Commitment> = Vec::new();
        let n = self.assets.len();
        let mut i: usize = 0;
        assert(self.assets@.take(0) =~= Seq::<AssetAction>::empty());
        while i < n
            invariant
                n == self.assets@.len(),
                i <= n,
                spec_mint_terms(self.assets@.take(i as int)) == Ok::<
                    (Seq<Commitment>, Seq<Commitment>),
                    SecpError,
                >((added@, taken@)),
            decreases n - i,
        {
            proof {
                let next = self.assets@.take(i + 1);
                assert(next.drop_last() =~= self.assets@.take(i as int));
                assert(next.last() == self.assets@[i as int]);
                if spec_mint_terms(next) is Err {
                    lemma_mint_terms_err(self.assets@, i + 1);
                }
            }
            let a = &self.assets[i];
            match a {
                AssetAction::ChangeOwner(..) => {},
                AssetAction::Withdraw(..) => {
                    match commit_value_with_generator(a.amount(), &a.asset()) {
                        Ok(c) => {
                            taken.push(c);
                        },
                        Err(e) => {
                            return Err(TxError::Secp(e));
                        },
                    }
                },
                _ => {
                    match commit_value_with_generator(a.amount(), &a.asset()) {
                        Ok(c) => {
                            added.push(c);
                        },
                        Err(e) => {
                            return Err(TxError::Secp(e));
                        },
                    }
                },
            }
            i += 1;
        }
        assert(self.assets@.take(n as int) =~= self.assets@);
        if added.len() == 0 && taken.len() == 0 {
            return Ok(None);
        }
        if added.len() == 1 && taken.len() == 0 {
            return Ok(Some(added[0]));
        }
        match commit_sum(&added, &taken) {
            Ok(c) => Ok(Some(c)),
            Err(e) => Err(TxError::Secp(e)),
        }
    }

    /// Checks the balance of the body and gives the sum of outputs less
    /// inputs and the sum of the kernel excesses.
    pub fn verify_kernel_sums(
        &self,
        overage: i64,
        mint: Option<Commitment>,
        offset: BlindingFactor,
    ) -> (r: Result<(Commitment, Commitment), CommittedError>)
        ensures
            r == self.spec_verify_kernel_sums(overage, mint, offset),
    {
        let mut negative = self.inputs_committed();
        let mut positive = self.outputs_committed();
        if overage != 0 {
            let over = match over_commit(overage) {
                Ok(c) => c,
                Err(e) => { return Err(e); },
            };
            if overage < 0 {
                negative.push(over);
            } else {
                positive.push(over);
            }
        }
        match mint {
            Some(m) => {
                negative.push(m);
            },
            None => {},
        }
        let utxo_sum = match sum_commits(&positive, &negative) {
            Ok(c) => c,
            Err(e) => { return Err(e); },
        };
        let excesses = self.kernels_committed();
        let none: Vec<Commitment> = Vec::new();
        assert(none@ =~= Seq::<Commitment>::empty());
        let kernel_sum = match sum_commits(&excesses, &none) {
            Ok(c) => c,
            Err(e) => { return Err(e); },
        };
        let with_offset = match add_offset(&kernel_sum, &offset) {
            Ok(c) => c,
            Err(e) => { return Err(e); },
        };
        if !utxo_sum.same(&with_offset) {
            return Err(CommittedError::KernelSumMismatch);
        }
        Ok((utxo_sum, kernel_sum))
    }
}

/// Once the terms of the first actions cannot be made, those of more
/// actions cannot either, with the same error.
pub proof fn lemma_mint_terms_err(actions: Seq<AssetAction>, i: int)
    requires
        0 <= i <= actions.len(),
        spec_mint_terms(actions.take(i)) is Err,
    ensures
        spec_mint_terms(actions) == spec_mint_terms(actions.take(i)),
    decreases actions.len() - i,
{
    if i < actions.len() {
        let next = actions.take(i + 1);
        assert(next.drop_last() =~= actions.take(i));
        lemma_mint_terms_err(actions, i + 1);
    } else {
        assert(actions.take(i) =~= actions);
    }
}

/// Tells whether one of the outputs carries the commitment.
pub fn creates(outputs: &Vec<Output>, c: &Commitment) -> (r: bool)
    ensures
        r == spec_creates(outputs@, *c),
{
    let n = outputs.len();
    let mut i: usize = 0;
    while i < n
        invariant
            n == outputs@.len(),
            i <= n,
            forall|j: int| 0 <= j < i ==> outputs@[j].commit != *c,
        decreases n - i,
    {
        if outputs[i].commit.same(c) {
            return true;
        }
        i += 1;
    }
    false
}

/// Tells whether one of the inputs spends the commitment.
pub fn spends(inputs: &Vec<Input>, c: &Commitment) -> (r: bool)
    ensures
        r == spec_spends(inputs@, *c),
{
    let n = inputs.len();
    let mut i: usize = 0;
    while i < n
        invariant
            n == inputs@.len(),
            i <= n,
            forall|j: int| 0 <= j < i ==> inputs@[j].commit != *c,
        decreases n - i,
    {
        if inputs[i].commit.same(c) {
            return true;
        }
        i += 1;
    }
    false
}

/// Tells whether no two outputs carry the same commitment.
pub fn outputs_unique(outputs: &Vec<Output>) -> (r: bool)
    ensures
        r == spec_outputs_unique(outputs@),
{
    let n = outputs.len();
    let mut j: usize = 0;
    while j < n
        invariant
            n == outputs@.len(),
            j <= n,
            forall|a: int, b: int|
                0 <= a < b < j ==> (#[trigger] outputs@[a]).commit != (#[trigger] outputs@[b]).commit,
        decreases n - j,
    {
        let mut i: usize = 0;
        while i < j
            invariant
                n == outputs@.len(),
                i <= j < n,
                forall|a: int| 0 <= a < i ==> (#[trigger] outputs@[a]).commit != outputs@[j as int].commit,
            decreases j - i,
        {
            if outputs[i].commit.same(&outputs[j].commit) {
                return false;
            }
            i += 1;
        }
        j += 1;
    }
    true
}

/// Tells whether no two inputs spend the same commitment.
pub fn inputs_unique(inputs: &Vec<Input>) -> (r: bool)
    ensures
        r == spec_inputs_unique(inputs@),
{
    let n = inputs.len();
    let mut j: usize = 0;
    while j < n
        invariant
            n == inputs@.len(),
            j <= n,
            forall|a: int, b: int|
                0 <= a < b < j ==> (#[trigger] inputs@[a]).commit != (#[trigger] inputs@[b]).commit,
        decreases n - j,
    {
        let mut i: usize = 0;
        while i < j
            invariant
                n == inputs@.len(),
                i <= j < n,
                forall|a: int| 0 <= a < i ==> (#[trigger] inputs@[a]).commit != inputs@[j as int].commit,
            decreases j - i,
        {
            if inputs[i].commit.same(&inputs[j].commit) {
                return false;
            }
            i += 1;
        }
        j += 1;
    }
    true
}

/// Removes each output that one of the inputs spends, together with that
/// input. What is left keeps its order. Two inputs that spend the same
/// commitment, or two outputs that carry the same, are an error, and
/// nothing is changed: an input then matches at most one output, so that
/// inputs and outputs leave in pairs.
#[verifier::rlimit(40)]
pub fn cut_through(inputs: &mut Vec<Input>, outputs: &mut Vec<Output>) -> (r: Result<(), TxError>)
    ensures
        match r {
            Ok(()) => {
                &&& spec_cuttable(old(inputs)@, old(outputs)@)
                &&& final(inputs)@ == spec_cut_inputs(old(inputs)@, old(outputs)@)
                &&& final(outputs)@ == spec_cut_outputs(old(inputs)@, old(outputs)@)
            },
            Err(e) => {
                &&& e == TxError::AggregationError
                &&& !spec_cuttable(old(inputs)@, old(outputs)@)
                &&& final(inputs)@ == old(inputs)@
                &&& final(outputs)@ == old(outputs)@
            },
        },
{
    if !inputs_unique(inputs) || !outputs_unique(outputs) {
        return Err(TxError::AggregationError);
    }
    let ghost ins = inputs@;
    let ghost outs = outputs@;
    let ghost keep_in = |i: Input| !spec_creates(outs, i.commit);
    let ghost keep_out = |o: Output| !spec_spends(ins, o.commit);
    let mut new_inputs: Vec<Input> = Vec::new();
    let mut new_outputs: Vec<Output> = Vec::new();
    let n = inputs.len();
    let mut i: usize = 0;
    proof {
        reveal(Seq::filter);
        assert(ins.take(0).filter(keep_in) =~= Seq::<Input>::empty());
        assert(outs.take(0).filter(keep_out) =~= Seq::<Output>::empty());
    }
    while i < n
        invariant
            n == ins.len(),
            i <= n,
            inputs@ == ins,
            outputs@ == outs,
            keep_in == |i: Input| !spec_creates(outs, i.commit),
            new_inputs@ == ins.take(i as int).filter(keep_in),
        decreases n - i,
    {
        proof {
            assert(ins.take(i + 1) =~= ins.take(i as int).push(ins[i as int]));
            ins.take(i as int).lemma_filter_push(ins[i as int], keep_in);
        }
        if !creates(outputs, &inputs[i].commit) {
            new_inputs.push(inputs[i]);
        }
        i += 1;
    }
    let m = outputs.len();
    let mut j: usize = 0;
    while j < m
        invariant
            m == outs.len(),
            j <= m,
            inputs@ == ins,
            outputs@ == outs,
            keep_out == |o: Output| !spec_spends(ins, o.commit),
            new_outputs@ == outs.take(j as int).filter(keep_out),
        decreases m - j,
    {
        proof {
            assert(outs.take(j + 1) =~= outs.take(j as int).push(outs[j as int]));
            outs.take(j as int).lemma_filter_push(outs[j as int], keep_out);
        }
        if !spends(inputs, &outputs[j].commit) {
            new_outputs.push(outputs[j]);
        }
        j += 1;
    }
    proof {
        assert(ins.take(n as int) =~= ins);
        assert(outs.take(m as int) =~= outs);
    }
    *inputs = new_inputs;
    *outputs = new_outputs;
    Ok(())
}

/// A transaction: a body and the offset of its kernels.
#[derive(Clone, Debug, PartialEq, Eq)]
pub struct Transaction {
    pub offset: BlindingFactor,
    pub body: TransactionBody,
}

/// The inputs of a list of transactions, one transaction after the other.
pub open spec fn spec_all_inputs(txs: Seq<Transaction>) -> Seq<Input>
    decreases txs.len(),
{
    if txs.len() == 0 {
        Seq::empty()
    } else {
        spec_all_inputs(txs.drop_last()) + txs.last().body.inputs@
    }
}

/// The outputs of a list of transactions, one transaction after the other.
pub open spec fn spec_all_outputs(txs: Seq<Transaction>) -> Seq<Output>
    decreases txs.len(),
{
    if txs.len() == 0 {
        Seq::empty()
    } else {
        spec_all_outputs(txs.drop_last()) + txs.last().body.outputs@
    }
}

/// The kernels of a list of transactions, one transaction after the other.
pub open spec fn spec_all_kernels(txs: Seq<Transaction>) -> Seq<TxKernel>
    decreases txs.len(),
{
    if txs.len() == 0 {
        Seq::empty()
    } else {
        spec_all_kernels(txs.drop_last()) + txs.last().body.kernels@
    }
}

/// The asset actions of a list of transactions, one transaction after the
/// other.
pub open spec fn spec_all_assets(txs: Seq<Transaction>) -> Seq<AssetAction>
    decreases txs.len(),
{
    if txs.len() == 0 {
        Seq::empty()
    } else {
        spec_all_assets(txs.drop_last()) + txs.last().body.assets@
    }
}

/// The offsets of a list of transactions.
pub open spec fn spec_all_offsets(txs: Seq<Transaction>) -> Seq<BlindingFactor> {
    txs.map_values(|t: Transaction| t.offset)
}

/// The inputs of the aggregate of a list of transactions: those of a
/// single transaction as they are, those of several after cut-through.
pub open spec fn spec_agg_inputs(txs: Seq<Transaction>) -> Seq<Input> {
    if txs.len() <= 1 {
        spec_all_inputs(txs)
    } else {
        spec_cut_inputs(spec_all_inputs(txs), spec_all_outputs(txs))
    }
}

/// The outputs of the aggregate of a list of transactions: those of a
/// single transaction as they are, those of several after cut-through.
pub open spec fn spec_agg_outputs(txs: Seq<Transaction>) -> Seq<Output> {
    if txs.len() <= 1 {
        spec_all_outputs(txs)
    } else {
        spec_cut_outputs(spec_all_inputs(txs), spec_all_outputs(txs))
    }
}

/// The offset of the aggregate of a list of transactions: none for no
/// transaction, its own for a single one, the sum for several.
pub open spec fn spec_agg_offset(txs: Seq<Transaction>) -> Result<BlindingFactor, CommittedError> {
    if txs.len() == 0 {
        Ok(BlindingFactor::spec_zero())
    } else if txs.len() == 1 {
        Ok(txs[0].offset)
    } else {
        spec_sum_kernel_offsets(spec_all_offsets(txs), Seq::empty())
    }
}

/// Why a list of transactions has no aggregate, or `None` when it has one:
/// among several transactions no two inputs may spend the same commitment,
/// no two outputs may carry the same, and their offsets must have a sum.
pub open spec fn spec_agg_err(txs: Seq<Transaction>) -> Option<TxError> {
    if txs.len() <= 1 {
        None
    } else if !spec_cuttable(spec_all_inputs(txs), spec_all_outputs(txs)) {
        Some(TxError::AggregationError)
    } else {
        match spec_agg_offset(txs) {
            Err(e) => Some(TxError::Committed(e)),
            Ok(_) => None,
        }
    }
}

/// Whether `r` is what aggregating the transactions gives: the transaction
/// that holds all their items, cut through where there are several, with
/// the aggregate offset; or the reason why there is none.
pub open spec fn spec_is_aggregate(txs: Seq<Transaction>, r: Result<Transaction, TxError>) -> bool {
    match r {
        Ok(tx) => {
            &&& spec_agg_err(txs) is None
            &&& tx.body.inputs@ == spec_agg_inputs(txs)
            &&& tx.body.outputs@ == spec_agg_outputs(txs)
            &&& tx.body.kernels@ == spec_all_kernels(txs)
            &&& tx.body.assets@ == spec_all_assets(txs)
            &&& spec_agg_offset(txs) == Ok::<BlindingFactor, CommittedError>(tx.offset)
        },
        Err(e) => spec_agg_err(txs) == Some(e),
    }
}

/// The items of a list of one transaction are those of that transaction.
pub proof fn lemma_all_of_one(txs: Seq<Transaction>)
    requires
        txs.len() == 1,
    ensures
        spec_all_inputs(txs) == txs[0].body.inputs@,
        spec_all_outputs(txs) == txs[0].body.outputs@,
        spec_all_kernels(txs) == txs[0].body.kernels@,
        spec_all_assets(txs) == txs[0].body.assets@,
{
    let none = txs.drop_last();
    assert(none.len() == 0);
    assert(spec_all_inputs(none) =~= Seq::<Input>::empty());
    assert(spec_all_outputs(none) =~= Seq::<Output>::empty());
    assert(spec_all_kernels(none) =~= Seq::<TxKernel>::empty());
    assert(spec_all_assets(none) =~= Seq::<AssetAction>::empty());
    assert(spec_all_inputs(txs) =~= txs[0].body.inputs@);
    assert(spec_all_outputs(txs) =~= txs[0].body.outputs@);
    assert(spec_all_kernels(txs) =~= txs[0].body.kernels@);
    assert(spec_all_assets(txs) =~= txs[0].body.assets@);
}

/// Appends the items of `src` to `dst`.
pub fn append_copy<T: Copy>(dst: &mut Vec<T>, src: &Vec<T>)
    ensures
        final(dst)@ == old(dst)@ + src@,
{
    let ghost start = dst@;
    let n = src.len();
    let mut i: usize = 0;
    while i < n
        invariant
            n == src@.len(),
            i <= n,
            dst@ == start + src@.take(i as int),
        decreases n - i,
    {
        dst.push(src[i]);
        i += 1;
        assert(dst@ =~= start + src@.take(i as int));
    }
    assert(src@.take(n as int) =~= src@);
}

impl Transaction {
    /// The transaction with nothing in it and no offset.
    pub fn empty() -> (tx: Transaction)
        ensures
            spec_is_aggregate(Seq::empty(), Ok::<Transaction, TxError>(tx)),
            tx.body.wf(),
    {
        let tx = Transaction { offset: BlindingFactor::zero(), body: TransactionBody::empty() };
        proof {
            let none = Seq::<Transaction>::empty();
            assert(tx.body.inputs@ =~= spec_all_inputs(none));
            assert(tx.body.outputs@ =~= spec_all_outputs(none));
            assert(tx.body.kernels@ =~= spec_all_kernels(none));
            assert(tx.body.assets@ =~= spec_all_assets(none));
        }
        tx
    }

    /// A transaction with the given lists and no offset.
    pub fn new(
        inputs: Vec<Input>,
        outputs: Vec<Output>,
        kernels: Vec<TxKernel>,
        assets: Vec<AssetAction>,
    ) -> (tx: Transaction)
        ensures
            tx.offset == BlindingFactor::spec_zero(),
            tx.body.inputs == inputs,
            tx.body.outputs == outputs,
            tx.body.kernels == kernels,
            tx.body.assets == assets,
    {
        Transaction {
            offset: BlindingFactor::zero(),
            body: TransactionBody::init(inputs, outputs, kernels, assets),
        }
    }

    /// The transaction with its offset replaced.
    pub fn with_offset(self, offset: BlindingFactor) -> (tx: Transaction)
        ensures
            tx.offset == offset,
            tx.body == self.body,
    {
        Transaction { offset, body: self.body }
    }

    /// The transaction with one more output at the end.
    pub fn with_output(self, output: Output) -> (tx: Transaction)
        ensures
            tx.offset == self.offset,
            tx.body.inputs == self.body.inputs,
            tx.body.outputs@ == self.body.outputs@.push(output),
            tx.body.kernels == self.body.kernels,
            tx.body.assets == self.body.assets,
    {
        let mut tx = self;
        tx.body.outputs.push(output);
        tx
    }

    /// The transaction with one more kernel at the end.
    pub fn with_kernel(self, kernel: TxKernel) -> (tx: Transaction)
        ensures
            tx.offset == self.offset,
            tx.body.inputs == self.body.inputs,
            tx.body.outputs == self.body.outputs,
            tx.body.kernels@ == self.body.kernels@.push(kernel),
            tx.body.assets == self.body.assets,
    {
        let mut tx = self;
        tx.body.kernels.push(kernel);
        tx
    }

    /// The inputs of the transaction.
    pub fn inputs(&self) -> (r: &Vec<Input>)
        ensures
            *r == self.body.inputs,
    {
        &self.body.inputs
    }

    /// The outputs of the transaction.
    pub fn outputs(&self) -> (r: &Vec<Output>)
        ensures
            *r == self.body.outputs,
    {
        &self.body.outputs
    }

    /// The kernels of the transaction.
    pub fn kernels(&self) -> (r: &Vec<TxKernel>)
        ensures
            *r == self.body.kernels,
    {
        &self.body.kernels
    }

    /// The asset actions of the transaction.
    pub fn assets(&self) -> (r: &Vec<AssetAction>)
        ensures
            *r == self.body.assets,
    {
        &self.body.assets
    }

    /// The fees of the transaction's kernels together.
    pub fn fee(&self) -> (r: u64)
        ensures
            r == spec_fee(self.body.kernels@),
    {
        self.body.fee()
    }

    /// The overage of the transaction: its fees, held at the greatest
    /// signed 64-bit value.
    pub open spec fn spec_overage(&self) -> i64 {
        if spec_fee(self.body.kernels@) > i64::MAX {
            i64::MAX
        } else {
            spec_fee(self.body.kernels@) as i64
        }
    }

    /// What the balance check says of the transaction: its body must
    /// balance with its fees, its issuance overage and its offset.
    pub open spec fn spec_verify_sums(&self) -> Result<(), TxError> {
        match spec_mint_overage(self.body.assets@) {
            Err(e) => Err(e),
            Ok(mint) => match self.body.spec_verify_kernel_sums(
                self.spec_overage(),
                mint,
                self.offset,
            ) {
                Ok(_) => Ok(()),
                Err(CommittedError::KernelSumMismatch) => Err(TxError::KernelSumMismatch),
                Err(e) => Err(TxError::Committed(e)),
            },
        }
    }

    /// What the checks that need no cryptography say of the transaction.
    pub open spec fn spec_validate_read(&self) -> Result<(), TxError> {
        self.body.spec_validate_read(Weighting::AsTransaction)
    }

    /// What full validation says of the transaction: its body must be valid
    /// under the given limit, and it must balance.
    pub open spec fn spec_validate(&self, weighting: Weighting) -> Result<(), TxError> {
        match self.body.spec_validate(weighting) {
            Err(e) => Err(e),
            Ok(()) => self.spec_verify_sums(),
        }
    }

    /// The overage of the transaction.
    pub fn overage(&self) -> (r: i64)
        ensures
            r == self.spec_overage(),
    {
        let fee = self.fee();
        if fee > i64::MAX as u64 {
            i64::MAX
        } else {
            fee as i64
        }
    }

    /// The checks that need no cryptography.
    pub fn validate_read(&self) -> (r: Result<(), TxError>)
        ensures
            r == self.spec_validate_read(),
    {
        self.body.validate_read(Weighting::AsTransaction)
    }

    /// Full validation of the transaction. What the cache holds is not
    /// verified again; the answer is the same whatever the cache holds.
    pub fn validate(&self, weighting: Weighting, verifier: &mut VerifierCache) -> (r: Result<
        (),
        TxError,
    >)
        requires
            old(verifier).wf(),
        ensures
            r == self.spec_validate(weighting),
            final(verifier).wf(),
    {
        match self.body.validate(weighting, verifier) {
            Err(e) => { return Err(e); },
            Ok(()) => {},
        }
        let mint = match self.body.mint_overage() {
            Err(e) => { return Err(e); },
            Ok(m) => m,
        };
        match self.body.verify_kernel_sums(self.overage(), mint, self.offset) {
            Ok(_) => Ok(()),
            Err(CommittedError::KernelSumMismatch) => Err(TxError::KernelSumMismatch),
            Err(e) => Err(TxError::Committed(e)),
        }
    }
}

/// Puts transactions together into one: all their items after cut-through,
/// with the sum of their offsets.
#[verifier::rlimit(40)]
pub fn aggregate(txs: Vec<Transaction>) -> (r: Result<Transaction, TxError>)
    ensures
        spec_is_aggregate(txs@, r),
{
    let mut txs = txs;
    let ghost all = txs@;
    if txs.len() == 0 {
        return Ok(Transaction::empty());
    }
    if txs.len() == 1 {
        proof {
            lemma_all_of_one(all);
        }
        match txs.pop() {
            Some(tx) => {
                return Ok(tx);
            },
            None => {
                return Ok(Transaction::empty());
            },
        }
    }
    let mut inputs: Vec<Input> = Vec::new();
    let mut outputs: Vec<Output> = Vec::new();
    let mut kernels: Vec<TxKernel> = Vec::new();
    let mut assets: Vec<AssetAction> = Vec::new();
    let mut offsets: Vec<BlindingFactor> = Vec::new();
    let n = txs.len();
    let mut i: usize = 0;
    assert(all.take(0) =~= Seq::<Transaction>::empty());
    assert(offsets@ =~= spec_all_offsets(all.take(0)));
    while i < n
        invariant
            n == all.len(),
            txs@ == all,
            i <= n,
            inputs@ == spec_all_inputs(all.take(i as int)),
            outputs@ == spec_all_outputs(all.take(i as int)),
            kernels@ == spec_all_kernels(all.take(i as int)),
            assets@ == spec_all_assets(all.take(i as int)),
            offsets@ == spec_all_offsets(all.take(i as int)),
        decreases n - i,
    {
        proof {
            let next = all.take(i + 1);
            assert(next.drop_last() =~= all.take(i as int));
            assert(next.last() == all[i as int]);
        }
        offsets.push(txs[i].offset);
        append_copy(&mut inputs, &txs[i].body.inputs);
        append_copy(&mut outputs, &txs[i].body.outputs);
        append_copy(&mut kernels, &txs[i].body.kernels);
        append_copy(&mut assets, &txs[i].body.assets);
        i += 1;
        assert(offsets@ =~= spec_all_offsets(all.take(i as int)));
    }
    assert(all.take(n as int) =~= all);
    match cut_through(&mut inputs, &mut outputs) {
        Err(e) => {
            return Err(e);
        },
        Ok(()) => {},
    }
    let none: Vec<BlindingFactor> = Vec::new();
    assert(none@ =~= Seq::<BlindingFactor>::empty());
    let offset = match sum_kernel_offsets(&offsets, &none) {
        Ok(b) => b,
        Err(e) => {
            return Err(TxError::Committed(e));
        },
    };
    Ok(Transaction { offset, body: TransactionBody::init(inputs, outputs, kernels, assets) })
}

/// Length of the four counts that an encoded body starts with.
pub const BODY_HEAD_LEN: usize = 32;

/// The count that stands `k` counts into the head of an encoded body.
pub open spec fn spec_body_count(s: Seq<u8>, pos: int, k: int) -> u64 {
    be_u64(s.subrange(pos + 8 * k, pos + 8 * k + 8))
}

/// Where the inputs of an encoded body start.
pub open spec fn spec_inputs_at(pos: int) -> int {
    pos + BODY_HEAD_LEN
}

/// Where the outputs of an encoded body start.
pub open spec fn spec_outputs_at(s: Seq<u8>, pos: int) -> int {
    spec_inputs_at(pos) + list_read_len::<Input>(
        s,
        spec_inputs_at(pos),
        spec_body_count(s, pos, 0) as nat,
    )
}

/// Where the kernels of an encoded body start.
pub open spec fn spec_kernels_at(s: Seq<u8>, pos: int) -> int {
    spec_outputs_at(s, pos) + list_read_len::<Output>(
        s,
        spec_outputs_at(s, pos),
        spec_body_count(s, pos, 1) as nat,
    )
}

/// Where the asset actions of an encoded body start.
pub open spec fn spec_assets_at(s: Seq<u8>, pos: int) -> int {
    spec_kernels_at(s, pos) + list_read_len::<TxKernel>(
        s,
        spec_kernels_at(s, pos),
        spec_body_count(s, pos, 2) as nat,
    )
}

/// Where an encoded body ends.
pub open spec fn spec_body_end(s: Seq<u8>, pos: int) -> int {
    spec_assets_at(s, pos) + list_read_len::<AssetAction>(
        s,
        spec_assets_at(s, pos),
        spec_body_count(s, pos, 3) as nat,
    )
}

/// Why no body can be read at `pos`, or `None` when one can. The counts
/// are read first; counts that alone weigh more than a block may, or that
/// this machine cannot hold, are refused before any item is read.
pub open spec fn spec_body_read_err(s: Seq<u8>, pos: int) -> Option<SerError> {
    if pos + BODY_HEAD_LEN > s.len() {
        Some(SerError::UnexpectedEof)
    } else if spec_weight(
        spec_body_count(s, pos, 0) as nat,
        spec_body_count(s, pos, 1) as nat,
        spec_body_count(s, pos, 2) as nat,
    ) > MAX_BLOCK_WEIGHT || spec_body_count(s, pos, 3) > usize::MAX {
        Some(SerError::TooLargeRead)
    } else if list_read_err::<Input>(s, spec_inputs_at(pos), spec_body_count(s, pos, 0) as nat)
        is Some {
        list_read_err::<Input>(s, spec_inputs_at(pos), spec_body_count(s, pos, 0) as nat)
    } else if list_read_err::<Output>(
        s,
        spec_outputs_at(s, pos),
        spec_body_count(s, pos, 1) as nat,
    ) is Some {
        list_read_err::<Output>(s, spec_outputs_at(s, pos), spec_body_count(s, pos, 1) as nat)
    } else if list_read_err::<TxKernel>(
        s,
        spec_kernels_at(s, pos),
        spec_body_count(s, pos, 2) as nat,
    ) is Some {
        list_read_err::<TxKernel>(s, spec_kernels_at(s, pos), spec_body_count(s, pos, 2) as nat)
    } else {
        list_read_err::<AssetAction>(s, spec_assets_at(s, pos), spec_body_count(s, pos, 3) as nat)
    }
}

impl TransactionBody {
    /// The encoding of the body: the four counts, then the inputs, the
    /// outputs, the kernels and the asset actions.
    pub open spec fn ser(&self) -> Seq<u8> {
        u64_be(self.inputs@.len() as u64) + u64_be(self.outputs@.len() as u64) + u64_be(
            self.kernels@.len() as u64,
        ) + u64_be(self.assets@.len() as u64) + ser_list(self.inputs@) + ser_list(self.outputs@)
            + ser_list(self.kernels@) + ser_list(self.assets@)
    }

    /// Appends the encoding of the body.
    pub fn write(&self, out: &mut Vec<u8>)
        ensures
            final(out)@ == old(out)@ + self.ser(),
    {
        let ghost start = out@;
        write_u64(out, self.inputs.len() as u64);
        write_u64(out, self.outputs.len() as u64);
        write_u64(out, self.kernels.len() as u64);
        write_u64(out, self.assets.len() as u64);
        let ghost a4 = u64_be(self.inputs@.len() as u64) + u64_be(self.outputs@.len() as u64)
            + u64_be(self.kernels@.len() as u64) + u64_be(self.assets@.len() as u64);
        assert(out@ =~= start + a4);
        write_list(out, &self.inputs);
        let ghost a5 = a4 + ser_list(self.inputs@);
        assert(out@ =~= start + a5);
        write_list(out, &self.outputs);
        let ghost a6 = a5 + ser_list(self.outputs@);
        assert(out@ =~= start + a6);
        write_list(out, &self.kernels);
        let ghost a7 = a6 + ser_list(self.kernels@);
        assert(out@ =~= start + a7);
        write_list(out, &self.assets);
        let ghost a8 = a7 + ser_list(self.assets@);
        assert(out@ =~= start + a8);
        assert(self.ser() == a8);
    }

    /// Reads a body at `pos`; gives it with the position that follows it.
    #[verifier::rlimit(60)]
    #[verifier::spinoff_prover]
    pub fn read(buf: &[u8], pos: usize) -> (r: Result<(TransactionBody, usize), SerError>)
        ensures
            match r {
                Ok((body, p)) => {
                    &&& spec_body_read_err(buf@, pos as int) is None
                    &&& p == spec_body_end(buf@, pos as int)
                    &&& pos <= p <= buf@.len()
                    &&& body.wf()
                    &&& body.ser() == buf@.subrange(pos as int, p as int)
                },
                Err(e) => spec_body_read_err(buf@, pos as int) == Some(e),
            },
    {
        let (n_in, p1) = match read_u64(buf, pos) {
            Ok(v) => v,
            Err(e) => { return Err(e); },
        };
        let (n_out, p2) = match read_u64(buf, p1) {
            Ok(v) => v,
            Err(e) => { return Err(e); },
        };
        let (n_kern, p3) = match read_u64(buf, p2) {
            Ok(v) => v,
            Err(e) => { return Err(e); },
        };
        let (n_act, p4) = match read_u64(buf, p3) {
            Ok(v) => v,
            Err(e) => { return Err(e); },
        };
        let w: u128 = weight_of(n_in, n_out, n_kern);
        if w > MAX_BLOCK_WEIGHT as u128 || n_act > usize::MAX as u64 {
            return Err(SerError::TooLargeRead);
        }
        let (inputs, q1) = match read_list::<Input>(buf, p4, n_in as usize) {
            Ok(v) => v,
            Err(e) => { return Err(e); },
        };
        let (outputs, q2) = match read_list::<Output>(buf, q1, n_out as usize) {
            Ok(v) => v,
            Err(e) => { return Err(e); },
        };
        let (kernels, q3) = match read_list::<TxKernel>(buf, q2, n_kern as usize) {
            Ok(v) => v,
            Err(e) => { return Err(e); },
        };
        let (assets, q4) = match read_list::<AssetAction>(buf, q3, n_act as usize) {
            Ok(v) => v,
            Err(e) => { return Err(e); },
        };
        let body = TransactionBody { inputs, outputs, kernels, assets };
        proof {
            lemma_be_round_trip_bytes();
            let s = buf@;
            assert(p4 == spec_inputs_at(pos as int));
            assert(q1 == spec_outputs_at(s, pos as int));
            assert(q2 == spec_kernels_at(s, pos as int));
            assert(q3 == spec_assets_at(s, pos as int));
            let a1 = u64_be(body.inputs@.len() as u64);
            assert(a1 =~= s.subrange(pos as int, p1 as int));
            let a2 = a1 + u64_be(body.outputs@.len() as u64);
            assert(a2 =~= s.subrange(pos as int, p2 as int));
            let a3 = a2 + u64_be(body.kernels@.len() as u64);
            assert(a3 =~= s.subrange(pos as int, p3 as int));
            let a4 = a3 + u64_be(body.assets@.len() as u64);
            assert(a4 =~= s.subrange(pos as int, p4 as int));
            let a5 = a4 + ser_list(body.inputs@);
            assert(a5 =~= s.subrange(pos as int, q1 as int));
            let a6 = a5 + ser_list(body.outputs@);
            assert(a6 =~= s.subrange(pos as int, q2 as int));
            let a7 = a6 + ser_list(body.kernels@);
            assert(a7 =~= s.subrange(pos as int, q3 as int));
            let a8 = a7 + ser_list(body.assets@);
            assert(a8 =~= s.subrange(pos as int, q4 as int));
            assert(body.ser() == a8);
        }
        Ok((body, q4))
    }
}

impl crate::ser::Identity for Input {
    /// Inputs are told apart by the commitment that they spend.
    open spec fn same_as(&self, other: &Self) -> bool {
        self.commit == other.commit
    }

    fn is_same(&self, other: &Self) -> (r: bool) {
        self.commit.same(&other.commit)
    }
}

impl crate::ser::Identity for Output {
    /// Outputs are told apart by their commitment.
    open spec fn same_as(&self, other: &Self) -> bool {
        self.commit == other.commit
    }

    fn is_same(&self, other: &Self) -> (r: bool) {
        self.commit.same(&other.commit)
    }
}

impl crate::ser::Identity for TxKernel {
    /// Kernels are the same when all their fields are.
    open spec fn same_as(&self, other: &Self) -> bool {
        *self == *other
    }

    fn is_same(&self, other: &Self) -> (r: bool) {
        self.features == other.features && self.excess.same(&other.excess)
            && self.excess_sig.same(&other.excess_sig)
    }
}

/// After `dedup` no two inputs spend the same commitment.
pub proof fn lemma_dedup_inputs_unique(inputs: Seq<Input>)
    ensures
        spec_inputs_unique(crate::ser::spec_dedup(inputs)),
{
    crate::ser::lemma_dedup_distinct(inputs);
}

/// After `dedup` no two outputs carry the same commitment.
pub proof fn lemma_dedup_outputs_unique(outputs: Seq<Output>)
    ensures
        spec_outputs_unique(crate::ser::spec_dedup(outputs)),
{
    crate::ser::lemma_dedup_distinct(outputs);
}

impl TransactionBody {
    /// Where the encoding of the inputs ends in that of the body.
    pub open spec fn spec_inputs_end(&self) -> int {
        BODY_HEAD_LEN + ser_list(self.inputs@).len()
    }

    /// Where the encoding of the outputs ends in that of the body.
    pub open spec fn spec_outputs_end(&self) -> int {
        self.spec_inputs_end() + ser_list(self.outputs@).len()
    }

    /// Where the encoding of the kernels ends in that of the body.
    pub open spec fn spec_kernels_end(&self) -> int {
        self.spec_outputs_end() + ser_list(self.kernels@).len()
    }
}

/// Where each part of a body stands in its encoding.
#[verifier::rlimit(40)]
pub proof fn lemma_body_parts(body: TransactionBody)
    ensures
        body.ser().len() == body.spec_kernels_end() + ser_list(body.assets@).len(),
        body.ser().subrange(0, 8) == u64_be(body.inputs@.len() as u64),
        body.ser().subrange(8, 16) == u64_be(body.outputs@.len() as u64),
        body.ser().subrange(16, 24) == u64_be(body.kernels@.len() as u64),
        body.ser().subrange(24, 32) == u64_be(body.assets@.len() as u64),
        body.ser().subrange(32, body.spec_inputs_end()) == ser_list(body.inputs@),
        body.ser().subrange(body.spec_inputs_end(), body.spec_outputs_end()) == ser_list(
            body.outputs@,
        ),
        body.ser().subrange(body.spec_outputs_end(), body.spec_kernels_end()) == ser_list(
            body.kernels@,
        ),
        body.ser().subrange(body.spec_kernels_end(), body.ser().len() as int) == ser_list(
            body.assets@,
        ),
{
    lemma_be_round_trip();
    let s = body.ser();
    let l1 = ser_list(body.inputs@).len() as int;
    let l2 = ser_list(body.outputs@).len() as int;
    let l3 = ser_list(body.kernels@).len() as int;
    assert(s.subrange(0, 8) =~= u64_be(body.inputs@.len() as u64));
    assert(s.subrange(8, 16) =~= u64_be(body.outputs@.len() as u64));
    assert(s.subrange(16, 24) =~= u64_be(body.kernels@.len() as u64));
    assert(s.subrange(24, 32) =~= u64_be(body.assets@.len() as u64));
    assert(s.subrange(32, 32 + l1) =~= ser_list(body.inputs@));
    assert(s.subrange(32 + l1, 32 + l1 + l2) =~= ser_list(body.outputs@));
    assert(s.subrange(32 + l1 + l2, 32 + l1 + l2 + l3) =~= ser_list(body.kernels@));
    assert(s.subrange(32 + l1 + l2 + l3, s.len() as int) =~= ser_list(body.assets@));
}

/// Where the encoding of a well-formed body that weighs no more than a
/// block may stands in a buffer, a body can be read, and it takes the
/// length of the encoding.
#[verifier::rlimit(40)]
pub proof fn lemma_body_readable(body: TransactionBody, s: Seq<u8>, pos: int)
    requires
        body.wf(),
        body.spec_body_weight() <= MAX_BLOCK_WEIGHT,
        0 <= pos,
        pos + body.ser().len() <= s.len(),
        s.subrange(pos, pos + body.ser().len()) == body.ser(),
    ensures
        spec_body_read_err(s, pos) is None,
        spec_body_end(s, pos) == pos + body.ser().len(),
{
    lemma_be_round_trip();
    lemma_body_parts(body);
    let e = body.ser();
    let l1 = ser_list(body.inputs@).len() as int;
    let l2 = ser_list(body.outputs@).len() as int;
    let l3 = ser_list(body.kernels@).len() as int;
    let l4 = ser_list(body.assets@).len() as int;
    let whole = s.subrange(pos, pos + e.len());
    assert(s.subrange(pos, pos + 8) =~= whole.subrange(0, 8));
    assert(s.subrange(pos + 8, pos + 16) =~= whole.subrange(8, 16));
    assert(s.subrange(pos + 16, pos + 24) =~= whole.subrange(16, 24));
    assert(s.subrange(pos + 24, pos + 32) =~= whole.subrange(24, 32));
    assert(spec_body_count(s, pos, 0) == body.inputs.len());
    assert(spec_body_count(s, pos, 1) == body.outputs.len());
    assert(spec_body_count(s, pos, 2) == body.kernels.len());
    assert(spec_body_count(s, pos, 3) == body.assets.len());
    let p1 = pos + 32;
    assert(s.subrange(p1, p1 + l1) =~= whole.subrange(32, 32 + l1));
    lemma_list_readable::<Input>(body.inputs@, s, p1);
    let p2 = p1 + l1;
    assert(s.subrange(p2, p2 + l2) =~= whole.subrange(32 + l1, 32 + l1 + l2));
    lemma_list_readable::<Output>(body.outputs@, s, p2);
    let p3 = p2 + l2;
    assert(s.subrange(p3, p3 + l3) =~= whole.subrange(32 + l1 + l2, 32 + l1 + l2 + l3));
    lemma_list_readable::<TxKernel>(body.kernels@, s, p3);
    let p4 = p3 + l3;
    assert(s.subrange(p4, p4 + l4) =~= whole.subrange(32 + l1 + l2 + l3, e.len() as int));
    lemma_list_readable::<AssetAction>(body.assets@, s, p4);
}

/// Two well-formed bodies with the same encoding hold the same items.
#[verifier::rlimit(40)]
pub proof fn lemma_body_ser_injective(a: TransactionBody, b: TransactionBody)
    requires
        a.wf(),
        b.wf(),
        a.ser() == b.ser(),
    ensures
        a.inputs@ == b.inputs@,
        a.outputs@ == b.outputs@,
        a.kernels@ == b.kernels@,
        a.assets@ == b.assets@,
{
    lemma_be_round_trip();
    lemma_body_parts(a);
    lemma_body_parts(b);
    let s = a.ser();
    assert(a.inputs.len() == b.inputs.len());
    assert(a.outputs.len() == b.outputs.len());
    assert(a.kernels.len() == b.kernels.len());
    assert(a.assets.len() == b.assets.len());
    lemma_list_readable::<Input>(a.inputs@, s, 32);
    lemma_list_readable::<Input>(b.inputs@, s, 32);
    lemma_ser_list_injective::<Input>(a.inputs@, b.inputs@);
    let p2 = a.spec_inputs_end();
    lemma_list_readable::<Output>(a.outputs@, s, p2);
    lemma_list_readable::<Output>(b.outputs@, s, p2);
    lemma_ser_list_injective::<Output>(a.outputs@, b.outputs@);
    let p3 = a.spec_outputs_end();
    lemma_list_readable::<TxKernel>(a.kernels@, s, p3);
    lemma_list_readable::<TxKernel>(b.kernels@, s, p3);
    lemma_ser_list_injective::<TxKernel>(a.kernels@, b.kernels@);
    lemma_ser_list_injective::<AssetAction>(a.assets@, b.assets@);
}

/// A filter that every item passes leaves the list as it is.
pub proof fn lemma_filter_all<T>(items: Seq<T>, keep: spec_fn(T) -> bool)
    requires
        forall|i: int| 0 <= i < items.len() ==> keep(#[trigger] items[i]),
    ensures
        items.filter(keep) == items,
    decreases items.len(),
{
    reveal(Seq::filter);
    if items.len() > 0 {
        let d = items.drop_last();
        assert forall|i: int| 0 <= i < d.len() implies keep(#[trigger] d[i]) by {
            assert(d[i] == items[i]);
        }
        lemma_filter_all(d, keep);
        assert(d.push(items.last()) =~= items);
    } else {
        assert(items.filter(keep) =~= items);
    }
}

/// Where no input spends an output of the same lists, cut-through removes
/// nothing.
pub proof fn lemma_cut_nothing(inputs: Seq<Input>, outputs: Seq<Output>)
    requires
        !spec_overlap(inputs, outputs),
    ensures
        spec_cut_inputs(inputs, outputs) == inputs,
        spec_cut_outputs(inputs, outputs) == outputs,
{
    let keep_in = |i: Input| !spec_creates(outputs, i.commit);
    let keep_out = |o: Output| !spec_spends(inputs, o.commit);
    assert forall|i: int| 0 <= i < inputs.len() implies keep_in(#[trigger] inputs[i]) by {}
    assert forall|j: int| 0 <= j < outputs.len() implies keep_out(#[trigger] outputs[j]) by {
        if spec_spends(inputs, outputs[j].commit) {
            let i = choose|i: int|
                0 <= i < inputs.len() && (#[trigger] inputs[i]).commit == outputs[j].commit;
            assert(spec_creates(outputs, inputs[i].commit));
            assert(spec_overlap(inputs, outputs));
        }
    }
    lemma_filter_all(inputs, keep_in);
    lemma_filter_all(outputs, keep_out);
}

/// What a filter leaves of outputs with distinct commitments has distinct
/// commitments.
#[verifier::rlimit(40)]
pub proof fn lemma_filter_unique(outputs: Seq<Output>, keep: spec_fn(Output) -> bool)
    requires
        spec_outputs_unique(outputs),
    ensures
        spec_outputs_unique(outputs.filter(keep)),
    decreases outputs.len(),
{
    reveal(Seq::filter);
    if outputs.len() > 0 {
        let d = outputs.drop_last();
        let last = outputs.last();
        assert(spec_outputs_unique(d)) by {
            assert forall|i: int, j: int| 0 <= i < j < d.len() implies (#[trigger] d[i]).commit != (
            #[trigger] d[j]).commit by {
                assert(d[i] == outputs[i]);
                assert(d[j] == outputs[j]);
            }
        }
        lemma_filter_unique(d, keep);
        let f = d.filter(keep);
        if keep(last) {
            let g = f.push(last);
            assert forall|i: int, j: int| 0 <= i < j < g.len() implies (#[trigger] g[i]).commit != (
            #[trigger] g[j]).commit by {
                if j < f.len() {
                    assert(g[i] == f[i]);
                    assert(g[j] == f[j]);
                } else {
                    assert(g[i] == f[i]);
                    assert(f.contains(f[i]));
                    d.lemma_filter_contains_rev(keep, f[i]);
                    let k = choose|k: int| 0 <= k < d.len() && d[k] == f[i];
                    assert(outputs[k] == f[i]);
                    assert(outputs[outputs.len() - 1] == last);
                }
            }
        }
    }
}

/// What a filter leaves of inputs that spend distinct commitments spends
/// distinct commitments.
pub proof fn lemma_filter_inputs_unique(inputs: Seq<Input>, keep: spec_fn(Input) -> bool)
    requires
        spec_inputs_unique(inputs),
    ensures
        spec_inputs_unique(inputs.filter(keep)),
    decreases inputs.len(),
{
    reveal(Seq::filter);
    if inputs.len() > 0 {
        let d = inputs.drop_last();
        let last = inputs.last();
        assert(spec_inputs_unique(d)) by {
            assert forall|i: int, j: int| 0 <= i < j < d.len() implies (#[trigger] d[i]).commit != (
            #[trigger] d[j]).commit by {
                assert(d[i] == inputs[i]);
                assert(d[j] == inputs[j]);
            }
        }
        lemma_filter_inputs_unique(d, keep);
        let f = d.filter(keep);
        if keep(last) {
            let g = f.push(last);
            assert forall|i: int, j: int| 0 <= i < j < g.len() implies (#[trigger] g[i]).commit != (
            #[trigger] g[j]).commit by {
                if j < f.len() {
                    assert(g[i] == f[i]);
                    assert(g[j] == f[j]);
                } else {
                    assert(g[i] == f[i]);
                    assert(f.contains(f[i]));
                    d.lemma_filter_contains_rev(keep, f[i]);
                    let k = choose|k: int| 0 <= k < d.len() && d[k] == f[i];
                    assert(inputs[k] == f[i]);
                    assert(inputs[inputs.len() - 1] == last);
                }
            }
        }
    }
}

/// After cut-through no input spends an output, no two inputs spend the same
/// commitment and no two outputs carry the same: a second cut-through
/// removes nothing.
#[verifier::rlimit(40)]
pub proof fn lemma_cut_through_twice(inputs: Seq<Input>, outputs: Seq<Output>)
    requires
        spec_cuttable(inputs, outputs),
    ensures
        spec_cuttable(spec_cut_inputs(inputs, outputs), spec_cut_outputs(inputs, outputs)),
        !spec_overlap(spec_cut_inputs(inputs, outputs), spec_cut_outputs(inputs, outputs)),
        spec_cut_inputs(spec_cut_inputs(inputs, outputs), spec_cut_outputs(inputs, outputs))
            == spec_cut_inputs(inputs, outputs),
        spec_cut_outputs(spec_cut_inputs(inputs, outputs), spec_cut_outputs(inputs, outputs))
            == spec_cut_outputs(inputs, outputs),
{
    let keep_in = |i: Input| !spec_creates(outputs, i.commit);
    let keep_out = |o: Output| !spec_spends(inputs, o.commit);
    let ci = spec_cut_inputs(inputs, outputs);
    let co = spec_cut_outputs(inputs, outputs);
    lemma_filter_unique(outputs, keep_out);
    lemma_filter_inputs_unique(inputs, keep_in);
    if spec_overlap(ci, co) {
        let i = choose|i: int| 0 <= i < ci.len() && spec_creates(co, (#[trigger] ci[i]).commit);
        let j = choose|j: int| 0 <= j < co.len() && (#[trigger] co[j]).commit == ci[i].commit;
        inputs.lemma_filter_pred(keep_in, i);
        assert(co.contains(co[j]));
        outputs.lemma_filter_contains_rev(keep_out, co[j]);
        let k = choose|k: int| 0 <= k < outputs.len() && outputs[k] == co[j];
        assert(spec_creates(outputs, ci[i].commit));
        assert(false);
    }
    lemma_cut_nothing(ci, co);
}

/// Of a list, those that pass a test and those that fail it are together as
/// many as the list.
pub proof fn lemma_filter_split<T>(items: Seq<T>, pass: spec_fn(T) -> bool, fail: spec_fn(T) -> bool)
    requires
        forall|x: T| #[trigger] fail(x) == !pass(x),
    ensures
        items.filter(pass).len() + items.filter(fail).len() == items.len(),
    decreases items.len(),
{
    reveal(Seq::filter);
    if items.len() > 0 {
        lemma_filter_split(items.drop_last(), pass, fail);
        assert(fail(items.last()) == !pass(items.last()));
    }
}

/// The inputs that cut-through removes: those that spend one of the outputs.
pub open spec fn spec_cut_away_inputs(inputs: Seq<Input>, outputs: Seq<Output>) -> Seq<Input> {
    inputs.filter(|i: Input| spec_creates(outputs, i.commit))
}

/// The outputs that cut-through removes: those that one of the inputs spends.
pub open spec fn spec_cut_away_outputs(inputs: Seq<Input>, outputs: Seq<Output>) -> Seq<Output> {
    outputs.filter(|o: Output| spec_spends(inputs, o.commit))
}

/// The commitments of what cut-through removes are the same on both sides:
/// an input is removed exactly when an output of its commitment is.
pub proof fn lemma_cut_away_same_commitments(inputs: Seq<Input>, outputs: Seq<Output>)
    ensures
        spec_input_commits(spec_cut_away_inputs(inputs, outputs)).to_set() == spec_output_commits(
            spec_cut_away_outputs(inputs, outputs),
        ).to_set(),
{
    let away_in = |i: Input| spec_creates(outputs, i.commit);
    let away_out = |o: Output| spec_spends(inputs, o.commit);
    let ri = spec_cut_away_inputs(inputs, outputs);
    let ro = spec_cut_away_outputs(inputs, outputs);
    let a = spec_input_commits(ri).to_set();
    let b = spec_output_commits(ro).to_set();
    assert forall|c: Commitment| a.contains(c) implies b.contains(c) by {
        let k = choose|k: int| 0 <= k < spec_input_commits(ri).len() && spec_input_commits(ri)[k] == c;
        assert(ri[k].commit == c);
        inputs.lemma_filter_pred(away_in, k);
        assert(ri.contains(ri[k]));
        inputs.lemma_filter_contains_rev(away_in, ri[k]);
        let m = choose|m: int| 0 <= m < inputs.len() && inputs[m] == ri[k];
        let j = choose|j: int| 0 <= j < outputs.len() && (#[trigger] outputs[j]).commit == c;
        assert(spec_spends(inputs, outputs[j].commit));
        outputs.lemma_filter_contains(away_out, j);
        let n = choose|n: int| 0 <= n < ro.len() && ro[n] == outputs[j];
        assert(spec_output_commits(ro)[n] == c);
    }
    assert forall|c: Commitment| b.contains(c) implies a.contains(c) by {
        let k = choose|k: int| 0 <= k < spec_output_commits(ro).len() && spec_output_commits(ro)[k] == c;
        assert(ro[k].commit == c);
        outputs.lemma_filter_pred(away_out, k);
        assert(ro.contains(ro[k]));
        outputs.lemma_filter_contains_rev(away_out, ro[k]);
        let m = choose|m: int| 0 <= m < outputs.len() && outputs[m] == ro[k];
        let j = choose|j: int| 0 <= j < inputs.len() && (#[trigger] inputs[j]).commit == c;
        assert(spec_creates(outputs, inputs[j].commit));
        inputs.lemma_filter_contains(away_in, j);
        let n = choose|n: int| 0 <= n < ri.len() && ri[n] == inputs[j];
        assert(spec_input_commits(ri)[n] == c);
    }
    assert(a =~= b);
}

/// Cut-through removes pairs: where no two inputs spend the same commitment
/// and no two outputs carry the same, as many inputs leave as outputs, and
/// an input leaves exactly when the output of its commitment does.
pub proof fn lemma_cut_through_removes_pairs(inputs: Seq<Input>, outputs: Seq<Output>)
    requires
        spec_cuttable(inputs, outputs),
    ensures
        inputs.len() - spec_cut_inputs(inputs, outputs).len() == outputs.len() - spec_cut_outputs(
            inputs,
            outputs,
        ).len(),
        spec_cut_away_inputs(inputs, outputs).len() == spec_cut_away_outputs(inputs, outputs).len(),
        spec_input_commits(spec_cut_away_inputs(inputs, outputs)).to_set() == spec_output_commits(
            spec_cut_away_outputs(inputs, outputs),
        ).to_set(),
{
    let away_in = |i: Input| spec_creates(outputs, i.commit);
    let keep_in = |i: Input| !spec_creates(outputs, i.commit);
    let away_out = |o: Output| spec_spends(inputs, o.commit);
    let keep_out = |o: Output| !spec_spends(inputs, o.commit);
    let ri = spec_cut_away_inputs(inputs, outputs);
    let ro = spec_cut_away_outputs(inputs, outputs);
    lemma_filter_split(inputs, away_in, keep_in);
    lemma_filter_split(outputs, away_out, keep_out);
    lemma_filter_inputs_unique(inputs, away_in);
    lemma_filter_unique(outputs, away_out);
    let ci = spec_input_commits(ri);
    let co = spec_output_commits(ro);
    assert(ci.no_duplicates()) by {
        assert forall|i: int, j: int| 0 <= i < ci.len() && 0 <= j < ci.len() && i != j implies ci[i]
            != ci[j] by {
            if i < j {
                assert(ri[i].commit != ri[j].commit);
            } else {
                assert(ri[j].commit != ri[i].commit);
            }
        }
    }
    assert(co.no_duplicates()) by {
        assert forall|i: int, j: int| 0 <= i < co.len() && 0 <= j < co.len() && i != j implies co[i]
            != co[j] by {
            if i < j {
                assert(ro[i].commit != ro[j].commit);
            } else {
                assert(ro[j].commit != ro[i].commit);
            }
        }
    }
    ci.unique_seq_to_set();
    co.unique_seq_to_set();
    lemma_cut_away_same_commitments(inputs, outputs);
}

/// Whether one of the inputs spends a coinbase output that has not matured
/// while the chain stands at height `head`. `created_at` gives, input by
/// input, the height of the block that holds the output; a coinbase input
/// whose height is not given counts as not matured.
pub open spec fn spec_spends_immature(inputs: Seq<Input>, created_at: Seq<u64>, head: u64) -> bool {
    exists|i: int|
        0 <= i < inputs.len() && (#[trigger] inputs[i]).features == OutputFeatures::Coinbase && (i
            >= created_at.len() || !crate::consensus::spec_coinbase_mature(created_at[i], head))
}

/// Checks that every coinbase output that the inputs spend has matured while
/// the chain stands at height `head`. The heights at which the outputs were
/// created are the chain's to look up; they are given input by input.
pub fn verify_coinbase_maturity(inputs: &Vec<Input>, created_at: &Vec<u64>, head: u64) -> (r: Result<
    (),
    TxError,
>)
    ensures
        r == (if spec_spends_immature(inputs@, created_at@, head) {
            Err::<(), TxError>(TxError::ImmatureCoinbase)
        } else {
            Ok::<(), TxError>(())
        }),
{
    let n = inputs.len();
    let mut i: usize = 0;
    while i < n
        invariant
            n == inputs@.len(),
            i <= n,
            forall|j: int|
                0 <= j < i ==> !((#[trigger] inputs@[j]).features == OutputFeatures::Coinbase && (j
                    >= created_at@.len() || !crate::consensus::spec_coinbase_mature(
                    created_at@[j],
                    head,
                ))),
        decreases n - i,
    {
        if inputs[i].is_coinbase() {
            if i >= created_at.len() {
                return Err(TxError::ImmatureCoinbase);
            }
            match crate::consensus::verify_coinbase_maturity(created_at[i], head) {
                Err(e) => {
                    return Err(e);
                },
                Ok(()) => {},
            }
        }
        i += 1;
    }
    Ok(())
}

/// Inputs whose coinbase outputs have matured at one height of the chain
/// have them matured at every later one.
pub proof fn lemma_inputs_stay_mature(inputs: Seq<Input>, created_at: Seq<u64>, head: u64, later: u64)
    requires
        !spec_spends_immature(inputs, created_at, head),
        head <= later,
    ensures
        !spec_spends_immature(inputs, created_at, later),
{
    if spec_spends_immature(inputs, created_at, later) {
        let i = choose|i: int|
            0 <= i < inputs.len() && (#[trigger] inputs[i]).features == OutputFeatures::Coinbase && (
            i >= created_at.len() || !crate::consensus::spec_coinbase_mature(created_at[i], later));
        if i < created_at.len() {
            crate::consensus::lemma_maturity_is_kept(created_at[i], head, later);
        }
        assert(spec_spends_immature(inputs, created_at, head));
    }
}

} // verus!
