//! The proof-of-work part of a header, as it stands on the wire.
//!
//! Finding and checking the cycle is the miner's and the verifier's work and
//! is not done here: the cycle's nonces are kept in their packed form.

use vstd::prelude::*;
use crate::consensus::{MIN_EDGE_BITS, PROOF_SIZE, SECOND_POW_EDGE_BITS};
use crate::ser::{
    lemma_be_round_trip, lemma_be_round_trip_bytes, read_u32, read_u64, read_u8,
    u32_be, u64_be, write_bytes, write_u32, write_u64, write_u8, zeroed, SerError, Wire,
};

verus! {

/// Greatest length of the packed nonces: 42 nonces of 64 bits.
pub const MAX_PACKED_LEN: usize = 336;

/// Length of an encoded proof of work before the packed nonces.
pub const POW_HEAD_LEN: usize = 21;

/// The difficulty of a proof of work, or the sum of several.
#[derive(Clone, Copy, Debug, PartialEq, Eq, PartialOrd, Ord, Structural)]
pub struct Difficulty {
    pub num: u64,
}

impl Difficulty {
    /// The difficulty with no work in it.
    pub fn zero() -> (d: Difficulty)
        ensures
            d.num == 0,
    {
        Difficulty { num: 0 }
    }

    /// The least difficulty of a block.
    pub fn min() -> (d: Difficulty)
        ensures
            d.num == 1,
    {
        Difficulty { num: 1 }
    }

    /// The difficulty that a number stands for.
    pub fn from_num(num: u64) -> (d: Difficulty)
        ensures
            d.num == num,
    {
        Difficulty { num }
    }

    /// The number that stands for the difficulty.
    pub fn to_num(&self) -> (num: u64)
        ensures
            num == self.num,
    {
        self.num
    }

    /// The sum of two difficulties, held at the greatest 64-bit value.
    pub open spec fn spec_plus(self, other: Difficulty) -> Difficulty {
        Difficulty {
            num: if self.num + other.num > u64::MAX {
                u64::MAX
            } else {
                (self.num + other.num) as u64
            },
        }
    }

    /// The sum of two difficulties.
    pub fn plus(self, other: Difficulty) -> (d: Difficulty)
        ensures
            d == self.spec_plus(other),
    {
        Difficulty { num: self.num.saturating_add(other.num) }
    }
}

/// The packed nonces of a cycle and the edge size that they were found for.
#[derive(Clone, Copy, Debug, PartialEq, Eq)]
pub struct Proof {
    pub edge_bits: u8,
    pub packed: [u8; 336],
}

/// How many bytes the packed nonces of a cycle take at an edge size: 42
/// nonces of so many bits each, rounded up to whole bytes. An edge size over
/// 64 counts as 64.
pub open spec fn spec_packed_len(edge_bits: u8) -> int {
    if edge_bits > 64 {
        MAX_PACKED_LEN as int
    } else {
        (edge_bits * PROOF_SIZE + 7) / 8
    }
}

/// How many bytes the packed nonces of a cycle take at an edge size.
pub fn packed_len(edge_bits: u8) -> (n: usize)
    ensures
        n == spec_packed_len(edge_bits),
        n <= MAX_PACKED_LEN,
{
    if edge_bits > 64 {
        MAX_PACKED_LEN
    } else {
        let bits: u64 = (edge_bits as u64) * PROOF_SIZE;
        ((bits + 7) / 8) as usize
    }
}

impl Proof {
    /// A proof is well formed when its edge size is from 1 to 64 and the
    /// bytes after the packed nonces are zero.
    pub open spec fn wf(&self) -> bool {
        &&& 1 <= self.edge_bits <= 64
        &&& forall|i: int| spec_packed_len(self.edge_bits) <= i < MAX_PACKED_LEN ==> self.packed@[i] == 0
    }

    /// The packed nonces.
    pub open spec fn bytes(&self) -> Seq<u8> {
        self.packed@.subrange(0, spec_packed_len(self.edge_bits))
    }

    /// The proof of the given edge size whose nonces are all zero.
    pub fn zero(edge_bits: u8) -> (p: Proof)
        requires
            1 <= edge_bits <= 64,
        ensures
            p.wf(),
            p.edge_bits == edge_bits,
            forall|i: int| 0 <= i < MAX_PACKED_LEN ==> p.packed@[i] == 0,
    {
        Proof { edge_bits, packed: zeroed::<336>() }
    }

    /// The proof of the given edge size whose packed nonces are the first
    /// bytes of `bytes`; bytes that are missing count as zero.
    pub fn from_packed(edge_bits: u8, bytes: &[u8]) -> (p: Proof)
        requires
            1 <= edge_bits <= 64,
        ensures
            p.wf(),
            p.edge_bits == edge_bits,
            forall|i: int|
                0 <= i < spec_packed_len(edge_bits) ==> p.packed@[i] == (if i < bytes@.len() {
                    bytes@[i]
                } else {
                    0
                }),
    {
        let mut packed = zeroed::<336>();
        let n = packed_len(edge_bits);
        let mut i: usize = 0;
        while i < n && i < bytes.len()
            invariant
                i <= n <= MAX_PACKED_LEN,
                i <= bytes@.len(),
                n == spec_packed_len(edge_bits),
                forall|j: int| 0 <= j < i ==> packed@[j] == bytes@[j],
                forall|j: int| i <= j < MAX_PACKED_LEN ==> packed@[j] == 0,
            decreases n - i,
        {
            packed[i] = bytes[i];
            i += 1;
        }
        let p = Proof { edge_bits, packed };
        assert forall|j: int| 0 <= j < spec_packed_len(edge_bits) implies p.packed@[j] == (if j
            < bytes@.len() {
            bytes@[j]
        } else {
            0
        }) by {
            if j < i {
                assert(packed@[j] == bytes@[j]);
            } else {
                assert(packed@[j] == 0);
            }
        }
        p
    }
}

/// The proof-of-work part of a header.
#[derive(Clone, Copy, Debug, PartialEq, Eq)]
pub struct ProofOfWork {
    /// The work of the chain up to and with this block.
    pub total_difficulty: Difficulty,
    /// The factor by which the secondary proof of work is scaled.
    pub secondary_scaling: u32,
    /// The nonce that the miner chose.
    pub nonce: u64,
    /// The cycle that was found.
    pub proof: Proof,
}

/// Calls `rand::random` for 64 bits of chance. Nothing is claimed of them.
#[verifier::external_body]
pub(crate) fn random_u64() -> u64 {
    rand::random::<u64>()
}

impl ProofOfWork {
    /// The part that is fixed before mining: difficulty and scaling.
    pub open spec fn spec_pre_pow(&self) -> Seq<u8> {
        u64_be(self.total_difficulty.num) + u32_be(self.secondary_scaling)
    }

    /// Whether the proof is of the primary kind.
    pub open spec fn spec_is_primary(&self) -> bool {
        self.proof.edge_bits != SECOND_POW_EDGE_BITS && self.proof.edge_bits >= MIN_EDGE_BITS
    }

    /// Whether the proof is of the secondary kind.
    pub open spec fn spec_is_secondary(&self) -> bool {
        self.proof.edge_bits == SECOND_POW_EDGE_BITS
    }

    /// Tells whether the proof is of the primary kind.
    pub fn is_primary(&self) -> (r: bool)
        ensures
            r == self.spec_is_primary(),
    {
        self.proof.edge_bits != SECOND_POW_EDGE_BITS && self.proof.edge_bits >= MIN_EDGE_BITS
    }

    /// Tells whether the proof is of the secondary kind.
    pub fn is_secondary(&self) -> (r: bool)
        ensures
            r == self.spec_is_secondary(),
    {
        self.proof.edge_bits == SECOND_POW_EDGE_BITS
    }

    /// Appends the part that is fixed before mining.
    pub fn write_pre_pow(&self, out: &mut Vec<u8>)
        ensures
            final(out)@ == old(out)@ + self.spec_pre_pow(),
    {
        write_u64(out, self.total_difficulty.num);
        write_u32(out, self.secondary_scaling);
        assert(out@ =~= old(out)@ + self.spec_pre_pow());
    }

    /// The proof of work with a proof of the least primary edge size whose
    /// packed nonces are chosen by chance.
    pub fn with_random_proof(self) -> (r: ProofOfWork)
        ensures
            r.total_difficulty == self.total_difficulty,
            r.secondary_scaling == self.secondary_scaling,
            r.nonce == self.nonce,
            r.proof.edge_bits == MIN_EDGE_BITS,
            r.proof.wf(),
    {
        let n = packed_len(MIN_EDGE_BITS);
        let mut bytes: Vec<u8> = Vec::new();
        let mut i: usize = 0;
        while i < n
            invariant
                i <= n,
            decreases n - i,
        {
            let word: u64 = random_u64();
            bytes.push((word & 0xff) as u8);
            i += 1;
        }
        ProofOfWork {
            total_difficulty: self.total_difficulty,
            secondary_scaling: self.secondary_scaling,
            nonce: self.nonce,
            proof: Proof::from_packed(MIN_EDGE_BITS, bytes.as_slice()),
        }
    }
}

impl Default for ProofOfWork {
    /// The least difficulty, a scaling of 1, no nonce and an all-zero proof
    /// of the least primary edge size.
    fn default() -> (r: ProofOfWork)
        ensures
            r.total_difficulty.num == 1,
            r.secondary_scaling == 1,
            r.nonce == 0,
            r.proof.edge_bits == MIN_EDGE_BITS,
            forall|i: int| 0 <= i < MAX_PACKED_LEN ==> r.proof.packed@[i] == 0,
            r.wf(),
    {
        ProofOfWork {
            total_difficulty: Difficulty::min(),
            secondary_scaling: 1,
            nonce: 0,
            proof: Proof::zero(MIN_EDGE_BITS),
        }
    }
}

impl Wire for ProofOfWork {
    open spec fn wf(&self) -> bool {
        self.proof.wf()
    }

    open spec fn ser(&self) -> Seq<u8> {
        self.spec_pre_pow() + u64_be(self.nonce) + seq![self.proof.edge_bits] + self.proof.bytes()
    }

    open spec fn read_err(s: Seq<u8>, pos: int) -> Option<SerError> {
        if pos + POW_HEAD_LEN > s.len() {
            Some(SerError::UnexpectedEof)
        } else if s[pos + 20] == 0 || s[pos + 20] > 64 {
            Some(SerError::CorruptedData)
        } else if pos + POW_HEAD_LEN + spec_packed_len(s[pos + 20]) > s.len() {
            Some(SerError::UnexpectedEof)
        } else {
            None
        }
    }

    open spec fn read_len(s: Seq<u8>, pos: int) -> int {
        POW_HEAD_LEN + spec_packed_len(s[pos + 20])
    }

    #[verifier::rlimit(40)]
    fn write(&self, out: &mut Vec<u8>) {
        proof {
            lemma_be_round_trip();
        }
        self.write_pre_pow(out);
        write_u64(out, self.nonce);
        write_u8(out, self.proof.edge_bits);
        let n = packed_len(self.proof.edge_bits);
        let bytes = vstd::slice::slice_subrange(self.proof.packed.as_slice(), 0, n);
        write_bytes(out, bytes);
        assert(out@ =~= old(out)@ + self.ser());
    }

    #[verifier::rlimit(40)]
    fn read(buf: &[u8], pos: usize) -> (r: Result<(Self, usize), SerError>) {
        if buf.len() < POW_HEAD_LEN || pos > buf.len() - POW_HEAD_LEN {
            return Err(SerError::UnexpectedEof);
        }
        let (difficulty, p1) = match read_u64(buf, pos) {
            Ok(v) => v,
            Err(e) => { return Err(e); },
        };
        let (scaling, p2) = match read_u32(buf, p1) {
            Ok(v) => v,
            Err(e) => { return Err(e); },
        };
        let (nonce, p3) = match read_u64(buf, p2) {
            Ok(v) => v,
            Err(e) => { return Err(e); },
        };
        let (edge_bits, p4) = match read_u8(buf, p3) {
            Ok(v) => v,
            Err(e) => { return Err(e); },
        };
        if edge_bits == 0 || edge_bits > 64 {
            return Err(SerError::CorruptedData);
        }
        let n = packed_len(edge_bits);
        if n > buf.len() - p4 {
            return Err(SerError::UnexpectedEof);
        }
        let p5: usize = p4 + n;
        let tail = vstd::slice::slice_subrange(buf, p4, p5);
        let proof = Proof::from_packed(edge_bits, tail);
        let x = ProofOfWork {
            total_difficulty: Difficulty { num: difficulty },
            secondary_scaling: scaling,
            nonce,
            proof,
        };
        proof {
            lemma_be_round_trip_bytes();
            assert(x.proof.bytes() =~= buf@.subrange(p4 as int, p5 as int));
            assert(x.ser() =~= buf@.subrange(pos as int, p5 as int));
        }
        Ok((x, p5))
    }

    #[verifier::rlimit(40)]
    proof fn lemma_ser_injective(a: Self, b: Self) {
        lemma_be_round_trip();
        assert(u64_be(a.total_difficulty.num) =~= a.ser().subrange(0, 8));
        assert(u64_be(b.total_difficulty.num) =~= b.ser().subrange(0, 8));
        assert(u32_be(a.secondary_scaling) =~= a.ser().subrange(8, 12));
        assert(u32_be(b.secondary_scaling) =~= b.ser().subrange(8, 12));
        assert(u64_be(a.nonce) =~= a.ser().subrange(12, 20));
        assert(u64_be(b.nonce) =~= b.ser().subrange(12, 20));
        assert(a.ser()[20] == a.proof.edge_bits);
        assert(b.ser()[20] == b.proof.edge_bits);
        assert forall|i: int| 0 <= i < MAX_PACKED_LEN implies a.proof.packed@[i]
            == b.proof.packed@[i] by {
            if i < spec_packed_len(a.proof.edge_bits) {
                assert(a.ser()[i + 21] == a.proof.bytes()[i]);
                assert(b.ser()[i + 21] == b.proof.bytes()[i]);
                assert(a.proof.bytes()[i] == a.proof.packed@[i]);
                assert(b.proof.bytes()[i] == b.proof.packed@[i]);
            }
        }
        assert(a.proof.packed =~= b.proof.packed);
    }

    #[verifier::rlimit(40)]
    proof fn lemma_readable(x: Self, s: Seq<u8>, pos: int) {
        lemma_be_round_trip();
        let sub = s.subrange(pos, pos + x.ser().len());
        assert(s[pos + 20] == sub[20]);
        assert(sub[20] == x.proof.edge_bits);
    }
}

} // verus!
