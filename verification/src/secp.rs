//! Curve values and the operations on them.
//!
//! Commitments, keys, signatures and range proofs are held here as the bytes
//! of their encodings. The curve arithmetic itself is done by the
//! `secp256k1zkp` library; each function that calls it says so, and states
//! its result through a specification function without a body. An error of
//! the curve library is handed on as the error of this library that stands
//! at the same place in the list of errors.

use vstd::prelude::*;
use secp256k1zkp::aggsig;
use secp256k1zkp::pedersen;
use secp256k1zkp::ContextFlag;
use secp256k1zkp::Secp256k1;

verus! {

/// Greatest length of a range proof.
pub const MAX_PROOF_LEN: usize = 675;

/// A Pedersen commitment: a tag byte and the x coordinate of a curve point.
#[derive(Clone, Copy, Debug, PartialEq, Eq, Hash)]
pub struct Commitment(pub [u8; 33]);

/// A public key in compressed form.
#[derive(Clone, Copy, Debug, PartialEq, Eq, Hash)]
pub struct PublicKey(pub [u8; 33]);

/// A signature, as the 64 bytes that the curve library keeps for it.
#[derive(Clone, Copy, Debug, PartialEq, Eq, Hash)]
pub struct Signature(pub [u8; 64]);

/// A message to sign: the 32 bytes of a hash.
#[derive(Clone, Copy, Debug, PartialEq, Eq, Hash)]
pub struct Message(pub [u8; 32]);

/// A blinding factor: a scalar, big-endian. All zeros means "no blinding".
#[derive(Clone, Copy, Debug, PartialEq, Eq, Hash)]
pub struct BlindingFactor(pub [u8; 32]);

/// A range proof: `plen` bytes at the start of `proof`.
#[derive(Clone, Copy, Debug, PartialEq, Eq, Hash)]
pub struct RangeProof {
    pub proof: [u8; 675],
    pub plen: usize,
}

/// What the curve library reports when an operation fails.
#[derive(Clone, Copy, Debug, PartialEq, Eq, Structural)]
pub enum SecpError {
    IncapableContext,
    IncorrectSignature,
    InvalidMessage,
    InvalidPublicKey,
    InvalidCommit,
    InvalidSignature,
    InvalidSecretKey,
    InvalidRecoveryId,
    IncorrectCommitSum,
    InvalidRangeProof,
    InvalidBulletproof,
    Other,
}

impl Commitment {
    /// The bytes of the commitment.
    pub open spec fn bytes(&self) -> Seq<u8> {
        self.0@
    }

    /// Whether two commitments hold the same bytes.
    pub fn same(&self, other: &Commitment) -> (r: bool)
        ensures
            r == (*self == *other),
    {
        let r = crate::ser::bytes_eq(self.0.as_slice(), other.0.as_slice());
        proof {
            if r {
                assert(self.0 =~= other.0);
            }
        }
        r
    }
}

impl Signature {
    /// Whether two signatures hold the same bytes.
    pub fn same(&self, other: &Signature) -> (r: bool)
        ensures
            r == (*self == *other),
    {
        let r = crate::ser::bytes_eq(self.0.as_slice(), other.0.as_slice());
        proof {
            if r {
                assert(self.0 =~= other.0);
            }
        }
        r
    }
}

impl PublicKey {
    /// Whether two keys hold the same bytes.
    pub fn same(&self, other: &PublicKey) -> (r: bool)
        ensures
            r == (*self == *other),
    {
        let r = crate::ser::bytes_eq(self.0.as_slice(), other.0.as_slice());
        proof {
            if r {
                assert(self.0 =~= other.0);
            }
        }
        r
    }
}

impl BlindingFactor {
    /// Whether every byte of the blinding factor is zero.
    pub open spec fn is_zero(&self) -> bool {
        forall|i: int| 0 <= i < 32 ==> self.0@[i] == 0
    }

    /// The blinding factor that blinds nothing.
    pub open spec fn spec_zero() -> BlindingFactor {
        BlindingFactor(vstd::array::spec_array_fill_for_copy_type::<u8, 32>(0u8))
    }

    /// The blinding factor that blinds nothing.
    pub fn zero() -> (r: BlindingFactor)
        ensures
            r == Self::spec_zero(),
            r.is_zero(),
    {
        proof {
            Self::lemma_zero();
        }
        BlindingFactor([0u8; 32])
    }

    /// The zero blinding factor is the one whose bytes are all zero.
    pub proof fn lemma_zero()
        ensures
            Self::spec_zero().is_zero(),
            forall|b: BlindingFactor| b.is_zero() ==> b == Self::spec_zero(),
    {
        vstd::array::axiom_spec_array_fill_for_copy_type::<u8, 32>(0u8);
        assert forall|b: BlindingFactor| b.is_zero() implies b == Self::spec_zero() by {
            assert(b.0 =~= Self::spec_zero().0);
        }
    }

    /// Tells whether this is the blinding factor that blinds nothing.
    pub fn check_zero(&self) -> (r: bool)
        ensures
            r == self.is_zero(),
    {
        let mut i: usize = 0;
        while i < 32
            invariant
                i <= 32,
                forall|j: int| 0 <= j < i ==> self.0@[j] == 0,
            decreases 32 - i,
        {
            if self.0[i] != 0 {
                return false;
            }
            i += 1;
        }
        true
    }

    /// Whether two blinding factors hold the same bytes.
    pub fn same(&self, other: &BlindingFactor) -> (r: bool)
        ensures
            r == (*self == *other),
    {
        let r = crate::ser::bytes_eq(self.0.as_slice(), other.0.as_slice());
        proof {
            if r {
                assert(self.0 =~= other.0);
            }
        }
        r
    }
}

impl RangeProof {
    /// A range proof is well formed when its length fits and the bytes
    /// after it are zero.
    pub open spec fn wf(&self) -> bool {
        &&& self.plen <= MAX_PROOF_LEN
        &&& forall|i: int| self.plen <= i < MAX_PROOF_LEN ==> self.proof@[i] == 0
    }

    /// The length of the proof, held at the greatest that a proof can have.
    pub open spec fn spec_len(&self) -> int {
        if self.plen > MAX_PROOF_LEN {
            MAX_PROOF_LEN as int
        } else {
            self.plen as int
        }
    }

    /// The bytes of the proof.
    pub open spec fn bytes(&self) -> Seq<u8> {
        self.proof@.subrange(0, self.spec_len())
    }

    /// The length of the proof, held at the greatest that a proof can have.
    pub fn len(&self) -> (n: usize)
        ensures
            n == self.spec_len(),
    {
        if self.plen > MAX_PROOF_LEN {
            MAX_PROOF_LEN
        } else {
            self.plen
        }
    }

    /// The empty proof.
    pub fn zero() -> (r: RangeProof)
        ensures
            r.wf(),
            r.plen == 0,
    {
        RangeProof { proof: [0u8; 675], plen: 0 }
    }
}

impl SecpError {
    /// The error that stands at place `code` in the curve library's list of
    /// errors; those that this library has no name for are `Other`.
    pub open spec fn spec_from_code(code: u8) -> SecpError {
        if code == 0 {
            SecpError::IncapableContext
        } else if code == 1 {
            SecpError::IncorrectSignature
        } else if code == 2 {
            SecpError::InvalidMessage
        } else if code == 3 {
            SecpError::InvalidPublicKey
        } else if code == 4 {
            SecpError::InvalidCommit
        } else if code == 5 {
            SecpError::InvalidSignature
        } else if code == 6 {
            SecpError::InvalidSecretKey
        } else if code == 7 {
            SecpError::InvalidRecoveryId
        } else if code == 8 {
            SecpError::IncorrectCommitSum
        } else if code == 9 {
            SecpError::InvalidRangeProof
        } else if code == 12 {
            SecpError::InvalidBulletproof
        } else {
            SecpError::Other
        }
    }

    /// The error that stands at place `code` in the curve library's list of
    /// errors.
    pub fn from_code(code: u8) -> (e: SecpError)
        ensures
            e == Self::spec_from_code(code),
    {
        match code {
            0 => SecpError::IncapableContext,
            1 => SecpError::IncorrectSignature,
            2 => SecpError::InvalidMessage,
            3 => SecpError::InvalidPublicKey,
            4 => SecpError::InvalidCommit,
            5 => SecpError::InvalidSignature,
            6 => SecpError::InvalidSecretKey,
            7 => SecpError::InvalidRecoveryId,
            8 => SecpError::IncorrectCommitSum,
            9 => SecpError::InvalidRangeProof,
            12 => SecpError::InvalidBulletproof,
            _ => SecpError::Other,
        }
    }
}

/// What `Secp256k1::commit_sum` returns for the given commitments.
pub uninterp spec fn spec_commit_sum(positive: Seq<Commitment>, negative: Seq<Commitment>) -> Result<
    Commitment,
    SecpError,
>;

/// What `Secp256k1::commit_value` returns for the given value.
pub uninterp spec fn spec_commit_value(value: u64) -> Result<Commitment, SecpError>;

/// What `Secp256k1::commit` returns for the value 0 and the given blinding
/// factor.
pub uninterp spec fn spec_commit_blind(blind: BlindingFactor) -> Result<Commitment, SecpError>;

/// What `PublicKey::from_slice` returns for the given bytes, in compressed
/// form.
pub uninterp spec fn spec_pubkey_parse(bytes: Seq<u8>) -> Result<PublicKey, SecpError>;

/// What `PublicKey::mul_assign` leaves in the key, in compressed form.
pub uninterp spec fn spec_pubkey_mul(key: PublicKey, scalar: Seq<u8>) -> Result<
    PublicKey,
    SecpError,
>;

/// What `Commitment::from_pubkey` returns for the given key.
pub uninterp spec fn spec_commit_from_pubkey(key: PublicKey) -> Result<Commitment, SecpError>;

/// What `Commitment::to_pubkey` returns for the given commitment, in
/// compressed form.
pub uninterp spec fn spec_commit_to_pubkey(commit: Commitment) -> Result<PublicKey, SecpError>;

/// Whether `Secp256k1::verify` accepts the signature for the message and key.
pub uninterp spec fn spec_ecdsa_valid(msg: Seq<u8>, sig: Signature, key: PublicKey) -> bool;

/// Whether `aggsig::verify_single` accepts the signature for the message,
/// with the key as the only signer.
pub uninterp spec fn spec_aggsig_valid(msg: Seq<u8>, sig: Signature, key: PublicKey) -> bool;

/// What `Secp256k1::verify_bullet_proof` answers for the commitment and proof.
pub uninterp spec fn spec_bullet_proof_check(commit: Commitment, proof: Seq<u8>) -> Result<
    (),
    SecpError,
>;

/// Whether `SecretKey::from_slice` accepts the bytes as a secret key.
pub uninterp spec fn spec_valid_secret(bytes: Seq<u8>) -> bool;

/// What `Secp256k1::blind_sum` returns for the given scalars.
pub uninterp spec fn spec_blind_sum(
    positive: Seq<BlindingFactor>,
    negative: Seq<BlindingFactor>,
) -> Result<BlindingFactor, SecpError>;

/// Calls `Secp256k1::commit_sum`: the sum of the positive commitments minus
/// the sum of the negative ones. The result is a function of the two lists.
/// Here as in the functions below, an error is handed on by its place in the
/// curve library's list of errors.
#[verifier::external_body]
pub(crate) fn commit_sum(positive: &Vec<Commitment>, negative: &Vec<Commitment>) -> (r: Result<
    Commitment,
    SecpError,
>)
    ensures
        r == spec_commit_sum(positive@, negative@),
{
    let secp = Secp256k1::with_caps(ContextFlag::Commit);
    let pos = positive.iter().map(|c| pedersen::Commitment(c.0)).collect();
    let neg = negative.iter().map(|c| pedersen::Commitment(c.0)).collect();
    let sum = secp.commit_sum(pos, neg);
    sum.map(|c| Commitment(c.0)).map_err(|e| SecpError::from_code(e as u8))
}

/// Calls `Secp256k1::commit_value`: the commitment to `value` under the
/// native generator with no blinding. For the value 0 that would be the
/// point at infinity, of which the curve library makes no commitment: it
/// returns its error for an invalid commitment.
#[verifier::external_body]
pub(crate) fn commit_value(value: u64) -> (r: Result<Commitment, SecpError>)
    ensures
        r == spec_commit_value(value),
        value == 0 ==> r is Err && r->Err_0 == SecpError::InvalidCommit,
{
    let secp = Secp256k1::with_caps(ContextFlag::Commit);
    let commit = secp.commit_value(value);
    commit.map(|c| Commitment(c.0)).map_err(|e| SecpError::from_code(e as u8))
}

/// Calls `Secp256k1::commit` with the value 0: the commitment that holds
/// only the blinding factor. A blinding factor that is no secret key gives
/// the error of `SecretKey::from_slice`.
#[verifier::external_body]
pub(crate) fn commit_blind(blind: &BlindingFactor) -> (r: Result<Commitment, SecpError>)
    ensures
        r == spec_commit_blind(*blind),
{
    let secp = Secp256k1::with_caps(ContextFlag::Commit);
    let key = secp256k1zkp::SecretKey::from_slice(&secp, &blind.0)
        .map_err(|e| SecpError::from_code(e as u8))?;
    let commit = secp.commit(0, key);
    commit.map(|c| Commitment(c.0)).map_err(|e| SecpError::from_code(e as u8))
}

/// Calls `PublicKey::from_slice` on a compressed or uncompressed encoding
/// and hands the key back in compressed form.
#[verifier::external_body]
pub(crate) fn pubkey_parse(bytes: &[u8]) -> (r: Result<PublicKey, SecpError>)
    ensures
        r == spec_pubkey_parse(bytes@),
{
    let secp = Secp256k1::with_caps(ContextFlag::None);
    let key = secp256k1zkp::PublicKey::from_slice(&secp, bytes)
        .map_err(|e| SecpError::from_code(e as u8))?;
    let mut out = [0u8; 33];
    out.copy_from_slice(&key.serialize_vec(&secp, true));
    Ok(PublicKey(out))
}

/// Calls `PublicKey::mul_assign`: the key multiplied by the scalar. A key
/// that does not parse gives the error of `PublicKey::from_slice`, a scalar
/// that is no secret key the error of `SecretKey::from_slice`.
#[verifier::external_body]
pub(crate) fn pubkey_mul(key: &PublicKey, scalar: &[u8; 32]) -> (r: Result<PublicKey, SecpError>)
    ensures
        r == spec_pubkey_mul(*key, scalar@),
{
    let secp = Secp256k1::with_caps(ContextFlag::Full);
    let mut point = secp256k1zkp::PublicKey::from_slice(&secp, &key.0)
        .map_err(|e| SecpError::from_code(e as u8))?;
    let factor = secp256k1zkp::SecretKey::from_slice(&secp, scalar)
        .map_err(|e| SecpError::from_code(e as u8))?;
    point.mul_assign(&secp, &factor)
        .map_err(|e| SecpError::from_code(e as u8))?;
    let mut out = [0u8; 33];
    out.copy_from_slice(&point.serialize_vec(&secp, true));
    Ok(PublicKey(out))
}

/// Calls `Commitment::from_pubkey`: the commitment that is the same curve
/// point as the key.
#[verifier::external_body]
pub(crate) fn commit_from_pubkey(key: &PublicKey) -> (r: Result<Commitment, SecpError>)
    ensures
        r == spec_commit_from_pubkey(*key),
{
    let secp = Secp256k1::with_caps(ContextFlag::None);
    let point = secp256k1zkp::PublicKey::from_slice(&secp, &key.0)
        .map_err(|e| SecpError::from_code(e as u8))?;
    let commit = pedersen::Commitment::from_pubkey(&secp, &point);
    commit.map(|c| Commitment(c.0)).map_err(|e| SecpError::from_code(e as u8))
}

/// Calls `Commitment::to_pubkey`: the public key that is the same curve
/// point as the commitment, in compressed form.
#[verifier::external_body]
pub(crate) fn commit_to_pubkey(commit: &Commitment) -> (r: Result<PublicKey, SecpError>)
    ensures
        r == spec_commit_to_pubkey(*commit),
{
    let secp = Secp256k1::with_caps(ContextFlag::None);
    let key = pedersen::Commitment(commit.0).to_pubkey(&secp)
        .map_err(|e| SecpError::from_code(e as u8))?;
    let mut out = [0u8; 33];
    out.copy_from_slice(&key.serialize_vec(&secp, true));
    Ok(PublicKey(out))
}

/// Calls `Secp256k1::verify`: whether the ECDSA signature is one of the key
/// over the message. A key that does not parse verifies nothing.
#[verifier::external_body]
pub(crate) fn ecdsa_verify(msg: &[u8; 32], sig: &Signature, key: &PublicKey) -> (r: bool)
    ensures
        r == spec_ecdsa_valid(msg@, *sig, *key),
{
    let secp = Secp256k1::with_caps(ContextFlag::VerifyOnly);
    let message = secp256k1zkp::Message::from(*msg);
    let signature = secp256k1zkp::Signature::from_raw_data(&sig.0);
    let point = secp256k1zkp::PublicKey::from_slice(&secp, &key.0);
    match (signature, point) {
        (Ok(s), Ok(p)) => secp.verify(&message, &s, &p).is_ok(),
        _ => false,
    }
}

/// Calls `aggsig::verify_single` with the key as the signer and as the total
/// key, with no public nonce and no extra key, for a whole signature.
/// A key that does not parse verifies nothing.
#[verifier::external_body]
pub(crate) fn aggsig_verify(msg: &[u8; 32], sig: &Signature, key: &PublicKey) -> (r: bool)
    ensures
        r == spec_aggsig_valid(msg@, *sig, *key),
{
    let secp = Secp256k1::with_caps(ContextFlag::Full);
    let message = secp256k1zkp::Message::from(*msg);
    let signature = secp256k1zkp::Signature::from_raw_data(&sig.0);
    let point = secp256k1zkp::PublicKey::from_slice(&secp, &key.0);
    match (signature, point) {
        (Ok(s), Ok(p)) => {
            aggsig::verify_single(&secp, &s, &message, None, &p, Some(&p), None, false)
        },
        _ => false,
    }
}

/// Calls `Secp256k1::verify_bullet_proof` with no extra data: whether the
/// proof shows that the commitment holds a value of 64 bits.
#[verifier::external_body]
pub(crate) fn bullet_proof_check(commit: &Commitment, proof: &RangeProof) -> (r: Result<
    (),
    SecpError,
>)
    requires
        proof.plen <= MAX_PROOF_LEN,
    ensures
        r == spec_bullet_proof_check(*commit, proof.bytes()),
{
    let secp = Secp256k1::with_caps(ContextFlag::Commit);
    let mut bytes = [0u8; secp256k1zkp::constants::MAX_PROOF_SIZE];
    bytes[..MAX_PROOF_LEN].copy_from_slice(&proof.proof);
    let outside = pedersen::RangeProof { proof: bytes, plen: proof.plen };
    let commit = pedersen::Commitment(commit.0);
    let range = secp.verify_bullet_proof(commit, outside, None);
    range.map(|_| ()).map_err(|e| SecpError::from_code(e as u8))
}

/// Calls `SecretKey::from_slice`: whether the bytes are a scalar that the
/// curve library takes as a secret key. It takes no scalar of zero.
#[verifier::external_body]
pub(crate) fn valid_secret(bytes: &[u8; 32]) -> (r: bool)
    ensures
        r == spec_valid_secret(bytes@),
        (forall|i: int| 0 <= i < 32 ==> bytes@[i] == 0) ==> !r,
{
    let secp = Secp256k1::with_caps(ContextFlag::None);
    secp256k1zkp::SecretKey::from_slice(&secp, bytes).is_ok()
}

/// Calls `Secp256k1::blind_sum`: the sum of the positive scalars minus the
/// sum of the negative ones. Every scalar must be a secret key: the curve
/// library stops the program on one that is not.
#[verifier::external_body]
pub(crate) fn blind_sum(positive: &Vec<BlindingFactor>, negative: &Vec<BlindingFactor>) -> (r:
    Result<BlindingFactor, SecpError>)
    requires
        forall|i: int| 0 <= i < positive@.len() ==> spec_valid_secret(#[trigger] positive@[i].0@),
        forall|i: int| 0 <= i < negative@.len() ==> spec_valid_secret(#[trigger] negative@[i].0@),
    ensures
        r == spec_blind_sum(positive@, negative@),
{
    let secp = Secp256k1::with_caps(ContextFlag::Commit);
    let pos = positive.iter().map(|b| secp256k1zkp::SecretKey(b.0)).collect();
    let neg = negative.iter().map(|b| secp256k1zkp::SecretKey(b.0)).collect();
    let sum = secp.blind_sum(pos, neg);
    sum.map(|k| BlindingFactor(k.0)).map_err(|e| SecpError::from_code(e as u8))
}

} // verus!
