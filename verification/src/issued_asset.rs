//! Issued assets and the signed actions that create and change them.

use vstd::prelude::*;
use vstd::bytes::spec_u128_to_le_bytes;
use crate::asset::Asset;
use crate::hash::{blake2b, spec_blake2b};
use crate::secp::{ecdsa_verify, pubkey_parse, spec_ecdsa_valid, spec_pubkey_parse, PublicKey, Signature};
use crate::ser::{
    be_u32, lemma_be_round_trip, lemma_be_round_trip_bytes, read_array, read_u128,
    read_u32, read_u8, u128_be, u32_be, write_bytes, write_u128, write_u32, write_u8, SerError,
    Wire,
};

verus! {

/// Length of an encoded issued-asset record.
pub const ISSUED_ASSET_LEN: usize = 114;

/// Length of an encoded `New` action after its length prefix.
pub const NEW_PAYLOAD_LEN: usize = 243;

/// Length of an encoded `Issue` or `Withdraw` action after its length prefix.
pub const AMOUNT_PAYLOAD_LEN: usize = 145;

/// Length of an encoded `ChangeOwner` action after its length prefix.
pub const OWNER_PAYLOAD_LEN: usize = 162;

/// The record of an issued asset: how much of it exists, who may change
/// that, whether more can be issued, and which asset it is.
#[derive(Clone, Copy, Debug, PartialEq, Eq, Hash)]
pub struct IssuedAsset {
    pub supply: u128,
    pub owner: PublicKey,
    pub mintable: bool,
    pub asset: Asset,
}

/// A signed action on an asset.
#[derive(Clone, Copy, Debug, PartialEq, Eq, Hash)]
pub enum AssetAction {
    /// Creates the asset with its first record, signed by the record's owner.
    New(Asset, IssuedAsset, Signature),
    /// Adds to the supply, signed by the owner.
    Issue(Asset, u128, Signature),
    /// Takes from the supply, signed by the owner.
    Withdraw(Asset, u128, Signature),
    /// Hands the asset to a new owner, signed by the old one.
    ChangeOwner(Asset, PublicKey, Signature),
}

/// The byte that encodes a flag.
pub open spec fn spec_flag(b: bool) -> u8 {
    if b {
        1
    } else {
        0
    }
}

impl IssuedAsset {
    /// A record with the given fields.
    pub fn new(supply: u128, owner: PublicKey, mintable: bool, asset: Asset) -> (r: IssuedAsset)
        ensures
            r == (IssuedAsset { supply, owner, mintable, asset }),
    {
        IssuedAsset { supply, owner, mintable, asset }
    }

    /// How much of the asset exists.
    pub fn supply(&self) -> (r: &u128)
        ensures
            *r == self.supply,
    {
        &self.supply
    }

    /// Who may change the record.
    pub fn owner(&self) -> (r: &PublicKey)
        ensures
            *r == self.owner,
    {
        &self.owner
    }

    /// Whether more of the asset can be issued.
    pub fn mintable(&self) -> (r: bool)
        ensures
            r == self.mintable,
    {
        self.mintable
    }

    /// Which asset the record describes.
    pub fn asset(&self) -> (r: &Asset)
        ensures
            *r == self.asset,
    {
        &self.asset
    }

    /// The encoding of the record: the message that its owner signs.
    pub fn to_bytes(&self) -> (bytes: Vec<u8>)
        ensures
            bytes@ == self.ser(),
            bytes@.len() == ISSUED_ASSET_LEN,
    {
        proof {
            lemma_be_round_trip();
        }
        let mut out: Vec<u8> = Vec::new();
        write_u128(&mut out, self.supply);
        write_bytes(&mut out, self.owner.0.as_slice());
        write_u8(&mut out, if self.mintable { 1 } else { 0 });
        write_bytes(&mut out, self.asset.0.as_slice());
        assert(out@ =~= self.ser());
        out
    }
}

impl IssuedAsset {
    /// The hash of the record: that of its encoding.
    pub fn hash(&self) -> (h: crate::hash::Hash)
        ensures
            h == spec_blake2b(self.ser()),
    {
        crate::hash::hash_of(self)
    }

    /// Whether two records are the same.
    pub fn same(&self, other: &IssuedAsset) -> (r: bool)
        ensures
            r == (*self == *other),
    {
        self.supply == other.supply && self.owner.same(&other.owner) && self.mintable
            == other.mintable && self.asset.same(&other.asset)
    }
}

impl crate::ser::Identity for AssetAction {
    open spec fn same_as(&self, other: &Self) -> bool {
        *self == *other
    }

    fn is_same(&self, other: &Self) -> (r: bool) {
        match (self, other) {
            (AssetAction::New(a1, i1, s1), AssetAction::New(a2, i2, s2)) => a1.same(a2)
                && i1.same(i2) && s1.same(s2),
            (AssetAction::Issue(a1, n1, s1), AssetAction::Issue(a2, n2, s2)) => a1.same(a2)
                && *n1 == *n2 && s1.same(s2),
            (AssetAction::Withdraw(a1, n1, s1), AssetAction::Withdraw(a2, n2, s2)) => a1.same(a2)
                && *n1 == *n2 && s1.same(s2),
            (AssetAction::ChangeOwner(a1, o1, s1), AssetAction::ChangeOwner(a2, o2, s2)) => a1.same(
                a2,
            ) && o1.same(o2) && s1.same(s2),
            _ => false,
        }
    }
}

impl Wire for IssuedAsset {
    open spec fn wf(&self) -> bool {
        spec_pubkey_parse(self.owner.0@) is Ok
    }

    open spec fn ser(&self) -> Seq<u8> {
        u128_be(self.supply) + self.owner.0@ + seq![spec_flag(self.mintable)] + self.asset@
    }

    open spec fn read_err(s: Seq<u8>, pos: int) -> Option<SerError> {
        if pos + ISSUED_ASSET_LEN > s.len() {
            Some(SerError::UnexpectedEof)
        } else if spec_pubkey_parse(s.subrange(pos + 16, pos + 49)) is Err {
            Some(SerError::InvalidInput)
        } else if s[pos + 49] > 1 {
            Some(SerError::CorruptedData)
        } else {
            None
        }
    }

    open spec fn read_len(s: Seq<u8>, pos: int) -> int {
        ISSUED_ASSET_LEN as int
    }

    #[verifier::rlimit(40)]
    fn write(&self, out: &mut Vec<u8>) {
        let bytes = self.to_bytes();
        write_bytes(out, bytes.as_slice());
    }

    #[verifier::rlimit(40)]
    fn read(buf: &[u8], pos: usize) -> (r: Result<(Self, usize), SerError>) {
        if buf.len() < ISSUED_ASSET_LEN || pos > buf.len() - ISSUED_ASSET_LEN {
            return Err(SerError::UnexpectedEof);
        }
        let (supply, p1) = match read_u128(buf, pos) {
            Ok(v) => v,
            Err(e) => { return Err(e); },
        };
        let (owner, p2) = match read_array::<33>(buf, p1) {
            Ok(v) => v,
            Err(e) => { return Err(e); },
        };
        if pubkey_parse(owner.as_slice()).is_err() {
            return Err(SerError::InvalidInput);
        }
        let (flag, p3) = match read_u8(buf, p2) {
            Ok(v) => v,
            Err(e) => { return Err(e); },
        };
        if flag > 1 {
            return Err(SerError::CorruptedData);
        }
        let (asset, p4) = match read_array::<64>(buf, p3) {
            Ok(v) => v,
            Err(e) => { return Err(e); },
        };
        let x = IssuedAsset {
            supply,
            owner: PublicKey(owner),
            mintable: flag == 1,
            asset: Asset(asset),
        };
        proof {
            lemma_be_round_trip_bytes();
            assert(x.ser() =~= buf@.subrange(pos as int, p4 as int));
        }
        Ok((x, p4))
    }

    #[verifier::rlimit(40)]
    proof fn lemma_ser_injective(a: Self, b: Self) {
        lemma_be_round_trip();
        assert(u128_be(a.supply) =~= a.ser().subrange(0, 16));
        assert(u128_be(b.supply) =~= b.ser().subrange(0, 16));
        assert forall|i: int| 0 <= i < 33 implies a.owner.0@[i] == b.owner.0@[i] by {
            assert(a.ser()[i + 16] == a.owner.0@[i]);
            assert(b.ser()[i + 16] == b.owner.0@[i]);
        }
        assert(a.owner.0 =~= b.owner.0);
        assert(a.ser()[49] == spec_flag(a.mintable));
        assert(b.ser()[49] == spec_flag(b.mintable));
        assert forall|i: int| 0 <= i < 64 implies a.asset.0@[i] == b.asset.0@[i] by {
            assert(a.ser()[i + 50] == a.asset.0@[i]);
            assert(b.ser()[i + 50] == b.asset.0@[i]);
        }
        assert(a.asset.0 =~= b.asset.0);
    }

    #[verifier::rlimit(40)]
    proof fn lemma_readable(x: Self, s: Seq<u8>, pos: int) {
        lemma_be_round_trip();
        let sub = s.subrange(pos, pos + x.ser().len());
        assert(s.subrange(pos + 16, pos + 49) =~= sub.subrange(16, 49));
        assert(sub.subrange(16, 49) =~= x.owner.0@);
        assert(s[pos + 49] == sub[49]);
        assert(sub[49] == spec_flag(x.mintable));
    }
}

/// Calls `bincode::serialize` on a 128-bit integer: with bincode's default
/// options that is the integer's 16 bytes, least significant first.
#[verifier::external_body]
fn bincode_u128(v: u128) -> (bytes: Vec<u8>)
    ensures
        bytes@ == spec_u128_to_le_bytes(v),
{
    bincode::serialize(&v).unwrap()
}

impl AssetAction {
    /// The byte that encodes the kind of action.
    pub open spec fn tag(self) -> u8 {
        match self {
            AssetAction::New(..) => 0,
            AssetAction::Issue(..) => 1,
            AssetAction::Withdraw(..) => 2,
            AssetAction::ChangeOwner(..) => 3,
        }
    }

    /// The asset that the action is about.
    pub open spec fn spec_asset(self) -> Asset {
        match self {
            AssetAction::New(asset, _, _) => asset,
            AssetAction::Issue(asset, _, _) => asset,
            AssetAction::Withdraw(asset, _, _) => asset,
            AssetAction::ChangeOwner(asset, _, _) => asset,
        }
    }

    /// By how much the action changes the supply: the first supply for
    /// `New`, the amount for `Issue` and `Withdraw`, nothing for `ChangeOwner`.
    pub open spec fn spec_amount(self) -> u128 {
        match self {
            AssetAction::New(_, issued, _) => issued.supply,
            AssetAction::Issue(_, amount, _) => amount,
            AssetAction::Withdraw(_, amount, _) => amount,
            AssetAction::ChangeOwner(..) => 0,
        }
    }

    /// The signature that the action carries.
    pub open spec fn spec_signature(self) -> Signature {
        match self {
            AssetAction::New(_, _, sig) => sig,
            AssetAction::Issue(_, _, sig) => sig,
            AssetAction::Withdraw(_, _, sig) => sig,
            AssetAction::ChangeOwner(_, _, sig) => sig,
        }
    }

    /// The bytes that the signature is made over: the record for `New`, the
    /// amount (16 bytes, least significant first) for `Issue` and
    /// `Withdraw`, the new owner's key for `ChangeOwner`.
    pub open spec fn spec_signed_payload(self) -> Seq<u8> {
        match self {
            AssetAction::New(_, issued, _) => issued.ser(),
            AssetAction::Issue(_, amount, _) => spec_u128_to_le_bytes(amount),
            AssetAction::Withdraw(_, amount, _) => spec_u128_to_le_bytes(amount),
            AssetAction::ChangeOwner(_, owner, _) => owner.0@,
        }
    }

    /// Whether the action's signature is one of `pk` over the hash of the
    /// signed bytes.
    pub open spec fn spec_valid(self, pk: PublicKey) -> bool {
        spec_ecdsa_valid(spec_blake2b(self.spec_signed_payload()).0@, self.spec_signature(), pk)
    }

    /// What can be checked of the action without the ledger: a `New` action
    /// must be signed by the owner that its record names; of the others
    /// nothing can be checked.
    pub open spec fn spec_validate(self) -> bool {
        match self {
            AssetAction::New(_, issued, _) => self.spec_valid(issued.owner),
            _ => true,
        }
    }

    /// The bytes that the signature is made over.
    pub fn signed_payload(&self) -> (bytes: Vec<u8>)
        ensures
            bytes@ == self.spec_signed_payload(),
    {
        match self {
            AssetAction::New(_, issued, _) => issued.to_bytes(),
            AssetAction::Issue(_, amount, _) => bincode_u128(*amount),
            AssetAction::Withdraw(_, amount, _) => bincode_u128(*amount),
            AssetAction::ChangeOwner(_, owner, _) => {
                let mut out: Vec<u8> = Vec::new();
                write_bytes(&mut out, owner.0.as_slice());
                assert(out@ =~= owner.0@);
                out
            },
        }
    }

    /// Checks the signature against the owner, where the action names one.
    pub fn validate(&self) -> (r: bool)
        ensures
            r == self.spec_validate(),
    {
        if self.is_new() {
            self.validate_new()
        } else {
            true
        }
    }

    /// Checks that a `New` action is signed by the owner that its record names.
    pub fn validate_new(&self) -> (r: bool)
        requires
            self is New,
        ensures
            r == self.spec_validate(),
    {
        match self {
            AssetAction::New(_, issued, _) => self.valid(issued.owner()),
            _ => true,
        }
    }

    /// Tells whether the action's signature is one of `pk` over the hash of
    /// the signed bytes.
    pub fn valid(&self, pk: &PublicKey) -> (r: bool)
        ensures
            r == self.spec_valid(*pk),
    {
        let bytes = self.signed_payload();
        let msg = blake2b(bytes.as_slice());
        let sig = self.signature();
        ecdsa_verify(&msg.0, &sig, pk)
    }

    /// The signature that the action carries.
    pub fn signature(&self) -> (sig: Signature)
        ensures
            sig == self.spec_signature(),
    {
        match self {
            AssetAction::New(_, _, sig) => *sig,
            AssetAction::Issue(_, _, sig) => *sig,
            AssetAction::Withdraw(_, _, sig) => *sig,
            AssetAction::ChangeOwner(_, _, sig) => *sig,
        }
    }

    /// The asset that the action is about.
    pub fn asset(&self) -> (asset: Asset)
        ensures
            asset == self.spec_asset(),
    {
        match self {
            AssetAction::New(asset, _, _) => *asset,
            AssetAction::Issue(asset, _, _) => *asset,
            AssetAction::Withdraw(asset, _, _) => *asset,
            AssetAction::ChangeOwner(asset, _, _) => *asset,
        }
    }

    /// By how much the action changes the supply.
    pub fn amount(&self) -> (amount: u128)
        ensures
            amount == self.spec_amount(),
    {
        match self {
            AssetAction::New(_, issued, _) => issued.supply,
            AssetAction::Issue(_, amount, _) => *amount,
            AssetAction::Withdraw(_, amount, _) => *amount,
            AssetAction::ChangeOwner(..) => 0,
        }
    }

    /// Whether the action creates an asset.
    pub fn is_new(&self) -> (r: bool)
        ensures
            r == (self is New),
    {
        match self {
            AssetAction::New(..) => true,
            _ => false,
        }
    }

    /// The record that a `New` action creates.
    pub fn issued_asset(&self) -> (r: Option<IssuedAsset>)
        ensures
            r == self.spec_issued_asset(),
    {
        match self {
            AssetAction::New(_, issued, _) => Some(*issued),
            _ => None,
        }
    }

    /// The record that a `New` action creates; none for the other actions.
    pub open spec fn spec_issued_asset(self) -> Option<IssuedAsset> {
        match self {
            AssetAction::New(_, issued, _) => Some(issued),
            _ => None,
        }
    }

    /// The hash of the action: that of its encoding.
    pub fn hash(&self) -> (h: crate::hash::Hash)
        ensures
            h == spec_blake2b(self.ser()),
    {
        crate::hash::hash_of(self)
    }

    /// The bytes between the asset and the signature in the encoding.
    pub open spec fn spec_body(self) -> Seq<u8> {
        match self {
            AssetAction::New(_, issued, _) => issued.ser(),
            AssetAction::Issue(_, amount, _) => u128_be(amount),
            AssetAction::Withdraw(_, amount, _) => u128_be(amount),
            AssetAction::ChangeOwner(_, owner, _) => owner.0@,
        }
    }

    /// The encoding after the length prefix: the kind, the asset, the
    /// fields of that kind, the signature.
    pub open spec fn spec_payload(self) -> Seq<u8> {
        seq![self.tag()] + self.spec_asset()@ + self.spec_body() + self.spec_signature().0@
    }

    /// The length of the payload of an action of the kind that `tag` encodes.
    pub open spec fn spec_payload_len(tag: u8) -> int {
        if tag == 0 {
            NEW_PAYLOAD_LEN as int
        } else if tag == 3 {
            OWNER_PAYLOAD_LEN as int
        } else {
            AMOUNT_PAYLOAD_LEN as int
        }
    }
}

/// The payload length that the bytes of an action announce.
pub open spec fn spec_action_len(s: Seq<u8>, pos: int) -> u32 {
    be_u32(s.subrange(pos, pos + 4))
}

impl Wire for AssetAction {
    open spec fn wf(&self) -> bool {
        match *self {
            AssetAction::New(_, issued, _) => issued.wf(),
            AssetAction::ChangeOwner(_, owner, _) => spec_pubkey_parse(owner.0@) is Ok,
            _ => true,
        }
    }

    open spec fn ser(&self) -> Seq<u8> {
        u32_be(self.spec_payload().len() as u32) + self.spec_payload()
    }

    open spec fn read_err(s: Seq<u8>, pos: int) -> Option<SerError> {
        if pos + 4 > s.len() {
            Some(SerError::UnexpectedEof)
        } else if pos + 4 + spec_action_len(s, pos) > s.len() {
            Some(SerError::UnexpectedEof)
        } else if spec_action_len(s, pos) < 1 || s[pos + 4] > 3 || spec_action_len(s, pos)
            != AssetAction::spec_payload_len(s[pos + 4]) {
            Some(SerError::InvalidInput)
        } else if s[pos + 4] == 0 && IssuedAsset::read_err(s, pos + 69) is Some {
            Some(SerError::InvalidInput)
        } else if s[pos + 4] == 3 && spec_pubkey_parse(s.subrange(pos + 69, pos + 102)) is Err {
            Some(SerError::InvalidInput)
        } else {
            None
        }
    }

    open spec fn read_len(s: Seq<u8>, pos: int) -> int {
        4 + spec_action_len(s, pos)
    }

    #[verifier::rlimit(40)]
    fn write(&self, out: &mut Vec<u8>) {
        proof {
            lemma_be_round_trip();
        }
        let mut payload: Vec<u8> = Vec::new();
        match self {
            AssetAction::New(asset, issued, sig) => {
                write_u8(&mut payload, 0);
                write_bytes(&mut payload, asset.0.as_slice());
                issued.write(&mut payload);
                write_bytes(&mut payload, sig.0.as_slice());
            },
            AssetAction::Issue(asset, amount, sig) => {
                write_u8(&mut payload, 1);
                write_bytes(&mut payload, asset.0.as_slice());
                write_u128(&mut payload, *amount);
                write_bytes(&mut payload, sig.0.as_slice());
            },
            AssetAction::Withdraw(asset, amount, sig) => {
                write_u8(&mut payload, 2);
                write_bytes(&mut payload, asset.0.as_slice());
                write_u128(&mut payload, *amount);
                write_bytes(&mut payload, sig.0.as_slice());
            },
            AssetAction::ChangeOwner(asset, owner, sig) => {
                write_u8(&mut payload, 3);
                write_bytes(&mut payload, asset.0.as_slice());
                write_bytes(&mut payload, owner.0.as_slice());
                write_bytes(&mut payload, sig.0.as_slice());
            },
        }
        assert(payload@ =~= self.spec_payload());
        write_u32(out, payload.len() as u32);
        write_bytes(out, payload.as_slice());
        assert(out@ =~= old(out)@ + self.ser());
    }

    #[verifier::rlimit(40)]
    fn read(buf: &[u8], pos: usize) -> (r: Result<(Self, usize), SerError>) {
        let (n, p0) = match read_u32(buf, pos) {
            Ok(v) => v,
            Err(e) => { return Err(e); },
        };
        let len: usize = n as usize;
        if len > buf.len() - p0 {
            return Err(SerError::UnexpectedEof);
        }
        let end: usize = p0 + len;
        if len < 1 {
            return Err(SerError::InvalidInput);
        }
        let (tag, p1) = match read_u8(buf, p0) {
            Ok(v) => v,
            Err(e) => { return Err(e); },
        };
        if tag > 3 {
            return Err(SerError::InvalidInput);
        }
        let expected: usize = if tag == 0 {
            NEW_PAYLOAD_LEN
        } else if tag == 3 {
            OWNER_PAYLOAD_LEN
        } else {
            AMOUNT_PAYLOAD_LEN
        };
        if len != expected {
            return Err(SerError::InvalidInput);
        }
        let (asset_bytes, p2) = match read_array::<64>(buf, p1) {
            Ok(v) => v,
            Err(e) => { return Err(e); },
        };
        let asset = Asset(asset_bytes);
        proof {
            lemma_be_round_trip_bytes();
            lemma_be_round_trip();
        }
        if tag == 0 {
            let (issued, p3) = match IssuedAsset::read(buf, p2) {
                Ok(v) => v,
                Err(_) => { return Err(SerError::InvalidInput); },
            };
            let (sig, p4) = match read_array::<64>(buf, p3) {
                Ok(v) => v,
                Err(e) => { return Err(e); },
            };
            let x = AssetAction::New(asset, issued, Signature(sig));
            assert(x.spec_payload() =~= buf@.subrange(p0 as int, p4 as int));
            assert(x.ser() =~= buf@.subrange(pos as int, p4 as int));
            Ok((x, p4))
        } else if tag == 3 {
            let (owner, p3) = match read_array::<33>(buf, p2) {
                Ok(v) => v,
                Err(e) => { return Err(e); },
            };
            if pubkey_parse(owner.as_slice()).is_err() {
                return Err(SerError::InvalidInput);
            }
            let (sig, p4) = match read_array::<64>(buf, p3) {
                Ok(v) => v,
                Err(e) => { return Err(e); },
            };
            let x = AssetAction::ChangeOwner(asset, PublicKey(owner), Signature(sig));
            assert(x.spec_payload() =~= buf@.subrange(p0 as int, p4 as int));
            assert(x.ser() =~= buf@.subrange(pos as int, p4 as int));
            Ok((x, p4))
        } else {
            let (amount, p3) = match read_u128(buf, p2) {
                Ok(v) => v,
                Err(e) => { return Err(e); },
            };
            let (sig, p4) = match read_array::<64>(buf, p3) {
                Ok(v) => v,
                Err(e) => { return Err(e); },
            };
            let x = if tag == 1 {
                AssetAction::Issue(asset, amount, Signature(sig))
            } else {
                AssetAction::Withdraw(asset, amount, Signature(sig))
            };
            assert(x.spec_payload() =~= buf@.subrange(p0 as int, p4 as int));
            assert(x.ser() =~= buf@.subrange(pos as int, p4 as int));
            Ok((x, p4))
        }
    }

    #[verifier::rlimit(40)]
    proof fn lemma_ser_injective(a: Self, b: Self) {
        lemma_be_round_trip();
        let pa = a.spec_payload();
        let pb = b.spec_payload();
        assert(pa =~= a.ser().subrange(4, a.ser().len() as int));
        assert(pb =~= b.ser().subrange(4, b.ser().len() as int));
        assert(pa[0] == a.tag());
        assert(pb[0] == b.tag());
        assert forall|i: int| 0 <= i < 64 implies a.spec_asset().0@[i] == b.spec_asset().0@[i] by {
            assert(pa[i + 1] == a.spec_asset().0@[i]);
            assert(pb[i + 1] == b.spec_asset().0@[i]);
        }
        assert(a.spec_asset().0 =~= b.spec_asset().0);
        let n = a.spec_body().len() as int;
        assert(a.spec_body() =~= pa.subrange(65, 65 + n));
        assert(b.spec_body() =~= pb.subrange(65, 65 + n));
        assert forall|i: int| 0 <= i < 64 implies a.spec_signature().0@[i]
            == b.spec_signature().0@[i] by {
            assert(pa[i + 65 + n] == a.spec_signature().0@[i]);
            assert(pb[i + 65 + n] == b.spec_signature().0@[i]);
        }
        assert(a.spec_signature().0 =~= b.spec_signature().0);
        match (a, b) {
            (AssetAction::New(_, ia, _), AssetAction::New(_, ib, _)) => {
                IssuedAsset::lemma_ser_injective(ia, ib);
            },
            (AssetAction::ChangeOwner(_, oa, _), AssetAction::ChangeOwner(_, ob, _)) => {
                assert(oa.0 =~= ob.0);
            },
            _ => {},
        }
    }

    #[verifier::rlimit(40)]
    proof fn lemma_readable(x: Self, s: Seq<u8>, pos: int) {
        lemma_be_round_trip();
        let sub = s.subrange(pos, pos + x.ser().len());
        let payload = x.spec_payload();
        assert(s.subrange(pos, pos + 4) =~= sub.subrange(0, 4));
        assert(sub.subrange(0, 4) =~= u32_be(payload.len() as u32));
        assert(s[pos + 4] == sub[4]);
        assert(sub[4] == payload[0]);
        match x {
            AssetAction::New(_, issued, _) => {
                assert(s.subrange(pos + 69, pos + 69 + ISSUED_ASSET_LEN) =~= sub.subrange(
                    69,
                    69 + ISSUED_ASSET_LEN,
                ));
                assert(sub.subrange(69, 69 + ISSUED_ASSET_LEN) =~= issued.ser());
                IssuedAsset::lemma_readable(issued, s, pos + 69);
            },
            AssetAction::ChangeOwner(_, owner, _) => {
                assert(s.subrange(pos + 69, pos + 102) =~= sub.subrange(69, 102));
                assert(sub.subrange(69, 102) =~= owner.0@);
            },
            _ => {},
        }
    }
}

/// Why an action cannot be applied to the record of an asset.
#[derive(Clone, Copy, Debug, PartialEq, Eq, Structural)]
pub enum ActionError {
    /// The action is about another asset than the record.
    WrongAsset,
    /// The action is not signed by the owner that the record names.
    IncorrectSignature,
    /// The asset exists already.
    AlreadyIssued,
    /// More is to be issued of an asset of which no more can be.
    NotMintable,
    /// The supply would be more than 128 bits hold.
    SupplyOverflow,
    /// More is to be withdrawn than exists.
    SupplyUnderflow,
}

impl IssuedAsset {
    /// The first record of an asset, as a `New` action creates it: the
    /// action must be about the asset that its record names and be signed
    /// by the owner that its record names. Any other action creates nothing.
    pub open spec fn spec_create(action: AssetAction) -> Result<IssuedAsset, ActionError> {
        match action {
            AssetAction::New(asset, issued, _) => if issued.asset != asset {
                Err(ActionError::WrongAsset)
            } else if !action.spec_valid(issued.owner) {
                Err(ActionError::IncorrectSignature)
            } else {
                Ok(issued)
            },
            _ => Err(ActionError::WrongAsset),
        }
    }

    /// The record after an action. The action must be about the record's
    /// asset and signed by the record's owner. `Issue` adds to the supply of
    /// a mintable asset, `Withdraw` takes from the supply, `ChangeOwner`
    /// names the new owner; an asset cannot be created twice.
    pub open spec fn spec_apply(self, action: AssetAction) -> Result<IssuedAsset, ActionError> {
        if action.spec_asset() != self.asset {
            Err(ActionError::WrongAsset)
        } else if action is New {
            Err(ActionError::AlreadyIssued)
        } else if !action.spec_valid(self.owner) {
            Err(ActionError::IncorrectSignature)
        } else {
            match action {
                AssetAction::Issue(_, amount, _) => if !self.mintable {
                    Err(ActionError::NotMintable)
                } else if self.supply + amount > u128::MAX {
                    Err(ActionError::SupplyOverflow)
                } else {
                    Ok(
                        IssuedAsset {
                            supply: (self.supply + amount) as u128,
                            owner: self.owner,
                            mintable: self.mintable,
                            asset: self.asset,
                        },
                    )
                },
                AssetAction::Withdraw(_, amount, _) => if amount > self.supply {
                    Err(ActionError::SupplyUnderflow)
                } else {
                    Ok(
                        IssuedAsset {
                            supply: (self.supply - amount) as u128,
                            owner: self.owner,
                            mintable: self.mintable,
                            asset: self.asset,
                        },
                    )
                },
                AssetAction::ChangeOwner(_, owner, _) => Ok(
                    IssuedAsset {
                        supply: self.supply,
                        owner,
                        mintable: self.mintable,
                        asset: self.asset,
                    },
                ),
                AssetAction::New(..) => Err(ActionError::AlreadyIssued),
            }
        }
    }

    /// Creates the first record of an asset from a `New` action.
    pub fn create(action: &AssetAction) -> (r: Result<IssuedAsset, ActionError>)
        ensures
            r == Self::spec_create(*action),
    {
        match action {
            AssetAction::New(asset, issued, _) => {
                if !issued.asset.same(asset) {
                    Err(ActionError::WrongAsset)
                } else if !action.valid(&issued.owner) {
                    Err(ActionError::IncorrectSignature)
                } else {
                    Ok(*issued)
                }
            },
            _ => Err(ActionError::WrongAsset),
        }
    }

    /// Applies an action to the record and gives the record that follows.
    pub fn apply(&self, action: &AssetAction) -> (r: Result<IssuedAsset, ActionError>)
        ensures
            r == self.spec_apply(*action),
    {
        if !action.asset().same(&self.asset) {
            return Err(ActionError::WrongAsset);
        }
        if action.is_new() {
            return Err(ActionError::AlreadyIssued);
        }
        if !action.valid(&self.owner) {
            return Err(ActionError::IncorrectSignature);
        }
        match action {
            AssetAction::Issue(_, amount, _) => {
                if !self.mintable {
                    return Err(ActionError::NotMintable);
                }
                match self.supply.checked_add(*amount) {
                    None => Err(ActionError::SupplyOverflow),
                    Some(supply) => Ok(
                        IssuedAsset {
                            supply,
                            owner: self.owner,
                            mintable: self.mintable,
                            asset: self.asset,
                        },
                    ),
                }
            },
            AssetAction::Withdraw(_, amount, _) => {
                if *amount > self.supply {
                    Err(ActionError::SupplyUnderflow)
                } else {
                    Ok(
                        IssuedAsset {
                            supply: self.supply - *amount,
                            owner: self.owner,
                            mintable: self.mintable,
                            asset: self.asset,
                        },
                    )
                }
            },
            AssetAction::ChangeOwner(_, owner, _) => Ok(
                IssuedAsset {
                    supply: self.supply,
                    owner: *owner,
                    mintable: self.mintable,
                    asset: self.asset,
                },
            ),
            AssetAction::New(..) => Err(ActionError::AlreadyIssued),
        }
    }
}

/// No action changes which asset a record describes, nor whether more of it
/// can be issued; only `ChangeOwner` changes the owner, and it changes no
/// supply.
pub proof fn lemma_apply_keeps_identity(record: IssuedAsset, action: AssetAction)
    requires
        record.spec_apply(action) is Ok,
    ensures
        record.spec_apply(action)->Ok_0.asset == record.asset,
        record.spec_apply(action)->Ok_0.mintable == record.mintable,
        !(action is ChangeOwner) ==> record.spec_apply(action)->Ok_0.owner == record.owner,
        action is ChangeOwner ==> record.spec_apply(action)->Ok_0.supply == record.supply,
{
}

/// The supply changes by exactly the amount of the action: up for `Issue`,
/// down for `Withdraw`.
pub proof fn lemma_apply_changes_supply_by_amount(record: IssuedAsset, action: AssetAction)
    requires
        record.spec_apply(action) is Ok,
    ensures
        action is Issue ==> record.spec_apply(action)->Ok_0.supply == record.supply
            + action.spec_amount(),
        action is Withdraw ==> record.spec_apply(action)->Ok_0.supply == record.supply
            - action.spec_amount(),
{
}

} // verus!
