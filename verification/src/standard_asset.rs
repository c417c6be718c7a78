//! An asset with a name, a symbol, a total supply and an owner.

use vstd::prelude::*;
use crate::hash::{blake2b, spec_blake2b};
use crate::secp::{ecdsa_verify, spec_ecdsa_valid, Message, PublicKey, Signature};

verus! {

/// How much of an asset exists, and whether that can change.
#[derive(Clone, Copy, Debug, PartialEq, Eq)]
pub enum AssetTotalSupply {
    /// The supply can change.
    Mutable(u128),
    /// The supply is fixed.
    Immutable(u128),
}

/// Who owns an asset.
#[derive(Clone, Copy, Debug, PartialEq, Eq)]
pub enum AssetOwner {
    /// Nobody: the asset comes from block rewards.
    Coinbase,
    /// The holder of a key.
    Owner(PublicKey),
}

/// An asset with a name, a symbol, a total supply and an owner.
#[derive(Clone, Debug, PartialEq, Eq)]
pub struct StandardAsset {
    pub total_supply: AssetTotalSupply,
    pub owner: AssetOwner,
    pub symbol: String,
    pub name: String,
}

impl AssetTotalSupply {
    /// The amount, whether it can change or not.
    pub open spec fn spec_amount(self) -> u128 {
        match self {
            AssetTotalSupply::Mutable(n) => n,
            AssetTotalSupply::Immutable(n) => n,
        }
    }
}

/// The message that the owner of an asset signs to hand it to a new owner:
/// the hash of the new owner's key.
pub open spec fn spec_change_owner_message(new_pk: PublicKey) -> Message {
    Message(spec_blake2b(new_pk.0@).0)
}

impl StandardAsset {
    /// How much of the asset exists.
    pub fn total_supply(&self) -> (r: &u128)
        ensures
            *r == self.total_supply.spec_amount(),
    {
        match &self.total_supply {
            AssetTotalSupply::Mutable(n) => n,
            AssetTotalSupply::Immutable(n) => n,
        }
    }

    /// Who owns the asset.
    pub fn owner(&self) -> (r: &AssetOwner)
        ensures
            *r == self.owner,
    {
        &self.owner
    }

    /// The symbol of the asset.
    pub fn symbol(&self) -> (r: &String)
        ensures
            *r == self.symbol,
    {
        &self.symbol
    }

    /// The name of the asset.
    pub fn name(&self) -> (r: &String)
        ensures
            *r == self.name,
    {
        &self.name
    }

    /// An asset with the given fields.
    pub fn new(total_supply: AssetTotalSupply, owner: AssetOwner, symbol: String, name: String) -> (r:
        StandardAsset)
        ensures
            r.total_supply == total_supply,
            r.owner == owner,
            r.symbol == symbol,
            r.name == name,
    {
        StandardAsset { total_supply, owner, symbol, name }
    }

    /// The message that the owner signs to hand the asset to `new_pk`.
    pub fn change_owner_message(&self, new_pk: PublicKey) -> (msg: Message)
        ensures
            msg == spec_change_owner_message(new_pk),
    {
        Message(blake2b(new_pk.0.as_slice()).0)
    }

    /// Whether `sign` hands the asset to `new_pk`: the asset must have an
    /// owner, and the signature must be the owner's over the message for
    /// the new key.
    pub open spec fn spec_may_change_owner(&self, new_pk: PublicKey, sign: Signature) -> bool {
        match self.owner {
            AssetOwner::Coinbase => false,
            AssetOwner::Owner(pk) => spec_ecdsa_valid(
                spec_change_owner_message(new_pk).0@,
                sign,
                pk,
            ),
        }
    }

    /// Hands the asset to `new_pk` where `sign` allows it, and tells whether
    /// it did. Nothing else changes, and nothing at all where it did not.
    pub fn change_owner(&mut self, new_pk: PublicKey, sign: Signature) -> (r: bool)
        ensures
            r == old(self).spec_may_change_owner(new_pk, sign),
            final(self).owner == (if r {
                AssetOwner::Owner(new_pk)
            } else {
                old(self).owner
            }),
            final(self).total_supply == old(self).total_supply,
            final(self).symbol == old(self).symbol,
            final(self).name == old(self).name,
    {
        let msg = self.change_owner_message(new_pk);
        match self.owner {
            AssetOwner::Coinbase => false,
            AssetOwner::Owner(pk) => {
                if ecdsa_verify(&msg.0, &sign, &pk) {
                    self.owner = AssetOwner::Owner(new_pk);
                    true
                } else {
                    false
                }
            },
        }
    }
}

} // verus!
