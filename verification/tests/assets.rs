use kepler_core::asset::{Asset, Generator};
use kepler_core::block::{Block, Error, BlockHeader};
use kepler_core::committed::{commit_value_with_generator, is_zero_commit, CommittedError};
use kepler_core::consensus::reward;
use kepler_core::issued_asset::{ActionError, AssetAction, IssuedAsset};
use kepler_core::pow::Difficulty;
use kepler_core::secp::{BlindingFactor, Commitment, PublicKey, RangeProof, SecpError, Signature};
use kepler_core::ser::{SerError, Wire};
use kepler_core::standard_asset::{AssetOwner, AssetTotalSupply, StandardAsset};
use kepler_core::verifier_cache::VerifierCache;
use kepler_core::transaction::{
    KernelFeatures, Output, OutputFeatures, Transaction, TransactionBody, TxError, TxKernel,
    Weighting,
};
use secp256k1zkp::{aggsig, pedersen, ContextFlag, Secp256k1, SecretKey};

fn secp() -> Secp256k1 {
    Secp256k1::with_caps(ContextFlag::Commit)
}

fn key(n: u8) -> SecretKey {
    SecretKey::from_slice(&secp(), &[n; 32]).unwrap()
}

// The compressed public key of the secret key `n`.
fn public_key(n: u8) -> PublicKey {
    let s = secp();
    let pk = secp256k1zkp::PublicKey::from_secret_key(&s, &key(n)).unwrap();
    let mut out = [0u8; 33];
    out.copy_from_slice(&pk.serialize_vec(&s, true));
    PublicKey(out)
}

// An asset whose generator is the point of the secret key `n`.
fn asset(n: u8) -> Asset {
    let s = secp();
    let pk = secp256k1zkp::PublicKey::from_secret_key(&s, &key(n)).unwrap();
    let bytes = pk.serialize_vec(&s, false);
    let mut out = [0u8; 64];
    out.copy_from_slice(&bytes[1..65]);
    Asset::from_bytes(out)
}

// An ECDSA signature of the secret key `n` over the hash of `payload`.
fn sign(payload: &[u8], n: u8) -> Signature {
    let digest = blake2_rfc::blake2b::blake2b(32, &[], payload);
    let msg = secp256k1zkp::Message::from_slice(digest.as_bytes()).unwrap();
    Signature(secp().sign(&msg, &key(n)).unwrap().to_raw_data())
}

fn new_action(a: Asset, supply: u128, owner: u8, signer: u8) -> AssetAction {
    let issued = IssuedAsset::new(supply, public_key(owner), false, a);
    let sig = sign(&issued.to_bytes(), signer);
    AssetAction::New(a, issued, sig)
}

fn signed_kernel(features: KernelFeatures, excess_key: &SecretKey) -> TxKernel {
    let s = secp();
    let excess = s.commit(0, excess_key.clone()).unwrap();
    let pubkey = excess.to_pubkey(&s).unwrap();
    let unsigned = TxKernel {
        features,
        excess: Commitment(excess.0),
        excess_sig: Signature([0u8; 64]),
    };
    let msg = secp256k1zkp::Message::from_slice(&unsigned.msg_to_sign().0).unwrap();
    let sig =
        aggsig::sign_single(&s, &msg, excess_key, None, None, None, Some(&pubkey), None).unwrap();
    TxKernel {
        features,
        excess: Commitment(excess.0),
        excess_sig: Signature(sig.to_raw_data()),
    }
}

fn reward_output(height: u64, n: u8) -> (Output, TxKernel) {
    let s = secp();
    let value = reward(height, 0);
    let k = key(n);
    let p = s
        .bullet_proof(value, k.clone(), k.clone(), k.clone(), None, None)
        .unwrap();
    let mut proof = [0u8; 675];
    proof[..p.plen].copy_from_slice(&p.proof[..p.plen]);
    let out = Output {
        features: OutputFeatures::Coinbase,
        commit: Commitment(s.commit(value, k).unwrap().0),
        proof: RangeProof {
            proof,
            plen: p.plen,
        },
    };
    (out, signed_kernel(KernelFeatures::Coinbase, &key(n)))
}

// A transaction that mints `supply` of the asset `a` into one output blinded by the key
// `blind`, with the kernel offset `offset`. The output carries no range proof.
fn mint_tx(a: Asset, supply: u64, owner: u8, blind: u8, offset: u8) -> Transaction {
    let s = secp();
    let value_part = commit_value_with_generator(supply as u128, &a).unwrap();
    let blind_part = s.commit(0, key(blind)).unwrap();
    let commit = s
        .commit_sum(vec![pedersen::Commitment(value_part.0), blind_part], vec![])
        .unwrap();
    let out = Output {
        features: OutputFeatures::Plain,
        commit: Commitment(commit.0),
        proof: RangeProof::zero(),
    };
    let excess_key = s.blind_sum(vec![key(blind)], vec![key(offset)]).unwrap();
    let kernel = signed_kernel(KernelFeatures::Plain { fee: 0 }, &excess_key);
    Transaction::new(
        vec![],
        vec![out],
        vec![kernel],
        vec![new_action(a, supply as u128, owner, owner)],
    )
    .with_offset(BlindingFactor(key(offset).0))
}

#[test]
fn new_action_signed_by_the_wrong_key_fails() {
    let btc = asset(50);
    // Signed by another key than the owner's.
    let invalid = new_action(btc, 100, 10, 11);
    assert!(invalid.is_new());
    assert!(!invalid.validate());
    assert!(!invalid.validate_new());
    // Signed by the owner.
    let valid = new_action(btc, 100, 10, 10);
    assert!(valid.validate());
    assert!(valid.validate_new());
    assert!(valid.valid(&public_key(10)));
    assert!(!valid.valid(&public_key(11)));
    assert_eq!(valid.asset(), btc);
    assert_eq!(valid.amount(), 100);
    assert_eq!(valid.issued_asset().map(|i| *i.supply()), Some(100));

    // A body that holds the badly signed action is refused for its signature.
    let body = TransactionBody::init(vec![], vec![], vec![], vec![invalid]);
    assert_eq!(
        body.validate(Weighting::AsTransaction, &mut VerifierCache::new()),
        Err(TxError::IncorrectSignature)
    );
    let body = TransactionBody::init(vec![], vec![], vec![], vec![valid]);
    assert_eq!(body.validate(Weighting::AsTransaction, &mut VerifierCache::new()), Ok(()));
}

#[test]
fn other_actions_are_checked_against_a_given_owner() {
    let btc = asset(50);
    let issue = AssetAction::Issue(btc, 5, sign(&5u128.to_le_bytes(), 10));
    assert!(!issue.is_new());
    // Nothing can be checked without the ledger.
    assert!(issue.validate());
    assert!(issue.valid(&public_key(10)));
    assert!(!issue.valid(&public_key(11)));
    assert_eq!(issue.amount(), 5);
    assert_eq!(issue.issued_asset(), None);
    // The amount is signed as the serializer writes it: 16 bytes, least significant first.
    assert_eq!(issue.signed_payload(), bincode::serialize(&5u128).unwrap());
    assert_eq!(issue.signed_payload().len(), 16);
    assert_eq!(issue.signed_payload()[0], 5);

    let withdraw = AssetAction::Withdraw(btc, 7, sign(&7u128.to_le_bytes(), 10));
    assert!(withdraw.valid(&public_key(10)));
    assert_eq!(withdraw.amount(), 7);

    let heir = public_key(12);
    let change = AssetAction::ChangeOwner(btc, heir, sign(&heir.0, 10));
    assert!(change.valid(&public_key(10)));
    assert!(!change.valid(&heir));
    assert_eq!(change.amount(), 0);
    assert_eq!(change.asset(), btc);
}

#[test]
fn issued_asset_record_is_114_bytes() {
    let btc = asset(50);
    let issued = IssuedAsset::new(0x0102, public_key(10), true, btc);
    let bytes = issued.to_bytes();
    assert_eq!(bytes.len(), 114);
    assert_eq!(&bytes[0..14], &[0u8; 14]);
    assert_eq!(&bytes[14..16], &[1u8, 2u8]);
    assert_eq!(&bytes[16..49], &public_key(10).0[..]);
    assert_eq!(bytes[49], 1);
    assert_eq!(&bytes[50..114], &btc.0[..]);
    assert!(issued.mintable());
    assert_eq!(issued.owner(), &public_key(10));
    assert_eq!(issued.asset(), &btc);

    let mut out = Vec::new();
    issued.write(&mut out);
    assert_eq!(out, bytes);
    assert_eq!(IssuedAsset::read(&bytes[..], 0), Ok((issued, 114)));

    // A flag that is neither 0 nor 1.
    let mut bad = bytes.clone();
    bad[49] = 2;
    assert_eq!(IssuedAsset::read(&bad[..], 0), Err(SerError::CorruptedData));
    // An owner that is no curve point.
    let mut bad = bytes.clone();
    bad[16] = 7;
    assert_eq!(IssuedAsset::read(&bad[..], 0), Err(SerError::InvalidInput));
    // Too short.
    assert_eq!(
        IssuedAsset::read(&bytes[..113], 0),
        Err(SerError::UnexpectedEof)
    );
}

#[test]
fn asset_actions_round_trip() {
    let btc = asset(50);
    let heir = public_key(12);
    let actions = vec![
        new_action(btc, 100, 10, 10),
        AssetAction::Issue(btc, 5, sign(&5u128.to_le_bytes(), 10)),
        AssetAction::Withdraw(btc, u128::MAX, sign(&7u128.to_le_bytes(), 10)),
        AssetAction::ChangeOwner(btc, heir, sign(&heir.0, 10)),
    ];
    let lengths = [243usize, 145, 145, 162];
    for (a, len) in actions.iter().zip(lengths.iter()) {
        let mut out = Vec::new();
        a.write(&mut out);
        assert_eq!(out.len(), 4 + len);
        assert_eq!(&out[0..4], &(*len as u32).to_be_bytes());
        assert_eq!(AssetAction::read(&out[..], 0), Ok((*a, 4 + len)));
    }
    let mut out = Vec::new();
    actions[1].write(&mut out);
    // A kind that does not exist.
    let mut bad = out.clone();
    bad[4] = 9;
    assert_eq!(AssetAction::read(&bad[..], 0), Err(SerError::InvalidInput));
    // A length that the kind does not have.
    let mut bad = out.clone();
    bad[3] = 144;
    assert_eq!(AssetAction::read(&bad[..], 0), Err(SerError::InvalidInput));
    // A length past the end.
    assert_eq!(
        AssetAction::read(&out[..out.len() - 1], 0),
        Err(SerError::UnexpectedEof)
    );
    // A new owner that is no curve point.
    let mut out = Vec::new();
    actions[3].write(&mut out);
    out[4 + 65] = 7;
    assert_eq!(AssetAction::read(&out[..], 0), Err(SerError::InvalidInput));
}

#[test]
fn the_native_asset_is_the_second_generator() {
    assert_eq!(Asset::default().0, secp256k1zkp::constants::GENERATOR_H);
    assert!(Asset::default().is_native());
    assert!(!Asset::main().is_native());
    assert_eq!(Asset::main().0, [0u8; 64]);
    assert_eq!(Asset::from_generator(Generator([3u8; 64])).0, [3u8; 64]);
    assert_eq!(Asset::from_bytes([3u8; 64]).to_generator(), Generator([3u8; 64]));
    assert_eq!(Asset::default().to_bytes().len(), 64);
    // Assets are ordered byte by byte.
    let mut low = [0u8; 64];
    low[63] = 1;
    let mut high = [0u8; 64];
    high[0] = 1;
    assert!(Asset::from_bytes(low) < Asset::from_bytes(high));
    assert!(Asset::main() < Asset::from_bytes(low));
    assert!(Asset::from_bytes(low).same(&Asset::from_bytes(low)));
    assert!(!Asset::from_bytes(low).same(&Asset::from_bytes(high)));

    let mut out = Vec::new();
    Asset::default().write(&mut out);
    assert_eq!(out.len(), 64);
    assert_eq!(Asset::read(&out[..], 0), Ok((Asset::default(), 64)));
    assert_eq!(Asset::read(&out[..63], 0), Err(SerError::UnexpectedEof));
}

#[test]
fn commitments_under_a_generator() {
    let s = secp();
    // Under the native generator the commitment is the one to the plain value.
    let native = commit_value_with_generator(5, &Asset::default()).unwrap();
    assert_eq!(native.0, s.commit_value(5).unwrap().0);
    // Under another generator it is another commitment.
    let other = commit_value_with_generator(5, &asset(50)).unwrap();
    assert!(other != native);
    // Amounts add up: 2 * P + 3 * P = 5 * P.
    let two = commit_value_with_generator(2, &asset(50)).unwrap();
    let three = commit_value_with_generator(3, &asset(50)).unwrap();
    let sum = s
        .commit_sum(
            vec![pedersen::Commitment(two.0), pedersen::Commitment(three.0)],
            vec![],
        )
        .unwrap();
    assert_eq!(sum.0, other.0);
    // No commitment to nothing, and none under bytes that are no curve point.
    assert_eq!(
        commit_value_with_generator(0, &asset(50)),
        Err(SecpError::InvalidSecretKey)
    );
    assert_eq!(
        commit_value_with_generator(5, &Asset::main()),
        Err(SecpError::InvalidPublicKey)
    );
}

#[test]
fn a_block_that_mints_an_asset_balances() {
    let btc = asset(50);
    let tx = mint_tx(btc, 100, 10, 21, 201);
    let prev = BlockHeader::default();
    assert!(is_zero_commit(&prev.total_issue_overage));
    let b = Block::new(&prev, vec![tx], Difficulty::min(), reward_output(1, 1)).unwrap();

    let expected = commit_value_with_generator(100, &btc).unwrap();
    let overage = b.mint_overage().unwrap();
    assert_eq!(overage, Some(expected));
    // The header's total differs from the baseline by exactly the issuance commitment.
    assert_eq!(b.header.total_issue_overage, expected);
    assert!(!is_zero_commit(&b.header.total_issue_overage));

    assert_eq!(b.verify_coinbase(), Ok(()));
    assert_eq!(b.validate_read(), Ok(()));
    // The kernel sums balance with the issuance overage, and not without it.
    assert!(b
        .verify_kernel_sums(b.header.overage(), overage, b.header.total_kernel_offset())
        .is_ok());
    assert_eq!(
        b.verify_kernel_sums(b.header.overage(), None, b.header.total_kernel_offset()),
        Err(CommittedError::KernelSumMismatch)
    );
    // An output of another asset cannot carry a range proof that verifies.
    assert_eq!(
        b.validate(&BlindingFactor::zero(), &mut VerifierCache::new()),
        Err(Error::Transaction(TxError::Secp(
            SecpError::InvalidRangeProof
        )))
    );
}

#[test]
fn two_blocks_that_mint_add_their_overages() {
    let btc = asset(50);
    let eth = asset(51);
    let first = Block::new(
        &BlockHeader::default(),
        vec![mint_tx(btc, 100, 10, 21, 201)],
        Difficulty::min(),
        reward_output(1, 1),
    )
    .unwrap();
    let second = Block::new(
        &first.header,
        vec![mint_tx(eth, 250, 11, 22, 202)],
        Difficulty::min(),
        reward_output(2, 2),
    )
    .unwrap();
    let m1 = commit_value_with_generator(100, &btc).unwrap();
    let m2 = commit_value_with_generator(250, &eth).unwrap();
    assert_eq!(first.header.total_issue_overage, m1);
    assert_eq!(second.mint_overage().unwrap(), Some(m2));
    let both = secp()
        .commit_sum(
            vec![pedersen::Commitment(m1.0), pedersen::Commitment(m2.0)],
            vec![],
        )
        .unwrap();
    assert_eq!(second.header.total_issue_overage.0, both.0);
    assert_eq!(first.header.add_issue_overage(m2), Ok(Commitment(both.0)));
    assert_eq!(BlockHeader::default().add_issue_overage(m2), Ok(m2));
    assert!(second
        .verify_kernel_sums(
            second.header.overage(),
            second.mint_overage().unwrap(),
            first.header.total_kernel_offset(),
        )
        .is_err());
}

#[test]
fn issue_and_withdraw_in_one_body() {
    let btc = asset(50);
    let body = TransactionBody::init(
        vec![],
        vec![],
        vec![],
        vec![
            AssetAction::Issue(btc, 7, sign(&7u128.to_le_bytes(), 10)),
            AssetAction::ChangeOwner(btc, public_key(12), sign(&public_key(12).0, 10)),
            AssetAction::Withdraw(btc, 2, sign(&2u128.to_le_bytes(), 10)),
        ],
    );
    // 7 issued less 2 withdrawn is a commitment to 5.
    assert_eq!(
        body.mint_overage(),
        Ok(Some(commit_value_with_generator(5, &btc).unwrap()))
    );
    // A change of owner alone changes no supply.
    let body = TransactionBody::init(
        vec![],
        vec![],
        vec![],
        vec![AssetAction::ChangeOwner(
            btc,
            public_key(12),
            sign(&public_key(12).0, 10),
        )],
    );
    assert_eq!(body.mint_overage(), Ok(None));
    assert_eq!(TransactionBody::empty().mint_overage(), Ok(None));
    // An action on bytes that are no generator.
    let body = TransactionBody::init(
        vec![],
        vec![],
        vec![],
        vec![AssetAction::Issue(
            Asset::main(),
            7,
            sign(&7u128.to_le_bytes(), 10),
        )],
    );
    assert_eq!(
        body.mint_overage(),
        Err(TxError::Secp(SecpError::InvalidPublicKey))
    );
}

#[test]
fn standard_asset_changes_owner() {
    let mut a = StandardAsset::new(
        AssetTotalSupply::Mutable(1000),
        AssetOwner::Owner(public_key(10)),
        "BTC".to_string(),
        "Bitcoin".to_string(),
    );
    assert_eq!(*a.total_supply(), 1000);
    assert_eq!(a.symbol(), "BTC");
    assert_eq!(a.name(), "Bitcoin");
    assert_eq!(a.owner(), &AssetOwner::Owner(public_key(10)));

    let heir = public_key(12);
    let msg = a.change_owner_message(heir);
    assert_eq!(
        &msg.0[..],
        blake2_rfc::blake2b::blake2b(32, &[], &heir.0).as_bytes()
    );
    // A signature of somebody else changes nothing.
    assert!(!a.change_owner(heir, sign(&heir.0, 11)));
    assert_eq!(a.owner(), &AssetOwner::Owner(public_key(10)));
    // The owner's does.
    assert!(a.change_owner(heir, sign(&heir.0, 10)));
    assert_eq!(a.owner(), &AssetOwner::Owner(heir));
    assert_eq!(*a.total_supply(), 1000);
    assert_eq!(a.symbol(), "BTC");
    // The old owner has no say any more.
    assert!(!a.change_owner(public_key(10), sign(&public_key(10).0, 10)));

    let mut c = StandardAsset::new(
        AssetTotalSupply::Immutable(5),
        AssetOwner::Coinbase,
        "KMW".to_string(),
        "Kepler".to_string(),
    );
    assert_eq!(*c.total_supply(), 5);
    assert!(!c.change_owner(heir, sign(&heir.0, 10)));
    assert_eq!(c.owner(), &AssetOwner::Coinbase);
}

#[test]
fn actions_change_the_record_of_an_asset() {
    let btc = asset(50);
    let eth = asset(51);
    let new = new_action(btc, 100, 10, 10);
    let record = IssuedAsset::create(&new).unwrap();
    assert_eq!(*record.supply(), 100);
    assert_eq!(record.owner(), &public_key(10));
    // Signed by another key than the owner's, or about another asset than the record's.
    assert_eq!(
        IssuedAsset::create(&new_action(btc, 100, 10, 11)),
        Err(ActionError::IncorrectSignature)
    );
    let issued = IssuedAsset::new(100, public_key(10), false, eth);
    let crossed = AssetAction::New(btc, issued, sign(&issued.to_bytes(), 10));
    assert_eq!(IssuedAsset::create(&crossed), Err(ActionError::WrongAsset));
    let issue = |amount: u128, signer: u8| {
        AssetAction::Issue(btc, amount, sign(&amount.to_le_bytes(), signer))
    };
    let withdraw = |amount: u128, signer: u8| {
        AssetAction::Withdraw(btc, amount, sign(&amount.to_le_bytes(), signer))
    };
    assert_eq!(IssuedAsset::create(&issue(5, 10)), Err(ActionError::WrongAsset));

    // The asset is not mintable.
    assert_eq!(record.apply(&issue(5, 10)), Err(ActionError::NotMintable));
    assert_eq!(record.apply(&new), Err(ActionError::AlreadyIssued));
    let mintable = IssuedAsset::new(100, public_key(10), true, btc);
    assert_eq!(
        mintable.apply(&issue(5, 10)),
        Ok(IssuedAsset::new(105, public_key(10), true, btc))
    );
    assert_eq!(
        mintable.apply(&issue(5, 11)),
        Err(ActionError::IncorrectSignature)
    );
    let full = IssuedAsset::new(u128::MAX, public_key(10), true, btc);
    assert_eq!(full.apply(&issue(1, 10)), Err(ActionError::SupplyOverflow));
    assert_eq!(
        AssetAction::Issue(eth, 5, sign(&5u128.to_le_bytes(), 10)).asset(),
        eth
    );
    assert_eq!(
        mintable.apply(&AssetAction::Issue(eth, 5, sign(&5u128.to_le_bytes(), 10))),
        Err(ActionError::WrongAsset)
    );

    assert_eq!(
        record.apply(&withdraw(100, 10)),
        Ok(IssuedAsset::new(0, public_key(10), false, btc))
    );
    assert_eq!(
        record.apply(&withdraw(101, 10)),
        Err(ActionError::SupplyUnderflow)
    );

    let heir = public_key(12);
    let change = AssetAction::ChangeOwner(btc, heir, sign(&heir.0, 10));
    let handed = record.apply(&change).unwrap();
    assert_eq!(handed, IssuedAsset::new(100, heir, false, btc));
    // The old owner has no say any more, the new one has.
    assert_eq!(
        handed.apply(&withdraw(1, 10)),
        Err(ActionError::IncorrectSignature)
    );
    assert_eq!(
        handed.apply(&withdraw(1, 12)),
        Ok(IssuedAsset::new(99, heir, false, btc))
    );
}

#[test]
fn records_and_actions_have_hashes() {
    let btc = asset(50);
    let new = new_action(btc, 100, 10, 10);
    let record = new.issued_asset().unwrap();
    let expected = blake2_rfc::blake2b::blake2b(32, &[], &record.to_bytes());
    assert_eq!(&record.hash().0[..], expected.as_bytes());
    let mut bytes = Vec::new();
    new.write(&mut bytes);
    let expected = blake2_rfc::blake2b::blake2b(32, &[], &bytes);
    assert_eq!(&new.hash().0[..], expected.as_bytes());
    assert!(new.hash() != new_action(btc, 101, 10, 10).hash());
}
