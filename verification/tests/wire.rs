use kepler_core::block::{BlockHeader, HeaderEntry, HeaderVersion};
use kepler_core::committed::{sum_commits, sum_kernel_offsets, zero_commit, CommittedError};
use kepler_core::compact_block::ShortId;
use kepler_core::consensus::{
    header_version, reward, subsidy, valid_header_version, verify_coinbase_maturity,
    BASE_REWARD, COINBASE_MATURITY, HALVING_INTERVAL, HARD_FORK_INTERVAL,
};
use kepler_core::hex::from_hex;
use kepler_core::pow::{Difficulty, Proof, ProofOfWork};
use kepler_core::secp::{BlindingFactor, Commitment, RangeProof, SecpError, Signature};
use kepler_core::ser::{
    dedup, read_i64, read_u128, read_u16, read_u32, read_u64, read_u8, write_i64, write_u128,
    write_u16, write_u32, write_u64, SerError, Wire,
};
use kepler_core::transaction::{
    aggregate, Input, KernelFeatures, Output, OutputFeatures, Transaction, TransactionBody,
    TxError, TxKernel, Weighting,
};
use secp256k1zkp::{ContextFlag, Secp256k1, SecretKey};
use std::hash::Hasher;

fn commitment(n: u8) -> Commitment {
    let s = Secp256k1::with_caps(ContextFlag::Commit);
    let k = SecretKey::from_slice(&s, &[n; 32]).unwrap();
    Commitment(s.commit(n as u64, k).unwrap().0)
}

fn kernel(features: KernelFeatures) -> TxKernel {
    TxKernel {
        features,
        excess: commitment(3),
        excess_sig: Signature([9u8; 64]),
    }
}

#[test]
fn integers_are_written_big_endian() {
    let mut out = Vec::new();
    write_u16(&mut out, 0x0102);
    write_u32(&mut out, 0x0304_0506);
    write_u64(&mut out, 0x0708_090a_0b0c_0d0e);
    write_i64(&mut out, -2);
    write_u128(&mut out, 0x0f);
    assert_eq!(
        &out[0..14],
        &[1u8, 2, 3, 4, 5, 6, 7, 8, 9, 10, 11, 12, 13, 14]
    );
    assert_eq!(&out[14..22], &[255u8, 255, 255, 255, 255, 255, 255, 254]);
    assert_eq!(out.len(), 38);
    assert_eq!(out[37], 15);
    assert_eq!(read_u16(&out[..], 0), Ok((0x0102, 2)));
    assert_eq!(read_u32(&out[..], 2), Ok((0x0304_0506, 6)));
    assert_eq!(read_u64(&out[..], 6), Ok((0x0708_090a_0b0c_0d0e, 14)));
    assert_eq!(read_i64(&out[..], 14), Ok((-2, 22)));
    assert_eq!(read_u128(&out[..], 22), Ok((15, 38)));
    assert_eq!(read_u8(&out[..], 37), Ok((15, 38)));
    assert_eq!(read_u8(&out[..], 38), Err(SerError::UnexpectedEof));
    assert_eq!(read_u64(&out[..], 31), Err(SerError::UnexpectedEof));
    assert_eq!(read_u128(&out[..], usize::MAX), Err(SerError::UnexpectedEof));
}

#[test]
fn hexadecimal_text() {
    assert_eq!(from_hex("0xaf1678"), Ok(vec![0xaf, 0x16, 0x78]));
    assert_eq!(from_hex("AF1678"), Ok(vec![0xaf, 0x16, 0x78]));
    assert_eq!(from_hex(""), Ok(vec![]));
    assert_eq!(from_hex("0x"), Ok(vec![]));
    assert_eq!(from_hex("abc"), Err(SerError::HexError));
    assert_eq!(from_hex("zz"), Err(SerError::HexError));
    assert_eq!(from_hex("0xzz"), Err(SerError::HexError));
    assert_eq!(from_hex("00ff"), Ok(vec![0, 255]));
}

#[test]
fn rewards_halve() {
    assert_eq!(reward(0, 0), 60_000_000_000);
    assert_eq!(reward(1, 2), 60_000_000_002);
    assert_eq!(subsidy(HALVING_INTERVAL - 1), BASE_REWARD);
    assert_eq!(subsidy(HALVING_INTERVAL), 30_000_000_000);
    assert_eq!(subsidy(2 * HALVING_INTERVAL), 15_000_000_000);
    assert_eq!(subsidy(64 * HALVING_INTERVAL), 0);
    assert_eq!(subsidy(u64::MAX), 0);
    // Fees that do not fit are held at the greatest value.
    assert_eq!(reward(0, u64::MAX), u64::MAX);
}

#[test]
fn header_versions_follow_the_schedule() {
    assert_eq!(header_version(0), 1);
    assert_eq!(header_version(HARD_FORK_INTERVAL - 1), 1);
    assert_eq!(header_version(HARD_FORK_INTERVAL), 2);
    assert_eq!(header_version(2 * HARD_FORK_INTERVAL), 3);
    assert_eq!(header_version(u64::MAX), 3);
    assert!(valid_header_version(0, 1));
    assert!(!valid_header_version(0, 2));
    assert!(valid_header_version(HARD_FORK_INTERVAL, 2));
    assert!(valid_header_version(3 * HARD_FORK_INTERVAL - 1, 3));
    // Past the schedule no version is valid.
    assert!(!valid_header_version(3 * HARD_FORK_INTERVAL, 3));
}

#[test]
fn kernels_round_trip_and_bad_features_are_refused() {
    for f in [
        KernelFeatures::Plain { fee: 7 },
        KernelFeatures::Coinbase,
        KernelFeatures::HeightLocked {
            fee: 1,
            lock_height: 9,
        },
    ] {
        let k = kernel(f);
        let mut out = Vec::new();
        k.write(&mut out);
        assert_eq!(out.len(), 114);
        assert_eq!(out[0], f.as_u8());
        assert_eq!(TxKernel::read(&out[..], 0), Ok((k, 114)));
        assert_eq!(k.features.fee(), f.fee());
    }
    let mut out = Vec::new();
    kernel(KernelFeatures::Plain { fee: 7 }).write(&mut out);
    // A plain kernel with a lock height.
    let mut bad = out.clone();
    bad[16] = 1;
    assert_eq!(TxKernel::read(&bad[..], 0), Err(SerError::CorruptedData));
    // A coinbase kernel with a fee.
    let mut bad = out.clone();
    bad[0] = 1;
    assert_eq!(TxKernel::read(&bad[..], 0), Err(SerError::CorruptedData));
    // A kind that does not exist.
    let mut bad = out.clone();
    bad[0] = 3;
    assert_eq!(TxKernel::read(&bad[..], 0), Err(SerError::CorruptedData));
    assert_eq!(
        TxKernel::read(&out[..113], 0),
        Err(SerError::UnexpectedEof)
    );
    assert_eq!(KernelFeatures::from_fields(2, 1, 9).map(|f| f.lock_height()), Some(9));
}

#[test]
fn inputs_and_outputs_round_trip() {
    let i = Input {
        features: OutputFeatures::Coinbase,
        commit: commitment(4),
    };
    let mut out = Vec::new();
    i.write(&mut out);
    assert_eq!(out.len(), 34);
    assert_eq!(out[0], 1);
    assert_eq!(Input::read(&out[..], 0), Ok((i, 34)));
    assert!(i.is_coinbase());
    assert_eq!(i.commitment(), commitment(4));
    out[0] = 2;
    assert_eq!(Input::read(&out[..], 0), Err(SerError::CorruptedData));

    let mut proof = RangeProof::zero();
    proof.plen = 3;
    proof.proof[0] = 1;
    proof.proof[2] = 3;
    let o = Output {
        features: OutputFeatures::Plain,
        commit: commitment(5),
        proof,
    };
    let mut out = Vec::new();
    o.write(&mut out);
    assert_eq!(out.len(), 45);
    assert_eq!(&out[34..45], &[0u8, 0, 0, 0, 0, 0, 0, 3, 1, 0, 3]);
    assert_eq!(Output::read(&out[..], 0), Ok((o, 45)));
    assert_eq!(o.commitment(), commitment(5));
    // A proof that is longer than a proof can be.
    out[40] = 3;
    assert_eq!(Output::read(&out[..], 0), Err(SerError::TooLargeRead));
    let mut long = o;
    long.proof.plen = 676;
    assert_eq!(
        long.verify_proof(),
        Err(TxError::Secp(SecpError::InvalidRangeProof))
    );
    // A proof that proves nothing.
    assert_eq!(
        o.verify_proof(),
        Err(TxError::Secp(SecpError::InvalidRangeProof))
    );
    // A commitment that is no curve point.
    let mut odd = o;
    odd.commit = Commitment([1u8; 33]);
    assert_eq!(
        odd.verify_proof(),
        Err(TxError::Secp(SecpError::InvalidCommit))
    );
}

#[test]
fn bodies_round_trip_and_heavy_counts_are_refused() {
    let body = TransactionBody::init(
        vec![Input {
            features: OutputFeatures::Plain,
            commit: commitment(4),
        }],
        vec![],
        vec![kernel(KernelFeatures::Plain { fee: 7 }), kernel(KernelFeatures::Coinbase)],
        vec![],
    );
    assert_eq!(body.fee(), 7);
    assert_eq!(body.body_weight_as_block(), 1 + 2 * 3);
    let mut out = Vec::new();
    body.write(&mut out);
    assert_eq!(out.len(), 32 + 34 + 2 * 114);
    assert_eq!(TransactionBody::read(&out[..], 0), Ok((body.clone(), out.len())));
    assert_eq!(
        TransactionBody::read(&out[..out.len() - 1], 0),
        Err(SerError::UnexpectedEof)
    );
    // Counts that alone weigh more than a block may.
    let mut heavy = out.clone();
    heavy[5] = 1;
    assert_eq!(
        TransactionBody::read(&heavy[..], 0),
        Err(SerError::TooLargeRead)
    );
    assert_eq!(body.verify_weight(Weighting::AsBlock), Ok(()));
    assert_eq!(
        body.verify_weight(Weighting::AsLimitedTransaction(30)),
        Err(TxError::TooHeavy)
    );
    assert_eq!(body.verify_weight(Weighting::AsLimitedTransaction(31)), Ok(()));
    assert_eq!(Weighting::AsTransaction.limit(), Some(40_000 - 24));
    assert_eq!(Weighting::AsLimitedTransaction(3).limit(), Some(0));
    assert_eq!(Weighting::NoLimit.limit(), None);
}

#[test]
fn header_entries_round_trip() {
    let h = BlockHeader::default();
    let e = h.as_elmt();
    assert_eq!(e.hash(), h.hash());
    assert_eq!(e.total_difficulty, Difficulty::min());
    assert!(!e.is_secondary);
    let mut out = Vec::new();
    e.write(&mut out);
    assert_eq!(out.len(), 53);
    assert_eq!(HeaderEntry::read(&out[..], 0), Ok((e, 53)));
    // Any last byte but 0 stands for a secondary proof of work.
    out[52] = 9;
    assert_eq!(HeaderEntry::read(&out[..], 0).map(|r| r.0.is_secondary), Ok(true));
    assert_eq!(
        HeaderEntry::read(&out[..52], 0),
        Err(SerError::UnexpectedEof)
    );
}

#[test]
fn proofs_of_work_round_trip() {
    let pow = ProofOfWork::default();
    assert!(pow.is_primary());
    assert!(!pow.is_secondary());
    let mut out = Vec::new();
    pow.write(&mut out);
    assert_eq!(out.len(), 21 + 163);
    assert_eq!(out[20], 31);
    assert_eq!(ProofOfWork::read(&out[..], 0), Ok((pow, 184)));
    out[20] = 0;
    assert_eq!(ProofOfWork::read(&out[..], 0), Err(SerError::CorruptedData));
    out[20] = 65;
    assert_eq!(ProofOfWork::read(&out[..], 0), Err(SerError::CorruptedData));
    out[20] = 64;
    assert_eq!(ProofOfWork::read(&out[..], 0), Err(SerError::UnexpectedEof));

    let second = Proof::from_packed(29, &[1u8, 2, 3]);
    assert_eq!(second.packed[0..4], [1u8, 2, 3, 0]);
    let pow = ProofOfWork {
        total_difficulty: Difficulty::from_num(5).plus(Difficulty::from_num(u64::MAX)),
        secondary_scaling: 7,
        nonce: 9,
        proof: second,
    };
    assert_eq!(pow.total_difficulty.to_num(), u64::MAX);
    assert!(pow.is_secondary());
    assert!(!pow.is_primary());
    let random = pow.with_random_proof();
    assert_eq!(random.proof.edge_bits, 31);
    assert_eq!(random.nonce, 9);
    assert!(random.proof.packed[163..].iter().all(|b| *b == 0));
    assert!(random.proof != pow.with_random_proof().proof);
}

#[test]
fn short_ids_are_keyed_hashes() {
    let k = kernel(KernelFeatures::Plain { fee: 7 });
    let block_hash = BlockHeader::default().hash();
    let nonce = 0x0102_0304_0506_0708u64;
    let id = k.short_id(&block_hash, nonce);

    let mut seed = block_hash.0.to_vec();
    seed.extend_from_slice(&nonce.to_be_bytes());
    let key = blake2_rfc::blake2b::blake2b(32, &[], &seed);
    let mut k0 = [0u8; 8];
    let mut k1 = [0u8; 8];
    k0.copy_from_slice(&key.as_bytes()[0..8]);
    k1.copy_from_slice(&key.as_bytes()[8..16]);
    let mut bytes = Vec::new();
    k.write(&mut bytes);
    let kernel_hash = blake2_rfc::blake2b::blake2b(32, &[], &bytes);
    assert_eq!(&k.hash().0[..], kernel_hash.as_bytes());
    let mut sip =
        siphasher::sip::SipHasher24::new_with_keys(u64::from_le_bytes(k0), u64::from_le_bytes(k1));
    sip.write(kernel_hash.as_bytes());
    let expected = sip.finish().to_le_bytes();
    assert_eq!(&id.0[..], &expected[0..6]);
    assert!(id != k.short_id(&block_hash, nonce + 1));

    let mut out = Vec::new();
    id.write(&mut out);
    assert_eq!(ShortId::read(&out[..], 0), Ok((id, 6)));
}

#[test]
fn sums_of_commitments_and_offsets() {
    let s = Secp256k1::with_caps(ContextFlag::Commit);
    let a = commitment(3);
    let b = commitment(4);
    let expected = s
        .commit_sum(
            vec![
                secp256k1zkp::pedersen::Commitment(a.0),
                secp256k1zkp::pedersen::Commitment(b.0),
            ],
            vec![],
        )
        .unwrap();
    // The commitment that stands for nothing is left out of the sum.
    assert_eq!(
        sum_commits(&vec![a, zero_commit(), b], &vec![zero_commit()]),
        Ok(Commitment(expected.0))
    );
    assert_eq!(sum_commits(&vec![a], &vec![b, a]).is_ok(), true);
    // A sum of nothing is no commitment.
    assert_eq!(
        sum_commits(&vec![a], &vec![a]),
        Err(CommittedError::Secp(SecpError::IncorrectCommitSum))
    );
    assert_eq!(
        sum_commits(&vec![Commitment([1u8; 33])], &vec![]),
        Err(CommittedError::Secp(SecpError::InvalidCommit))
    );

    let one = BlindingFactor([1u8; 32]);
    let two = BlindingFactor([2u8; 32]);
    let three = BlindingFactor([3u8; 32]);
    assert_eq!(sum_kernel_offsets(&vec![one, two], &vec![]), Ok(three));
    assert_eq!(sum_kernel_offsets(&vec![three], &vec![one]), Ok(two));
    // Offsets that are no scalars are left out; with none left the sum is zero.
    assert_eq!(
        sum_kernel_offsets(&vec![BlindingFactor::zero()], &vec![one]),
        Ok(BlindingFactor::zero())
    );
    assert_eq!(
        sum_kernel_offsets(&vec![one, BlindingFactor([255u8; 32])], &vec![BlindingFactor::zero()]),
        Ok(one)
    );
    assert_eq!(
        sum_kernel_offsets(&vec![one], &vec![one]),
        Err(CommittedError::Secp(SecpError::InvalidSecretKey))
    );
    assert!(BlindingFactor::zero().check_zero());
    assert!(!one.check_zero());
}

#[test]
fn aggregation() {
    let input = |n: u8| Input {
        features: OutputFeatures::Plain,
        commit: commitment(n),
    };
    let output = |n: u8| Output {
        features: OutputFeatures::Plain,
        commit: commitment(n),
        proof: RangeProof::zero(),
    };
    assert_eq!(aggregate(vec![]), Ok(Transaction::empty()));
    // A single transaction is left as it is, even where it spends its own output.
    let own = Transaction::new(vec![input(1)], vec![output(1)], vec![], vec![]);
    assert_eq!(aggregate(vec![own.clone()]), Ok(own));

    let t1 = Transaction::new(
        vec![input(1)],
        vec![output(2)],
        vec![kernel(KernelFeatures::Plain { fee: 1 })],
        vec![],
    )
    .with_offset(BlindingFactor([1u8; 32]));
    let t2 = Transaction::new(
        vec![input(2)],
        vec![output(3)],
        vec![kernel(KernelFeatures::Plain { fee: 2 })],
        vec![],
    )
    .with_offset(BlindingFactor([2u8; 32]));
    let agg = aggregate(vec![t1.clone(), t2.clone()]).unwrap();
    assert_eq!(agg.inputs(), &vec![input(1)]);
    assert_eq!(agg.outputs(), &vec![output(3)]);
    assert_eq!(agg.kernels().len(), 2);
    assert_eq!(agg.fee(), 3);
    assert_eq!(agg.offset, BlindingFactor([3u8; 32]));
    // Two outputs with the same commitment.
    assert_eq!(
        aggregate(vec![t1.clone(), t1]),
        Err(TxError::AggregationError)
    );
    let with = t2.with_output(output(9)).with_kernel(kernel(KernelFeatures::Coinbase));
    assert_eq!(with.outputs().len(), 2);
    assert_eq!(with.kernels().len(), 2);
    assert_eq!(with.assets().len(), 0);
}

#[test]
fn dedup_keeps_the_first() {
    let input = |n: u8, f: OutputFeatures| Input {
        features: f,
        commit: commitment(n),
    };
    let list = vec![
        input(1, OutputFeatures::Plain),
        input(2, OutputFeatures::Plain),
        input(1, OutputFeatures::Coinbase),
        input(3, OutputFeatures::Plain),
        input(2, OutputFeatures::Plain),
    ];
    assert_eq!(
        dedup(&list),
        vec![
            input(1, OutputFeatures::Plain),
            input(2, OutputFeatures::Plain),
            input(3, OutputFeatures::Plain),
        ]
    );
}

#[test]
fn coinbase_outputs_mature() {
    // One confirmation more than the maturity is needed.
    let created_at = 10;
    assert_eq!(
        verify_coinbase_maturity(created_at, created_at),
        Err(TxError::ImmatureCoinbase)
    );
    assert_eq!(
        verify_coinbase_maturity(created_at, created_at + COINBASE_MATURITY - 1),
        Err(TxError::ImmatureCoinbase)
    );
    assert_eq!(
        verify_coinbase_maturity(created_at, created_at + COINBASE_MATURITY),
        Ok(())
    );
    assert_eq!(verify_coinbase_maturity(created_at, u64::MAX), Ok(()));
    // A chain that does not reach the output's block has not confirmed it.
    assert_eq!(
        verify_coinbase_maturity(created_at, 3),
        Err(TxError::ImmatureCoinbase)
    );
    assert_eq!(
        verify_coinbase_maturity(u64::MAX, u64::MAX),
        Err(TxError::ImmatureCoinbase)
    );
}

#[test]
fn header_version_is_a_number() {
    assert_eq!(HeaderVersion(3).to_u16(), 3);
    assert!(HeaderVersion(1) < HeaderVersion(2));
}

#[test]
fn hashes_of_items() {
    let i = Input {
        features: OutputFeatures::Plain,
        commit: commitment(4),
    };
    let mut proof = RangeProof::zero();
    proof.plen = 3;
    let o = Output {
        features: OutputFeatures::Plain,
        commit: commitment(4),
        proof,
    };
    let mut bytes = Vec::new();
    i.write(&mut bytes);
    let expected = blake2_rfc::blake2b::blake2b(32, &[], &bytes);
    assert_eq!(&i.hash().0[..], expected.as_bytes());
    // An output and the input that spends it have the same hash, whatever the proof.
    assert_eq!(o.hash(), i.hash());
    let coinbase = Input {
        features: OutputFeatures::Coinbase,
        commit: commitment(4),
    };
    assert!(coinbase.hash() != i.hash());

    let a = kepler_core::asset::Asset::default();
    let expected = blake2_rfc::blake2b::blake2b(32, &[], &a.0);
    assert_eq!(&a.hash().0[..], expected.as_bytes());
    assert!(!a.hash().same(&kepler_core::hash::Hash::zero()));
    assert!(kepler_core::hash::Hash::zero().same(&kepler_core::hash::Hash([0u8; 32])));
}

#[test]
fn the_commitment_to_nothing_is_no_curve_point() {
    let s = Secp256k1::with_caps(ContextFlag::Commit);
    let zero = zero_commit();
    assert_eq!(zero.0[0], 8);
    assert!(zero.0[1..].iter().all(|b| *b == 0));
    assert!(kepler_core::committed::is_zero_commit(&zero));
    assert!(!kepler_core::committed::is_zero_commit(&commitment(3)));
    // The curve library does not take it as a commitment, which is why sums leave it out.
    assert_eq!(
        s.commit_sum(vec![secp256k1zkp::pedersen::Commitment(zero.0)], vec![]),
        Err(secp256k1zkp::Error::InvalidCommit)
    );
    assert_eq!(kepler_core::block::zero_overage_commitment(), zero);
    assert_eq!(BlockHeader::default().total_issue_overage, zero);
    // The curve library makes no commitment to the value nothing either.
    assert_eq!(s.commit_value(0), Err(secp256k1zkp::Error::InvalidCommit));
}
