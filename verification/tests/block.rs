use kepler_core::block::{Block, Error, BlockHeader, UntrustedBlock, UntrustedBlockHeader};
use kepler_core::committed::CommittedError;
use kepler_core::compact_block::CompactBlock;
use kepler_core::consensus::{reward, BLOCK_OUTPUT_WEIGHT, MAX_BLOCK_WEIGHT};
use kepler_core::pow::Difficulty;
use kepler_core::secp::{BlindingFactor, Commitment, RangeProof, SecpError, Signature};
use kepler_core::ser::{SerError, Wire};
use kepler_core::verifier_cache::VerifierCache;
use kepler_core::transaction::{
    Input, KernelFeatures, Output, OutputFeatures, Transaction, TxError, TxKernel, Weighting,
};
use secp256k1zkp::{aggsig, ContextFlag, Secp256k1, SecretKey};

fn secp() -> Secp256k1 {
    Secp256k1::with_caps(ContextFlag::Commit)
}

// The secret key whose 32 bytes are all `n`.
fn key(n: u8) -> SecretKey {
    SecretKey::from_slice(&secp(), &[n; 32]).unwrap()
}

fn commit(value: u64, n: u8) -> Commitment {
    Commitment(secp().commit(value, key(n)).unwrap().0)
}

fn range_proof(value: u64, n: u8) -> RangeProof {
    let k = key(n);
    let p = secp()
        .bullet_proof(value, k.clone(), k.clone(), k.clone(), None, None)
        .unwrap();
    let mut proof = [0u8; 675];
    proof[..p.plen].copy_from_slice(&p.proof[..p.plen]);
    RangeProof {
        proof,
        plen: p.plen,
    }
}

fn input(value: u64, n: u8) -> Input {
    Input {
        features: OutputFeatures::Plain,
        commit: commit(value, n),
    }
}

fn output(value: u64, n: u8) -> Output {
    Output {
        features: OutputFeatures::Plain,
        commit: commit(value, n),
        proof: range_proof(value, n),
    }
}

// A kernel with the given features whose excess is `excess_key * G`, signed with that key.
fn signed_kernel(features: KernelFeatures, excess_key: &SecretKey) -> TxKernel {
    let s = secp();
    let excess = s.commit(0, excess_key.clone()).unwrap();
    let pubkey = excess.to_pubkey(&s).unwrap();
    let unsigned = TxKernel {
        features,
        excess: Commitment(excess.0),
        excess_sig: Signature([0u8; 64]),
    };
    let msg = secp256k1zkp::Message::from_slice(&unsigned.msg_to_sign().0).unwrap();
    let sig =
        aggsig::sign_single(&s, &msg, excess_key, None, None, None, Some(&pubkey), None).unwrap();
    TxKernel {
        features,
        excess: Commitment(excess.0),
        excess_sig: Signature(sig.to_raw_data()),
    }
}

// A transaction that spends `ins` into `outs` and pays `fee`; each item is a value and the
// number of its key. The kernel offset is the key `offset`.
fn build_tx(fee: u64, ins: &[(u64, u8)], outs: &[(u64, u8)], offset: u8) -> Transaction {
    let s = secp();
    let positive: Vec<SecretKey> = outs.iter().map(|o| key(o.1)).collect();
    let mut negative: Vec<SecretKey> = ins.iter().map(|i| key(i.1)).collect();
    negative.push(key(offset));
    let excess_key = s.blind_sum(positive, negative).unwrap();
    let kernel = signed_kernel(KernelFeatures::Plain { fee }, &excess_key);
    Transaction::new(
        ins.iter().map(|i| input(i.0, i.1)).collect(),
        outs.iter().map(|o| output(o.0, o.1)).collect(),
        vec![kernel],
        vec![],
    )
    .with_offset(BlindingFactor(key(offset).0))
}

fn tx2i1o() -> Transaction {
    build_tx(2, &[(10, 1), (11, 2)], &[(19, 3)], 201)
}

fn tx1i2o() -> Transaction {
    build_tx(2, &[(6, 1)], &[(3, 2), (1, 3)], 202)
}

fn reward_output(fees: u64, height: u64, n: u8) -> (Output, TxKernel) {
    let value = reward(height, fees);
    let out = Output {
        features: OutputFeatures::Coinbase,
        commit: commit(value, n),
        proof: range_proof(value, n),
    };
    (out, signed_kernel(KernelFeatures::Coinbase, &key(n)))
}

fn new_block(txs: Vec<Transaction>, prev: &BlockHeader, n: u8) -> Block {
    let fees = txs.iter().map(|tx| tx.fee()).sum();
    let reward = reward_output(fees, prev.height + 1, n);
    Block::new(prev, txs, Difficulty::min(), reward).unwrap()
}

fn zero_offset() -> BlindingFactor {
    BlindingFactor::zero()
}

fn to_hex(bytes: &[u8]) -> String {
    let mut s = String::new();
    for b in bytes {
        s.push_str(&format!("{:02x}", b));
    }
    s
}

#[test]
fn too_large_block() {
    let max_out = (MAX_BLOCK_WEIGHT / BLOCK_OUTPUT_WEIGHT) as usize;
    // The weight is checked before any proof, so the proofs need not be made.
    let mut outputs = vec![];
    for n in 0..max_out {
        let mut bytes = [0u8; 33];
        bytes[0] = 8;
        bytes[1] = (n >> 8) as u8;
        bytes[2] = n as u8;
        bytes[32] = 1;
        outputs.push(Output {
            features: OutputFeatures::Plain,
            commit: Commitment(bytes),
            proof: RangeProof::zero(),
        });
    }
    let inputs = vec![input(500000, 1)];
    let kernel = signed_kernel(KernelFeatures::Plain { fee: 2 }, &key(9));
    let tx = Transaction::new(inputs, outputs, vec![kernel], vec![]);

    let prev = BlockHeader::default();
    let b = new_block(vec![tx], &prev, 1);
    let r = b.validate(&zero_offset(), &mut VerifierCache::new());
    assert!(r.is_err());
    assert_eq!(r, Err(Error::Transaction(TxError::TooHeavy)));
}

#[test]
// block with no inputs/outputs/kernels
// no fees, no reward, no coinbase
fn very_empty_block() {
    let b = Block::with_header(BlockHeader::default());

    assert_eq!(
        b.verify_coinbase(),
        Err(Error::Secp(SecpError::IncorrectCommitSum))
    );
}

#[test]
// builds a block with a tx spending another and check that cut_through occurred
fn block_with_cut_through() {
    let btx1 = tx2i1o();
    let btx2 = build_tx(2, &[(7, 1)], &[(5, 2)], 203);

    // spending tx2 - reuse key 2
    let btx3 = build_tx(0, &[(5, 2)], &[(5, 3)], 204);
    let prev = BlockHeader::default();
    let b = new_block(vec![btx1, btx2, btx3], &prev, 1);

    // block should have been automatically compacted (including reward
    // output) and should still be valid
    b.validate(&zero_offset(), &mut VerifierCache::new()).unwrap();
    assert_eq!(b.inputs().len(), 3);
    assert_eq!(b.outputs().len(), 3);
}

#[test]
fn empty_block_with_coinbase_is_valid() {
    let prev = BlockHeader::default();
    let b = new_block(vec![], &prev, 1);

    assert_eq!(b.inputs().len(), 0);
    assert_eq!(b.outputs().len(), 1);
    assert_eq!(b.kernels().len(), 1);

    let coinbase_outputs = b
        .outputs()
        .iter()
        .filter(|out| out.is_coinbase())
        .cloned()
        .collect::<Vec<_>>();
    assert_eq!(coinbase_outputs.len(), 1);

    let coinbase_kernels = b
        .kernels()
        .iter()
        .filter(|out| out.is_coinbase())
        .cloned()
        .collect::<Vec<_>>();
    assert_eq!(coinbase_kernels.len(), 1);

    // the block should be valid here (single coinbase output with corresponding
    // txn kernel)
    assert!(b.validate(&zero_offset(), &mut VerifierCache::new()).is_ok());
}

#[test]
// test that flipping the COINBASE flag on the output features
// invalidates the block and specifically it causes verify_coinbase to fail
fn remove_coinbase_output_flag() {
    let prev = BlockHeader::default();
    let mut b = new_block(vec![], &prev, 1);

    assert!(b.outputs()[0].is_coinbase());
    b.outputs_mut()[0].features = OutputFeatures::Plain;

    assert_eq!(b.verify_coinbase(), Err(Error::CoinbaseSumMismatch));
    assert!(b
        .verify_kernel_sums(
            b.header.overage(),
            b.mint_overage().unwrap(),
            b.header.total_kernel_offset(),
        )
        .is_ok());
    assert_eq!(
        b.validate(&zero_offset(), &mut VerifierCache::new()),
        Err(Error::CoinbaseSumMismatch)
    );
    // The checks that need no cryptography still pass.
    assert_eq!(b.validate_read(), Ok(()));
}

#[test]
// test that flipping the COINBASE flag on the kernel features
// invalidates the block and specifically it causes verify_coinbase to fail
fn remove_coinbase_kernel_flag() {
    let prev = BlockHeader::default();
    let mut b = new_block(vec![], &prev, 1);

    assert!(b.kernels()[0].is_coinbase());
    b.kernels_mut()[0].features = KernelFeatures::Plain { fee: 0 };

    // Flipping the coinbase flag results in kernels not summing correctly.
    assert_eq!(
        b.verify_coinbase(),
        Err(Error::Secp(SecpError::IncorrectCommitSum))
    );

    // Also results in the block no longer validating correctly
    // because the message being signed on each tx kernel includes the kernel features.
    assert_eq!(
        b.validate(&zero_offset(), &mut VerifierCache::new()),
        Err(Error::Transaction(TxError::IncorrectSignature))
    );
    // The checks that need no cryptography still pass.
    assert_eq!(b.validate_read(), Ok(()));
}

#[test]
fn serialize_deserialize_block_header() {
    let prev = BlockHeader::default();
    let b = new_block(vec![], &prev, 1);
    let header1 = b.header;

    let mut vec = Vec::new();
    header1.write(&mut vec);
    let (header2, end) = BlockHeader::read(&vec[..], 0).unwrap();

    assert_eq!(end, vec.len());
    assert_eq!(header1.hash(), header2.hash());
    assert_eq!(header1, header2);

    // Writing what was read gives the same bytes.
    let mut again = Vec::new();
    header2.write(&mut again);
    assert_eq!(vec, again);
}

#[test]
fn serialize_deserialize_block() {
    let tx1 = tx1i2o();
    let prev = BlockHeader::default();
    let b = new_block(vec![tx1], &prev, 4);

    let mut vec = Vec::new();
    b.write(&mut vec);
    let (b2, end) = Block::read(&vec[..], 0).unwrap();

    assert_eq!(end, vec.len());
    assert_eq!(b.hash(), b2.hash());
    assert_eq!(b.header, b2.header);
    assert_eq!(b.inputs(), b2.inputs());
    assert_eq!(b.outputs(), b2.outputs());
    assert_eq!(b.kernels(), b2.kernels());

    let mut again = Vec::new();
    b2.write(&mut again);
    assert_eq!(vec, again);
}

#[test]
fn compact_block_hash_with_nonce() {
    let tx = tx1i2o();
    let prev = BlockHeader::default();
    let b = new_block(vec![tx.clone()], &prev, 4);
    let cb1 = CompactBlock::from_block(&b);
    let cb2 = CompactBlock::from_block(&b);

    // random nonce will not affect the hash of the compact block itself
    // hash is based on header POW only
    assert!(cb1.nonce != cb2.nonce);
    assert_eq!(b.hash(), cb1.hash());
    assert_eq!(cb1.hash(), cb2.hash());

    assert!(cb1.kern_ids()[0] != cb2.kern_ids()[0]);

    // check we can identify the specified kernel from the short_id
    // correctly in both of the compact_blocks
    assert_eq!(
        cb1.kern_ids()[0],
        tx.kernels()[0].short_id(&cb1.hash(), cb1.nonce)
    );
    assert_eq!(
        cb2.kern_ids()[0],
        tx.kernels()[0].short_id(&cb2.hash(), cb2.nonce)
    );
}

#[test]
fn convert_block_to_compact_block() {
    let tx1 = tx1i2o();
    let prev = BlockHeader::default();
    let b = new_block(vec![tx1], &prev, 4);
    let cb = CompactBlock::from_block(&b);

    assert_eq!(cb.out_full().len(), 1);
    assert_eq!(cb.kern_full().len(), 1);
    assert_eq!(cb.kern_ids().len(), 1);

    assert_eq!(
        cb.kern_ids()[0],
        b.kernels()
            .iter()
            .find(|x| !x.is_coinbase())
            .unwrap()
            .short_id(&cb.hash(), cb.nonce)
    );
}

#[test]
fn hydrate_empty_compact_block() {
    let prev = BlockHeader::default();
    let b = new_block(vec![], &prev, 1);
    let cb = CompactBlock::from_block(&b);
    let hb = Block::hydrate_from(cb, vec![]).unwrap();
    assert_eq!(hb.header, b.header);
    assert_eq!(hb.outputs(), b.outputs());
    assert_eq!(hb.kernels(), b.kernels());
}

#[test]
fn serialize_deserialize_compact_block() {
    let tx1 = tx1i2o();
    let prev = BlockHeader::default();
    let b = new_block(vec![tx1], &prev, 4);

    let cb1 = CompactBlock::from_block(&b);

    let mut vec = Vec::new();
    cb1.write(&mut vec);

    let (cb2, end) = CompactBlock::read(&vec[..], 0).unwrap();

    assert_eq!(end, vec.len());
    assert_eq!(cb1.header, cb2.header);
    assert_eq!(cb1.kern_ids(), cb2.kern_ids());
    assert_eq!(cb1, cb2);
}

// Duplicate a range proof from a valid output into another of the same amount
#[test]
fn same_amount_outputs_copy_range_proof() {
    let tx = build_tx(1, &[(7, 1)], &[(3, 2), (3, 3)], 205);

    // now we reconstruct the transaction, swapping the rangeproofs so they
    // have the wrong privkey
    let ins = tx.inputs();
    let mut outs = tx.outputs().clone();
    let kernels = tx.kernels();
    outs[0].proof = outs[1].proof;

    let prev = BlockHeader::default();
    let b = new_block(
        vec![Transaction::new(ins.clone(), outs, kernels.clone(), Vec::new()).with_offset(tx.offset)],
        &prev,
        4,
    );

    match b.validate(&zero_offset(), &mut VerifierCache::new()) {
        Err(Error::Transaction(TxError::Secp(SecpError::InvalidRangeProof))) => {}
        _ => panic!("Bad range proof should be invalid"),
    }
}

// Swap a range proof with the right private key but wrong amount
#[test]
fn wrong_amount_range_proof() {
    let tx1 = build_tx(1, &[(7, 1)], &[(3, 2), (3, 3)], 205);
    let tx2 = build_tx(1, &[(7, 1)], &[(2, 2), (4, 3)], 205);

    // we take the range proofs from tx2 into tx1 and rebuild the transaction
    let ins = tx1.inputs();
    let mut outs = tx1.outputs().clone();
    let kernels = tx1.kernels();
    outs[0].proof = tx2.outputs()[0].proof;
    outs[1].proof = tx2.outputs()[1].proof;

    let prev = BlockHeader::default();
    let b = new_block(
        vec![Transaction::new(ins.clone(), outs, kernels.clone(), Vec::new()).with_offset(tx1.offset)],
        &prev,
        4,
    );

    match b.validate(&zero_offset(), &mut VerifierCache::new()) {
        Err(Error::Transaction(TxError::Secp(SecpError::InvalidRangeProof))) => {}
        _ => panic!("Bad range proof should be invalid"),
    }
}

#[test]
fn validate_header_proof() {
    let prev = BlockHeader::default();
    let b = new_block(vec![], &prev, 1);

    let mut header_buf = vec![];
    b.header.write_pre_pow(&mut header_buf);
    b.header.pow.write_pre_pow(&mut header_buf);
    let pre_pow = to_hex(&header_buf);

    let reconstructed =
        BlockHeader::from_pre_pow_and_proof(pre_pow, b.header.pow.nonce, b.header.pow.proof)
            .unwrap();
    assert_eq!(reconstructed, b.header);

    // assert invalid pre_pow returns error
    assert!(BlockHeader::from_pre_pow_and_proof(
        "0xaf1678".to_string(),
        b.header.pow.nonce,
        b.header.pow.proof,
    )
    .is_err());
}

#[test]
fn test_output_ser_deser() {
    let out = output(5, 1);

    let mut vec = vec![];
    out.write(&mut vec);
    let (dout, end) = Output::read(&vec[..], 0).unwrap();

    assert_eq!(end, vec.len());
    assert_eq!(dout.features, OutputFeatures::Plain);
    assert_eq!(dout.commit, out.commit);
    assert_eq!(dout.proof, out.proof);
}

#[test]
fn valid_block_is_unchanged_by_cut_through() {
    let prev = BlockHeader::default();
    let b = new_block(vec![tx2i1o(), tx1i2o()], &prev, 5);
    let sum = b.validate(&zero_offset(), &mut VerifierCache::new()).unwrap();
    let cut = b.clone().cut_through().unwrap();
    assert_eq!(cut, b);
    assert_eq!(cut.validate(&zero_offset(), &mut VerifierCache::new()), Ok(sum));
    // And cut-through done twice is cut-through done once.
    assert_eq!(cut.clone().cut_through(), Ok(cut));
}

#[test]
fn cut_through_keeps_order_and_refuses_equal_outputs() {
    let a = output(3, 2);
    let b = output(4, 3);
    let c = output(5, 4);
    let block = Block {
        header: BlockHeader::default(),
        body: kepler_core::transaction::TransactionBody::init(
            vec![input(9, 9), input(4, 3), input(8, 8)],
            vec![a, b, c],
            vec![],
            vec![],
        ),
    };
    let cut = block.clone().cut_through().unwrap();
    assert_eq!(cut.inputs(), &vec![input(9, 9), input(8, 8)]);
    assert_eq!(cut.outputs(), &vec![a, c]);
    // An input that spends an output of the same block fails the read-level check.
    assert_eq!(
        block.validate_read(),
        Err(Error::Transaction(TxError::CutThrough))
    );
    assert_eq!(cut.validate_read(), Ok(()));

    let twice = Block {
        header: BlockHeader::default(),
        body: kepler_core::transaction::TransactionBody::init(vec![], vec![a, b, a], vec![], vec![]),
    };
    assert_eq!(
        twice.cut_through(),
        Err(Error::Transaction(TxError::AggregationError))
    );
    // Two inputs that spend one commitment are refused as well: what is cut are pairs.
    let double = Block {
        header: BlockHeader::default(),
        body: kepler_core::transaction::TransactionBody::init(
            vec![input(4, 3), input(9, 9), input(4, 3)],
            vec![b],
            vec![],
            vec![],
        ),
    };
    assert_eq!(
        double.clone().cut_through(),
        Err(Error::Transaction(TxError::AggregationError))
    );
    let (out, kern) = reward_output(0, 1, 6);
    let spend_twice = Transaction::new(vec![input(4, 3), input(4, 3)], vec![b], vec![], vec![]);
    assert_eq!(
        Block::from_reward(
            &BlockHeader::default(),
            vec![spend_twice],
            out,
            kern,
            Difficulty::min()
        ),
        Err(Error::Transaction(TxError::AggregationError))
    );
    // As many inputs leave as outputs.
    assert_eq!(
        block.inputs().len() - cut.inputs().len(),
        block.outputs().len() - cut.outputs().len()
    );
}

#[test]
fn kernel_lock_height_above_block_height_is_refused() {
    let prev = BlockHeader::default();
    let mut b = new_block(vec![], &prev, 1);
    let locked = signed_kernel(
        KernelFeatures::HeightLocked {
            fee: 0,
            lock_height: 2,
        },
        &key(7),
    );
    b.kernels_mut().push(locked);
    assert_eq!(b.header.height, 1);
    assert_eq!(b.validate_read(), Err(Error::KernelLockHeight(2)));
    b.header.height = 2;
    assert_eq!(b.validate_read(), Ok(()));
}

#[test]
fn kernel_sum_mismatch_is_reported() {
    let prev = BlockHeader::default();
    let b = new_block(vec![tx1i2o()], &prev, 4);
    // With the wrong offset the sums do not balance.
    let r = b.verify_kernel_sums(b.header.overage(), None, BlindingFactor(key(77).0));
    assert_eq!(r, Err(CommittedError::KernelSumMismatch));
    // With the right one they do, and the kernel sum is what full validation gives.
    let (_, kernel_sum) = b
        .verify_kernel_sums(b.header.overage(), None, b.header.total_kernel_offset())
        .unwrap();
    assert_eq!(b.validate(&zero_offset(), &mut VerifierCache::new()), Ok(kernel_sum));
}

#[test]
fn block_on_a_header_with_an_offset() {
    let first = new_block(vec![tx1i2o()], &BlockHeader::default(), 4);
    let second = new_block(vec![tx2i1o()], &first.header, 5);
    assert_eq!(second.header.height, 2);
    assert_eq!(second.header.prev_hash, first.hash());
    assert_eq!(second.header.pow.total_difficulty.to_num(), 3);
    // The block is valid against the offset of the header before it, and not against another.
    assert!(second.validate(&first.header.total_kernel_offset(), &mut VerifierCache::new()).is_ok());
    assert_eq!(
        second.validate(&zero_offset(), &mut VerifierCache::new()),
        Err(Error::Committed(CommittedError::KernelSumMismatch))
    );
}

#[test]
fn hydrate_gives_the_block_back() {
    let tx = tx1i2o();
    let b = new_block(vec![tx.clone()], &BlockHeader::default(), 4);
    let cb = CompactBlock::compact(&b, 42);
    assert_eq!(cb.nonce, 42);
    // The same transaction twice counts once.
    let hb = Block::hydrate_from(cb, vec![tx.clone(), tx]).unwrap();
    assert_eq!(hb.header, b.header);
    assert_eq!(hb.inputs(), b.inputs());
    assert_eq!(hb.outputs(), b.outputs());
    assert_eq!(hb.kernels(), b.kernels());
    assert!(hb.validate(&zero_offset(), &mut VerifierCache::new()).is_ok());
}

#[test]
fn untrusted_header_checks() {
    let b = new_block(vec![], &BlockHeader::default(), 1);
    let mut vec = Vec::new();
    b.header.write(&mut vec);
    let now = b.header.timestamp;

    let ok = UntrustedBlockHeader::read_at(&vec[..], 0, now, |_h: &BlockHeader| true);
    assert_eq!(ok.map(|(u, _)| u.into_header()), Ok(b.header));
    // A header of the time of the call is no more than twelve intervals ahead.
    assert!(UntrustedBlockHeader::read(&vec[..], 0, |_h: &BlockHeader| true).is_ok());

    // The proof of work is of the wrong size.
    let bad_size = UntrustedBlockHeader::read_at(&vec[..], 0, now, |_h: &BlockHeader| false);
    assert_eq!(bad_size.map(|_| ()), Err(SerError::CorruptedData));

    // More than twelve block intervals in the future.
    let early = UntrustedBlockHeader::read_at(&vec[..], 0, now - 721, |_h: &BlockHeader| true);
    assert_eq!(early.map(|_| ()), Err(SerError::CorruptedData));
    let just = UntrustedBlockHeader::read_at(&vec[..], 0, now - 720, |_h: &BlockHeader| true);
    assert!(just.is_ok());

    // The version is not the one in force at the height: a peer learns no more than that the
    // header is refused.
    let mut wrong = b.header;
    wrong.version = kepler_core::block::HeaderVersion(2);
    let mut vec2 = Vec::new();
    wrong.write(&mut vec2);
    let r = UntrustedBlockHeader::read_at(&vec2[..], 0, now, |_h: &BlockHeader| true);
    assert_eq!(r.map(|_| ()), Err(SerError::CorruptedData));

    // Neither primary nor secondary proof of work.
    let mut odd = b.header;
    odd.pow.proof.edge_bits = 30;
    let mut vec3 = Vec::new();
    odd.write(&mut vec3);
    let r = UntrustedBlockHeader::read_at(&vec3[..], 0, now, |_h: &BlockHeader| true);
    assert_eq!(r.map(|_| ()), Err(SerError::CorruptedData));

    // A truncated header.
    let r = UntrustedBlockHeader::read_at(&vec[..100], 0, now, |_h: &BlockHeader| true);
    assert_eq!(r.map(|_| ()), Err(SerError::UnexpectedEof));
}

#[test]
fn untrusted_block_checks() {
    let b = new_block(vec![tx1i2o()], &BlockHeader::default(), 4);
    let mut vec = Vec::new();
    b.write(&mut vec);
    let now = b.header.timestamp;
    let r = UntrustedBlock::read_at(&vec[..], 0, now, |_h: &BlockHeader| true).unwrap();
    assert_eq!(r.1, vec.len());
    assert_eq!(r.0.into_block(), b);

    // A body in which an input spends an output counts as corrupted data.
    let mut bad = b.clone();
    let spent = bad.outputs()[0].commit;
    bad.inputs_mut().push(Input {
        features: OutputFeatures::Plain,
        commit: spent,
    });
    let mut vec2 = Vec::new();
    bad.write(&mut vec2);
    let r = UntrustedBlock::read_at(&vec2[..], 0, now, |_h: &BlockHeader| true);
    assert_eq!(r.map(|_| ()), Err(SerError::CorruptedData));
    // Read as a trusted block it is read as it stands.
    assert_eq!(Block::read(&vec2[..], 0).map(|r| r.0), Ok(bad));
}

#[test]
fn header_time_outside_the_calendar_is_refused() {
    let mut h = BlockHeader::default();
    h.timestamp = kepler_core::time::MAX_TIMESTAMP;
    let mut vec = Vec::new();
    h.write(&mut vec);
    assert!(BlockHeader::read(&vec[..], 0).is_ok());
    h.timestamp = kepler_core::time::MAX_TIMESTAMP + 1;
    let mut vec = Vec::new();
    h.write(&mut vec);
    assert_eq!(BlockHeader::read(&vec[..], 0), Err(SerError::CorruptedData));
    h.timestamp = kepler_core::time::MIN_TIMESTAMP - 1;
    let mut vec = Vec::new();
    h.write(&mut vec);
    assert_eq!(BlockHeader::read(&vec[..], 0), Err(SerError::CorruptedData));
    h.timestamp = kepler_core::time::MIN_TIMESTAMP;
    let mut vec = Vec::new();
    h.write(&mut vec);
    assert!(BlockHeader::read(&vec[..], 0).is_ok());
    // The limits are those of the calendar library.
    assert_eq!(
        kepler_core::time::MAX_TIMESTAMP,
        chrono::NaiveDate::MAX
            .and_hms_opt(0, 0, 0)
            .unwrap()
            .and_utc()
            .timestamp()
    );
    assert_eq!(
        kepler_core::time::MIN_TIMESTAMP,
        chrono::NaiveDate::MIN
            .and_hms_opt(0, 0, 0)
            .unwrap()
            .and_utc()
            .timestamp()
    );
}

#[test]
fn header_layout_and_hash() {
    let h = BlockHeader::default();
    let mut vec = Vec::new();
    h.write(&mut vec);
    // 299 bytes before the proof of work, 21 before the packed nonces, 42 nonces of 31 bits.
    assert_eq!(vec.len(), 299 + 21 + 163);
    assert_eq!(&vec[0..2], &[0u8, 1u8]);
    assert_eq!(vec[266], 8);
    assert_eq!(h.pre_pow().len(), 299 + 20);
    // The hash is that of the packed nonces alone.
    let expected = blake2_rfc::blake2b::blake2b(32, &[], &[0u8; 163]);
    assert_eq!(&h.hash().0[..], expected.as_bytes());
    let mut other = h;
    other.height = 7;
    assert_eq!(other.hash(), h.hash());
    other.pow.proof.packed[0] = 1;
    assert!(other.hash() != h.hash());
    // The overage of a block is its subsidy, negative.
    assert_eq!(h.overage(), -60_000_000_000);
    other.height = 3;
    assert_eq!(other.total_overage(false), -180_000_000_000);
    assert_eq!(other.total_overage(true), -240_000_000_000);
    let weigh = Weighting::AsBlock;
    assert_eq!(weigh.limit(), Some(MAX_BLOCK_WEIGHT));
}

#[test]
fn the_cache_does_not_change_what_validation_answers() {
    let prev = BlockHeader::default();
    let b = new_block(vec![tx2i1o(), tx1i2o()], &prev, 5);
    let mut cache = VerifierCache::new();
    let first = b.validate(&zero_offset(), &mut cache);
    assert!(first.is_ok());
    // Every output and every kernel of the valid block is now in the cache.
    assert_eq!(cache.output_count(), b.outputs().len());
    assert_eq!(cache.kernel_count(), b.kernels().len());
    assert!(cache.is_kernel_sig_verified(&b.kernels()[0]));
    assert!(cache.is_rangeproof_verified(&b.outputs()[0]));
    // A second validation gives the same answer and adds nothing.
    assert_eq!(b.validate(&zero_offset(), &mut cache), first);
    assert_eq!(cache.output_count(), b.outputs().len());

    // A block that is not valid is refused with a full cache as with an empty one.
    let mut bad = b.clone();
    bad.outputs_mut()[0].proof = RangeProof::zero();
    let cold = bad.validate(&zero_offset(), &mut VerifierCache::new());
    assert_eq!(
        cold,
        Err(Error::Transaction(TxError::Secp(
            SecpError::InvalidRangeProof
        )))
    );
    assert_eq!(bad.validate(&zero_offset(), &mut cache), cold);
    assert!(!cache.is_rangeproof_verified(&bad.outputs()[0]));
}

#[test]
fn with_reward_replaces_outputs_and_kernels() {
    let prev = BlockHeader::default();
    let b = new_block(vec![tx1i2o()], &prev, 4);
    let inputs = b.inputs().clone();
    let (out, kern) = reward_output(0, 1, 6);
    let rewarded = b.clone().with_reward(out, kern);
    assert_eq!(rewarded.header, b.header);
    assert_eq!(rewarded.inputs(), &inputs);
    assert_eq!(rewarded.outputs(), &vec![out]);
    assert_eq!(rewarded.kernels(), &vec![kern]);
    assert_eq!(rewarded.assets().len(), 0);
    assert_eq!(rewarded.total_fees(), 0);
    assert_eq!(b.total_fees(), 2);
    assert_eq!(b.inputs_committed().len(), 1);
    assert_eq!(b.outputs_committed()[0], b.outputs()[0].commit);
    assert_eq!(b.kernels_committed()[0], b.kernels()[0].excess());
    let d = Block::default();
    assert_eq!(d.header, BlockHeader::default());
    assert_eq!(d.outputs().len(), 0);
    // Built at a given time, a block carries that time and an all-zero proof.
    let at = Block::from_reward_at(&prev, vec![], out, kern, Difficulty::from_num(4), 1_600_000_000)
        .unwrap();
    assert_eq!(at.header.timestamp, 1_600_000_000);
    assert_eq!(at.header.pow.total_difficulty.to_num(), 5);
    assert_eq!(at.header.pow.proof, kepler_core::pow::Proof::zero(31));
    assert_eq!(at.header.version.0, 1);
    assert_eq!(at.header.prev_hash, prev.hash());
}

// The sizes below are those of this format: a header of 483 bytes (299 before the proof of
// work, 21 of the proof of work before its nonces, 163 of packed nonces), four counts of 8
// bytes in a block, three counts and a nonce in a compact block, an output of 717 bytes with
// its proof, a kernel of 114 bytes, an input of 34 bytes, a short identifier of 6 bytes.

#[test]
fn empty_block_serialized_size() {
    let prev = BlockHeader::default();
    let b = new_block(vec![], &prev, 1);
    let mut vec = Vec::new();
    b.write(&mut vec);
    let target_len = 1_346;
    assert_eq!(vec.len(), target_len);
}

#[test]
fn block_single_tx_serialized_size() {
    let tx1 = tx1i2o();
    let prev = BlockHeader::default();
    let b = new_block(vec![tx1], &prev, 4);
    let mut vec = Vec::new();
    b.write(&mut vec);
    let target_len = 2_928;
    assert_eq!(vec.len(), target_len);
}

#[test]
fn empty_compact_block_serialized_size() {
    let prev = BlockHeader::default();
    let b = new_block(vec![], &prev, 1);
    let cb = CompactBlock::from_block(&b);
    let mut vec = Vec::new();
    cb.write(&mut vec);
    let target_len = 1_346;
    assert_eq!(vec.len(), target_len);
}

#[test]
fn compact_block_single_tx_serialized_size() {
    let tx1 = tx1i2o();
    let prev = BlockHeader::default();
    let b = new_block(vec![tx1], &prev, 4);
    let cb = CompactBlock::from_block(&b);
    let mut vec = Vec::new();
    cb.write(&mut vec);
    let target_len = 1_352;
    assert_eq!(vec.len(), target_len);
}

// Ten transactions of one input and two outputs each, with keys of their own.
fn ten_txs() -> Vec<Transaction> {
    (0..10u8)
        .map(|n| build_tx(2, &[(6, 10 + n)], &[(3, 30 + n), (1, 50 + n)], 100 + n))
        .collect()
}

#[test]
fn block_10_tx_serialized_size() {
    let prev = BlockHeader::default();
    let b = new_block(ten_txs(), &prev, 4);
    assert_eq!(b.kernels().len(), 11);
    let mut vec = Vec::new();
    b.write(&mut vec);
    assert_eq!(vec.len(), 17_166);
    assert!(b
        .validate(&zero_offset(), &mut VerifierCache::new())
        .is_ok());
}

#[test]
fn compact_block_10_tx_serialized_size() {
    let prev = BlockHeader::default();
    let b = new_block(ten_txs(), &prev, 4);
    let cb = CompactBlock::from_block(&b);
    let mut vec = Vec::new();
    cb.write(&mut vec);
    let target_len = 1_406;
    assert_eq!(vec.len(), target_len,);
}

#[test]
fn transactions_validate_on_their_own() {
    let tx = tx1i2o();
    assert_eq!(tx.validate_read(), Ok(()));
    assert_eq!(tx.overage(), 2);
    let mut cache = VerifierCache::new();
    assert_eq!(tx.validate(Weighting::AsTransaction, &mut cache), Ok(()));
    assert_eq!(cache.kernel_count(), 1);
    assert_eq!(cache.output_count(), 2);
    // With another offset the transaction does not balance.
    let off = tx.clone().with_offset(BlindingFactor(key(77).0));
    assert_eq!(
        off.validate(Weighting::AsTransaction, &mut cache),
        Err(TxError::KernelSumMismatch)
    );
    // Under a limit of its own it may be too heavy: it weighs 1 + 2 * 21 + 3.
    assert_eq!(
        tx.validate(Weighting::AsLimitedTransaction(24 + 45), &mut cache),
        Err(TxError::TooHeavy)
    );
    assert_eq!(
        tx.validate(Weighting::AsLimitedTransaction(24 + 46), &mut cache),
        Ok(())
    );
    assert_eq!(tx.validate(Weighting::NoLimit, &mut cache), Ok(()));
    // An overage that has no absolute value.
    assert_eq!(
        tx.body.verify_kernel_sums(i64::MIN, None, tx.offset),
        Err(CommittedError::InvalidValue)
    );
}

#[test]
fn offsets_that_cancel_have_no_sum() {
    // The offset that, added to the key 1, gives zero: the curve's order less that key.
    let order = secp256k1zkp::constants::CURVE_ORDER;
    let one = [1u8; 32];
    let mut negated = [0u8; 32];
    let mut borrow = 0i16;
    for i in (0..32).rev() {
        let d = order[i] as i16 - one[i] as i16 - borrow;
        if d < 0 {
            negated[i] = (d + 256) as u8;
            borrow = 1;
        } else {
            negated[i] = d as u8;
            borrow = 0;
        }
    }
    let t1 = Transaction::new(vec![], vec![], vec![], vec![]).with_offset(BlindingFactor(one));
    let t2 = Transaction::new(vec![], vec![], vec![], vec![]).with_offset(BlindingFactor(negated));
    assert_eq!(
        kepler_core::transaction::aggregate(vec![t1.clone(), t2.clone()]),
        Err(TxError::Committed(CommittedError::Secp(
            SecpError::InvalidSecretKey
        )))
    );
    // Built into a block on a header with the first offset, the second gives the same error.
    let mut prev = BlockHeader::default();
    prev.total_kernel_offset = BlindingFactor(one);
    let (out, kern) = reward_output(0, 1, 6);
    assert_eq!(
        Block::from_reward(&prev, vec![t2], out, kern, Difficulty::min()),
        Err(Error::Committed(CommittedError::Secp(
            SecpError::InvalidSecretKey
        )))
    );
    assert_eq!(
        Block::from_reward(&prev, vec![t1.clone(), t1], out, kern, Difficulty::min()).map(|b| b.header.height),
        Ok(1)
    );
}

#[test]
fn headers_from_hexadecimal_text() {
    let b = new_block(vec![], &BlockHeader::default(), 1);
    assert_eq!(
        BlockHeader::from_pre_pow_and_proof("0xaf1678".to_string(), 1, b.header.pow.proof),
        Err(Error::Serialization(SerError::UnexpectedEof))
    );
    assert_eq!(
        BlockHeader::from_pre_pow_and_proof("xyz".to_string(), 1, b.header.pow.proof),
        Err(Error::Serialization(SerError::HexError))
    );
    // A proof of an edge size that no proof has.
    let mut header_buf = vec![];
    b.header.write_pre_pow(&mut header_buf);
    b.header.pow.write_pre_pow(&mut header_buf);
    let mut odd = b.header.pow.proof;
    odd.edge_bits = 0;
    assert_eq!(
        BlockHeader::from_pre_pow_and_proof(to_hex(&header_buf), 1, odd),
        Err(Error::Serialization(SerError::CorruptedData))
    );
    // The whole of the first part is what a miner works on, less the nonce.
    let pre_pow = b.header.pre_pow();
    assert_eq!(&pre_pow[..pre_pow.len() - 8], &header_buf[..]);
}

#[test]
fn spending_a_coinbase_output_needs_maturity() {
    let maturity = kepler_core::consensus::COINBASE_MATURITY;
    // The reward of the block at height 1 is spent.
    let spent = Input {
        features: OutputFeatures::Coinbase,
        commit: commit(reward(1, 0), 1),
    };
    let plain = input(5, 2);
    let inputs = vec![plain, spent];
    let created_at = vec![1, 1];
    let check = kepler_core::transaction::verify_coinbase_maturity;
    // Right after its block the output has one confirmation.
    assert_eq!(check(&inputs, &created_at, 1), Err(TxError::ImmatureCoinbase));
    assert_eq!(
        check(&inputs, &created_at, maturity),
        Err(TxError::ImmatureCoinbase)
    );
    // With one confirmation more than the maturity the same inputs pass.
    assert_eq!(check(&inputs, &created_at, maturity + 1), Ok(()));
    assert_eq!(check(&inputs, &created_at, maturity + 500), Ok(()));
    // A plain output needs no maturity, and a coinbase output of unknown height has none.
    assert_eq!(check(&vec![plain], &vec![1], 1), Ok(()));
    assert_eq!(check(&inputs, &vec![1], u64::MAX), Err(TxError::ImmatureCoinbase));

    // The same for a block: the chain stands one below the block.
    let mut b = Block::with_header(BlockHeader::default());
    b.inputs_mut().push(spent);
    b.header.height = maturity + 1;
    assert_eq!(
        b.verify_coinbase_maturity(&vec![1]),
        Err(Error::Transaction(TxError::ImmatureCoinbase))
    );
    b.header.height = maturity + 2;
    assert_eq!(b.verify_coinbase_maturity(&vec![1]), Ok(()));
}

#[test]
fn a_block_of_the_reward_alone_keeps_the_totals() {
    let prev = BlockHeader::default();
    let b = new_block(vec![], &prev, 1);
    assert_eq!(b.header.total_kernel_offset, prev.total_kernel_offset);
    assert_eq!(b.header.total_kernel_offset, BlindingFactor::zero());
    assert_eq!(b.header.total_issue_overage, prev.total_issue_overage);
    assert_eq!(Block::default().header, prev);
    assert_eq!(Block::default().header.version.0, 1);
}
