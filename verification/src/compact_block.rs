//! Compact blocks: a block with most of its kernels replaced by short
//! identifiers, for relay.

use vstd::prelude::*;
use vstd::bytes::{
    spec_u64_from_le_bytes, spec_u64_to_le_bytes, u64_from_le_bytes, u64_to_le_bytes,
};
use crate::block::{Block, BlockHeader};
use crate::hash::{blake2b, siphash24, spec_blake2b, spec_siphash24};
use crate::pow::random_u64;
use crate::ser::{
    all_wf, be_u64, lemma_be_round_trip, lemma_be_round_trip_bytes, lemma_list_readable,
    lemma_ser_list_injective, list_read_err, list_read_len, read_array, read_list, read_u64,
    ser_list, u64_be, write_bytes, write_list, write_u64, SerError, Wire,
};
use crate::transaction::{KernelFeatures, Output, OutputFeatures, TxKernel};

verus! {

/// Length of a short identifier.
pub const SHORT_ID_LEN: usize = 6;

/// A short identifier of a kernel: six bytes of a keyed hash.
#[derive(Clone, Copy, Debug, PartialEq, Eq, Hash)]
pub struct ShortId(pub [u8; 6]);

impl Wire for ShortId {
    open spec fn wf(&self) -> bool {
        true
    }

    open spec fn ser(&self) -> Seq<u8> {
        self.0@
    }

    open spec fn read_err(s: Seq<u8>, pos: int) -> Option<SerError> {
        if pos + SHORT_ID_LEN > s.len() {
            Some(SerError::UnexpectedEof)
        } else {
            None
        }
    }

    open spec fn read_len(s: Seq<u8>, pos: int) -> int {
        SHORT_ID_LEN as int
    }

    fn write(&self, out: &mut Vec<u8>) {
        write_bytes(out, self.0.as_slice());
    }

    fn read(buf: &[u8], pos: usize) -> (r: Result<(Self, usize), SerError>) {
        match read_array::<6>(buf, pos) {
            Ok((bytes, p)) => Ok((ShortId(bytes), p)),
            Err(e) => Err(e),
        }
    }

    proof fn lemma_ser_injective(a: Self, b: Self) {
        assert(a.0 =~= b.0);
    }

    proof fn lemma_readable(x: Self, s: Seq<u8>, pos: int) {
    }
}

/// The hash from which the keys of the short identifiers of a block are
/// taken: that of the block's hash followed by the nonce.
pub open spec fn spec_short_id_key(block_hash: crate::hash::Hash, nonce: u64) -> crate::hash::Hash {
    spec_blake2b(block_hash.0@ + u64_be(nonce))
}

/// The bytes of a kernel's short identifier in a block: the first six
/// bytes, least significant first, of the keyed hash of the kernel's hash.
/// The two keys are the first sixteen bytes of the key hash.
pub open spec fn spec_short_id_bytes(
    kernel: TxKernel,
    block_hash: crate::hash::Hash,
    nonce: u64,
) -> Seq<u8> {
    let key = spec_short_id_key(block_hash, nonce).0@;
    let k0 = spec_u64_from_le_bytes(key.subrange(0, 8));
    let k1 = spec_u64_from_le_bytes(key.subrange(8, 16));
    spec_u64_to_le_bytes(spec_siphash24(k0, k1, spec_blake2b(kernel.ser()).0@)).subrange(0, 6)
}

impl TxKernel {
    /// The hash of the kernel: that of its encoding.
    pub fn hash(&self) -> (h: crate::hash::Hash)
        ensures
            h == spec_blake2b(self.ser()),
    {
        crate::hash::hash_of(self)
    }

    /// The short identifier of the kernel in the block with the given hash,
    /// under the given nonce.
    pub fn short_id(&self, block_hash: &crate::hash::Hash, nonce: u64) -> (id: ShortId)
        ensures
            id.0@ == spec_short_id_bytes(*self, *block_hash, nonce),
    {
        let mut seed: Vec<u8> = Vec::new();
        write_bytes(&mut seed, block_hash.0.as_slice());
        write_u64(&mut seed, nonce);
        assert(seed@ =~= block_hash.0@ + u64_be(nonce));
        let key = blake2b(seed.as_slice());
        let k0 = u64_from_le_bytes(vstd::slice::slice_subrange(key.0.as_slice(), 0, 8));
        let k1 = u64_from_le_bytes(vstd::slice::slice_subrange(key.0.as_slice(), 8, 16));
        let own = self.hash();
        let sip = siphash24(k0, k1, own.0.as_slice());
        let le = u64_to_le_bytes(sip);
        proof {
            vstd::bytes::lemma_auto_spec_u64_to_from_le_bytes();
        }
        let mut id = [0u8; 6];
        let mut i: usize = 0;
        while i < 6
            invariant
                i <= 6,
                le@.len() == 8,
                forall|j: int| 0 <= j < i ==> id@[j] == le@[j],
            decreases 6 - i,
        {
            id[i] = le[i];
            i += 1;
        }
        assert(id@ =~= le@.subrange(0, 6));
        ShortId(id)
    }
}

/// What a compact block holds besides the header and the nonce.
#[derive(Clone, Debug, PartialEq, Eq)]
pub struct CompactBlockBody {
    /// The coinbase outputs, in full.
    pub out_full: Vec<Output>,
    /// The coinbase kernels, in full.
    pub kern_full: Vec<TxKernel>,
    /// The short identifiers of the other kernels.
    pub kern_ids: Vec<ShortId>,
}

/// A block for relay: the header, the coinbase outputs and kernels, and the
/// short identifiers of the other kernels under a nonce.
#[derive(Clone, Debug, PartialEq, Eq)]
pub struct CompactBlock {
    pub header: BlockHeader,
    pub nonce: u64,
    pub body: CompactBlockBody,
}

/// The coinbase outputs of a list, in their order.
pub open spec fn spec_coinbase_outputs(outputs: Seq<Output>) -> Seq<Output> {
    outputs.filter(|o: Output| o.features == OutputFeatures::Coinbase)
}

/// The coinbase kernels of a list, in their order.
pub open spec fn spec_coinbase_kernels(kernels: Seq<TxKernel>) -> Seq<TxKernel> {
    kernels.filter(|k: TxKernel| k.features == KernelFeatures::Coinbase)
}

/// The kernels of a list that are no coinbase kernels, in their order.
pub open spec fn spec_plain_kernels(kernels: Seq<TxKernel>) -> Seq<TxKernel> {
    kernels.filter(|k: TxKernel| k.features != KernelFeatures::Coinbase)
}

/// The short identifiers of a list of kernels in a block.
pub open spec fn spec_short_ids(
    kernels: Seq<TxKernel>,
    block_hash: crate::hash::Hash,
    nonce: u64,
) -> Seq<Seq<u8>> {
    kernels.map_values(|k: TxKernel| spec_short_id_bytes(k, block_hash, nonce))
}

/// The bytes of a list of short identifiers.
pub open spec fn spec_id_bytes(ids: Seq<ShortId>) -> Seq<Seq<u8>> {
    ids.map_values(|id: ShortId| id.0@)
}

/// The coinbase outputs of a list, in their order.
pub fn coinbase_outputs(outputs: &Vec<Output>) -> (r: Vec<Output>)
    ensures
        r@ == spec_coinbase_outputs(outputs@),
{
    let ghost keep = |o: Output| o.features == OutputFeatures::Coinbase;
    let mut r: Vec<Output> = Vec::new();
    let n = outputs.len();
    let mut i: usize = 0;
    proof {
        reveal(Seq::filter);
        assert(outputs@.take(0).filter(keep) =~= Seq::<Output>::empty());
    }
    while i < n
        invariant
            n == outputs@.len(),
            i <= n,
            keep == |o: Output| o.features == OutputFeatures::Coinbase,
            r@ == outputs@.take(i as int).filter(keep),
        decreases n - i,
    {
        proof {
            assert(outputs@.take(i + 1) =~= outputs@.take(i as int).push(outputs@[i as int]));
            outputs@.take(i as int).lemma_filter_push(outputs@[i as int], keep);
        }
        if outputs[i].is_coinbase() {
            r.push(outputs[i]);
        }
        i += 1;
    }
    assert(outputs@.take(n as int) =~= outputs@);
    r
}

/// The coinbase kernels of a list, in their order.
pub fn coinbase_kernels(kernels: &Vec<TxKernel>) -> (r: Vec<TxKernel>)
    ensures
        r@ == spec_coinbase_kernels(kernels@),
{
    let ghost keep = |k: TxKernel| k.features == KernelFeatures::Coinbase;
    let mut r: Vec<TxKernel> = Vec::new();
    let n = kernels.len();
    let mut i: usize = 0;
    proof {
        reveal(Seq::filter);
        assert(kernels@.take(0).filter(keep) =~= Seq::<TxKernel>::empty());
    }
    while i < n
        invariant
            n == kernels@.len(),
            i <= n,
            keep == |k: TxKernel| k.features == KernelFeatures::Coinbase,
            r@ == kernels@.take(i as int).filter(keep),
        decreases n - i,
    {
        proof {
            assert(kernels@.take(i + 1) =~= kernels@.take(i as int).push(kernels@[i as int]));
            kernels@.take(i as int).lemma_filter_push(kernels@[i as int], keep);
        }
        if kernels[i].is_coinbase() {
            r.push(kernels[i]);
        }
        i += 1;
    }
    assert(kernels@.take(n as int) =~= kernels@);
    r
}

impl CompactBlock {
    /// The coinbase outputs, in full.
    pub fn out_full(&self) -> (r: &Vec<Output>)
        ensures
            *r == self.body.out_full,
    {
        &self.body.out_full
    }

    /// The coinbase kernels, in full.
    pub fn kern_full(&self) -> (r: &Vec<TxKernel>)
        ensures
            *r == self.body.kern_full,
    {
        &self.body.kern_full
    }

    /// The short identifiers of the other kernels.
    pub fn kern_ids(&self) -> (r: &Vec<ShortId>)
        ensures
            *r == self.body.kern_ids,
    {
        &self.body.kern_ids
    }

    /// The hash of the compact block: that of its header.
    pub fn hash(&self) -> (h: crate::hash::Hash)
        ensures
            h == self.header.spec_hash(),
    {
        self.header.hash()
    }

    /// Whether `self` is the compact form of `block` under `nonce`: the same
    /// header, the coinbase outputs and kernels in full, and for each other
    /// kernel, in order, its short identifier.
    pub open spec fn spec_is_compact_of(&self, block: &Block, nonce: u64) -> bool {
        &&& self.header == block.header
        &&& self.nonce == nonce
        &&& self.body.out_full@ == spec_coinbase_outputs(block.body.outputs@)
        &&& self.body.kern_full@ == spec_coinbase_kernels(block.body.kernels@)
        &&& spec_id_bytes(self.body.kern_ids@) == spec_short_ids(
            spec_plain_kernels(block.body.kernels@),
            block.header.spec_hash(),
            nonce,
        )
    }

    /// The compact form of a block under a given nonce.
    #[verifier::rlimit(40)]
    pub fn compact(block: &Block, nonce: u64) -> (cb: CompactBlock)
        ensures
            cb.spec_is_compact_of(block, nonce),
    {
        let header = block.header;
        let hash = header.hash();
        let out_full = coinbase_outputs(&block.body.outputs);
        let kern_full = coinbase_kernels(&block.body.kernels);
        let ghost keep = |k: TxKernel| k.features != KernelFeatures::Coinbase;
        let ghost kernels = block.body.kernels@;
        let mut kern_ids: Vec<ShortId> = Vec::new();
        let n = block.body.kernels.len();
        let mut i: usize = 0;
        proof {
            reveal(Seq::filter);
            assert(kernels.take(0).filter(keep) =~= Seq::<TxKernel>::empty());
            assert(spec_id_bytes(kern_ids@) =~= spec_short_ids(
                kernels.take(0).filter(keep),
                hash,
                nonce,
            ));
        }
        while i < n
            invariant
                n == kernels.len(),
                kernels == block.body.kernels@,
                i <= n,
                keep == |k: TxKernel| k.features != KernelFeatures::Coinbase,
                spec_id_bytes(kern_ids@) == spec_short_ids(
                    kernels.take(i as int).filter(keep),
                    hash,
                    nonce,
                ),
            decreases n - i,
        {
            proof {
                assert(kernels.take(i + 1) =~= kernels.take(i as int).push(kernels[i as int]));
                kernels.take(i as int).lemma_filter_push(kernels[i as int], keep);
            }
            if !block.body.kernels[i].is_coinbase() {
                let id = block.body.kernels[i].short_id(&hash, nonce);
                let ghost before = kern_ids@;
                kern_ids.push(id);
                assert(spec_id_bytes(kern_ids@) =~= spec_id_bytes(before).push(id.0@));
                assert(spec_short_ids(kernels.take(i + 1).filter(keep), hash, nonce)
                    =~= spec_short_ids(kernels.take(i as int).filter(keep), hash, nonce).push(
                    spec_short_id_bytes(kernels[i as int], hash, nonce),
                ));
            }
            i += 1;
        }
        assert(kernels.take(n as int) =~= kernels);
        CompactBlock { header, nonce, body: CompactBlockBody { out_full, kern_full, kern_ids } }
    }

    /// The compact form of a block under a nonce chosen by chance.
    pub fn from_block(block: &Block) -> (cb: CompactBlock)
        ensures
            cb.spec_is_compact_of(block, cb.nonce),
    {
        let nonce = random_u64();
        CompactBlock::compact(block, nonce)
    }

    /// Whether the header and every item of the compact block are such as
    /// reading gives.
    pub open spec fn wf(&self) -> bool {
        &&& self.header.wf()
        &&& all_wf(self.body.out_full@)
        &&& all_wf(self.body.kern_full@)
        &&& all_wf(self.body.kern_ids@)
    }

    /// The encoding of the compact block: the header, the coinbase outputs
    /// and the coinbase kernels, each list after its count, the nonce, and
    /// the short identifiers after their count.
    pub open spec fn ser(&self) -> Seq<u8> {
        self.header.ser() + u64_be(self.body.out_full@.len() as u64) + ser_list(
            self.body.out_full@,
        ) + u64_be(self.body.kern_full@.len() as u64) + ser_list(self.body.kern_full@) + u64_be(
            self.nonce,
        ) + u64_be(self.body.kern_ids@.len() as u64) + ser_list(self.body.kern_ids@)
    }

    /// Appends the encoding of the compact block.
    #[verifier::rlimit(40)]
    pub fn write(&self, out: &mut Vec<u8>)
        ensures
            final(out)@ == old(out)@ + self.ser(),
    {
        let ghost start = out@;
        self.header.write(out);
        write_u64(out, self.body.out_full.len() as u64);
        let ghost a1 = self.header.ser() + u64_be(self.body.out_full@.len() as u64);
        assert(out@ =~= start + a1);
        write_list(out, &self.body.out_full);
        let ghost a2 = a1 + ser_list(self.body.out_full@);
        assert(out@ =~= start + a2);
        write_u64(out, self.body.kern_full.len() as u64);
        let ghost a3 = a2 + u64_be(self.body.kern_full@.len() as u64);
        assert(out@ =~= start + a3);
        write_list(out, &self.body.kern_full);
        let ghost a4 = a3 + ser_list(self.body.kern_full@);
        assert(out@ =~= start + a4);
        write_u64(out, self.nonce);
        let ghost a5 = a4 + u64_be(self.nonce);
        assert(out@ =~= start + a5);
        write_u64(out, self.body.kern_ids.len() as u64);
        let ghost a6 = a5 + u64_be(self.body.kern_ids@.len() as u64);
        assert(out@ =~= start + a6);
        write_list(out, &self.body.kern_ids);
        let ghost a7 = a6 + ser_list(self.body.kern_ids@);
        assert(out@ =~= start + a7);
        assert(self.ser() == a7);
    }

    /// Reads a compact block at `pos`; gives it with the position that
    /// follows it.
    #[verifier::rlimit(80)]
    #[verifier::spinoff_prover]
    pub fn read(buf: &[u8], pos: usize) -> (r: Result<(CompactBlock, usize), SerError>)
        ensures
            match r {
                Ok((cb, p)) => {
                    &&& spec_compact_read_err(buf@, pos as int) is None
                    &&& p == spec_ids_at(buf@, pos as int) + list_read_len::<ShortId>(
                        buf@,
                        spec_ids_at(buf@, pos as int),
                        spec_count_at(buf@, spec_ids_at(buf@, pos as int) - 8) as nat,
                    )
                    &&& pos <= p <= buf@.len()
                    &&& cb.wf()
                    &&& cb.ser() == buf@.subrange(pos as int, p as int)
                },
                Err(e) => spec_compact_read_err(buf@, pos as int) == Some(e),
            },
    {
        let (header, p1) = match BlockHeader::read(buf, pos) {
            Ok(v) => v,
            Err(e) => { return Err(e); },
        };
        let (n_out, p2) = match read_u64(buf, p1) {
            Ok(v) => v,
            Err(e) => { return Err(e); },
        };
        if n_out > usize::MAX as u64 {
            return Err(SerError::TooLargeRead);
        }
        let (out_full, p3) = match read_list::<Output>(buf, p2, n_out as usize) {
            Ok(v) => v,
            Err(e) => { return Err(e); },
        };
        let (n_kern, p4) = match read_u64(buf, p3) {
            Ok(v) => v,
            Err(e) => { return Err(e); },
        };
        if n_kern > usize::MAX as u64 {
            return Err(SerError::TooLargeRead);
        }
        let (kern_full, p5) = match read_list::<TxKernel>(buf, p4, n_kern as usize) {
            Ok(v) => v,
            Err(e) => { return Err(e); },
        };
        let (nonce, p6) = match read_u64(buf, p5) {
            Ok(v) => v,
            Err(e) => { return Err(e); },
        };
        let (n_ids, p7) = match read_u64(buf, p6) {
            Ok(v) => v,
            Err(e) => { return Err(e); },
        };
        if n_ids > usize::MAX as u64 {
            return Err(SerError::TooLargeRead);
        }
        let (kern_ids, p8) = match read_list::<ShortId>(buf, p7, n_ids as usize) {
            Ok(v) => v,
            Err(e) => { return Err(e); },
        };
        let cb = CompactBlock { header, nonce, body: CompactBlockBody { out_full, kern_full, kern_ids } };
        proof {
            lemma_be_round_trip_bytes();
            let s = buf@;
            assert(p2 == spec_out_full_at(s, pos as int));
            assert(p4 == spec_kern_full_at(s, pos as int));
            assert(p7 == spec_ids_at(s, pos as int));
            let a1 = header.ser() + u64_be(out_full@.len() as u64);
            assert(a1 =~= s.subrange(pos as int, p2 as int));
            let a2 = a1 + ser_list(out_full@);
            assert(a2 =~= s.subrange(pos as int, p3 as int));
            let a3 = a2 + u64_be(kern_full@.len() as u64);
            assert(a3 =~= s.subrange(pos as int, p4 as int));
            let a4 = a3 + ser_list(kern_full@);
            assert(a4 =~= s.subrange(pos as int, p5 as int));
            let a5 = a4 + u64_be(nonce);
            assert(a5 =~= s.subrange(pos as int, p6 as int));
            let a6 = a5 + u64_be(kern_ids@.len() as u64);
            assert(a6 =~= s.subrange(pos as int, p7 as int));
            let a7 = a6 + ser_list(kern_ids@);
            assert(a7 =~= s.subrange(pos as int, p8 as int));
            assert(cb.ser() == a7);
        }
        Ok((cb, p8))
    }
}

/// The count that stands at `pos`.
pub open spec fn spec_count_at(s: Seq<u8>, pos: int) -> u64 {
    be_u64(s.subrange(pos, pos + 8))
}

/// Why no count of items that this machine can hold stands at `pos`, or
/// `None` when one does.
pub open spec fn spec_count_err(s: Seq<u8>, pos: int) -> Option<SerError> {
    if pos + 8 > s.len() {
        Some(SerError::UnexpectedEof)
    } else if spec_count_at(s, pos) > usize::MAX {
        Some(SerError::TooLargeRead)
    } else {
        None
    }
}

/// Where the coinbase outputs of an encoded compact block start.
pub open spec fn spec_out_full_at(s: Seq<u8>, pos: int) -> int {
    pos + BlockHeader::read_len(s, pos) + 8
}

/// Where the coinbase kernels of an encoded compact block start.
pub open spec fn spec_kern_full_at(s: Seq<u8>, pos: int) -> int {
    spec_out_full_at(s, pos) + list_read_len::<Output>(
        s,
        spec_out_full_at(s, pos),
        spec_count_at(s, spec_out_full_at(s, pos) - 8) as nat,
    ) + 8
}

/// Where the short identifiers of an encoded compact block start.
pub open spec fn spec_ids_at(s: Seq<u8>, pos: int) -> int {
    spec_kern_full_at(s, pos) + list_read_len::<TxKernel>(
        s,
        spec_kern_full_at(s, pos),
        spec_count_at(s, spec_kern_full_at(s, pos) - 8) as nat,
    ) + 16
}

/// Why no compact block can be read at `pos`, or `None` when one can.
pub open spec fn spec_compact_read_err(s: Seq<u8>, pos: int) -> Option<SerError> {
    if BlockHeader::read_err(s, pos) is Some {
        BlockHeader::read_err(s, pos)
    } else if spec_count_err(s, spec_out_full_at(s, pos) - 8) is Some {
        spec_count_err(s, spec_out_full_at(s, pos) - 8)
    } else if list_read_err::<Output>(
        s,
        spec_out_full_at(s, pos),
        spec_count_at(s, spec_out_full_at(s, pos) - 8) as nat,
    ) is Some {
        list_read_err::<Output>(
            s,
            spec_out_full_at(s, pos),
            spec_count_at(s, spec_out_full_at(s, pos) - 8) as nat,
        )
    } else if spec_count_err(s, spec_kern_full_at(s, pos) - 8) is Some {
        spec_count_err(s, spec_kern_full_at(s, pos) - 8)
    } else if list_read_err::<TxKernel>(
        s,
        spec_kern_full_at(s, pos),
        spec_count_at(s, spec_kern_full_at(s, pos) - 8) as nat,
    ) is Some {
        list_read_err::<TxKernel>(
            s,
            spec_kern_full_at(s, pos),
            spec_count_at(s, spec_kern_full_at(s, pos) - 8) as nat,
        )
    } else if spec_ids_at(s, pos) - 8 > s.len() {
        // The nonce stands before the count of the short identifiers.
        Some(SerError::UnexpectedEof)
    } else if spec_count_err(s, spec_ids_at(s, pos) - 8) is Some {
        spec_count_err(s, spec_ids_at(s, pos) - 8)
    } else {
        list_read_err::<ShortId>(
            s,
            spec_ids_at(s, pos),
            spec_count_at(s, spec_ids_at(s, pos) - 8) as nat,
        )
    }
}

impl CompactBlock {
    /// Where the count of the coinbase outputs starts in the encoding.
    pub open spec fn spec_header_end(&self) -> int {
        self.header.ser().len() as int
    }

    /// Where the count of the coinbase kernels starts in the encoding.
    pub open spec fn spec_out_full_end(&self) -> int {
        self.spec_header_end() + 8 + ser_list(self.body.out_full@).len()
    }

    /// Where the nonce starts in the encoding.
    pub open spec fn spec_kern_full_end(&self) -> int {
        self.spec_out_full_end() + 8 + ser_list(self.body.kern_full@).len()
    }
}

/// Where each part of a compact block stands in its encoding.
#[verifier::rlimit(60)]
pub proof fn lemma_compact_parts(cb: CompactBlock)
    ensures
        cb.ser().len() == cb.spec_kern_full_end() + 16 + ser_list(cb.body.kern_ids@).len(),
        cb.ser().subrange(0, cb.spec_header_end()) == cb.header.ser(),
        cb.ser().subrange(cb.spec_header_end(), cb.spec_header_end() + 8) == u64_be(
            cb.body.out_full@.len() as u64,
        ),
        cb.ser().subrange(cb.spec_header_end() + 8, cb.spec_out_full_end()) == ser_list(
            cb.body.out_full@,
        ),
        cb.ser().subrange(cb.spec_out_full_end(), cb.spec_out_full_end() + 8) == u64_be(
            cb.body.kern_full@.len() as u64,
        ),
        cb.ser().subrange(cb.spec_out_full_end() + 8, cb.spec_kern_full_end()) == ser_list(
            cb.body.kern_full@,
        ),
        cb.ser().subrange(cb.spec_kern_full_end(), cb.spec_kern_full_end() + 8) == u64_be(cb.nonce),
        cb.ser().subrange(cb.spec_kern_full_end() + 8, cb.spec_kern_full_end() + 16) == u64_be(
            cb.body.kern_ids@.len() as u64,
        ),
        cb.ser().subrange(cb.spec_kern_full_end() + 16, cb.ser().len() as int) == ser_list(
            cb.body.kern_ids@,
        ),
{
    lemma_be_round_trip();
    let s = cb.ser();
    let h = cb.header.ser().len() as int;
    let e1 = cb.spec_out_full_end();
    let e2 = cb.spec_kern_full_end();
    let a1 = cb.header.ser() + u64_be(cb.body.out_full@.len() as u64);
    let a2 = a1 + ser_list(cb.body.out_full@);
    let a3 = a2 + u64_be(cb.body.kern_full@.len() as u64);
    let a4 = a3 + ser_list(cb.body.kern_full@);
    let a5 = a4 + u64_be(cb.nonce);
    let a6 = a5 + u64_be(cb.body.kern_ids@.len() as u64);
    let a7 = a6 + ser_list(cb.body.kern_ids@);
    assert(s == a7);
    assert(a7.subrange(0, a6.len() as int) =~= a6);
    assert(a6.subrange(0, a5.len() as int) =~= a5);
    assert(a5.subrange(0, a4.len() as int) =~= a4);
    assert(a4.subrange(0, a3.len() as int) =~= a3);
    assert(a3.subrange(0, a2.len() as int) =~= a2);
    assert(a2.subrange(0, a1.len() as int) =~= a1);
    assert(s.subrange(0, h) =~= cb.header.ser());
    assert(s.subrange(h, h + 8) =~= u64_be(cb.body.out_full@.len() as u64));
    assert(s.subrange(h + 8, e1) =~= ser_list(cb.body.out_full@));
    assert(s.subrange(e1, e1 + 8) =~= u64_be(cb.body.kern_full@.len() as u64));
    assert(s.subrange(e1 + 8, e2) =~= ser_list(cb.body.kern_full@));
    assert(s.subrange(e2, e2 + 8) =~= u64_be(cb.nonce));
    assert(s.subrange(e2 + 8, e2 + 16) =~= u64_be(cb.body.kern_ids@.len() as u64));
    assert(s.subrange(e2 + 16, s.len() as int) =~= ser_list(cb.body.kern_ids@));
}

/// Two well-formed compact blocks with the same encoding hold the same
/// header, nonce and items.
#[verifier::rlimit(60)]
pub proof fn lemma_compact_ser_injective(a: CompactBlock, b: CompactBlock)
    requires
        a.wf(),
        b.wf(),
        a.ser() == b.ser(),
    ensures
        a.header == b.header,
        a.nonce == b.nonce,
        a.body.out_full@ == b.body.out_full@,
        a.body.kern_full@ == b.body.kern_full@,
        a.body.kern_ids@ == b.body.kern_ids@,
{
    lemma_be_round_trip();
    lemma_compact_parts(a);
    lemma_compact_parts(b);
    let s = a.ser();
    BlockHeader::lemma_readable(a.header, s, 0);
    BlockHeader::lemma_readable(b.header, s, 0);
    BlockHeader::lemma_ser_injective(a.header, b.header);
    let h = a.header.ser().len() as int;
    assert(a.body.out_full.len() == b.body.out_full.len());
    lemma_list_readable::<Output>(a.body.out_full@, s, h + 8);
    lemma_list_readable::<Output>(b.body.out_full@, s, h + 8);
    lemma_ser_list_injective::<Output>(a.body.out_full@, b.body.out_full@);
    let e1 = a.spec_out_full_end();
    assert(a.body.kern_full.len() == b.body.kern_full.len());
    lemma_list_readable::<TxKernel>(a.body.kern_full@, s, e1 + 8);
    lemma_list_readable::<TxKernel>(b.body.kern_full@, s, e1 + 8);
    lemma_ser_list_injective::<TxKernel>(a.body.kern_full@, b.body.kern_full@);
    assert(a.body.kern_ids.len() == b.body.kern_ids.len());
    lemma_ser_list_injective::<ShortId>(a.body.kern_ids@, b.body.kern_ids@);
}

/// Reading a compact block that was written gives it back: where the
/// encoding of a well-formed compact block stands in a buffer, one can be
/// read there, and it takes the length of the encoding.
#[verifier::rlimit(60)]
pub proof fn lemma_compact_readable(cb: CompactBlock, s: Seq<u8>, pos: int)
    requires
        cb.wf(),
        0 <= pos,
        pos + cb.ser().len() <= s.len(),
        s.subrange(pos, pos + cb.ser().len()) == cb.ser(),
    ensures
        spec_compact_read_err(s, pos) is None,
        spec_ids_at(s, pos) + list_read_len::<ShortId>(
            s,
            spec_ids_at(s, pos),
            spec_count_at(s, spec_ids_at(s, pos) - 8) as nat,
        ) == pos + cb.ser().len(),
{
    lemma_be_round_trip();
    lemma_compact_parts(cb);
    let e = cb.ser();
    let whole = s.subrange(pos, pos + e.len());
    let h = cb.header.ser().len() as int;
    let e1 = cb.spec_out_full_end();
    let e2 = cb.spec_kern_full_end();
    assert(s.subrange(pos, pos + h) =~= whole.subrange(0, h));
    BlockHeader::lemma_readable(cb.header, s, pos);
    assert(s.subrange(pos + h, pos + h + 8) =~= whole.subrange(h, h + 8));
    assert(spec_count_at(s, pos + h) == cb.body.out_full.len());
    assert(s.subrange(pos + h + 8, pos + e1) =~= whole.subrange(h + 8, e1));
    lemma_list_readable::<Output>(cb.body.out_full@, s, pos + h + 8);
    assert(s.subrange(pos + e1, pos + e1 + 8) =~= whole.subrange(e1, e1 + 8));
    assert(spec_count_at(s, pos + e1) == cb.body.kern_full.len());
    assert(s.subrange(pos + e1 + 8, pos + e2) =~= whole.subrange(e1 + 8, e2));
    lemma_list_readable::<TxKernel>(cb.body.kern_full@, s, pos + e1 + 8);
    assert(s.subrange(pos + e2 + 8, pos + e2 + 16) =~= whole.subrange(e2 + 8, e2 + 16));
    assert(spec_count_at(s, pos + e2 + 8) == cb.body.kern_ids.len());
    assert(s.subrange(pos + e2 + 16, pos + e.len()) =~= whole.subrange(e2 + 16, e.len() as int));
    lemma_list_readable::<ShortId>(cb.body.kern_ids@, s, pos + e2 + 16);
}

} // verus!
