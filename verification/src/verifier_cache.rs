//! A cache of what has been verified.
//!
//! The cache remembers kernels whose signature and outputs whose range proof
//! were found right, so that they need not be verified again. It is never
//! asked whether something is wrong, and what validation answers does not
//! depend on what the cache holds.

use vstd::prelude::*;
use crate::ser::Identity;
use crate::transaction::{spec_kernel_verify, spec_output_verify, Output, TxKernel};

verus! {

/// How many kernels, and how many outputs, the cache holds at most.
pub const CACHE_CAPACITY: usize = 50_000;

/// Kernels and outputs that were verified.
#[derive(Clone, Debug)]
pub struct VerifierCache {
    kernels: Vec<TxKernel>,
    outputs: Vec<Output>,
}

impl VerifierCache {
    /// Whether everything in the cache does verify, and the cache is no
    /// larger than it may be.
    pub closed spec fn wf(&self) -> bool {
        &&& self.kernels@.len() <= CACHE_CAPACITY
        &&& self.outputs@.len() <= CACHE_CAPACITY
        &&& forall|i: int|
            0 <= i < self.kernels@.len() ==> spec_kernel_verify(#[trigger] self.kernels@[i]) is Ok
        &&& forall|i: int|
            0 <= i < self.outputs@.len() ==> spec_output_verify(#[trigger] self.outputs@[i]) is Ok
    }

    /// The kernels that the cache holds.
    pub closed spec fn spec_kernels(&self) -> Seq<TxKernel> {
        self.kernels@
    }

    /// The outputs that the cache holds.
    pub closed spec fn spec_outputs(&self) -> Seq<Output> {
        self.outputs@
    }

    /// An empty cache.
    pub fn new() -> (c: VerifierCache)
        ensures
            c.wf(),
            c.spec_kernels().len() == 0,
            c.spec_outputs().len() == 0,
    {
        VerifierCache { kernels: Vec::new(), outputs: Vec::new() }
    }

    /// How many kernels the cache holds.
    pub fn kernel_count(&self) -> (n: usize)
        ensures
            n == self.spec_kernels().len(),
    {
        self.kernels.len()
    }

    /// How many outputs the cache holds.
    pub fn output_count(&self) -> (n: usize)
        ensures
            n == self.spec_outputs().len(),
    {
        self.outputs.len()
    }

    /// Tells whether the cache holds the kernel. A kernel that it holds
    /// does verify.
    pub fn is_kernel_sig_verified(&self, k: &TxKernel) -> (r: bool)
        requires
            self.wf(),
        ensures
            r == self.spec_kernels().contains(*k),
            r ==> spec_kernel_verify(*k) is Ok,
    {
        let n = self.kernels.len();
        let mut i: usize = 0;
        while i < n
            invariant
                n == self.kernels@.len(),
                i <= n,
                self.wf(),
                forall|j: int| 0 <= j < i ==> self.kernels@[j] != *k,
            decreases n - i,
        {
            if self.kernels[i].is_same(k) {
                assert(self.kernels@[i as int] == *k);
                return true;
            }
            i += 1;
        }
        false
    }

    /// Tells whether the cache holds the output. An output that it holds
    /// has a range proof that verifies.
    pub fn is_rangeproof_verified(&self, o: &Output) -> (r: bool)
        requires
            self.wf(),
        ensures
            r == self.spec_outputs().contains(*o),
            r ==> spec_output_verify(*o) is Ok,
    {
        let n = self.outputs.len();
        let mut i: usize = 0;
        while i < n
            invariant
                n == self.outputs@.len(),
                i <= n,
                self.wf(),
                forall|j: int| 0 <= j < i ==> self.outputs@[j] != *o,
            decreases n - i,
        {
            if self.outputs[i].same(o) {
                assert(self.outputs@[i as int] == *o);
                return true;
            }
            i += 1;
        }
        false
    }

    /// Remembers a kernel whose signature verifies. A full cache forgets
    /// the kernel that it has held longest.
    pub fn add_kernel_sig_verified(&mut self, k: TxKernel)
        requires
            old(self).wf(),
            spec_kernel_verify(k) is Ok,
        ensures
            final(self).wf(),
            final(self).spec_kernels() == (if old(self).spec_kernels().len() >= CACHE_CAPACITY {
                old(self).spec_kernels().skip(1)
            } else {
                old(self).spec_kernels()
            }).push(k),
            final(self).spec_outputs() == old(self).spec_outputs(),
    {
        if self.kernels.len() >= CACHE_CAPACITY {
            let ghost before = self.kernels@;
            self.kernels.remove(0);
            assert(self.kernels@ =~= before.skip(1));
            assert forall|i: int| 0 <= i < self.kernels@.len() implies spec_kernel_verify(
                #[trigger] self.kernels@[i],
            ) is Ok by {
                assert(self.kernels@[i] == before[i + 1]);
            }
        }
        self.kernels.push(k);
    }

    /// Remembers an output whose range proof verifies. A full cache forgets
    /// the output that it has held longest.
    pub fn add_rangeproof_verified(&mut self, o: Output)
        requires
            old(self).wf(),
            spec_output_verify(o) is Ok,
        ensures
            final(self).wf(),
            final(self).spec_outputs() == (if old(self).spec_outputs().len() >= CACHE_CAPACITY {
                old(self).spec_outputs().skip(1)
            } else {
                old(self).spec_outputs()
            }).push(o),
            final(self).spec_kernels() == old(self).spec_kernels(),
    {
        if self.outputs.len() >= CACHE_CAPACITY {
            let ghost before = self.outputs@;
            self.outputs.remove(0);
            assert(self.outputs@ =~= before.skip(1));
            assert forall|i: int| 0 <= i < self.outputs@.len() implies spec_output_verify(
                #[trigger] self.outputs@[i],
            ) is Ok by {
                assert(self.outputs@[i] == before[i + 1]);
            }
        }
        self.outputs.push(o);
    }
}

} // verus!
