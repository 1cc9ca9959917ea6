//! Allocation of the DMA memory that backs a descriptor ring.
use vstd::prelude::*;
use crate::mem::allocator::{AllocError, DmaBufAllocator};
use crate::mem::page::DmaBuf;
use crate::ring::desc_ring::DESC_SIZE;
use crate::ring::ring_ptr::{RingPtr, ring_size, valid_ring_exp, lemma_ring_size_facts};

verus! {

/// Bytes of DMA memory that a ring of `2^BUF_SIZE_EXP` descriptors needs.
pub fn desc_ring_bytes<const BUF_SIZE_EXP: u32>() -> (n: usize)
    requires
        valid_ring_exp(BUF_SIZE_EXP),
        ring_size(BUF_SIZE_EXP) * DESC_SIZE <= usize::MAX,
    ensures
        n == ring_size(BUF_SIZE_EXP) * DESC_SIZE,
{
    proof {
        lemma_ring_size_facts(BUF_SIZE_EXP);
    }
    let n = RingPtr::<BUF_SIZE_EXP>::buf_size() as usize;
    n * DESC_SIZE
}

/// Allocates the DMA memory of descriptor rings from a DMA buffer
/// allocator that it borrows.
pub struct DefaultDescRingBufAllocator<'a, A> {
    dma_buf_allocator: &'a mut A,
}

impl<'a, A: DmaBufAllocator> DefaultDescRingBufAllocator<'a, A> {
    /// The borrowed allocator, as it currently is.
    pub closed spec fn allocator(&self) -> A {
        *self.dma_buf_allocator
    }

    /// Wraps `dma_buf_allocator`.
    pub fn new(dma_buf_allocator: &'a mut A) -> (r: Self)
        ensures
            r.allocator() == *old(dma_buf_allocator),
    {
        Self { dma_buf_allocator }
    }

    /// Allocates the DMA memory for a ring of `2^BUF_SIZE_EXP` descriptors,
    /// asking the borrowed allocator for `desc_ring_bytes::<BUF_SIZE_EXP>()`
    /// bytes; the result and the allocator's new state are what that
    /// allocation gives.
    pub fn alloc_for_spec<const BUF_SIZE_EXP: u32>(&mut self) -> (r: Result<DmaBuf, AllocError>)
        requires
            valid_ring_exp(BUF_SIZE_EXP),
            ring_size(BUF_SIZE_EXP) * DESC_SIZE <= usize::MAX,
        ensures
            A::alloc_post(
                old(self).allocator(),
                (ring_size(BUF_SIZE_EXP) * DESC_SIZE) as usize,
                final(self).allocator(),
                r,
            ),
            r matches Ok(b) ==> b.spec_len() >= ring_size(BUF_SIZE_EXP) * DESC_SIZE,
    {
        let len = desc_ring_bytes::<BUF_SIZE_EXP>();
        self.dma_buf_allocator.alloc_buf(len)
    }
}

} // verus!
