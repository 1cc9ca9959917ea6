//! Bookkeeping of the u-dma-buf allocator: buffers are carved one after
//! the other from the device memory, from its start on.
use vstd::prelude::*;
use crate::mem::allocator::AllocError;

verus! {

/// How much of the device memory has been handed out.
pub struct UDmaBufCursor {
    offset: usize,
}

impl UDmaBufCursor {
    /// Bytes handed out so far: the next buffer starts there.
    pub closed spec fn spec_offset(&self) -> usize {
        self.offset
    }

    /// Nothing handed out yet.
    pub fn new() -> (c: Self)
        ensures
            c.spec_offset() == 0,
    {
        UDmaBufCursor { offset: 0 }
    }

    /// Offset of the next buffer in the device memory.
    pub fn offset(&self) -> (o: usize)
        ensures
            o == self.spec_offset(),
    {
        self.offset
    }

    /// Whether a buffer of `len` more bytes fits in device memory of
    /// `size_total` bytes; `OutOfMemory` when it does not.
    pub fn check_fits(&self, len: usize, size_total: usize) -> (r: Result<(), AllocError>)
        ensures
            r is Ok <==> self.spec_offset() + len <= size_total,
            r is Err ==> r == Err::<(), AllocError>(AllocError::OutOfMemory),
    {
        match self.offset.checked_add(len) {
            None => Err(AllocError::OutOfMemory),
            Some(x) => {
                if x > size_total {
                    Err(AllocError::OutOfMemory)
                } else {
                    Ok(())
                }
            },
        }
    }

    /// Physical address of the next buffer, given that of the device
    /// memory.
    pub fn next_phys_addr(&self, phys_base: u64) -> (a: u64)
        requires
            phys_base + self.spec_offset() <= u64::MAX,
        ensures
            a == phys_base + self.spec_offset(),
    {
        phys_base + self.offset as u64
    }

    /// Records that a buffer of `len` bytes was handed out.
    pub fn advance(&mut self, len: usize)
        requires
            old(self).spec_offset() + len <= usize::MAX,
        ensures
            final(self).spec_offset() == old(self).spec_offset() + len,
    {
        self.offset = self.offset + len;
    }
}

} // verus!
