//! Allocators of DMA buffers.
use vstd::prelude::*;
use crate::mem::page::{DmaBuf, PAGE_SIZE};

verus! {

/// Why an allocation failed.
#[derive(Clone, Copy, Debug, PartialEq, Eq, Structural)]
pub enum AllocError {
    /// Not enough memory is left.
    OutOfMemory,
    /// The request exceeds what one allocation of this allocator provides.
    TooLarge,
    /// The memory could not be mapped.
    MapFailed,
    /// A device attribute could not be read or understood.
    InvalidData,
}

/// Something that hands out DMA buffers.
pub trait DmaBufAllocator: Sized {
    /// Allocating `len` bytes from an allocator in state `before` may leave
    /// it in state `after` and give `r`. An allocator that does not define
    /// it promises nothing of its allocations.
    open spec fn alloc_post(before: Self, len: usize, after: Self, r: Result<DmaBuf, AllocError>) -> bool {
        true
    }

    /// Allocates a DMA buffer of at least `len` bytes.
    fn alloc_buf(&mut self, len: usize) -> (r: Result<DmaBuf, AllocError>)
        ensures
            Self::alloc_post(*old(self), len, *final(self), r),
            r matches Ok(b) ==> b.spec_len() >= len,
    ;
}

/// Base addresses of the pages of a region of `size` bytes at `base`: one
/// page every `PAGE_SIZE` bytes from the start of the region, the last one
/// starting before its end.
pub open spec fn region_pages(base: u64, size: usize) -> Seq<u64> {
    Seq::new(
        ((size + PAGE_SIZE - 1) / (PAGE_SIZE as int)) as nat,
        |i: int| (base + i * PAGE_SIZE) as u64,
    )
}

/// The pages of a region tile it from its start: page `k` starts `k` whole
/// pages after `base`, so inside the region, and there are just enough of
/// them to cover its `size` bytes.
pub proof fn law_region_pages_tile_region(base: u64, size: usize)
    requires
        base + size <= u64::MAX,
    ensures
        region_pages(base, size).len() * PAGE_SIZE >= size,
        region_pages(base, size).len() == 0 || (region_pages(base, size).len() - 1) * PAGE_SIZE
            < size,
        forall|k: int|
            0 <= k < region_pages(base, size).len() ==> {
                &&& #[trigger] region_pages(base, size)[k] == base + k * PAGE_SIZE
                &&& base <= region_pages(base, size)[k] < base + size
            },
{
    let count = region_pages(base, size).len();
    assert(count == (size + PAGE_SIZE - 1) / (PAGE_SIZE as int));
    assert(count * PAGE_SIZE >= size && (count == 0 || (count - 1) * PAGE_SIZE < size))
        by (nonlinear_arith)
        requires
            count == (size + PAGE_SIZE - 1) / (PAGE_SIZE as int),
            PAGE_SIZE == 0x20_0000,
    ;
    assert forall|k: int| 0 <= k < count implies {
        &&& #[trigger] region_pages(base, size)[k] == base + k * PAGE_SIZE
        &&& base <= region_pages(base, size)[k] < base + size
    } by {
        assert(k * PAGE_SIZE <= (count - 1) * PAGE_SIZE) by (nonlinear_arith)
            requires
                0 <= k < count,
        ;
    }
}

/// Allocator of single pages carved out of one pre-mapped region of memory,
/// where a page's physical address is taken to be its virtual address.
pub struct EmulatedPageAllocator<const N: usize> {
    inner: Vec<u64>,
}

impl<const N: usize> EmulatedPageAllocator<N> {
    /// Base addresses of the pages still available; the last one is handed
    /// out first.
    pub closed spec fn pages(&self) -> Seq<u64> {
        self.inner@
    }

    /// An allocator over the region of `size` bytes mapped at `base`.
    pub fn from_region(base: u64, size: usize) -> (a: Self)
        requires
            base + size <= u64::MAX,
        ensures
            a.pages() == region_pages(base, size),
            a.pages().len() * PAGE_SIZE >= size,
            a.pages().len() == 0 || (a.pages().len() - 1) * PAGE_SIZE < size,
            forall|k: int|
                0 <= k < a.pages().len() ==> #[trigger] a.pages()[k] == base + k * PAGE_SIZE,
    {
        proof {
            law_region_pages_tile_region(base, size);
        }
        let count: usize = if size % PAGE_SIZE == 0 {
            size / PAGE_SIZE
        } else {
            size / PAGE_SIZE + 1
        };
        proof {
            assert(count == (size + PAGE_SIZE - 1) / (PAGE_SIZE as int)) by (nonlinear_arith)
                requires
                    size % PAGE_SIZE == 0 ==> count == size / PAGE_SIZE,
                    size % PAGE_SIZE != 0 ==> count == size / PAGE_SIZE + 1,
                    PAGE_SIZE == 0x20_0000,
            ;
            assert(count * PAGE_SIZE < size + PAGE_SIZE) by (nonlinear_arith)
                requires
                    count == (size + PAGE_SIZE - 1) / (PAGE_SIZE as int),
                    PAGE_SIZE == 0x20_0000,
            ;
        }
        let mut inner: Vec<u64> = Vec::new();
        let mut i: usize = 0;
        while i < count
            invariant
                base + size <= u64::MAX,
                i <= count,
                count * PAGE_SIZE < size + PAGE_SIZE,
                inner@ == Seq::new(i as nat, |k: int| (base + k * PAGE_SIZE) as u64),
            decreases count - i,
        {
            proof {
                assert(i * PAGE_SIZE + PAGE_SIZE <= count * PAGE_SIZE) by (nonlinear_arith)
                    requires
                        i < count,
                ;
            }
            inner.push(base + (i * PAGE_SIZE) as u64);
            i = i + 1;
            assert(inner@ =~= Seq::new(i as nat, |k: int| (base + k * PAGE_SIZE) as u64));
        }
        EmulatedPageAllocator { inner }
    }
}

impl DmaBufAllocator for EmulatedPageAllocator<1> {
    /// A request of more than one page cannot be met and changes nothing;
    /// otherwise the most recently listed free page is handed out, and with
    /// no page left the answer is `OutOfMemory` and nothing changes.
    open spec fn alloc_post(
        before: Self,
        len: usize,
        after: Self,
        r: Result<DmaBuf, AllocError>,
    ) -> bool {
        if len > PAGE_SIZE {
            &&& r == Err::<DmaBuf, AllocError>(AllocError::TooLarge)
            &&& after.pages() == before.pages()
        } else if before.pages().len() == 0 {
            &&& r == Err::<DmaBuf, AllocError>(AllocError::OutOfMemory)
            &&& after.pages() == before.pages()
        } else {
            &&& after.pages() == before.pages().drop_last()
            &&& r matches Ok(b)
            &&& b.spec_virt_addr() == before.pages().last()
            &&& b.spec_phys_addr() == before.pages().last()
            &&& b.spec_len() == PAGE_SIZE
        }
    }

    /// Hands out the most recently listed free page, which holds any request
    /// of at most one page.
    fn alloc_buf(&mut self, len: usize) -> (r: Result<DmaBuf, AllocError>) {
        if len > PAGE_SIZE {
            return Err(AllocError::TooLarge);
        }
        match self.inner.pop() {
            Some(addr) => Ok(DmaBuf::new(addr, PAGE_SIZE, addr)),
            None => Err(AllocError::OutOfMemory),
        }
    }
}

} // verus!
