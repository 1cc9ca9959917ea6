//! Page size of the DMA memory and DMA buffer records.
use vstd::prelude::*;

verus! {

/// Number of bits of a page offset (2 MiB huge pages).
pub const PAGE_SIZE_BITS: u8 = 21;

/// Size of a page in bytes.
pub const PAGE_SIZE: usize = 0x20_0000;

/// The system page size differs from the page size the driver expects.
#[derive(Clone, Copy, Debug, PartialEq, Eq, Structural)]
pub struct PageSizeMismatch {
    pub expected: usize,
    pub actual: usize,
}

/// Checks that the system page size equals `PAGE_SIZE`.
pub fn assert_equal_page_size(system_page_size: usize) -> (r: Result<(), PageSizeMismatch>)
    ensures
        r is Ok <==> system_page_size == PAGE_SIZE,
        r matches Err(e) ==> e.expected == PAGE_SIZE && e.actual == system_page_size,
{
    if system_page_size == PAGE_SIZE {
        Ok(())
    } else {
        Err(PageSizeMismatch { expected: PAGE_SIZE, actual: system_page_size })
    }
}

/// A DMA buffer: where the host sees it, where the card sees it, and its
/// length in bytes.
#[derive(Clone, Copy, Debug, PartialEq, Eq, Structural)]
pub struct DmaBuf {
    virt: u64,
    phys: u64,
    len: usize,
}

impl DmaBuf {
    /// The virtual address of the buffer.
    pub closed spec fn spec_virt_addr(&self) -> u64 {
        self.virt
    }

    /// The physical address of the buffer.
    pub closed spec fn spec_phys_addr(&self) -> u64 {
        self.phys
    }

    /// The length of the buffer in bytes.
    pub closed spec fn spec_len(&self) -> usize {
        self.len
    }

    /// A buffer of `len` bytes at virtual address `virt_addr` and physical
    /// address `phys_addr`.
    pub fn new(virt_addr: u64, len: usize, phys_addr: u64) -> (b: DmaBuf)
        ensures
            b.spec_virt_addr() == virt_addr,
            b.spec_phys_addr() == phys_addr,
            b.spec_len() == len,
    {
        DmaBuf { virt: virt_addr, phys: phys_addr, len }
    }

    /// The physical address of the buffer.
    pub fn phys_addr(&self) -> (a: u64)
        ensures
            a == self.spec_phys_addr(),
    {
        self.phys
    }

    /// The virtual address of the buffer.
    pub fn virt_addr(&self) -> (a: u64)
        ensures
            a == self.spec_virt_addr(),
    {
        self.virt
    }

    /// The length of the buffer in bytes.
    pub fn len(&self) -> (n: usize)
        ensures
            n == self.spec_len(),
    {
        self.len
    }
}

/// Whether `len` bytes from `offset` lie within a region of `total` bytes,
/// the end being computed with saturating addition.
pub open spec fn spec_range_in_bounds(offset: usize, len: usize, total: usize) -> bool {
    (if offset + len > usize::MAX { usize::MAX as int } else { offset + len }) <= total
}

/// Whether `len` bytes from `offset` lie within a region of `total` bytes.
pub fn range_in_bounds(offset: usize, len: usize, total: usize) -> (r: bool)
    ensures
        r == spec_range_in_bounds(offset, len, total),
{
    offset.saturating_add(len) <= total
}

} // verus!
