//! Address translation helpers over the memory map of the process.
use vstd::prelude::*;
use crate::mem::page::PAGE_SIZE;
use vstd::arithmetic::power2::pow2;

verus! {

/// One mapped region of the process: addresses `start..end`, and the page
/// sizes the kernel and the MMU use for it.
#[derive(Clone, Copy, Debug, PartialEq, Eq, Structural)]
pub struct VmaInfo {
    pub start: u64,
    pub end: u64,
    pub kernel_page_size: u64,
    pub mmu_page_size: u64,
}

/// Whether region `r` contains address `addr`.
pub open spec fn vma_contains(r: VmaInfo, addr: u64) -> bool {
    r.start <= addr < r.end
}

/// The first region from index `i` on that contains `addr`.
pub open spec fn find_region_from(regions: Seq<VmaInfo>, addr: u64, i: int) -> Option<int>
    decreases regions.len() - i,
{
    if i < 0 || i >= regions.len() {
        None
    } else if vma_contains(regions[i], addr) {
        Some(i)
    } else {
        find_region_from(regions, addr, i + 1)
    }
}

/// The first region that contains `addr`.
pub open spec fn spec_find_region(regions: Seq<VmaInfo>, addr: u64) -> Option<int> {
    find_region_from(regions, addr, 0)
}

/// A region found from index `i` on lies at or after `i` and contains the
/// address.
pub proof fn lemma_find_region_from(regions: Seq<VmaInfo>, addr: u64, i: int)
    ensures
        find_region_from(regions, addr, i) matches Some(j) ==> i <= j < regions.len()
            && vma_contains(regions[j], addr),
    decreases regions.len() - i,
{
    if 0 <= i < regions.len() && !vma_contains(regions[i], addr) {
        lemma_find_region_from(regions, addr, i + 1);
    }
}

/// The region lookup finds the first region whose addresses `start..end`
/// hold the whole address `addr`, and finds none exactly when no region
/// holds it.
pub proof fn law_find_region_is_first_holding(regions: Seq<VmaInfo>, addr: u64)
    ensures
        spec_find_region(regions, addr) matches Some(i) ==> {
            &&& 0 <= i < regions.len()
            &&& regions[i].start <= addr
            &&& addr < regions[i].end
            &&& forall|j: int| 0 <= j < i ==> !(regions[j].start <= addr && addr < regions[j].end)
        },
        spec_find_region(regions, addr) is None <==> forall|j: int|
            0 <= j < regions.len() ==> !(regions[j].start <= addr && addr < regions[j].end),
{
    lemma_find_region_first(regions, addr, 0);
}

/// From index `i` on, the lookup finds the first region that holds `addr`,
/// or none when no region from `i` on holds it.
proof fn lemma_find_region_first(regions: Seq<VmaInfo>, addr: u64, i: int)
    requires
        0 <= i,
    ensures
        find_region_from(regions, addr, i) matches Some(k) ==> {
            &&& i <= k < regions.len()
            &&& regions[k].start <= addr
            &&& addr < regions[k].end
            &&& forall|j: int| i <= j < k ==> !(regions[j].start <= addr && addr < regions[j].end)
        },
        find_region_from(regions, addr, i) is None <==> forall|j: int|
            i <= j < regions.len() ==> !(regions[j].start <= addr && addr < regions[j].end),
    decreases regions.len() - i,
{
    if i < regions.len() && !vma_contains(regions[i], addr) {
        lemma_find_region_first(regions, addr, i + 1);
    }
}

/// Index of the first region that contains `addr`, if any.
pub fn find_region(regions: &[VmaInfo], addr: u64) -> (r: Option<usize>)
    ensures
        match spec_find_region(regions@, addr) {
            Some(i) => r == Some(i as usize),
            None => r is None,
        },
        r matches Some(i) ==> {
            &&& i < regions@.len()
            &&& regions@[i as int].start <= addr
            &&& addr < regions@[i as int].end
            &&& forall|j: int|
                0 <= j < i ==> !(regions@[j].start <= addr && addr < regions@[j].end)
        },
        r is None <==> forall|j: int|
            0 <= j < regions@.len() ==> !(regions@[j].start <= addr && addr < regions@[j].end),
{
    let mut i: usize = 0;
    while i < regions.len()
        invariant
            i <= regions@.len(),
            spec_find_region(regions@, addr) == find_region_from(regions@, addr, i as int),
        decreases regions@.len() - i,
    {
        let r = regions[i];
        if r.start <= addr && addr < r.end {
            proof {
                law_find_region_is_first_holding(regions@, addr);
            }
            return Some(i);
        }
        i = i + 1;
    }
    proof {
        law_find_region_is_first_holding(regions@, addr);
    }
    None
}

/// Whether the `length` bytes at `addr` lie in a region mapped with pages
/// of `PAGE_SIZE` bytes, both for the kernel and for the MMU. The first
/// region that contains `addr` decides.
pub fn region_is_anon_hugepage(regions: &[VmaInfo], addr: u64, length: usize) -> (r: bool)
    requires
        spec_find_region(regions@, addr) is Some,
        addr + length <= regions@[spec_find_region(regions@, addr)->0].end,
    ensures
        ({
            let reg = regions@[spec_find_region(regions@, addr)->0];
            r == (reg.kernel_page_size == PAGE_SIZE && reg.mmu_page_size == PAGE_SIZE)
        }),
{
    proof {
        lemma_find_region_from(regions@, addr, 0);
    }
    let i = match find_region(regions, addr) {
        Some(i) => i,
        None => {
            return false;
        },
    };
    let reg = regions[i];
    reg.kernel_page_size == PAGE_SIZE as u64 && reg.mmu_page_size == PAGE_SIZE as u64
}

/// The page that holds `addr`, as `(start, end)`: `start` is `addr` with its
/// offset bits cleared, and `end` is `addr + page_size`.
pub fn page_window(addr: u64, page_size: u64) -> (r: (u64, u64))
    requires
        page_size >= 1,
        addr + page_size <= u64::MAX,
    ensures
        r.0 == addr - (addr & ((page_size - 1) as u64)),
        r.1 == addr + page_size,
        forall|k: nat| page_size == pow2(k) ==> r.0 == addr - addr % page_size,
{
    let mask = page_size - 1;
    let start = addr & !mask;
    proof {
        assert(start == addr - (addr & mask) && (addr & mask) <= addr) by (bit_vector)
            requires
                start == addr & !mask,
        ;
        lemma_low_mask_is_mod(addr, page_size);
    }
    (start, addr + page_size)
}

/// Physical address of `addr`, given the size of its page and the frame
/// number of that page.
pub fn compose_phys_addr(addr: u64, page_size: u64, pfn: u64) -> (r: u64)
    requires
        page_size >= 1,
        pfn * page_size + (addr & ((page_size - 1) as u64)) <= u64::MAX,
    ensures
        r == pfn * page_size + (addr & ((page_size - 1) as u64)),
        forall|k: nat| page_size == pow2(k) ==> r == pfn * page_size + addr % page_size,
{
    let mask = page_size - 1;
    let start = addr & !mask;
    proof {
        assert(addr - start == (addr & mask) && start <= addr) by (bit_vector)
            requires
                start == addr & !mask,
        ;
    }
    let offset = addr - start;
    proof {
        lemma_low_mask_is_mod(addr, page_size);
        assert(pfn * page_size <= u64::MAX) by (nonlinear_arith)
            requires
                pfn * page_size + offset <= u64::MAX,
                offset >= 0,
        ;
    }
    pfn * page_size + offset
}

/// For a page size that is a power of two, the offset bits of an address
/// are its remainder modulo the page size.
pub proof fn lemma_low_mask_is_mod(addr: u64, page_size: u64)
    requires
        page_size >= 1,
    ensures
        forall|k: nat| page_size == pow2(k) ==> (addr & ((page_size - 1) as u64)) == addr % page_size,
{
    assert forall|k: nat| page_size == pow2(k) implies (addr & ((page_size - 1) as u64)) == addr
        % page_size by {
        if k >= 64 {
            vstd::arithmetic::power2::lemma2_to64_rest();
            if k > 64 {
                vstd::arithmetic::power2::lemma_pow2_strictly_increases(64, k);
            }
            assert(false);
        }
        vstd::bits::lemma_u64_low_bits_mask_is_mod(addr, k);
    }
}

} // verus!
