use bluerdma_rust::mem::page::PAGE_SIZE;
use bluerdma_rust::rdma_utils::pagemaps::{
    region_is_anon_hugepage, compose_phys_addr, find_region, page_window, VmaInfo,
};

fn regions() -> Vec<VmaInfo> {
    vec![
        VmaInfo { start: 0x1000, end: 0x3000, kernel_page_size: 4096, mmu_page_size: 4096 },
        VmaInfo {
            start: 0x4000_0000,
            end: 0x4080_0000,
            kernel_page_size: PAGE_SIZE as u64,
            mmu_page_size: PAGE_SIZE as u64,
        },
        VmaInfo {
            start: 0x4000_0000,
            end: 0x5000_0000,
            kernel_page_size: 4096,
            mmu_page_size: 4096,
        },
    ]
}

#[test]
fn find_region_picks_first_containing() {
    let r = regions();
    assert_eq!(find_region(&r, 0x1000), Some(0));
    assert_eq!(find_region(&r, 0x2fff), Some(0));
    assert_eq!(find_region(&r, 0x3000), None);
    assert_eq!(find_region(&r, 0x4000_1234), Some(1));
    assert_eq!(find_region(&r, 0x4900_0000), Some(2));
    assert_eq!(find_region(&[], 5), None);
}

#[test]
fn hugepage_check_uses_first_region() {
    let r = regions();
    assert!(region_is_anon_hugepage(&r, 0x4000_0000, 0x80_0000));
    assert!(!region_is_anon_hugepage(&r, 0x1000, 0x2000));
    assert!(!region_is_anon_hugepage(&r, 0x4900_0000, 0x10));
}

#[test]
fn page_window_and_phys_addr() {
    assert_eq!(page_window(0x1234_5678, 0x1000), (0x1234_5000, 0x1234_6678));
    assert_eq!(compose_phys_addr(0x1234_5678, 0x1000, 0x42), 0x42 * 0x1000 + 0x678);
    assert_eq!(compose_phys_addr(0x7f00_0000_1001, 0x1000, 0), 1);
    assert_eq!(page_window(7, 1), (7, 8));
    assert_eq!(compose_phys_addr(7, 1, 9), 9);
}
