use bluerdma_rust::mem::allocator::{AllocError, DmaBufAllocator, EmulatedPageAllocator};
use bluerdma_rust::mem::attr::{parse_phys_addr, parse_size, IntErrorKind};
use bluerdma_rust::mem::page::{
    assert_equal_page_size, range_in_bounds, DmaBuf, PageSizeMismatch, PAGE_SIZE, PAGE_SIZE_BITS,
};
use bluerdma_rust::mem::udmabuf::UDmaBufCursor;
use bluerdma_rust::ring::desc_alloc::{desc_ring_bytes, DefaultDescRingBufAllocator};

#[test]
fn page_size_constants_agree() {
    assert_eq!(PAGE_SIZE, 1usize << PAGE_SIZE_BITS);
}

#[test]
fn page_size_check() {
    assert_eq!(assert_equal_page_size(PAGE_SIZE), Ok(()));
    assert_eq!(
        assert_equal_page_size(4096),
        Err(PageSizeMismatch { expected: PAGE_SIZE, actual: 4096 })
    );
}

#[test]
fn dma_buf_accessors() {
    let b = DmaBuf::new(0x7000_0000, 0x1000, 0x1_0000_0000);
    assert_eq!(b.virt_addr(), 0x7000_0000);
    assert_eq!(b.phys_addr(), 0x1_0000_0000);
    assert_eq!(b.len(), 0x1000);
}

#[test]
fn range_bounds_use_saturating_end() {
    assert!(range_in_bounds(0, 10, 10));
    assert!(!range_in_bounds(1, 10, 10));
    assert!(range_in_bounds(10, 0, 10));
    assert!(!range_in_bounds(usize::MAX, 2, 100));
    assert!(range_in_bounds(usize::MAX, 2, usize::MAX));
}

#[test]
fn emulated_allocator_hands_out_pages_last_first() {
    let base = 0x4000_0000u64;
    let mut a: EmulatedPageAllocator<1> = EmulatedPageAllocator::from_region(base, 3 * PAGE_SIZE);
    let p = a.alloc_buf(123).unwrap();
    assert_eq!(p.virt_addr(), base + 2 * PAGE_SIZE as u64);
    assert_eq!(p.phys_addr(), p.virt_addr());
    assert_eq!(p.len(), PAGE_SIZE);
    assert_eq!(a.alloc_buf(1).unwrap().virt_addr(), base + PAGE_SIZE as u64);
    assert_eq!(a.alloc_buf(1).unwrap().virt_addr(), base);
    assert_eq!(a.alloc_buf(1), Err(AllocError::OutOfMemory));
}

#[test]
fn emulated_allocator_refuses_more_than_a_page() {
    let mut a: EmulatedPageAllocator<1> = EmulatedPageAllocator::from_region(0, PAGE_SIZE);
    assert_eq!(a.alloc_buf(PAGE_SIZE + 1), Err(AllocError::TooLarge));
    assert_eq!(a.alloc_buf(PAGE_SIZE).unwrap().len(), PAGE_SIZE);
    assert_eq!(a.alloc_buf(PAGE_SIZE + 1), Err(AllocError::TooLarge));
}

#[test]
fn emulated_allocator_rounds_partial_page_up() {
    let mut a: EmulatedPageAllocator<1> = EmulatedPageAllocator::from_region(0, PAGE_SIZE + 1);
    assert_eq!(a.alloc_buf(0).unwrap().virt_addr(), PAGE_SIZE as u64);
    assert_eq!(a.alloc_buf(0).unwrap().virt_addr(), 0);
    assert!(a.alloc_buf(0).is_err());
    let mut empty: EmulatedPageAllocator<1> = EmulatedPageAllocator::from_region(0, 0);
    assert_eq!(empty.alloc_buf(0), Err(AllocError::OutOfMemory));
}

#[test]
fn desc_ring_allocation_size() {
    assert_eq!(desc_ring_bytes::<2>(), 4 * 32);
    assert_eq!(desc_ring_bytes::<12>(), 4096 * 32);
    let mut pages: EmulatedPageAllocator<1> = EmulatedPageAllocator::from_region(0x1000_0000, PAGE_SIZE);
    let mut d = DefaultDescRingBufAllocator::new(&mut pages);
    let buf = d.alloc_for_spec::<12>().unwrap();
    assert_eq!(buf.virt_addr(), 0x1000_0000);
    assert!(d.alloc_for_spec::<12>().is_err());
}

#[test]
fn udmabuf_cursor_carves_buffers_in_order() {
    let mut c = UDmaBufCursor::new();
    assert_eq!(c.offset(), 0);
    assert_eq!(c.check_fits(0x1000, 0x5000), Ok(()));
    assert_eq!(c.next_phys_addr(0x8000_0000), 0x8000_0000);
    c.advance(0x1000);
    assert_eq!(c.check_fits(0x4000, 0x5000), Ok(()));
    assert_eq!(c.next_phys_addr(0x8000_0000), 0x8000_1000);
    c.advance(0x4000);
    assert_eq!(c.offset(), 0x5000);
    assert_eq!(c.check_fits(1, 0x5000), Err(AllocError::OutOfMemory));
    assert_eq!(c.check_fits(usize::MAX, usize::MAX), Err(AllocError::OutOfMemory));
    assert_eq!(c.check_fits(0, 0x5000), Ok(()));
}

#[test]
fn parse_size_attribute() {
    assert_eq!(parse_size("1048576\n"), Ok(1048576));
    assert_eq!(parse_size("  \t42  "), Ok(42));
    assert_eq!(parse_size("+7"), Ok(7));
    assert_eq!(parse_size("0"), Ok(0));
    assert_eq!(parse_size(""), Err(IntErrorKind::Empty));
    assert_eq!(parse_size("   \n"), Err(IntErrorKind::Empty));
    assert_eq!(parse_size("+"), Err(IntErrorKind::InvalidDigit));
    assert_eq!(parse_size("-1"), Err(IntErrorKind::InvalidDigit));
    assert_eq!(parse_size("12a"), Err(IntErrorKind::InvalidDigit));
    assert_eq!(parse_size("0x10"), Err(IntErrorKind::InvalidDigit));
    assert_eq!(parse_size("\u{a0}99\u{3000}"), Ok(99));
    let too_big = format!("{}0", usize::MAX);
    assert_eq!(parse_size(&too_big), Err(IntErrorKind::PosOverflow));
    assert_eq!(parse_size(&format!("{}", usize::MAX)), Ok(usize::MAX));
    // overflow is found before a later bad digit
    assert_eq!(parse_size(&format!("{}x", too_big)), Err(IntErrorKind::PosOverflow));
    // agrees with the standard library on these inputs
    for s in ["5", " 17 ", "+", "x", "", "99999999999999999999999", "1_0"] {
        let ours = parse_size(s).ok();
        let std = s.trim().parse::<usize>().ok();
        assert_eq!(ours, std, "input {:?}", s);
    }
}

#[test]
fn parse_phys_addr_attribute() {
    assert_eq!(parse_phys_addr("0x0000000080000000\n"), Ok(0x8000_0000));
    assert_eq!(parse_phys_addr("deadBEEF"), Ok(0xdead_beef));
    assert_eq!(parse_phys_addr("0x0x1f"), Ok(0x1f));
    assert_eq!(parse_phys_addr("0x"), Err(IntErrorKind::Empty));
    assert_eq!(parse_phys_addr("0X10"), Err(IntErrorKind::InvalidDigit));
    assert_eq!(parse_phys_addr("0xg"), Err(IntErrorKind::InvalidDigit));
    assert_eq!(parse_phys_addr("ffffffffffffffff"), Ok(u64::MAX));
    assert_eq!(parse_phys_addr("10000000000000000"), Err(IntErrorKind::PosOverflow));
    for s in ["0x1000", "abc", "0x", "+1", "0xzz", "fffffffffffffffff"] {
        let ours = parse_phys_addr(s).ok();
        let std = u64::from_str_radix(s.trim().trim_start_matches("0x"), 16).ok();
        assert_eq!(ours, std, "input {:?}", s);
    }
}
