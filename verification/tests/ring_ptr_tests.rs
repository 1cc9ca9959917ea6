use bluerdma_rust::ring::ring_ptr::RingPtr;

type Ptr = RingPtr<2>;

#[test]
fn ring_ptr_sizes_and_masks() {
    assert_eq!(Ptr::buf_size(), 4);
    assert_eq!(Ptr::buf_size_mask(), 3);
    assert_eq!(Ptr::hw_ptr_mask(), 7);
    assert_eq!(RingPtr::<12>::buf_size(), 4096);
    assert_eq!(RingPtr::<12>::hw_ptr_mask(), 8191);
    assert_eq!(RingPtr::<0>::buf_size(), 1);
    assert_eq!(RingPtr::<30>::hw_ptr_mask(), 0x7fff_ffff);
}

#[test]
fn ring_ptr_new_keeps_guard_and_index_bits() {
    assert_eq!(Ptr::zero().raw(), 0);
    assert_eq!(Ptr::new(5).raw(), 5);
    assert_eq!(Ptr::new(13).raw(), 5);
    assert_eq!(Ptr::new(u32::MAX).raw(), 7);
    assert_eq!(Ptr::new(13).index(), 1);
    assert_eq!(Ptr::new(6).index(), 2);
}

#[test]
fn ring_ptr_wrapping_add_wraps_at_twice_the_ring() {
    let p = Ptr::new(6);
    assert_eq!(p.wrapping_add(1).raw(), 7);
    assert_eq!(p.wrapping_add(2).raw(), 0);
    assert_eq!(p.wrapping_add(5).raw(), 3);
    assert_eq!(p.wrapping_add(u32::MAX).raw(), 5);
    assert_eq!(p.add_index(1), 3);
    assert_eq!(p.add_index(2), 0);
    assert_eq!(p.add_index(7), 1);
}

#[test]
fn ring_ptr_wrapping_sub_measures_distance() {
    let a = Ptr::new(1);
    let b = Ptr::new(6);
    assert_eq!(a.wrapping_sub(b), 3);
    assert_eq!(b.wrapping_sub(a), 5);
    assert_eq!(a.wrapping_sub(a), 0);
    // law: walking k steps and measuring back gives k
    for k in 0..8u32 {
        assert_eq!(b.wrapping_add(k).wrapping_sub(b), k);
    }
    // law: two walks compose
    assert_eq!(b.wrapping_add(3).wrapping_add(4).raw(), b.wrapping_add(7).raw());
    // law: rebuilding a pointer from its raw value keeps it
    assert_eq!(Ptr::new(b.raw()).raw(), b.raw());
}

#[test]
fn ring_ptr_same_index_and_raw() {
    let a = Ptr::new(1);
    let b = Ptr::new(5);
    assert!(a.has_same_index(b));
    assert!(!a.has_same_raw(b));
    // law: same slot, distinct pointers <=> one full ring apart
    assert_eq!(b.wrapping_sub(a), Ptr::buf_size());
    assert!(a.has_same_raw(Ptr::new(9)));
    assert!(!a.has_same_index(Ptr::new(2)));
}

#[test]
fn ring_ptr_text() {
    assert_eq!(Ptr::new(6).to_text(), "RingPtr { raw: 6, index: 2 }");
    assert_eq!(Ptr::zero().to_text(), "RingPtr { raw: 0, index: 0 }");
}
