use std::cell::{Cell, RefCell};

use bluerdma_rust::ring::consumer::ConsumerRing;
use bluerdma_rust::ring::csr::{ReaderOps, ToHostRegisters};
use bluerdma_rust::ring::desc_ring::{DmaBuffer, RingDesc};
use bluerdma_rust::ring::traits::{FromRingBytes, RawElement};

#[derive(Default)]
struct MockCsr {
    base: Cell<u64>,
    head: Cell<u32>,
    tail_writes: RefCell<Vec<u32>>,
}

impl MockCsr {
    fn do_write_base(&self, addr: u64) {
        self.base.set(addr);
    }
    fn do_read_head(&self) -> u32 {
        self.head.get()
    }
    fn do_write_tail(&self, tail: u32) {
        self.tail_writes.borrow_mut().push(tail);
    }
}

impl ReaderOps for MockCsr {
    fn write_base_addr(&mut self, addr: u64) {
        self.do_write_base(addr)
    }
    fn read_head(&mut self) -> u32 {
        self.do_read_head()
    }
    fn write_tail(&mut self, tail: u32) {
        self.do_write_tail(tail)
    }
}

fn single(tag: u64) -> RingDesc {
    RingDesc { w0: 1, w1: tag, w2: 0, w3: 0 }
}

fn chained(tag: u64) -> RingDesc {
    RingDesc { w0: 3, w1: tag, w2: 0, w3: 0 }
}

fn ring_with(descs: &[RingDesc]) -> ConsumerRing<MockCsr, RawElement, 2> {
    let mut buf = DmaBuffer::new(0x2000, 4);
    for (i, d) in descs.iter().enumerate() {
        buf.write(i as u32, *d);
    }
    ConsumerRing::new(buf, MockCsr::default())
}

#[test]
fn raw_element_format() {
    assert!(RawElement::is_valid(&single(0)));
    assert!(!RawElement::is_valid(&RingDesc::zeroed()));
    assert_eq!(RawElement::desc_count(&single(0)), 1);
    assert_eq!(RawElement::desc_count(&chained(0)), 2);
    assert_eq!(RawElement::max_desc_count(), 2);
}

#[test]
fn consumer_pops_single_descriptor_elements() {
    let mut r = ring_with(&[single(7), single(8)]);
    let e = r.try_pop().unwrap();
    assert_eq!(e, RawElement { first: single(7), second: None });
    assert_eq!(r.tail(), 1);
    let e = r.try_pop().unwrap();
    assert_eq!(e.first.w1, 8);
    assert_eq!(r.tail(), 2);
    assert!(r.try_pop().is_none());
    assert_eq!(r.tail(), 2);
}

#[test]
fn consumer_assembles_two_descriptor_elements() {
    let mut r = ring_with(&[chained(1), single(2), single(3)]);
    let e = r.try_pop().unwrap();
    assert_eq!(e, RawElement { first: chained(1), second: Some(single(2)) });
    assert_eq!(r.tail(), 2);
    let e = r.try_pop().unwrap();
    assert_eq!(e, RawElement { first: single(3), second: None });
    assert_eq!(r.tail(), 3);
}

#[test]
fn consumer_keeps_incomplete_element_for_next_call() {
    let mut r = ring_with(&[single(5), chained(6)]);
    assert_eq!(r.try_pop().unwrap().first.w1, 5);
    // the chained descriptor is taken but its partner is missing
    assert!(r.try_pop_without_sync().is_none());
    assert_eq!(r.tail(), 2);
    assert!(r.try_pop().is_none());
    assert_eq!(r.tail(), 2);
}

#[test]
fn consumer_publishes_tail_only_after_an_element() {
    let mut r = ring_with(&[single(1)]);
    assert!(r.try_pop_without_sync().is_some());
    assert_eq!(r.tail(), 1);
    let mut r = ring_with(&[single(1), single(2)]);
    assert!(r.try_pop().is_some());
    assert!(r.try_pop().is_some());
    assert!(r.try_pop().is_none());
    assert_eq!(r.tail(), 2);
}

#[test]
fn consumer_take_and_read_desc() {
    let mut r = ring_with(&[single(9), RingDesc::zeroed()]);
    assert_eq!(r.try_read_desc(), Some(single(9)));
    assert_eq!(r.tail(), 1);
    assert_eq!(r.try_read_desc(), None);
    assert_eq!(r.tail(), 1);
    assert_eq!(r.take_desc_and_advance_tail(), RingDesc::zeroed());
    assert_eq!(r.tail(), 2);
}

#[test]
fn consumer_available_counts_from_tail_to_head() {
    let mut r = ring_with(&[single(1), single(2), single(3)]);
    // head and tail on the same slot: empty or full, no count
    assert_eq!(r.available(), None);
    assert_eq!(r.read_head_csr(), 0);
    let mut r2 = ring_with(&[single(1), single(2), single(3)]);
    r2.try_pop().unwrap();
    assert_eq!(r2.tail(), 1);
    assert_eq!(r2.cached_head(), 0);
    assert_eq!(r2.available(), Some(7));
    r2.write_tail_csr();
}

impl ReaderOps for &MockCsr {
    fn write_base_addr(&mut self, addr: u64) {
        self.do_write_base(addr)
    }
    fn read_head(&mut self) -> u32 {
        self.do_read_head()
    }
    fn write_tail(&mut self, tail: u32) {
        self.do_write_tail(tail)
    }
}

#[test]
fn consumer_cleared_slots_are_not_read_again_after_wrapping() {
    let csr = MockCsr::default();
    let mut buf = DmaBuffer::new(0x3000, 4);
    for i in 0..4u32 {
        buf.write(i, single(i as u64 + 100));
    }
    let mut r: ConsumerRing<&MockCsr, RawElement, 2> = ConsumerRing::new(buf, &csr);
    assert_eq!(csr.base.get(), 0x3000);
    for i in 0..4u64 {
        assert_eq!(r.try_pop().unwrap().first.w1, 100 + i);
    }
    // the tail is back on the first slot, which was cleared when taken
    assert_eq!(r.tail(), 4);
    assert!(r.try_pop().is_none());
    assert_eq!(*csr.tail_writes.borrow(), vec![1, 2, 3, 4]);
}

#[test]
fn consumer_backlog_shrinks_by_taken_descriptors() {
    let csr = MockCsr::default();
    let mut buf = DmaBuffer::new(0x3000, 4);
    buf.write(0, chained(1));
    buf.write(1, single(2));
    buf.write(2, single(3));
    let mut r: ConsumerRing<&MockCsr, RawElement, 2> = ConsumerRing::new(buf, &csr);
    csr.head.set(3);
    assert_eq!(r.available(), Some(3));
    r.try_pop().unwrap();
    assert_eq!(r.available(), Some(1));
    r.try_pop().unwrap();
    assert_eq!(r.available(), None);
    // the card's head is taken modulo twice the ring size
    csr.head.set(3 + 8);
    assert_eq!(r.read_head_csr(), 3);
    assert_eq!(r.cached_head(), 3);
}

#[test]
fn consumer_accepts_larger_buffer_and_publishes_full_tail() {
    let mut buf = DmaBuffer::new(0x6000, 6);
    buf.write(0, single(1));
    buf.write(1, single(2));
    buf.write(2, single(3));
    buf.write(3, single(4));
    buf.write(4, single(99));
    let mut regs = ToHostRegisters::new();
    let mut r: ConsumerRing<Regs, RawElement, 2> = ConsumerRing::new(buf, Regs(&mut regs));
    for i in 1..=4u64 {
        assert_eq!(r.try_pop().unwrap().first.w1, i);
    }
    // slot 4 lies outside the ring of four slots
    assert!(r.try_pop().is_none());
    drop(r);
    assert_eq!(regs.base_addr(), 0x6000);
    // the tail register gets the pointer with its guard bit
    assert_eq!(regs.tail(), 4);
}

struct Regs<'a>(&'a mut ToHostRegisters);

impl<'a> ReaderOps for Regs<'a> {
    fn write_base_addr(&mut self, addr: u64) {
        ReaderOps::write_base_addr(self.0, addr)
    }
    fn read_head(&mut self) -> u32 {
        ReaderOps::read_head(self.0)
    }
    fn write_tail(&mut self, tail: u32) {
        ReaderOps::write_tail(self.0, tail)
    }
}

#[test]
fn consumer_gathers_element_across_two_attempts() {
    let mut r = ring_with(&[]);
    // the card has written the first descriptor of a two-descriptor element
    r.card_write_slot(1, chained(5));
    r.card_write_slot(0, single(4));
    assert_eq!(r.try_pop().unwrap().first.w1, 4);
    assert!(r.try_pop_without_sync().is_none());
    // the first descriptor was taken and its slot cleared
    assert_eq!(r.tail(), 2);
    // the card writes the second descriptor; the next attempt completes it
    r.card_write_slot(2, single(6));
    let e = r.try_pop_without_sync().unwrap();
    assert_eq!(e, RawElement { first: chained(5), second: Some(single(6)) });
    assert_eq!(r.tail(), 3);
    assert!(r.try_pop().is_none());
}
