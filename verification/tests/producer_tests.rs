use std::cell::{Cell, RefCell};

use bluerdma_rust::ring::csr::{CsrError, ToCardRegisters, WriterOps};
use bluerdma_rust::ring::desc_ring::{DmaBuffer, RingDesc};
use bluerdma_rust::ring::producer::ProducerRing;

#[derive(Default)]
struct MockCsr {
    base: Cell<u64>,
    head_writes: RefCell<Vec<u32>>,
    tail: Cell<u32>,
    fail_head: Cell<bool>,
    fail_tail: Cell<bool>,
}

impl MockCsr {
    fn do_write_base(&self, addr: u64) -> Result<(), CsrError> {
        self.base.set(addr);
        Ok(())
    }
    fn do_write_head(&self, head: u32) -> Result<(), CsrError> {
        if self.fail_head.get() {
            return Err(CsrError);
        }
        self.head_writes.borrow_mut().push(head);
        Ok(())
    }
    fn do_read_tail(&self) -> Result<u32, CsrError> {
        if self.fail_tail.get() {
            return Err(CsrError);
        }
        Ok(self.tail.get())
    }
}

impl WriterOps for &MockCsr {
    fn write_base_addr(&mut self, addr: u64) -> Result<(), CsrError> {
        self.do_write_base(addr)
    }
    fn write_head(&mut self, head: u32) -> Result<(), CsrError> {
        self.do_write_head(head)
    }
    fn read_tail(&mut self) -> Result<u32, CsrError> {
        self.do_read_tail()
    }
}

fn desc(v: u64) -> RingDesc {
    RingDesc { w0: v, w1: v + 1, w2: 0, w3: 0 }
}

fn ring(csr: &MockCsr) -> ProducerRing<&MockCsr, RingDesc, 2> {
    ProducerRing::new(DmaBuffer::new(0x1000, 4), csr).unwrap()
}

#[test]
fn producer_new_publishes_base_address() {
    let csr = MockCsr::default();
    let mut r = ring(&csr);
    assert_eq!(csr.base.get(), 0x1000);
    assert_eq!(r.head(), 0);
    assert_eq!(r.cached_tail(), 0);
    assert_eq!(r.available().unwrap(), 4);
}

#[test]
fn producer_batch_write_fills_slots_and_publishes_head() {
    let csr = MockCsr::default();
    let mut r = ring(&csr);
    assert_eq!(r.batch_write(3, |i| desc(10 + i as u64)).unwrap(), 3);
    assert_eq!(r.head(), 3);
    assert_eq!(*csr.head_writes.borrow(), vec![3]);
    assert_eq!(r.available().unwrap(), 1);
    // not enough room even after reading the tail again
    assert_eq!(r.batch_write(2, |i| desc(i as u64)).unwrap(), 0);
    assert_eq!(r.head(), 3);
    // the card consumed two descriptors
    csr.tail.set(2);
    assert_eq!(r.batch_write(2, |i| desc(20 + i as u64)).unwrap(), 2);
    assert_eq!(r.head(), 5);
    assert_eq!(r.cached_tail(), 2);
    assert_eq!(*csr.head_writes.borrow(), vec![3, 5]);
}

#[test]
fn producer_batch_write_rejects_empty_and_oversized() {
    let csr = MockCsr::default();
    let mut r = ring(&csr);
    assert_eq!(r.batch_write(0, |i| desc(i as u64)).unwrap(), 0);
    assert_eq!(r.batch_write(5, |i| desc(i as u64)).unwrap(), 0);
    assert!(csr.head_writes.borrow().is_empty());
    assert_eq!(r.batch_write(4, |i| desc(i as u64)).unwrap(), 4);
    // full ring: same slot, other guard bit
    assert_eq!(r.head(), 4);
    assert_eq!(r.available().unwrap(), 0);
}

#[test]
fn producer_head_write_failure_keeps_head() {
    let csr = MockCsr::default();
    let mut r = ring(&csr);
    csr.fail_head.set(true);
    assert_eq!(r.batch_write(2, |i| desc(i as u64)), Err(CsrError));
    assert_eq!(r.head(), 0);
    assert_eq!(r.available().unwrap(), 4);
}

#[test]
fn producer_try_push_atomic_all_or_nothing() {
    let csr = MockCsr::default();
    let mut r = ring(&csr);
    assert_eq!(r.try_push_atomic(&[desc(1), desc(2), desc(3)]), Ok(true));
    assert_eq!(r.head(), 3);
    assert_eq!(r.try_push_atomic(&[desc(4), desc(5)]), Ok(false));
    assert_eq!(r.head(), 3);
    csr.tail.set(3);
    assert_eq!(r.try_push_atomic(&[desc(4), desc(5), desc(6), desc(7)]), Ok(true));
    assert_eq!(r.head(), 7);
    assert_eq!(r.cached_tail(), 3);
    assert_eq!(r.available().unwrap(), 0);
    csr.fail_tail.set(true);
    assert_eq!(r.try_push_atomic(&[desc(8)]), Err(CsrError));
    assert_eq!(r.head(), 7);
}

#[test]
fn producer_sync_tail_and_force_set_head() {
    let csr = MockCsr::default();
    let mut r = ring(&csr);
    csr.tail.set(13);
    r.sync_tail().unwrap();
    assert_eq!(r.cached_tail(), 5);
    r.force_set_head(14).unwrap();
    assert_eq!(*csr.head_writes.borrow(), vec![14]);
    assert_eq!(r.head(), 6);
    // head one slot ahead of tail
    assert_eq!(r.available().unwrap(), 3);
}

#[test]
fn producer_available_reads_tail_register() {
    let csr = MockCsr::default();
    let mut r = ring(&csr);
    assert_eq!(r.batch_write(4, |i| desc(i as u64)).unwrap(), 4);
    assert_eq!(r.available().unwrap(), 0);
    csr.tail.set(3);
    assert_eq!(r.available().unwrap(), 3);
    assert_eq!(r.cached_tail(), 3);
    csr.fail_tail.set(true);
    assert_eq!(r.available(), Err(CsrError));
    assert_eq!(r.cached_tail(), 3);
}

#[test]
fn producer_publishes_head_with_guard_bit() {
    let csr = MockCsr::default();
    let mut r = ring(&csr);
    assert!(r.try_push_atomic(&[desc(1), desc(2), desc(3)]).unwrap());
    csr.tail.set(3);
    assert!(r.try_push_atomic(&[desc(4), desc(5), desc(6)]).unwrap());
    // 6 is slot 2 on the second pass: the guard bit is kept
    assert_eq!(*csr.head_writes.borrow(), vec![3, 6]);
    r.set_cached_tail(9);
    assert_eq!(r.cached_tail(), 1);
}

#[test]
fn producer_over_card_registers() {
    let mut regs = ToCardRegisters::new();
    let mut r: ProducerRing<Regs, RingDesc, 2> =
        ProducerRing::new(DmaBuffer::new(0x5000, 4), Regs(&mut regs)).unwrap();
    assert_eq!(r.batch_write(2, |i| desc(i as u64)), Ok(2));
    drop(r);
    assert_eq!(regs.base_addr(), 0x5000);
    assert_eq!(regs.head(), 2);
}

struct Regs<'a>(&'a mut ToCardRegisters);

impl<'a> WriterOps for Regs<'a> {
    fn write_base_addr(&mut self, addr: u64) -> Result<(), CsrError> {
        WriterOps::write_base_addr(self.0, addr)
    }
    fn write_head(&mut self, head: u32) -> Result<(), CsrError> {
        WriterOps::write_head(self.0, head)
    }
    fn read_tail(&mut self) -> Result<u32, CsrError> {
        WriterOps::read_tail(self.0)
    }
}

#[test]
fn producer_full_ring_answers_no_room_while_tail_stays() {
    let mut regs = ToCardRegisters::new();
    {
        let mut r: ProducerRing<Regs, RingDesc, 2> =
            ProducerRing::new(DmaBuffer::new(0x5000, 4), Regs(&mut regs)).unwrap();
        assert_eq!(r.try_push_atomic(&[desc(1), desc(2), desc(3)]), Ok(true));
        assert_eq!(r.head(), 3);
        // the card has consumed nothing: two more do not fit, and none is sent
        assert_eq!(r.try_push_atomic(&[desc(4), desc(5)]), Ok(false));
        assert_eq!(r.head(), 3);
        assert_eq!(r.cached_tail(), 0);
        assert_eq!(r.batch_write(2, |i| desc(i as u64)), Ok(0));
        assert_eq!(r.head(), 3);
    }
    assert_eq!(regs.head(), 3);
    // the card consumes two descriptors; now two fit and the head wraps
    regs.card_set_tail(2);
    {
        let mut r: ProducerRing<Regs, RingDesc, 2> =
            ProducerRing::new(DmaBuffer::new(0x5000, 4), Regs(&mut regs)).unwrap();
        r.force_set_head(3).unwrap();
        assert_eq!(r.try_push_atomic(&[desc(4), desc(5)]), Ok(true));
        assert_eq!(r.head(), 5);
    }
    assert_eq!(regs.head(), 5);
}
