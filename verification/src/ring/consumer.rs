//! Consumer ring: the card writes descriptors for the host to consume.
//!
//! The card owns the head pointer; the host owns the tail pointer. The host
//! does not rely on the head pointer to find new descriptors: it takes the
//! descriptor at its tail as soon as that descriptor reads as filled, clears
//! the slot and moves on. An element may span several descriptors; they are
//! gathered in a scratch buffer until the element is complete.
use vstd::prelude::*;
use core::marker::PhantomData;
use crate::ring::csr::{ReaderOps, acquire_fence};
use crate::ring::desc_ring::{DmaBuffer, RingDesc};
use crate::ring::producer::write_run;
use crate::ring::producer::{lemma_write_run_empty, lemma_write_run_push};
use crate::ring::ring_ptr::{RingPtr, ring_size, ptr_space, valid_ring_exp, slot_of, ptr_add,
    ptr_distance, lemma_ring_size_facts, lemma_slot_offset, law_slot_of_add, law_add_composes,
    law_distance_undoes_add};
use crate::ring::traits::FromRingBytes;
use vstd::arithmetic::div_mod::lemma_small_mod;

verus! {

/// `k` cleared descriptors.
pub open spec fn zeroed_descs(k: nat) -> Seq<RingDesc> {
    Seq::new(k, |j: int| RingDesc::spec_zeroed())
}

/// The `k` descriptors found in consecutive slots from the slot of pointer
/// `tail` on.
pub open spec fn run_from(slots: Seq<RingDesc>, tail: nat, k: nat, exp: u32) -> Seq<RingDesc> {
    Seq::new(k, |j: int| slots[slot_of(tail + j, exp) as int])
}

/// Every descriptor of `descs` reads as filled.
pub open spec fn all_valid<E: FromRingBytes>(descs: Seq<RingDesc>) -> bool {
    forall|j: int| 0 <= j < descs.len() ==> E::spec_is_valid(#[trigger] descs[j])
}

/// Consumer-side ring buffer that reads descriptors written by the card.
pub struct ConsumerRing<C, E, const BUF_SIZE_EXP: u32> {
    buffer: DmaBuffer,
    csr_ring: C,
    cached_released_tail: RingPtr<BUF_SIZE_EXP>,
    cached_hw_head: RingPtr<BUF_SIZE_EXP>,
    scratch: Vec<RingDesc>,
    pending_expected_desc_count: Option<usize>,
    _phantom: PhantomData<E>,
}

impl<C: ReaderOps, E: FromRingBytes, const BUF_SIZE_EXP: u32> ConsumerRing<C, E, BUF_SIZE_EXP> {
    /// The host's tail pointer: every descriptor before it has been taken.
    pub closed spec fn tail_ptr(&self) -> nat {
        self.cached_released_tail@
    }

    /// The last known head pointer of the card.
    pub closed spec fn head_ptr(&self) -> nat {
        self.cached_hw_head@
    }

    /// The descriptor slots.
    pub closed spec fn slots(&self) -> Seq<RingDesc> {
        self.buffer.slots()
    }

    /// Physical address of the descriptor slots.
    pub closed spec fn buffer_phys(&self) -> u64 {
        self.buffer.phys()
    }

    /// The register handle, with the history of its accesses.
    pub closed spec fn csr(&self) -> C {
        self.csr_ring
    }

    /// Descriptors taken so far of an element that is not complete yet.
    pub closed spec fn scratch(&self) -> Seq<RingDesc> {
        self.scratch@
    }

    /// Number of descriptors of the element being gathered, if any.
    pub closed spec fn pending(&self) -> Option<usize> {
        self.pending_expected_desc_count
    }

    /// The ring has a valid size, one slot per pointer index, and both
    /// pointers lie in the pointer space.
    pub open spec fn ptrs_wf(&self) -> bool {
        &&& valid_ring_exp(BUF_SIZE_EXP)
        &&& self.slots().len() >= ring_size(BUF_SIZE_EXP)
        &&& self.tail_ptr() < ptr_space(BUF_SIZE_EXP)
        &&& self.head_ptr() < ptr_space(BUF_SIZE_EXP)
    }

    /// The scratch buffer holds the first descriptors of exactly one
    /// incomplete element, whose length is recorded, or nothing.
    pub open spec fn assembly_wf(&self) -> bool {
        match self.pending() {
            None => self.scratch().len() == 0,
            Some(c) => {
                &&& 0 < self.scratch().len() < c
                &&& c == E::spec_desc_count(self.scratch()[0])
            },
        }
    }

    /// Well-formedness of the ring.
    pub open spec fn wf(&self) -> bool {
        self.ptrs_wf() && self.assembly_wf()
    }

    /// Everything but the tail pointer and the slots is as in `other`.
    pub open spec fn same_but_tail_and_slots(&self, other: &Self) -> bool {
        &&& self.head_ptr() == other.head_ptr()
        &&& self.buffer_phys() == other.buffer_phys()
        &&& self.scratch() == other.scratch()
        &&& self.pending() == other.pending()
        &&& self.csr() == other.csr()
    }

    /// What one attempt to take an element from a ring in state `self` does,
    /// leading to state `after` and giving `r`: it takes the filled
    /// descriptors from the tail on, clearing their slots, until the element
    /// they continue is complete, which it decodes and gives; or until the
    /// next slot is not filled, keeping what it took for the next attempt.
    pub open spec fn popped(&self, after: &Self, r: Option<E>) -> bool {
        let k = ptr_distance(after.tail_ptr() as int, self.tail_ptr() as int, BUF_SIZE_EXP);
        let taken = run_from(self.slots(), self.tail_ptr(), k, BUF_SIZE_EXP);
        let gathered = self.scratch() + taken;
        &&& k <= ring_size(BUF_SIZE_EXP)
        &&& after.tail_ptr() == ptr_add(self.tail_ptr() as int, k as int, BUF_SIZE_EXP)
        &&& all_valid::<E>(taken)
        &&& after.slots() == write_run(self.slots(), self.tail_ptr(), zeroed_descs(k), BUF_SIZE_EXP)
        &&& after.head_ptr() == self.head_ptr()
        &&& after.buffer_phys() == self.buffer_phys()
        &&& match r {
            Some(e) => {
                &&& gathered.len() >= 1
                &&& gathered.len() == E::spec_desc_count(gathered[0])
                &&& e == E::spec_from_bytes(gathered)
                &&& after.scratch().len() == 0
                &&& after.pending() is None
            },
            None => {
                &&& !E::spec_is_valid(after.slots()[slot_of(after.tail_ptr() as int, BUF_SIZE_EXP) as int])
                &&& after.scratch() == gathered
                &&& gathered.len() == 0 ==> after.pending() is None
                &&& gathered.len() > 0 ==> after.pending() == Some(
                    E::spec_desc_count(gathered[0]) as usize,
                ) && gathered.len() < E::spec_desc_count(gathered[0])
            },
        }
    }

    /// Creates a consumer ring over `buffer`, whose first `2^BUF_SIZE_EXP`
    /// slots form the ring, and tells the card where the ring lives by
    /// writing the buffer's physical address to the base-address register.
    /// Both pointers start at zero; nothing is being gathered.
    pub fn new(buffer: DmaBuffer, mut csr_ring: C) -> (r: Self)
        requires
            valid_ring_exp(BUF_SIZE_EXP),
            buffer.slots().len() >= ring_size(BUF_SIZE_EXP),
        ensures
            r.wf(),
            r.tail_ptr() == 0,
            r.head_ptr() == 0,
            r.slots() == buffer.slots(),
            r.buffer_phys() == buffer.phys(),
            r.pending() is None,
            r.csr().base_addr_writes() == csr_ring.base_addr_writes().push(buffer.phys()),
            r.csr().head_reads() == csr_ring.head_reads(),
            r.csr().tail_writes() == csr_ring.tail_writes(),
    {
        proof {
            lemma_ring_size_facts(BUF_SIZE_EXP);
        }
        csr_ring.write_base_addr(buffer.phys_addr());
        ConsumerRing {
            buffer,
            csr_ring,
            cached_released_tail: RingPtr::zero(),
            cached_hw_head: RingPtr::zero(),
            scratch: Vec::with_capacity(E::max_desc_count()),
            pending_expected_desc_count: None,
            _phantom: PhantomData,
        }
    }

    /// Reads the card's head pointer from its register and caches it. When
    /// the head and the tail designate the same slot the ring may be empty or
    /// full, and no count is given; otherwise returns how many descriptors lie
    /// between the tail and that head.
    pub fn available(&mut self) -> (r: Option<usize>)
        requires
            old(self).wf(),
        ensures
            final(self).wf(),
            final(self).tail_ptr() == old(self).tail_ptr(),
            final(self).slots() == old(self).slots(),
            final(self).buffer_phys() == old(self).buffer_phys(),
            final(self).scratch() == old(self).scratch(),
            final(self).pending() == old(self).pending(),
            final(self).head_read_from(&*old(self)),
            slot_of(final(self).head_ptr() as int, BUF_SIZE_EXP) == slot_of(
                final(self).tail_ptr() as int,
                BUF_SIZE_EXP,
            ) ==> r is None,
            slot_of(final(self).head_ptr() as int, BUF_SIZE_EXP) != slot_of(
                final(self).tail_ptr() as int,
                BUF_SIZE_EXP,
            ) ==> r == Some(
                ptr_distance(
                    final(self).head_ptr() as int,
                    final(self).tail_ptr() as int,
                    BUF_SIZE_EXP,
                ) as usize,
            ),
    {
        let _ = self.read_head_csr();
        let hw_head = self.cached_hw_head;
        if hw_head.has_same_index(self.cached_released_tail) {
            return None;
        }
        let available = hw_head.wrapping_sub(self.cached_released_tail);
        Some(available as usize)
    }

    /// From `before` to `self`, exactly one read of the head register was
    /// made and the cached head is its value reduced to the pointer space;
    /// the base-address and tail registers were not written.
    pub open spec fn head_read_from(&self, before: &Self) -> bool {
        &&& self.csr().head_reads() == before.csr().head_reads().push(
            self.csr().head_reads().last(),
        )
        &&& self.head_ptr() == self.csr().head_reads().last() as int % ptr_space(
            BUF_SIZE_EXP,
        ) as int
        &&& self.csr().base_addr_writes() == before.csr().base_addr_writes()
        &&& self.csr().tail_writes() == before.csr().tail_writes()
    }

    /// Takes the descriptor at the tail, clears its slot and advances the
    /// tail by one.
    pub fn take_desc_and_advance_tail(&mut self) -> (d: RingDesc)
        requires
            old(self).ptrs_wf(),
        ensures
            final(self).ptrs_wf(),
            final(self).same_but_tail_and_slots(&*old(self)),
            d == old(self).slots()[slot_of(old(self).tail_ptr() as int, BUF_SIZE_EXP) as int],
            final(self).slots() == old(self).slots().update(
                slot_of(old(self).tail_ptr() as int, BUF_SIZE_EXP) as int,
                RingDesc::spec_zeroed(),
            ),
            final(self).tail_ptr() == ptr_add(old(self).tail_ptr() as int, 1, BUF_SIZE_EXP),
    {
        proof {
            lemma_ring_size_facts(BUF_SIZE_EXP);
        }
        let index = self.cached_released_tail.index();
        let ret = self.buffer.read(index);
        self.buffer.zero(index);
        self.cached_released_tail = self.cached_released_tail.wrapping_add(1);
        ret
    }

    /// Publishes the tail pointer, guard bit included, by writing it to the
    /// tail register, so that the card can reuse the slots before it.
    pub fn write_tail_csr(&mut self)
        requires
            old(self).wf(),
        ensures
            final(self).wf(),
            final(self).tail_ptr() == old(self).tail_ptr(),
            final(self).slots() == old(self).slots(),
            final(self).head_ptr() == old(self).head_ptr(),
            final(self).buffer_phys() == old(self).buffer_phys(),
            final(self).scratch() == old(self).scratch(),
            final(self).pending() == old(self).pending(),
            final(self).csr().tail_writes() == old(self).csr().tail_writes().push(
                old(self).tail_ptr() as u32,
            ),
            final(self).csr().head_reads() == old(self).csr().head_reads(),
            final(self).csr().base_addr_writes() == old(self).csr().base_addr_writes(),
    {
        self.csr_ring.write_tail(self.cached_released_tail.raw());
    }

    /// Reads the card's head pointer from its register, caches it, keeping
    /// only its `{guard, idx}` bits, and returns the cached value.
    pub fn read_head_csr(&mut self) -> (r: u32)
        requires
            old(self).wf(),
        ensures
            final(self).wf(),
            r == final(self).head_ptr(),
            final(self).head_read_from(&*old(self)),
            final(self).tail_ptr() == old(self).tail_ptr(),
            final(self).slots() == old(self).slots(),
            final(self).buffer_phys() == old(self).buffer_phys(),
            final(self).scratch() == old(self).scratch(),
            final(self).pending() == old(self).pending(),
    {
        let raw = self.csr_ring.read_head();
        let hw_head = RingPtr::<BUF_SIZE_EXP>::new(raw);
        proof {
            lemma_ring_size_facts(BUF_SIZE_EXP);
        }
        self.cached_hw_head = hw_head;
        hw_head.raw()
    }

    /// Takes the descriptor at the tail if it reads as filled.
    pub fn try_read_desc(&mut self) -> (r: Option<RingDesc>)
        requires
            old(self).ptrs_wf(),
        ensures
            final(self).ptrs_wf(),
            final(self).same_but_tail_and_slots(&*old(self)),
            ({
                let s = slot_of(old(self).tail_ptr() as int, BUF_SIZE_EXP) as int;
                if E::spec_is_valid(old(self).slots()[s]) {
                    &&& r == Some(old(self).slots()[s])
                    &&& final(self).slots() == old(self).slots().update(s, RingDesc::spec_zeroed())
                    &&& final(self).tail_ptr() == ptr_add(old(self).tail_ptr() as int, 1, BUF_SIZE_EXP)
                } else {
                    &&& r is None
                    &&& final(self).slots() == old(self).slots()
                    &&& final(self).tail_ptr() == old(self).tail_ptr()
                }
            }),
    {
        let desc = self.buffer.read(self.cached_released_tail.index());
        if E::is_valid(&desc) {
            acquire_fence();
            Some(self.take_desc_and_advance_tail())
        } else {
            None
        }
    }

    /// Takes filled descriptors from the tail on until an element is
    /// complete, and returns it; returns `None` when the next slot is not
    /// filled yet, keeping the descriptors taken so far for the next call.
    /// The tail pointer is not published: no register is accessed.
    pub fn try_pop_without_sync(&mut self) -> (r: Option<E>)
        requires
            old(self).wf(),
        ensures
            final(self).wf(),
            old(self).popped(&*final(self), r),
            final(self).csr() == old(self).csr(),
    {
        let ghost old_tail = self.tail_ptr();
        let ghost old_slots = self.slots();
        let ghost old_scratch = self.scratch();
        let ghost head = self.head_ptr();
        let ghost phys = self.buffer_phys();
        let ghost csr0 = self.csr();
        let ghost mut k: nat = 0;
        proof {
            lemma_ring_size_facts(BUF_SIZE_EXP);
            lemma_write_run_empty(old_slots, old_tail, BUF_SIZE_EXP);
            assert(zeroed_descs(0) =~= Seq::<RingDesc>::empty());
            assert(run_from(old_slots, old_tail, 0, BUF_SIZE_EXP) =~= Seq::<RingDesc>::empty());
            assert(old_scratch + run_from(old_slots, old_tail, 0, BUF_SIZE_EXP) =~= old_scratch);
            lemma_small_mod(old_tail, ptr_space(BUF_SIZE_EXP));
        }
        loop
            invariant
                self.wf(),
                k <= ring_size(BUF_SIZE_EXP),
                self.tail_ptr() == ptr_add(old_tail as int, k as int, BUF_SIZE_EXP),
                self.slots() == write_run(old_slots, old_tail, zeroed_descs(k), BUF_SIZE_EXP),
                old_slots.len() >= ring_size(BUF_SIZE_EXP),
                old_tail < ptr_space(BUF_SIZE_EXP),
                all_valid::<E>(run_from(old_slots, old_tail, k, BUF_SIZE_EXP)),
                self.scratch() == old_scratch + run_from(old_slots, old_tail, k, BUF_SIZE_EXP),
                self.head_ptr() == head,
                self.buffer_phys() == phys,
                self.csr() == csr0,
                old(self).csr() == csr0,
                old(self).tail_ptr() == old_tail,
                old(self).slots() == old_slots,
                old(self).scratch() == old_scratch,
                old(self).head_ptr() == head,
                old(self).buffer_phys() == phys,
            decreases ring_size(BUF_SIZE_EXP) - k,
        {
            let ghost before_slots = self.slots();
            let ghost tail = self.tail_ptr();
            let ghost s = slot_of(tail as int, BUF_SIZE_EXP) as int;
            proof {
                lemma_ring_size_facts(BUF_SIZE_EXP);
                law_slot_of_add(old_tail as int, k as int, BUF_SIZE_EXP);
                vstd::arithmetic::div_mod::lemma_mod_bound(tail as int, ring_size(BUF_SIZE_EXP) as int);
                if k < ring_size(BUF_SIZE_EXP) {
                    lemma_slot_offset(s, old_tail as int, k as int, ring_size(BUF_SIZE_EXP) as int);
                } else {
                    lemma_slot_offset(s, old_tail as int, 0, ring_size(BUF_SIZE_EXP) as int);
                    E::lemma_zeroed_is_invalid();
                }
            }
            let opt = self.try_read_desc();
            match opt {
                None => {
                    proof {
                        law_distance_undoes_add(old_tail, k, BUF_SIZE_EXP);
                        lemma_small_mod(k, ptr_space(BUF_SIZE_EXP));
                    }
                    return None;
                },
                Some(desc) => {
                    let ghost run_k = run_from(old_slots, old_tail, k, BUF_SIZE_EXP);
                    proof {
                        assert(k < ring_size(BUF_SIZE_EXP));
                        assert(desc == old_slots[slot_of(old_tail + k as int, BUF_SIZE_EXP) as int]);
                        lemma_write_run_push(
                            old_slots,
                            old_tail,
                            zeroed_descs(k),
                            RingDesc::spec_zeroed(),
                            BUF_SIZE_EXP,
                        );
                        assert(zeroed_descs(k).push(RingDesc::spec_zeroed()) =~= zeroed_descs(k + 1));
                        assert(run_from(old_slots, old_tail, k + 1, BUF_SIZE_EXP) =~= run_k.push(desc));
                        law_add_composes(old_tail as int, k as int, 1, BUF_SIZE_EXP);
                        k = k + 1;
                        assert((old_scratch + run_k).push(desc) =~= old_scratch + run_from(
                            old_slots,
                            old_tail,
                            k,
                            BUF_SIZE_EXP,
                        ));
                        law_distance_undoes_add(old_tail, k, BUF_SIZE_EXP);
                        lemma_small_mod(k, ptr_space(BUF_SIZE_EXP));
                    }
                    match self.pending_expected_desc_count {
                        Some(pending_count) => {
                            self.scratch.push(desc);
                            if self.scratch.len() == pending_count {
                                self.pending_expected_desc_count = None;
                                let elem = E::from_bytes(self.scratch.as_slice());
                                self.scratch.clear();
                                return Some(elem);
                            }
                        },
                        None => {
                            let desc_count = E::desc_count(&desc);
                            proof {
                                E::lemma_desc_count_positive(desc);
                            }
                            if desc_count == 1 {
                                let one = [desc];
                                proof {
                                    assert(one@ =~= old_scratch + run_from(
                                        old_slots,
                                        old_tail,
                                        k,
                                        BUF_SIZE_EXP,
                                    ));
                                }
                                return Some(E::from_bytes(one.as_slice()));
                            } else {
                                self.scratch.push(desc);
                                self.pending_expected_desc_count = Some(desc_count);
                            }
                        },
                    }
                },
            }
        }
    }

    /// Like [`Self::try_pop_without_sync`], and publishes the tail pointer,
    /// guard bit included, with one write to the tail register when an
    /// element is returned; when none is, no register is accessed.
    pub fn try_pop(&mut self) -> (r: Option<E>)
        requires
            old(self).wf(),
        ensures
            final(self).wf(),
            old(self).popped(&*final(self), r),
            final(self).csr().head_reads() == old(self).csr().head_reads(),
            final(self).csr().base_addr_writes() == old(self).csr().base_addr_writes(),
            r is Some ==> final(self).csr().tail_writes() == old(self).csr().tail_writes().push(
                final(self).tail_ptr() as u32,
            ),
            r is None ==> final(self).csr() == old(self).csr(),
    {
        let elem = self.try_pop_without_sync();
        if elem.is_some() {
            self.write_tail_csr();
        }
        elem
    }

    /// The host's tail pointer.
    pub fn tail(&self) -> (r: u32)
        ensures
            r == self.tail_ptr(),
    {
        self.cached_released_tail.raw()
    }

    /// The cached head pointer of the card, which may be stale.
    pub fn cached_head(&self) -> (r: u32)
        ensures
            r == self.head_ptr(),
    {
        self.cached_hw_head.raw()
    }

    /// Fills slot `index` with `desc`, as the card does when it writes a
    /// descriptor into the ring's memory. Nothing else changes.
    pub fn card_write_slot(&mut self, index: u32, desc: RingDesc)
        requires
            old(self).wf(),
            index < ring_size(BUF_SIZE_EXP),
        ensures
            final(self).wf(),
            final(self).slots() == old(self).slots().update(index as int, desc),
            final(self).tail_ptr() == old(self).tail_ptr(),
            final(self).same_but_tail_and_slots(&*old(self)),
    {
        self.buffer.write(index, desc);
    }
}

} // verus!
