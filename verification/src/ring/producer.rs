//! Producer ring: the host writes descriptors for the card to consume.
//!
//! The host owns the head pointer; the card owns the tail pointer, which the
//! host reads lazily through a register and caches. Both pointers carry a
//! guard bit, so a full ring (head one whole ring ahead of the tail) and an
//! empty ring (head equal to the tail) differ.
use vstd::prelude::*;
use core::marker::PhantomData;
use crate::ring::csr::{CsrError, WriterOps, release_fence};
use crate::ring::desc_ring::{DmaBuffer, RingDesc};
use crate::ring::ring_ptr::{RingPtr, ring_size, ptr_space, valid_ring_exp, slot_of, ptr_add, lemma_ring_size_facts, lemma_mod_near, lemma_wrap_invisible_slots, lemma_slot_offset};
use crate::ring::traits::ToRingBytes;
use vstd::arithmetic::div_mod::lemma_small_mod;

verus! {

/// Free slots seen by a producer whose head pointer is `head` and whose last
/// known tail pointer is `tail`.
pub open spec fn producer_available(head: nat, tail: nat, exp: u32) -> nat {
    let n = ring_size(exp) as int;
    let used = (head - tail) % n;
    if used == 0 {
        if head == tail {
            n as nat
        } else {
            0
        }
    } else {
        (n - used) as nat
    }
}

/// The slots after writing `descs` one by one into consecutive slots from the
/// slot of pointer `start` on (at most one ring's worth of them). Only the
/// first `2^exp` slots belong to the ring; any further slot is left as it is.
pub open spec fn write_run(slots: Seq<RingDesc>, start: nat, descs: Seq<RingDesc>, exp: u32) -> Seq<
    RingDesc,
> {
    Seq::new(
        slots.len(),
        |j: int|
            {
                let off = (j - start) % (ring_size(exp) as int);
                if j < ring_size(exp) && off < descs.len() {
                    descs[off]
                } else {
                    slots[j]
                }
            },
    )
}

/// The descriptors that carry `es`.
pub open spec fn descs_of<E: ToRingBytes>(es: Seq<E>) -> Seq<RingDesc> {
    es.map_values(|e: E| e.spec_to_bytes())
}

/// `es` are values that `writer` gives for `0, 1, ...` in turn.
pub open spec fn produced_by<E, F: Fn(u32) -> E>(writer: F, es: Seq<E>) -> bool {
    forall|i: int| 0 <= i < es.len() ==> call_ensures(writer, (i as u32,), #[trigger] es[i])
}

/// `new_slots` are `old_slots` after writing the descriptors of `es` from the
/// slot of pointer `head` on.
pub open spec fn writes_elements<E: ToRingBytes>(
    old_slots: Seq<RingDesc>,
    head: nat,
    es: Seq<E>,
    new_slots: Seq<RingDesc>,
    exp: u32,
) -> bool {
    new_slots == write_run(old_slots, head, descs_of(es), exp)
}

/// `new_slots` are `old_slots` after writing, from the slot of pointer `head`
/// on, the descriptors of the `count` elements that `writer` gives for
/// `0, 1, ..., count - 1`.
pub open spec fn batch_written<E: ToRingBytes, F: Fn(u32) -> E>(
    old_slots: Seq<RingDesc>,
    head: nat,
    writer: F,
    count: nat,
    new_slots: Seq<RingDesc>,
    exp: u32,
) -> bool {
    exists|es: Seq<E>|
        es.len() == count && produced_by(writer, es) && #[trigger] writes_elements(
            old_slots,
            head,
            es,
            new_slots,
            exp,
        )
}

/// Writing one more descriptor extends the run by the next slot.
pub proof fn lemma_write_run_push(
    slots: Seq<RingDesc>,
    start: nat,
    descs: Seq<RingDesc>,
    d: RingDesc,
    exp: u32,
)
    requires
        valid_ring_exp(exp),
        slots.len() >= ring_size(exp),
        descs.len() < ring_size(exp),
    ensures
        write_run(slots, start, descs.push(d), exp) == write_run(slots, start, descs, exp).update(
            slot_of(start + descs.len() as int, exp) as int,
            d,
        ),
{
    lemma_ring_size_facts(exp);
    let n = ring_size(exp) as int;
    let s = slot_of(start + descs.len() as int, exp) as int;
    vstd::arithmetic::div_mod::lemma_mod_bound(start + descs.len() as int, n);
    let lhs = write_run(slots, start, descs.push(d), exp);
    let rhs = write_run(slots, start, descs, exp).update(s, d);
    assert forall|j: int| 0 <= j < slots.len() implies lhs[j] == rhs[j] by {
        if j < n {
            lemma_slot_offset(j, start as int, descs.len() as int, n);
        }
        vstd::arithmetic::div_mod::lemma_mod_bound(j - start, n);
    }
    assert(lhs =~= rhs);
}

/// Writing nothing leaves the slots as they are.
pub proof fn lemma_write_run_empty(slots: Seq<RingDesc>, start: nat, exp: u32)
    requires
        valid_ring_exp(exp),
    ensures
        write_run(slots, start, Seq::empty(), exp) == slots,
{
    lemma_ring_size_facts(exp);
    assert forall|j: int| 0 <= j < slots.len() implies write_run(slots, start, Seq::empty(), exp)[j]
        == slots[j] by {
        vstd::arithmetic::div_mod::lemma_mod_bound(j - start, ring_size(exp) as int);
    }
    assert(write_run(slots, start, Seq::empty(), exp) =~= slots);
}

/// The free-slot count computed with wrapping 32-bit arithmetic.
proof fn lemma_available_arith(head: nat, tail: nat, idx: u32, used: u32, exp: u32)
    requires
        valid_ring_exp(exp),
        tail < ptr_space(exp),
        idx == slot_of(head as int, exp),
        used as int == ((idx as int - tail as int) % 0x1_0000_0000 + ring_size(exp) as int)
            % 0x1_0000_0000 % ring_size(exp) as int,
    ensures
        used as int == (head - tail) % (ring_size(exp) as int),
{
    lemma_ring_size_facts(exp);
    let n = ring_size(exp) as int;
    let x = idx as int - tail as int;
    let w = 0x1_0000_0000int;
    lemma_mod_near(x, w);
    let ws = x % w;
    lemma_mod_near(ws + n, w);
    lemma_wrap_invisible_slots(x + n, exp);
    lemma_wrap_invisible_slots(x + n + w, exp);
    assert((ws + n) % w % n == (x + n) % n);
    vstd::arithmetic::div_mod::lemma_mod_add_multiples_vanish(x, n);
    vstd::arithmetic::div_mod::lemma_fundamental_div_mod(head as int, n);
    vstd::arithmetic::div_mod::lemma_mod_multiples_vanish(-(head as int / n), head - tail, n);
    assert(n * (-(head as int / n)) + (head - tail) == x) by (nonlinear_arith)
        requires
            head as int == n * (head as int / n) + (head as int % n),
            idx as int == head as int % n,
            x == idx as int - tail as int,
    ;
}

/// `after` is `before` followed by zero or more further entries.
pub open spec fn extends<T>(before: Seq<T>, after: Seq<T>) -> bool {
    before.len() <= after.len() && after.subrange(0, before.len() as int) == before
}

/// The cached tail follows the reads of the tail register: it is unchanged
/// when no read was made, and otherwise the last value read, reduced to the
/// pointer space.
pub open spec fn tail_follows_reads(
    before_reads: Seq<u32>,
    after_reads: Seq<u32>,
    before_tail: nat,
    after_tail: nat,
    exp: u32,
) -> bool {
    &&& extends(before_reads, after_reads)
    &&& after_reads.len() == before_reads.len() ==> after_tail == before_tail
    &&& after_reads.len() > before_reads.len() ==> after_tail == after_reads.last() as int % ptr_space(
        exp,
    ) as int
}

/// Following the reads is transitive over consecutive steps.
pub proof fn lemma_tail_follows_trans(
    r0: Seq<u32>,
    r1: Seq<u32>,
    r2: Seq<u32>,
    t0: nat,
    t1: nat,
    t2: nat,
    exp: u32,
)
    requires
        tail_follows_reads(r0, r1, t0, t1, exp),
        tail_follows_reads(r1, r2, t1, t2, exp),
    ensures
        tail_follows_reads(r0, r2, t0, t2, exp),
{
    assert(r2.subrange(0, r0.len() as int) =~= r2.subrange(0, r1.len() as int).subrange(
        0,
        r0.len() as int,
    ));
}

/// Producer-side ring buffer that writes descriptors for the card.
pub struct ProducerRing<C, E, const BUF_SIZE_EXP: u32> {
    buffer: DmaBuffer,
    csr_ring: C,
    cached_head: RingPtr<BUF_SIZE_EXP>,
    cached_hw_tail: RingPtr<BUF_SIZE_EXP>,
    _phantom: PhantomData<E>,
}

impl<C: WriterOps, E: ToRingBytes, const BUF_SIZE_EXP: u32> ProducerRing<C, E, BUF_SIZE_EXP> {
    /// The host's head pointer.
    pub closed spec fn head_ptr(&self) -> nat {
        self.cached_head@
    }

    /// The last known tail pointer of the card.
    pub closed spec fn tail_ptr(&self) -> nat {
        self.cached_hw_tail@
    }

    /// The descriptor slots.
    pub closed spec fn slots(&self) -> Seq<RingDesc> {
        self.buffer.slots()
    }

    /// Physical address of the descriptor slots.
    pub closed spec fn buffer_phys(&self) -> u64 {
        self.buffer.phys()
    }

    /// The register handle, with the history of its accesses.
    pub closed spec fn csr(&self) -> C {
        self.csr_ring
    }

    /// Free slots as the producer currently sees them.
    pub open spec fn spec_available(&self) -> nat {
        producer_available(self.head_ptr(), self.tail_ptr(), BUF_SIZE_EXP)
    }

    /// The ring has a valid size, one slot per pointer index, and both
    /// pointers lie in the pointer space.
    pub open spec fn wf(&self) -> bool {
        &&& valid_ring_exp(BUF_SIZE_EXP)
        &&& self.slots().len() == ring_size(BUF_SIZE_EXP)
        &&& self.head_ptr() < ptr_space(BUF_SIZE_EXP)
        &&& self.tail_ptr() < ptr_space(BUF_SIZE_EXP)
    }

    /// From `before` to `self`, the cached tail followed the reads of the
    /// tail register, and the base-address register was not written.
    pub open spec fn tail_synced_from(&self, before: &Self) -> bool {
        &&& tail_follows_reads(
            before.csr().tail_reads(),
            self.csr().tail_reads(),
            before.tail_ptr(),
            self.tail_ptr(),
            BUF_SIZE_EXP,
        )
        &&& self.csr().base_writes() == before.csr().base_writes()
    }

    /// Creates a producer ring over `buffer` and tells the card where the
    /// ring lives by writing the buffer's physical address to the
    /// base-address register. Both pointers start at zero. Returns an error
    /// exactly when that register write fails.
    pub fn new(buffer: DmaBuffer, mut csr_ring: C) -> (r: Result<Self, CsrError>)
        requires
            valid_ring_exp(BUF_SIZE_EXP),
            buffer.slots().len() == ring_size(BUF_SIZE_EXP),
        ensures
            r is Ok <==> csr_ring.base_write_succeeds(buffer.phys()),
            r matches Ok(ring) ==> {
                &&& ring.wf()
                &&& ring.head_ptr() == 0
                &&& ring.tail_ptr() == 0
                &&& ring.slots() == buffer.slots()
                &&& ring.buffer_phys() == buffer.phys()
                &&& ring.csr().base_writes() == csr_ring.base_writes().push(buffer.phys())
                &&& ring.csr().head_writes() == csr_ring.head_writes()
                &&& ring.csr().tail_reads() == csr_ring.tail_reads()
                &&& ring.csr().failed_accesses() == csr_ring.failed_accesses()
            },
    {
        proof {
            lemma_ring_size_facts(BUF_SIZE_EXP);
        }
        match csr_ring.write_base_addr(buffer.phys_addr()) {
            Ok(()) => {},
            Err(e) => {
                return Err(e);
            },
        }
        Ok(ProducerRing {
            buffer,
            csr_ring,
            cached_head: RingPtr::zero(),
            cached_hw_tail: RingPtr::zero(),
            _phantom: PhantomData,
        })
    }

    /// Free slots according to the cached tail pointer.
    fn cached_available(&self) -> (n: u32)
        requires
            self.wf(),
        ensures
            n == self.spec_available(),
    {
        proof {
            lemma_ring_size_facts(BUF_SIZE_EXP);
        }
        let hw_tail = self.cached_hw_tail;
        if self.cached_head.has_same_index(hw_tail) {
            if self.cached_head.has_same_raw(hw_tail) {
                proof {
                    lemma_small_mod(0, ring_size(BUF_SIZE_EXP));
                }
                return RingPtr::<BUF_SIZE_EXP>::buf_size();
            } else {
                proof {
                    lemma_ring_size_facts(BUF_SIZE_EXP);
                    vstd::arithmetic::div_mod::lemma_mod_equivalence(
                        self.head_ptr() as int,
                        self.tail_ptr() as int,
                        ring_size(BUF_SIZE_EXP) as int,
                    );
                }
                return 0;
            }
        }
        let n = RingPtr::<BUF_SIZE_EXP>::buf_size();
        let mask = RingPtr::<BUF_SIZE_EXP>::buf_size_mask();
        let idx = self.cached_head.index();
        let tail_raw = hw_tail.raw();
        let used = idx.wrapping_sub(tail_raw).wrapping_add(n) & mask;
        proof {
            lemma_ring_size_facts(BUF_SIZE_EXP);
            let d = idx.wrapping_sub(tail_raw);
            lemma_mod_near(idx as int - tail_raw as int, 0x1_0000_0000);
            lemma_mod_near(d as int + n as int, 0x1_0000_0000);
            vstd::bits::lemma_u32_low_bits_mask_is_mod(d.wrapping_add(n), BUF_SIZE_EXP as nat);
            lemma_available_arith(self.head_ptr(), self.tail_ptr(), idx, used, BUF_SIZE_EXP);
            vstd::arithmetic::div_mod::lemma_mod_equivalence(
                self.head_ptr() as int,
                self.tail_ptr() as int,
                ring_size(BUF_SIZE_EXP) as int,
            );
        }
        n - used
    }

    /// Reads the card's tail pointer from its register, caches it, and
    /// returns the number of free slots. On a failed read nothing changes.
    pub fn available(&mut self) -> (r: Result<u32, CsrError>)
        requires
            old(self).wf(),
        ensures
            final(self).wf(),
            final(self).head_ptr() == old(self).head_ptr(),
            final(self).slots() == old(self).slots(),
            final(self).buffer_phys() == old(self).buffer_phys(),
            final(self).csr().head_writes() == old(self).csr().head_writes(),
            final(self).tail_synced_from(&*old(self)),
            match r {
                Ok(n) => {
                    &&& final(self).csr().tail_reads().len() == old(self).csr().tail_reads().len() + 1
                    &&& n == final(self).spec_available()
                    &&& final(self).csr().failed_accesses() == old(self).csr().failed_accesses()
                },
                Err(_) => {
                    &&& final(self).csr().tail_reads() == old(self).csr().tail_reads()
                    &&& final(self).csr().failed_accesses() == old(self).csr().failed_accesses()
                        + 1
                },
            },
    {
        match self.sync_tail() {
            Ok(()) => {},
            Err(e) => {
                return Err(e);
            },
        }
        Ok(self.cached_available())
    }

    /// The host's head pointer.
    pub fn head(&self) -> (r: u32)
        ensures
            r == self.head_ptr(),
    {
        self.cached_head.raw()
    }

    /// The cached tail pointer of the card, which may be stale.
    pub fn cached_tail(&self) -> (r: u32)
        ensures
            r == self.tail_ptr(),
    {
        self.cached_hw_tail.raw()
    }

    /// Caches `raw`, a value read from the tail register, keeping only its
    /// `{guard, idx}` bits.
    pub fn set_cached_tail(&mut self, raw: u32)
        requires
            old(self).wf(),
        ensures
            final(self).wf(),
            final(self).tail_ptr() == raw as int % ptr_space(BUF_SIZE_EXP) as int,
            final(self).head_ptr() == old(self).head_ptr(),
            final(self).slots() == old(self).slots(),
            final(self).buffer_phys() == old(self).buffer_phys(),
            final(self).csr() == old(self).csr(),
    {
        proof {
            lemma_ring_size_facts(BUF_SIZE_EXP);
        }
        self.cached_hw_tail = RingPtr::<BUF_SIZE_EXP>::new(raw);
    }

    /// Reads the card's tail pointer from its register and caches it. On a
    /// failed read nothing changes.
    pub fn sync_tail(&mut self) -> (r: Result<(), CsrError>)
        requires
            old(self).wf(),
        ensures
            final(self).wf(),
            final(self).head_ptr() == old(self).head_ptr(),
            final(self).slots() == old(self).slots(),
            final(self).buffer_phys() == old(self).buffer_phys(),
            final(self).csr().head_writes() == old(self).csr().head_writes(),
            final(self).tail_synced_from(&*old(self)),
            r is Ok ==> final(self).csr().tail_reads().len() == old(self).csr().tail_reads().len()
                + 1,
            r is Ok ==> final(self).csr().failed_accesses() == old(self).csr().failed_accesses(),
            r is Err ==> final(self).csr().tail_reads() == old(self).csr().tail_reads(),
            r is Err ==> final(self).csr().failed_accesses() == old(self).csr().failed_accesses()
                + 1,
    {
        let raw = match self.csr_ring.read_tail() {
            Ok(raw) => raw,
            Err(e) => {
                proof {
                    assert(self.csr().tail_reads().subrange(0, self.csr().tail_reads().len() as int)
                        =~= self.csr().tail_reads());
                }
                return Err(e);
            },
        };
        proof {
            assert(self.csr().tail_reads().subrange(0, old(self).csr().tail_reads().len() as int)
                =~= old(self).csr().tail_reads());
        }
        self.set_cached_tail(raw);
        Ok(())
    }

    /// Writes `head` to the head register, unmasked, and caches it, keeping
    /// only its `{guard, idx}` bits. On failure nothing changes.
    pub fn force_set_head(&mut self, head: u32) -> (r: Result<(), CsrError>)
        requires
            old(self).wf(),
        ensures
            final(self).wf(),
            final(self).tail_ptr() == old(self).tail_ptr(),
            final(self).slots() == old(self).slots(),
            final(self).buffer_phys() == old(self).buffer_phys(),
            final(self).csr().tail_reads() == old(self).csr().tail_reads(),
            final(self).csr().base_writes() == old(self).csr().base_writes(),
            r is Ok ==> {
                &&& final(self).head_ptr() == head as int % ptr_space(BUF_SIZE_EXP) as int
                &&& final(self).csr().head_writes() == old(self).csr().head_writes().push(head)
                &&& final(self).csr().failed_accesses() == old(self).csr().failed_accesses()
            },
            r is Err ==> {
                &&& final(self).head_ptr() == old(self).head_ptr()
                &&& final(self).csr().head_writes() == old(self).csr().head_writes()
                &&& final(self).csr().failed_accesses() == old(self).csr().failed_accesses() + 1
            },
    {
        match self.csr_ring.write_head(head) {
            Ok(()) => {},
            Err(e) => {
                return Err(e);
            },
        }
        proof {
            lemma_ring_size_facts(BUF_SIZE_EXP);
        }
        self.cached_head = RingPtr::new(head);
        Ok(())
    }

    /// Successful reads of the tail register from `before` to `self`.
    pub open spec fn tail_reads_since(&self, before: &Self) -> int {
        self.csr().tail_reads().len() - before.csr().tail_reads().len()
    }

    /// Failed register accesses from `before` to `self`.
    pub open spec fn failures_since(&self, before: &Self) -> int {
        self.csr().failed_accesses() - before.csr().failed_accesses()
    }

    /// Writes the `count` elements that `writer` gives for
    /// `0, 1, ..., count - 1` into consecutive slots from the head on, then
    /// publishes the new head, guard bit included, with one write to the
    /// head register.
    ///
    /// Returns `Ok(count)` once they are published, and `Ok(0)` when `count` is
    /// zero, exceeds the ring, or exceeds the free slots even after the tail
    /// register was read again; then nothing is written. The free slots are
    /// counted by `available`, which reads the tail register. An error is
    /// returned exactly when a register access fails, and stops the call there.
    pub fn batch_write<F: Fn(u32) -> E>(&mut self, count: u32, writer: F) -> (r: Result<
        u32,
        CsrError,
    >)
        requires
            old(self).wf(),
            forall|i: u32| i < count ==> call_requires(writer, (i,)),
        ensures
            final(self).wf(),
            final(self).buffer_phys() == old(self).buffer_phys(),
            final(self).tail_synced_from(&*old(self)),
            r is Ok <==> final(self).failures_since(&*old(self)) == 0,
            r is Err ==> final(self).failures_since(&*old(self)) == 1,
            count == 0 || count > ring_size(BUF_SIZE_EXP) ==> {
                &&& r == Ok::<u32, CsrError>(0)
                &&& final(self).head_ptr() == old(self).head_ptr()
                &&& final(self).tail_ptr() == old(self).tail_ptr()
                &&& final(self).slots() == old(self).slots()
                &&& final(self).csr().tail_reads() == old(self).csr().tail_reads()
                &&& final(self).csr().head_writes() == old(self).csr().head_writes()
            },
            r == Ok::<u32, CsrError>(0) && 0 < count <= ring_size(BUF_SIZE_EXP) ==> {
                &&& final(self).tail_reads_since(&*old(self)) == 3
                &&& producer_available(old(self).head_ptr(), final(self).tail_ptr(), BUF_SIZE_EXP)
                    < count
                &&& final(self).head_ptr() == old(self).head_ptr()
                &&& final(self).slots() == old(self).slots()
                &&& final(self).csr().head_writes() == old(self).csr().head_writes()
            },
            r matches Ok(n) ==> n == 0 || {
                &&& n == count
                &&& final(self).tail_reads_since(&*old(self)) == 1
                    || final(self).tail_reads_since(&*old(self)) == 3
                &&& count <= producer_available(
                    old(self).head_ptr(),
                    final(self).tail_ptr(),
                    BUF_SIZE_EXP,
                )
                &&& final(self).head_ptr() == ptr_add(
                    old(self).head_ptr() as int,
                    count as int,
                    BUF_SIZE_EXP,
                )
                &&& batch_written(
                    old(self).slots(),
                    old(self).head_ptr(),
                    writer,
                    count as nat,
                    final(self).slots(),
                    BUF_SIZE_EXP,
                )
                &&& final(self).csr().head_writes() == old(self).csr().head_writes().push(
                    final(self).head_ptr() as u32,
                )
            },
            r is Err ==> {
                &&& final(self).head_ptr() == old(self).head_ptr()
                &&& final(self).csr().head_writes() == old(self).csr().head_writes()
                &&& {
                    ||| {
                        &&& final(self).slots() == old(self).slots()
                        &&& 0 <= final(self).tail_reads_since(&*old(self)) <= 2
                    }
                    ||| {
                        &&& final(self).tail_reads_since(&*old(self)) == 1
                            || final(self).tail_reads_since(&*old(self)) == 3
                        &&& count <= producer_available(
                            old(self).head_ptr(),
                            final(self).tail_ptr(),
                            BUF_SIZE_EXP,
                        )
                        &&& batch_written(
                            old(self).slots(),
                            old(self).head_ptr(),
                            writer,
                            count as nat,
                            final(self).slots(),
                            BUF_SIZE_EXP,
                        )
                    }
                }
            },
    {
        let ghost s0 = *self;
        if count == 0 {
            proof {
                assert(self.csr().tail_reads().subrange(0, self.csr().tail_reads().len() as int)
                    =~= self.csr().tail_reads());
            }
            return Ok(0);
        }
        if count > RingPtr::<BUF_SIZE_EXP>::buf_size() {
            proof {
                assert(self.csr().tail_reads().subrange(0, self.csr().tail_reads().len() as int)
                    =~= self.csr().tail_reads());
            }
            return Ok(0);
        }
        let avail = match self.available() {
            Ok(a) => a,
            Err(e) => {
                return Err(e);
            },
        };
        if avail < count {
            let ghost s1 = *self;
            match self.sync_tail() {
                Ok(()) => {},
                Err(e) => {
                    proof {
                        lemma_tail_follows_trans(
                            s0.csr().tail_reads(),
                            s1.csr().tail_reads(),
                            self.csr().tail_reads(),
                            s0.tail_ptr(),
                            s1.tail_ptr(),
                            self.tail_ptr(),
                            BUF_SIZE_EXP,
                        );
                    }
                    return Err(e);
                },
            }
            let ghost s2 = *self;
            proof {
                lemma_tail_follows_trans(
                    s0.csr().tail_reads(),
                    s1.csr().tail_reads(),
                    s2.csr().tail_reads(),
                    s0.tail_ptr(),
                    s1.tail_ptr(),
                    s2.tail_ptr(),
                    BUF_SIZE_EXP,
                );
            }
            let avail = match self.available() {
                Ok(a) => a,
                Err(e) => {
                    proof {
                        lemma_tail_follows_trans(
                            s0.csr().tail_reads(),
                            s2.csr().tail_reads(),
                            self.csr().tail_reads(),
                            s0.tail_ptr(),
                            s2.tail_ptr(),
                            self.tail_ptr(),
                            BUF_SIZE_EXP,
                        );
                    }
                    return Err(e);
                },
            };
            proof {
                lemma_tail_follows_trans(
                    s0.csr().tail_reads(),
                    s2.csr().tail_reads(),
                    self.csr().tail_reads(),
                    s0.tail_ptr(),
                    s2.tail_ptr(),
                    self.tail_ptr(),
                    BUF_SIZE_EXP,
                );
            }
            if avail < count {
                return Ok(0);
            }
        }
        let ghost s3 = *self;
        assert(s3.tail_reads_since(&s0) == 1 || s3.tail_reads_since(&s0) == 3);
        assert(s3.failures_since(&s0) == 0);
        let start_head = self.cached_head;
        let ghost old_slots = self.buffer.slots();
        let ghost tail = self.cached_hw_tail;
        let ghost phys = self.buffer.phys();
        let ghost csr0 = self.csr_ring;
        let ghost mut es: Seq<E> = Seq::empty();
        proof {
            lemma_write_run_empty(old_slots, start_head@, BUF_SIZE_EXP);
            assert(descs_of(es) =~= Seq::<RingDesc>::empty());
        }
        let mut i: u32 = 0;
        while i < count
            invariant
                valid_ring_exp(BUF_SIZE_EXP),
                i <= count,
                count <= ring_size(BUF_SIZE_EXP),
                forall|k: u32| k < count ==> call_requires(writer, (k,)),
                self.buffer.slots() == write_run(old_slots, start_head@, descs_of(es), BUF_SIZE_EXP),
                self.buffer.phys() == phys,
                old_slots.len() == ring_size(BUF_SIZE_EXP),
                es.len() == i,
                produced_by(writer, es),
                self.cached_head == start_head,
                self.cached_hw_tail == tail,
                self.csr_ring == csr0,
            decreases count - i,
        {
            let value = writer(i);
            let bytes = value.to_bytes();
            let index = start_head.add_index(i);
            proof {
                lemma_write_run_push(old_slots, start_head@, descs_of(es), bytes, BUF_SIZE_EXP);
                assert(descs_of(es.push(value)) =~= descs_of(es).push(bytes));
            }
            self.buffer.write(index, bytes);
            proof {
                let old_es = es;
                es = es.push(value);
                assert forall|k: int| 0 <= k < es.len() implies call_ensures(
                    writer,
                    (k as u32,),
                    #[trigger] es[k],
                ) by {
                    if k < old_es.len() {
                        assert(es[k] == old_es[k]);
                    }
                }
            }
            i = i + 1;
        }
        proof {
            assert(writes_elements(old_slots, start_head@, es, self.buffer.slots(), BUF_SIZE_EXP));
        }
        release_fence();
        let new_head = start_head.wrapping_add(count);
        match self.csr_ring.write_head(new_head.raw()) {
            Ok(()) => {},
            Err(e) => {
                return Err(e);
            },
        }
        self.cached_head = new_head;
        proof {
            lemma_ring_size_facts(BUF_SIZE_EXP);
        }
        Ok(count)
    }

    /// Writes all of `elements` into consecutive slots from the head on and
    /// publishes the new head, guard bit included, with one write to the head
    /// register, or writes none of them. The tail register is read by
    /// `sync_tail`, then by two counts of `available`, and once more by each
    /// when the free slots do not suffice. An error is returned exactly when
    /// a register access fails, and stops the call there.
    ///
    /// Returns `Ok(true)` once all are published and `Ok(false)` when they do
    /// not fit.
    pub fn try_push_atomic(&mut self, elements: &[E]) -> (r: Result<bool, CsrError>)
        requires
            old(self).wf(),
        ensures
            final(self).wf(),
            final(self).buffer_phys() == old(self).buffer_phys(),
            final(self).tail_synced_from(&*old(self)),
            r is Ok <==> final(self).failures_since(&*old(self)) == 0,
            r is Err ==> final(self).failures_since(&*old(self)) == 1,
            r == Ok::<bool, CsrError>(true) ==> {
                &&& final(self).tail_reads_since(&*old(self)) == 3
                    || final(self).tail_reads_since(&*old(self)) == 5
                &&& elements@.len() <= producer_available(
                    old(self).head_ptr(),
                    final(self).tail_ptr(),
                    BUF_SIZE_EXP,
                )
                &&& final(self).head_ptr() == ptr_add(
                    old(self).head_ptr() as int,
                    elements@.len() as int,
                    BUF_SIZE_EXP,
                )
                &&& writes_elements(
                    old(self).slots(),
                    old(self).head_ptr(),
                    elements@,
                    final(self).slots(),
                    BUF_SIZE_EXP,
                )
                &&& final(self).csr().head_writes() == old(self).csr().head_writes().push(
                    final(self).head_ptr() as u32,
                )
            },
            r == Ok::<bool, CsrError>(false) ==> {
                &&& final(self).tail_reads_since(&*old(self)) == 5
                &&& elements@.len() > producer_available(
                    old(self).head_ptr(),
                    final(self).tail_ptr(),
                    BUF_SIZE_EXP,
                )
                &&& final(self).head_ptr() == old(self).head_ptr()
                &&& final(self).slots() == old(self).slots()
                &&& final(self).csr().head_writes() == old(self).csr().head_writes()
            },
            r is Err ==> {
                &&& final(self).head_ptr() == old(self).head_ptr()
                &&& final(self).csr().head_writes() == old(self).csr().head_writes()
                &&& {
                    ||| {
                        &&& final(self).slots() == old(self).slots()
                        &&& 0 <= final(self).tail_reads_since(&*old(self)) <= 4
                    }
                    ||| {
                        &&& final(self).tail_reads_since(&*old(self)) == 3
                            || final(self).tail_reads_since(&*old(self)) == 5
                        &&& elements@.len() <= producer_available(
                            old(self).head_ptr(),
                            final(self).tail_ptr(),
                            BUF_SIZE_EXP,
                        )
                        &&& writes_elements(
                            old(self).slots(),
                            old(self).head_ptr(),
                            elements@,
                            final(self).slots(),
                            BUF_SIZE_EXP,
                        )
                    }
                }
            },
    {
        let ghost s0 = *self;
        match self.sync_tail() {
            Ok(()) => {},
            Err(e) => {
                return Err(e);
            },
        }
        let ghost s1 = *self;
        // The first count is not used; like every count it refreshes the
        // cached tail.
        match self.available() {
            Ok(_) => {},
            Err(e) => {
                proof {
                    lemma_tail_follows_trans(
                        s0.csr().tail_reads(),
                        s1.csr().tail_reads(),
                        self.csr().tail_reads(),
                        s0.tail_ptr(),
                        s1.tail_ptr(),
                        self.tail_ptr(),
                        BUF_SIZE_EXP,
                    );
                }
                return Err(e);
            },
        }
        let ghost s2 = *self;
        proof {
            lemma_tail_follows_trans(
                s0.csr().tail_reads(),
                s1.csr().tail_reads(),
                s2.csr().tail_reads(),
                s0.tail_ptr(),
                s1.tail_ptr(),
                s2.tail_ptr(),
                BUF_SIZE_EXP,
            );
        }
        let avail = match self.available() {
            Ok(a) => a,
            Err(e) => {
                proof {
                    lemma_tail_follows_trans(
                        s0.csr().tail_reads(),
                        s2.csr().tail_reads(),
                        self.csr().tail_reads(),
                        s0.tail_ptr(),
                        s2.tail_ptr(),
                        self.tail_ptr(),
                        BUF_SIZE_EXP,
                    );
                }
                return Err(e);
            },
        };
        proof {
            lemma_tail_follows_trans(
                s0.csr().tail_reads(),
                s2.csr().tail_reads(),
                self.csr().tail_reads(),
                s0.tail_ptr(),
                s2.tail_ptr(),
                self.tail_ptr(),
                BUF_SIZE_EXP,
            );
        }
        if (avail as usize) < elements.len() {
            let ghost s3 = *self;
            match self.sync_tail() {
                Ok(()) => {},
                Err(e) => {
                    proof {
                        lemma_tail_follows_trans(
                            s0.csr().tail_reads(),
                            s3.csr().tail_reads(),
                            self.csr().tail_reads(),
                            s0.tail_ptr(),
                            s3.tail_ptr(),
                            self.tail_ptr(),
                            BUF_SIZE_EXP,
                        );
                    }
                    return Err(e);
                },
            }
            let ghost s4 = *self;
            proof {
                lemma_tail_follows_trans(
                    s0.csr().tail_reads(),
                    s3.csr().tail_reads(),
                    s4.csr().tail_reads(),
                    s0.tail_ptr(),
                    s3.tail_ptr(),
                    s4.tail_ptr(),
                    BUF_SIZE_EXP,
                );
            }
            let avail = match self.available() {
                Ok(a) => a,
                Err(e) => {
                    proof {
                        lemma_tail_follows_trans(
                            s0.csr().tail_reads(),
                            s4.csr().tail_reads(),
                            self.csr().tail_reads(),
                            s0.tail_ptr(),
                            s4.tail_ptr(),
                            self.tail_ptr(),
                            BUF_SIZE_EXP,
                        );
                    }
                    return Err(e);
                },
            };
            proof {
                lemma_tail_follows_trans(
                    s0.csr().tail_reads(),
                    s4.csr().tail_reads(),
                    self.csr().tail_reads(),
                    s0.tail_ptr(),
                    s4.tail_ptr(),
                    self.tail_ptr(),
                    BUF_SIZE_EXP,
                );
            }
            if (avail as usize) < elements.len() {
                return Ok(false);
            }
        }
        let ghost s5 = *self;
        assert(s5.tail_reads_since(&s0) == 3 || s5.tail_reads_since(&s0) == 5);
        assert(s5.failures_since(&s0) == 0);
        proof {
            lemma_ring_size_facts(BUF_SIZE_EXP);
        }
        let len = elements.len();
        let start_head = self.cached_head;
        let ghost old_slots = self.buffer.slots();
        let ghost tail = self.cached_hw_tail;
        let ghost phys = self.buffer.phys();
        let ghost csr0 = self.csr_ring;
        proof {
            lemma_write_run_empty(old_slots, start_head@, BUF_SIZE_EXP);
            assert(descs_of(elements@.take(0)) =~= Seq::<RingDesc>::empty());
        }
        let mut i: usize = 0;
        while i < len
            invariant
                valid_ring_exp(BUF_SIZE_EXP),
                i <= len,
                len == elements@.len(),
                len <= ring_size(BUF_SIZE_EXP),
                self.buffer.slots() == write_run(
                    old_slots,
                    start_head@,
                    descs_of(elements@.take(i as int)),
                    BUF_SIZE_EXP,
                ),
                self.buffer.phys() == phys,
                old_slots.len() == ring_size(BUF_SIZE_EXP),
                self.cached_head == start_head,
                self.cached_hw_tail == tail,
                self.csr_ring == csr0,
            decreases len - i,
        {
            proof {
                lemma_ring_size_facts(BUF_SIZE_EXP);
            }
            let bytes = elements[i].to_bytes();
            let index = start_head.add_index(i as u32);
            proof {
                lemma_write_run_push(
                    old_slots,
                    start_head@,
                    descs_of(elements@.take(i as int)),
                    bytes,
                    BUF_SIZE_EXP,
                );
                assert(descs_of(elements@.take(i + 1)) =~= descs_of(elements@.take(i as int)).push(
                    bytes,
                ));
            }
            self.buffer.write(index, bytes);
            i = i + 1;
        }
        proof {
            assert(elements@.take(len as int) =~= elements@);
        }
        release_fence();
        let new_head = start_head.wrapping_add(len as u32);
        match self.csr_ring.write_head(new_head.raw()) {
            Ok(()) => {},
            Err(e) => {
                return Err(e);
            },
        }
        self.cached_head = new_head;
        Ok(true)
    }
}

} // verus!
