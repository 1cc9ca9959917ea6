//! Properties that tie the ring operations together.
use vstd::prelude::*;
use crate::ring::consumer::{ConsumerRing, run_from, zeroed_descs};
use crate::ring::csr::{ReaderOps, WriterOps};
use crate::ring::traits::{FromRingBytes, ToRingBytes};
use crate::ring::desc_ring::RingDesc;
use crate::ring::producer::{ProducerRing, producer_available, write_run};
use crate::ring::ring_ptr::{ring_size, ptr_space, valid_ring_exp, slot_of, ptr_add, ptr_distance,
    lemma_ring_size_facts, lemma_slot_offset, lemma_mod_near, law_distance_undoes_add};
use vstd::arithmetic::div_mod::{lemma_small_mod, lemma_mod_bound};

verus! {

/// Descriptors written from the slot of pointer `start` on are read back, in
/// order, by walking the slots from the same pointer: what the producer
/// writes is what a reader starting at its old head finds.
pub proof fn law_run_reads_back_written(
    slots: Seq<RingDesc>,
    start: nat,
    descs: Seq<RingDesc>,
    exp: u32,
)
    requires
        valid_ring_exp(exp),
        slots.len() >= ring_size(exp),
        descs.len() <= ring_size(exp),
    ensures
        run_from(write_run(slots, start, descs, exp), start, descs.len(), exp) == descs,
{
    lemma_ring_size_facts(exp);
    let n = ring_size(exp) as int;
    let written = write_run(slots, start, descs, exp);
    assert forall|i: int| 0 <= i < descs.len() implies run_from(
        written,
        start,
        descs.len(),
        exp,
    )[i] == descs[i] by {
        let s = slot_of(start + i, exp) as int;
        lemma_mod_bound(start + i, n);
        lemma_slot_offset(s, start as int, i, n);
    }
    assert(run_from(written, start, descs.len(), exp) =~= descs);
}

/// Writing a run changes no slot outside it.
pub proof fn law_write_run_keeps_other_slots(
    slots: Seq<RingDesc>,
    start: nat,
    descs: Seq<RingDesc>,
    j: int,
    exp: u32,
)
    requires
        valid_ring_exp(exp),
        slots.len() >= ring_size(exp),
        0 <= j < slots.len(),
        (j - start) % (ring_size(exp) as int) >= descs.len(),
    ensures
        write_run(slots, start, descs, exp)[j] == slots[j],
{
}

/// When the head is at most one ring ahead of the tail, the free slots are
/// the ring size minus the slots in use, and never more than the ring size.
pub proof fn law_available_is_free_space(head: nat, tail: nat, exp: u32)
    requires
        valid_ring_exp(exp),
        head < ptr_space(exp),
        tail < ptr_space(exp),
        ptr_distance(head as int, tail as int, exp) <= ring_size(exp),
    ensures
        producer_available(head, tail, exp) == ring_size(exp) - ptr_distance(
            head as int,
            tail as int,
            exp,
        ),
        producer_available(head, tail, exp) <= ring_size(exp),
{
    lemma_ring_size_facts(exp);
    let n = ring_size(exp) as int;
    lemma_mod_near(head - tail, 2 * n);
    vstd::arithmetic::div_mod::lemma_mod_mod(head - tail, n, 2);
    lemma_mod_near((head - tail) % (2 * n), n);
}

/// The free slots of a producer follow from where its pointers lie, for
/// every pair of pointers, however far the head seems ahead of the tail:
/// equal pointers leave the whole ring free, different pointers on the same
/// slot leave none, and otherwise the slots in use are those from the
/// tail's slot up to the head's slot, counted around the ring.
pub proof fn law_available_counts_slots_in_use(head: nat, tail: nat, exp: u32)
    requires
        valid_ring_exp(exp),
        head < ptr_space(exp),
        tail < ptr_space(exp),
    ensures
        head == tail ==> producer_available(head, tail, exp) == ring_size(exp),
        head != tail && slot_of(head as int, exp) == slot_of(tail as int, exp)
            ==> producer_available(head, tail, exp) == 0,
        slot_of(head as int, exp) != slot_of(tail as int, exp) ==> producer_available(
            head,
            tail,
            exp,
        ) + (slot_of(head as int, exp) + ring_size(exp) - slot_of(tail as int, exp)) % (ring_size(
            exp,
        ) as int) == ring_size(exp),
{
    lemma_ring_size_facts(exp);
    let n = ring_size(exp) as int;
    let sh = slot_of(head as int, exp) as int;
    let st = slot_of(tail as int, exp) as int;
    lemma_mod_bound(head as int, n);
    lemma_mod_bound(tail as int, n);
    vstd::arithmetic::div_mod::lemma_sub_mod_noop(head as int, tail as int, n);
    vstd::arithmetic::div_mod::lemma_mod_add_multiples_vanish(sh - st, n);
    lemma_mod_near(sh - st, n);
    lemma_mod_near(sh - st + n, n);
    lemma_mod_bound(head - tail, n);
}

/// Two producers whose heads lie the same number of slots, around the ring,
/// after their tails, and whose pointers are equal in both or in neither,
/// see the same number of free slots.
pub proof fn law_available_depends_on_slot_distance(
    head1: nat,
    tail1: nat,
    head2: nat,
    tail2: nat,
    exp: u32,
)
    requires
        valid_ring_exp(exp),
        head1 < ptr_space(exp),
        tail1 < ptr_space(exp),
        head2 < ptr_space(exp),
        tail2 < ptr_space(exp),
        (head1 - tail1) % (ring_size(exp) as int) == (head2 - tail2) % (ring_size(exp) as int),
        (head1 == tail1) == (head2 == tail2),
    ensures
        producer_available(head1, tail1, exp) == producer_available(head2, tail2, exp),
{
    lemma_ring_size_facts(exp);
    let n = ring_size(exp) as int;
    law_available_counts_slots_in_use(head1, tail1, exp);
    law_available_counts_slots_in_use(head2, tail2, exp);
    vstd::arithmetic::div_mod::lemma_sub_mod_noop(head1 as int, tail1 as int, n);
    vstd::arithmetic::div_mod::lemma_sub_mod_noop(head2 as int, tail2 as int, n);
    lemma_mod_bound(head1 as int, n);
    lemma_mod_bound(tail1 as int, n);
    lemma_mod_bound(head2 as int, n);
    lemma_mod_bound(tail2 as int, n);
    let a = slot_of(head1 as int, exp) as int - slot_of(tail1 as int, exp) as int;
    let b = slot_of(head2 as int, exp) as int - slot_of(tail2 as int, exp) as int;
    lemma_mod_near(a, n);
    lemma_mod_near(b, n);
    lemma_mod_near(a + n, n);
    lemma_mod_near(b + n, n);
}

/// Publishing `count` descriptors when at least `count` slots are free uses
/// up exactly `count` free slots, and the head stays at most one ring ahead
/// of the tail.
pub proof fn law_publish_uses_free_slots(head: nat, tail: nat, count: nat, exp: u32)
    requires
        valid_ring_exp(exp),
        head < ptr_space(exp),
        tail < ptr_space(exp),
        ptr_distance(head as int, tail as int, exp) <= ring_size(exp),
        count <= producer_available(head, tail, exp),
    ensures
        ptr_distance(ptr_add(head as int, count as int, exp) as int, tail as int, exp)
            <= ring_size(exp),
        producer_available(ptr_add(head as int, count as int, exp), tail, exp)
            == producer_available(head, tail, exp) - count,
{
    lemma_ring_size_facts(exp);
    let n = ring_size(exp) as int;
    let m = ptr_space(exp) as int;
    law_available_is_free_space(head, tail, exp);
    let d = ptr_distance(head as int, tail as int, exp) as int;
    let h2 = ptr_add(head as int, count as int, exp);
    lemma_mod_near(head - tail, m);
    lemma_mod_near(head + count as int, m);
    lemma_mod_near(h2 - tail, m);
    law_available_is_free_space(h2, tail, exp);
}

/// What one call may do to a producer ring's pointers, going from `before`
/// to `after`: the card reports only tails at most one ring behind the head,
/// and the head is kept, advanced over at most the free slots seen with the
/// new tail, or forced to at most one ring ahead of the new tail.
pub open spec fn producer_step<C: WriterOps, E: ToRingBytes, const EXP: u32>(
    before: ProducerRing<C, E, EXP>,
    after: ProducerRing<C, E, EXP>,
) -> bool {
    &&& after.tail_ptr() != before.tail_ptr() ==> ptr_distance(
        before.head_ptr() as int,
        after.tail_ptr() as int,
        EXP,
    ) <= ring_size(EXP)
    &&& {
        ||| after.head_ptr() == before.head_ptr()
        ||| exists|k: nat|
            k <= producer_available(before.head_ptr(), after.tail_ptr(), EXP) && #[trigger] ptr_add(
                before.head_ptr() as int,
                k as int,
                EXP,
            ) == after.head_ptr()
        ||| ptr_distance(after.head_ptr() as int, after.tail_ptr() as int, EXP) <= ring_size(EXP)
    }
}

/// In state `i` of `states` the head is at most one ring ahead of the tail.
proof fn lemma_within_ring_at<C: WriterOps, E: ToRingBytes, const EXP: u32>(
    states: Seq<ProducerRing<C, E, EXP>>,
    i: int,
)
    requires
        valid_ring_exp(EXP),
        0 <= i < states.len(),
        forall|j: int| 0 <= j < states.len() ==> (#[trigger] states[j]).wf(),
        ptr_distance(states[0].head_ptr() as int, states[0].tail_ptr() as int, EXP) <= ring_size(
            EXP,
        ),
        forall|j: int|
            0 <= j < states.len() - 1 ==> producer_step(#[trigger] states[j], states[j + 1]),
    ensures
        ptr_distance(states[i].head_ptr() as int, states[i].tail_ptr() as int, EXP) <= ring_size(
            EXP,
        ),
    decreases i,
{
    if i > 0 {
        lemma_within_ring_at(states, i - 1);
        let b = states[i - 1];
        let a = states[i];
        assert(producer_step(b, a));
        assert(b.wf() && a.wf());
        if a.head_ptr() != b.head_ptr() && ptr_distance(
            a.head_ptr() as int,
            a.tail_ptr() as int,
            EXP,
        ) > ring_size(EXP) {
            let k = choose|k: nat|
                k <= producer_available(b.head_ptr(), a.tail_ptr(), EXP) && #[trigger] ptr_add(
                    b.head_ptr() as int,
                    k as int,
                    EXP,
                ) == a.head_ptr();
            law_publish_uses_free_slots(b.head_ptr(), a.tail_ptr(), k, EXP);
        }
    }
}

/// A producer ring never has more than one ring of descriptors in flight:
/// starting with the head at most one ring ahead of the tail (as
/// `ProducerRing::new` leaves it, both at zero), after every call the head
/// stays at most one ring ahead of the tail and the free slots are the ring
/// size minus the descriptors in flight, so never more than the ring size.
pub proof fn law_producer_never_overfills<C: WriterOps, E: ToRingBytes, const EXP: u32>(
    states: Seq<ProducerRing<C, E, EXP>>,
)
    requires
        states.len() > 0,
        forall|j: int| 0 <= j < states.len() ==> (#[trigger] states[j]).wf(),
        ptr_distance(states[0].head_ptr() as int, states[0].tail_ptr() as int, EXP) <= ring_size(
            EXP,
        ),
        forall|j: int|
            0 <= j < states.len() - 1 ==> producer_step(#[trigger] states[j], states[j + 1]),
    ensures
        forall|i: int|
            0 <= i < states.len() ==> {
                &&& ptr_distance(
                    (#[trigger] states[i]).head_ptr() as int,
                    states[i].tail_ptr() as int,
                    EXP,
                ) <= ring_size(EXP)
                &&& states[i].spec_available() == ring_size(EXP) - ptr_distance(
                    states[i].head_ptr() as int,
                    states[i].tail_ptr() as int,
                    EXP,
                )
                &&& states[i].spec_available() <= ring_size(EXP)
            },
{
    assert(states[0].wf());
    assert forall|i: int| 0 <= i < states.len() implies {
        &&& ptr_distance(
            (#[trigger] states[i]).head_ptr() as int,
            states[i].tail_ptr() as int,
            EXP,
        ) <= ring_size(EXP)
        &&& states[i].spec_available() == ring_size(EXP) - ptr_distance(
            states[i].head_ptr() as int,
            states[i].tail_ptr() as int,
            EXP,
        )
        &&& states[i].spec_available() <= ring_size(EXP)
    } by {
        lemma_within_ring_at(states, i);
        law_available_is_free_space(states[i].head_ptr(), states[i].tail_ptr(), EXP);
    }
}

/// Taking `k` of the descriptors that lie between the tail and the card's
/// head leaves `k` fewer of them.
pub proof fn law_taking_shrinks_backlog(head: nat, tail: nat, k: nat, exp: u32)
    requires
        valid_ring_exp(exp),
        head < ptr_space(exp),
        tail < ptr_space(exp),
        k <= ptr_distance(head as int, tail as int, exp),
    ensures
        ptr_distance(head as int, ptr_add(tail as int, k as int, exp) as int, exp)
            == ptr_distance(head as int, tail as int, exp) - k,
{
    lemma_ring_size_facts(exp);
    let m = ptr_space(exp) as int;
    lemma_mod_near(head - tail, m);
    lemma_mod_near(tail + k as int, m);
    let t2 = ptr_add(tail as int, k as int, exp) as int;
    lemma_mod_near(head - t2, m);
}

/// Every slot that an attempt to take an element consumed is left cleared,
/// so it does not read as filled again until it is written anew.
pub proof fn law_taken_slots_read_as_empty<C: ReaderOps, E: FromRingBytes, const EXP: u32>(
    before: ConsumerRing<C, E, EXP>,
    after: ConsumerRing<C, E, EXP>,
    r: Option<E>,
)
    requires
        before.wf(),
        before.popped(&after, r),
    ensures
        ({
            let k = ptr_distance(after.tail_ptr() as int, before.tail_ptr() as int, EXP);
            forall|i: int|
                0 <= i < k ==> !E::spec_is_valid(
                    #[trigger] after.slots()[slot_of(before.tail_ptr() + i, EXP) as int],
                )
        }),
{
    let k = ptr_distance(after.tail_ptr() as int, before.tail_ptr() as int, EXP);
    law_run_reads_back_written(before.slots(), before.tail_ptr(), zeroed_descs(k), EXP);
    E::lemma_zeroed_is_invalid();
    assert forall|i: int| 0 <= i < k implies !E::spec_is_valid(
        #[trigger] after.slots()[slot_of(before.tail_ptr() + i, EXP) as int],
    ) by {
        assert(run_from(after.slots(), before.tail_ptr(), k, EXP)[i] == zeroed_descs(k)[i]);
    }
}

/// When the card reports a tail that lies within the descriptors in flight
/// (between the cached tail and the head), the head stays at most one ring
/// ahead of the new tail, and the descriptors in flight can only shrink.
pub proof fn law_sync_keeps_in_flight(head: nat, tail: nat, raw: u32, exp: u32)
    requires
        valid_ring_exp(exp),
        head < ptr_space(exp),
        tail < ptr_space(exp),
        ptr_distance(head as int, tail as int, exp) <= ring_size(exp),
        ptr_distance(raw as int % ptr_space(exp) as int, tail as int, exp) <= ptr_distance(
            head as int,
            tail as int,
            exp,
        ),
    ensures
        ptr_distance(head as int, raw as int % ptr_space(exp) as int, exp) == ptr_distance(
            head as int,
            tail as int,
            exp,
        ) - ptr_distance(raw as int % ptr_space(exp) as int, tail as int, exp),
        ptr_distance(head as int, raw as int % ptr_space(exp) as int, exp) <= ring_size(exp),
{
    lemma_ring_size_facts(exp);
    let m = ptr_space(exp) as int;
    vstd::arithmetic::div_mod::lemma_mod_bound(raw as int, m);
    let t2 = raw as int % m;
    lemma_mod_near(head - tail, m);
    lemma_mod_near(t2 - tail, m);
    lemma_mod_near(head - t2, m);
}

/// An element gathered over two attempts, the first of which ran out of
/// filled descriptors, decodes every descriptor taken by both, in order,
/// after those gathered before the first attempt: the card may fill the
/// missing slots between the attempts (`card_write_slot` changes nothing
/// else, as the second attempt's state requires).
pub proof fn law_pop_continues<C: ReaderOps, E: FromRingBytes, const EXP: u32>(
    s0: ConsumerRing<C, E, EXP>,
    s1: ConsumerRing<C, E, EXP>,
    s2: ConsumerRing<C, E, EXP>,
    s3: ConsumerRing<C, E, EXP>,
    e: E,
)
    requires
        s0.wf(),
        s0.popped(&s1, None),
        s2.wf(),
        s2.tail_ptr() == s1.tail_ptr(),
        s2.scratch() == s1.scratch(),
        s2.pending() == s1.pending(),
        s2.popped(&s3, Some(e)),
    ensures
        ({
            let k1 = ptr_distance(s1.tail_ptr() as int, s0.tail_ptr() as int, EXP);
            let k2 = ptr_distance(s3.tail_ptr() as int, s2.tail_ptr() as int, EXP);
            e == E::spec_from_bytes(
                s0.scratch() + run_from(s0.slots(), s0.tail_ptr(), k1, EXP) + run_from(
                    s2.slots(),
                    s2.tail_ptr(),
                    k2,
                    EXP,
                ),
            )
        }),
{
}

} // verus!
