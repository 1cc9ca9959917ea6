//! How logical ring elements are carried by descriptors.
use vstd::prelude::*;
use crate::ring::desc_ring::RingDesc;

verus! {

/// An element that the host sends to the card as one descriptor.
pub trait ToRingBytes {
    /// The descriptor that carries `self`.
    spec fn spec_to_bytes(&self) -> RingDesc;

    /// Encodes `self` as a descriptor.
    fn to_bytes(&self) -> (d: RingDesc)
        ensures
            d == self.spec_to_bytes(),
    ;
}

/// An element that the card sends to the host as one or more descriptors.
pub trait FromRingBytes: Sized {
    /// Whether the card has filled this descriptor.
    spec fn spec_is_valid(d: RingDesc) -> bool;

    /// How many descriptors, this first one included, carry the element.
    spec fn spec_desc_count(first: RingDesc) -> nat;

    /// The element that a complete run of descriptors carries.
    spec fn spec_from_bytes(descs: Seq<RingDesc>) -> Self;

    /// Upper bound on the descriptors of one element.
    spec fn spec_max_desc_count() -> nat;

    /// Upper bound on the descriptors of one element.
    fn max_desc_count() -> (n: usize)
        ensures
            n == Self::spec_max_desc_count(),
    ;

    /// Whether the card has filled `d`.
    fn is_valid(d: &RingDesc) -> (r: bool)
        ensures
            r == Self::spec_is_valid(*d),
    ;

    /// How many descriptors carry the element that starts with `first`.
    fn desc_count(first: &RingDesc) -> (n: usize)
        ensures
            n == Self::spec_desc_count(*first),
    ;

    /// Decodes the element carried by `descs`.
    fn from_bytes(descs: &[RingDesc]) -> (e: Self)
        requires
            descs@.len() >= 1,
        ensures
            e == Self::spec_from_bytes(descs@),
    ;

    /// An element takes at least one descriptor.
    proof fn lemma_desc_count_positive(first: RingDesc)
        ensures
            Self::spec_desc_count(first) >= 1,
    ;

    /// No element takes more descriptors than the upper bound.
    proof fn lemma_desc_count_bounded(first: RingDesc)
        ensures
            Self::spec_desc_count(first) <= Self::spec_max_desc_count(),
    ;

    /// A slot cleared after consumption never reads as filled.
    proof fn lemma_zeroed_is_invalid()
        ensures
            !Self::spec_is_valid(RingDesc::spec_zeroed()),
    ;
}

/// Raw descriptors are sent as they are.
impl ToRingBytes for RingDesc {
    open spec fn spec_to_bytes(&self) -> RingDesc {
        *self
    }

    fn to_bytes(&self) -> (d: RingDesc) {
        *self
    }
}

/// An element received as one descriptor, or as two when the first one
/// announces a second. Bit 0 of the first word marks a filled descriptor and
/// bit 1 of the first word announces that a second descriptor follows.
#[derive(Clone, Copy, Debug, PartialEq, Eq, Structural)]
pub struct RawElement {
    pub first: RingDesc,
    pub second: Option<RingDesc>,
}

/// Whether bit 0 of the first word of `d` is set.
pub open spec fn raw_is_valid(d: RingDesc) -> bool {
    d.w0 % 2 == 1
}

/// Whether bit 1 of the first word of `d` is set.
pub open spec fn raw_has_next(d: RingDesc) -> bool {
    (d.w0 / 2) % 2 == 1
}

impl FromRingBytes for RawElement {
    open spec fn spec_is_valid(d: RingDesc) -> bool {
        raw_is_valid(d)
    }

    open spec fn spec_desc_count(first: RingDesc) -> nat {
        if raw_has_next(first) { 2 } else { 1 }
    }

    open spec fn spec_from_bytes(descs: Seq<RingDesc>) -> RawElement {
        RawElement {
            first: descs[0],
            second: if descs.len() >= 2 { Some(descs[1]) } else { None },
        }
    }

    open spec fn spec_max_desc_count() -> nat {
        2
    }

    fn max_desc_count() -> (n: usize) {
        2
    }

    fn is_valid(d: &RingDesc) -> (r: bool) {
        d.w0 % 2 == 1
    }

    fn desc_count(first: &RingDesc) -> (n: usize) {
        if (first.w0 / 2) % 2 == 1 {
            2
        } else {
            1
        }
    }

    fn from_bytes(descs: &[RingDesc]) -> (e: RawElement) {
        let second = if descs.len() >= 2 {
            Some(descs[1])
        } else {
            None
        };
        RawElement { first: descs[0], second }
    }

    proof fn lemma_desc_count_positive(first: RingDesc) {
    }

    proof fn lemma_desc_count_bounded(first: RingDesc) {
    }

    proof fn lemma_zeroed_is_invalid() {
    }
}

} // verus!
