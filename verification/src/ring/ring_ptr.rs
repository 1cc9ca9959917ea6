//! Hardware ring pointers encoded as `{guard, idx}`.
//!
//! A ring holds `N = 2^BUF_SIZE_EXP` descriptor slots. A pointer counts
//! modulo `2N`: its low `BUF_SIZE_EXP` bits select the slot and the extra
//! (guard) bit tells two passes over the ring apart, so that a full ring and
//! an empty ring are distinguishable.
use vstd::prelude::*;
use vstd::arithmetic::power2::{pow2, lemma_pow2_pos, lemma_pow2_unfold, lemma_pow2_adds,
    lemma_pow2_strictly_increases, lemma2_to64};
use vstd::arithmetic::div_mod::{lemma_mod_multiples_vanish, lemma_mod_mod, lemma_small_mod};
use vstd::bits::{low_bits_mask, lemma_u32_shl_is_mul, lemma_u32_low_bits_mask_is_mod};

verus! {

/// Number of slots of a ring whose size exponent is `exp`.
pub open spec fn ring_size(exp: u32) -> nat {
    pow2(exp as nat)
}

/// Number of distinct pointer values (slots times the two guard values).
pub open spec fn ptr_space(exp: u32) -> nat {
    2 * ring_size(exp)
}

/// A size exponent for which `2 * 2^exp` still fits in a `u32`.
pub open spec fn valid_ring_exp(exp: u32) -> bool {
    exp <= 30
}

/// The pointer reached from `p` after `k` steps.
pub open spec fn ptr_add(p: int, k: int, exp: u32) -> nat {
    ((p + k) % (ptr_space(exp) as int)) as nat
}

/// How many steps lead from pointer `from` to pointer `to`.
pub open spec fn ptr_distance(to: int, from: int, exp: u32) -> nat {
    ((to - from) % (ptr_space(exp) as int)) as nat
}

/// The slot that pointer `p` designates.
pub open spec fn slot_of(p: int, exp: u32) -> nat {
    (p % (ring_size(exp) as int)) as nat
}

/// Basic facts on the sizes of a valid ring.
pub proof fn lemma_ring_size_facts(exp: u32)
    requires
        valid_ring_exp(exp),
    ensures
        1 <= ring_size(exp) <= 0x4000_0000,
        ptr_space(exp) == pow2((exp + 1) as nat),
        ptr_space(exp) as int * pow2((31 - exp) as nat) as int == 0x1_0000_0000,
        low_bits_mask(exp as nat) == ring_size(exp) - 1,
        low_bits_mask((exp + 1) as nat) == ptr_space(exp) - 1,
{
    lemma_pow2_pos(exp as nat);
    lemma2_to64();
    if exp < 30 {
        lemma_pow2_strictly_increases(exp as nat, 30);
    }
    lemma_pow2_unfold((exp + 1) as nat);
    lemma_pow2_adds((exp + 1) as nat, (31 - exp) as nat);
}

/// Adding or removing `2^32` does not change a value modulo the pointer space.
pub proof fn lemma_wrap_invisible(x: int, exp: u32)
    requires
        valid_ring_exp(exp),
    ensures
        (x - 0x1_0000_0000) % (ptr_space(exp) as int) == x % (ptr_space(exp) as int),
        (x + 0x1_0000_0000) % (ptr_space(exp) as int) == x % (ptr_space(exp) as int),
{
    lemma_ring_size_facts(exp);
    let m = ptr_space(exp) as int;
    let q = pow2((31 - exp) as nat) as int;
    assert(m * q == 0x1_0000_0000);
    assert(m * (-q) == -0x1_0000_0000) by (nonlinear_arith)
        requires
            m * q == 0x1_0000_0000,
    ;
    lemma_mod_multiples_vanish(-q, x, m);
    lemma_mod_multiples_vanish(q, x, m);
}

/// Walking `k` steps from a pointer and measuring the way back gives `k`
/// (modulo the pointer space): `wrapping_sub` undoes `wrapping_add`.
pub proof fn law_distance_undoes_add(p: nat, k: nat, exp: u32)
    requires
        valid_ring_exp(exp),
        p < ptr_space(exp),
    ensures
        ptr_distance(ptr_add(p as int, k as int, exp) as int, p as int, exp) == k % ptr_space(exp),
{
    lemma_ring_size_facts(exp);
    let m = ptr_space(exp) as int;
    vstd::arithmetic::div_mod::lemma_sub_mod_noop(p + k as int, p as int, m);
    lemma_small_mod(p, m as nat);
    vstd::arithmetic::div_mod::lemma_mod_twice(p + k as int, m);
    vstd::arithmetic::div_mod::lemma_sub_mod_noop(ptr_add(p as int, k as int, exp) as int, p as int, m);
}

/// Two walks of `a` and then `b` steps end where one walk of `a + b` steps ends.
pub proof fn law_add_composes(p: int, a: int, b: int, exp: u32)
    requires
        valid_ring_exp(exp),
    ensures
        ptr_add(ptr_add(p, a, exp) as int, b, exp) == ptr_add(p, a + b, exp),
{
    lemma_ring_size_facts(exp);
    let m = ptr_space(exp) as int;
    vstd::arithmetic::div_mod::lemma_mod_bound(p + a, m);
    vstd::arithmetic::div_mod::lemma_add_mod_noop(p + a, b, m);
    vstd::arithmetic::div_mod::lemma_add_mod_noop_right((p + a) % m, b, m);
    assert(ptr_add(p, a, exp) as int == (p + a) % m);
}

/// The slot of a pointer reached after `k` steps is `k` slots further, modulo
/// the ring size: the guard bit never affects the slot.
pub proof fn law_slot_of_add(p: int, k: int, exp: u32)
    requires
        valid_ring_exp(exp),
    ensures
        slot_of(ptr_add(p, k, exp) as int, exp) == slot_of(p + k, exp),
{
    lemma_ring_size_facts(exp);
    lemma_mod_mod(p + k, ring_size(exp) as int, 2);
}

/// A pointer already in the pointer space is kept unchanged when rebuilt from
/// its raw value.
pub proof fn law_new_keeps_pointer(p: nat, exp: u32)
    requires
        valid_ring_exp(exp),
        p < ptr_space(exp),
    ensures
        p as int % ptr_space(exp) as int == p,
{
    lemma_small_mod(p, ptr_space(exp));
}

/// Two distinct pointers designate the same slot exactly when one is a whole
/// ring ahead of the other: this is how a full ring is told from an empty one.
pub proof fn law_same_slot_distinct_is_full(p: nat, q: nat, exp: u32)
    requires
        valid_ring_exp(exp),
        p < ptr_space(exp),
        q < ptr_space(exp),
    ensures
        (slot_of(p as int, exp) == slot_of(q as int, exp) && p != q)
            <==> ptr_distance(p as int, q as int, exp) == ring_size(exp),
{
    lemma_ring_size_facts(exp);
    let n = ring_size(exp) as int;
    lemma_mod_near(p as int, n);
    lemma_mod_near(q as int, n);
    lemma_mod_near(p - q, 2 * n);
}

/// Remainder of a value close to the divisor's range.
pub proof fn lemma_mod_near(x: int, d: int)
    requires
        0 < d,
        -d <= x < 2 * d,
    ensures
        x % d == (if x < 0 { x + d } else if x < d { x } else { x - d }),
{
    if x < 0 {
        vstd::arithmetic::div_mod::lemma_fundamental_div_mod_converse(x, d, -1, x + d);
    } else if x < d {
        vstd::arithmetic::div_mod::lemma_fundamental_div_mod_converse(x, d, 0, x);
    } else {
        vstd::arithmetic::div_mod::lemma_fundamental_div_mod_converse(x, d, 1, x - d);
    }
}

/// Adding or removing `2^32` does not change a value modulo the ring size.
pub proof fn lemma_wrap_invisible_slots(x: int, exp: u32)
    requires
        valid_ring_exp(exp),
    ensures
        (x - 0x1_0000_0000) % (ring_size(exp) as int) == x % (ring_size(exp) as int),
        (x + 0x1_0000_0000) % (ring_size(exp) as int) == x % (ring_size(exp) as int),
{
    lemma_ring_size_facts(exp);
    let n = ring_size(exp) as int;
    let q = 2 * pow2((31 - exp) as nat) as int;
    assert(ptr_space(exp) as int * pow2((31 - exp) as nat) as int == 0x1_0000_0000);
    assert(n * q == 0x1_0000_0000) by (nonlinear_arith)
        requires
            ptr_space(exp) as int * pow2((31 - exp) as nat) as int == 0x1_0000_0000,
            ptr_space(exp) as int == 2 * n,
            q == 2 * pow2((31 - exp) as nat) as int,
    ;
    assert(n * (-q) == -0x1_0000_0000) by (nonlinear_arith)
        requires
            n * q == 0x1_0000_0000,
    ;
    lemma_mod_multiples_vanish(-q, x, n);
    lemma_mod_multiples_vanish(q, x, n);
}

/// A slot lies `i` slots after pointer `start` exactly when it is the slot of
/// `start + i`.
pub proof fn lemma_slot_offset(j: int, start: int, i: int, n: int)
    requires
        0 < n,
        0 <= j < n,
        0 <= i < n,
    ensures
        ((j - start) % n == i) <==> (j == (start + i) % n),
{
    lemma_small_mod(j as nat, n as nat);
    lemma_small_mod(i as nat, n as nat);
    vstd::arithmetic::div_mod::lemma_mod_equivalence(j - start, i, n);
    vstd::arithmetic::div_mod::lemma_mod_equivalence(j, start + i, n);
    vstd::arithmetic::div_mod::lemma_mod_bound(start + i, n);
    vstd::arithmetic::div_mod::lemma_mod_twice(start + i, n);
    vstd::arithmetic::div_mod::lemma_mod_bound(j - start, n);
}

/// The character of decimal digit `d`.
pub open spec fn digit_char(d: nat) -> char {
    (48 + d) as char
}

/// The decimal digits of `n`, most significant first, without leading
/// zeros, as `Display` writes an unsigned integer.
pub open spec fn decimal(n: nat) -> Seq<char>
    decreases n,
{
    if n < 10 {
        seq![digit_char(n)]
    } else {
        decimal(n / 10).push(digit_char(n % 10))
    }
}

/// The text `RingPtr { raw: R, index: I }` with `R` and `I` in decimal.
pub open spec fn ring_ptr_text(raw: u32, index: u32) -> Seq<char> {
    "RingPtr { raw: "@ + decimal(raw as nat) + ", index: "@ + decimal(index as nat) + " }"@
}

/// Formats a pointer's raw value and slot with `format!`, which writes
/// each `u32` in decimal through its `Display`; the contract says the
/// result is `ring_ptr_text(raw, index)`.
#[verifier::external_body]
fn format_ring_ptr(raw: u32, index: u32) -> (s: String)
    ensures
        s@ == ring_ptr_text(raw, index),
{
    format!("RingPtr {{ raw: {}, index: {} }}", raw, index)
}

/// Hardware ring pointer encoded as `{guard, idx}` for a ring of
/// `2^BUF_SIZE_EXP` slots.
pub struct RingPtr<const BUF_SIZE_EXP: u32> {
    raw: u32,
}

impl<const BUF_SIZE_EXP: u32> View for RingPtr<BUF_SIZE_EXP> {
    type V = nat;

    closed spec fn view(&self) -> nat {
        self.raw as nat
    }
}

impl<const BUF_SIZE_EXP: u32> Clone for RingPtr<BUF_SIZE_EXP> {
    fn clone(&self) -> (r: Self)
        ensures
            r@ == self@,
    {
        *self
    }
}

impl<const BUF_SIZE_EXP: u32> Copy for RingPtr<BUF_SIZE_EXP> {
}

impl<const BUF_SIZE_EXP: u32> RingPtr<BUF_SIZE_EXP> {
    /// A pointer never leaves the pointer space.
    #[verifier::type_invariant]
    spec fn in_space(self) -> bool {
        (self.raw as nat) < ptr_space(BUF_SIZE_EXP)
    }

    /// The pointer at the start of the ring.
    pub fn zero() -> (r: Self)
        requires
            valid_ring_exp(BUF_SIZE_EXP),
        ensures
            r@ == 0,
    {
        proof {
            lemma_ring_size_facts(BUF_SIZE_EXP);
        }
        Self::new(0)
    }

    /// Builds a pointer from a raw register value, keeping only the
    /// `{guard, idx}` bits.
    pub fn new(raw: u32) -> (r: Self)
        requires
            valid_ring_exp(BUF_SIZE_EXP),
        ensures
            r@ == raw as int % ptr_space(BUF_SIZE_EXP) as int,
    {
        let mask = Self::hw_ptr_mask();
        proof {
            lemma_ring_size_facts(BUF_SIZE_EXP);
            lemma_u32_low_bits_mask_is_mod(raw, (BUF_SIZE_EXP + 1) as nat);
        }
        RingPtr { raw: raw & mask }
    }

    /// The raw register value, guard bit included.
    pub fn raw(self) -> (r: u32)
        ensures
            r == self@,
            r < ptr_space(BUF_SIZE_EXP),
    {
        proof {
            use_type_invariant(self);
        }
        self.raw
    }

    /// The slot this pointer designates.
    pub fn index(self) -> (r: u32)
        requires
            valid_ring_exp(BUF_SIZE_EXP),
        ensures
            r == slot_of(self@ as int, BUF_SIZE_EXP),
            r < ring_size(BUF_SIZE_EXP),
    {
        let mask = Self::buf_size_mask();
        proof {
            lemma_ring_size_facts(BUF_SIZE_EXP);
            lemma_u32_low_bits_mask_is_mod(self.raw, BUF_SIZE_EXP as nat);
        }
        self.raw & mask
    }

    /// The pointer `rhs` steps further.
    pub fn wrapping_add(self, rhs: u32) -> (r: Self)
        requires
            valid_ring_exp(BUF_SIZE_EXP),
        ensures
            r@ == ptr_add(self@ as int, rhs as int, BUF_SIZE_EXP),
    {
        let sum = self.raw.wrapping_add(rhs);
        proof {
            lemma_wrap_invisible(self.raw + rhs, BUF_SIZE_EXP);
        }
        Self::new(sum)
    }

    /// How many steps lead from `rhs` to `self`.
    pub fn wrapping_sub(self, rhs: Self) -> (r: u32)
        requires
            valid_ring_exp(BUF_SIZE_EXP),
        ensures
            r == ptr_distance(self@ as int, rhs@ as int, BUF_SIZE_EXP),
            r < ptr_space(BUF_SIZE_EXP),
    {
        let diff = self.raw.wrapping_sub(rhs.raw);
        let mask = Self::hw_ptr_mask();
        proof {
            lemma_ring_size_facts(BUF_SIZE_EXP);
            lemma_wrap_invisible(self.raw - rhs.raw, BUF_SIZE_EXP);
            lemma_u32_low_bits_mask_is_mod(diff, (BUF_SIZE_EXP + 1) as nat);
        }
        diff & mask
    }

    /// The slot `rhs` steps further.
    pub fn add_index(self, rhs: u32) -> (r: u32)
        requires
            valid_ring_exp(BUF_SIZE_EXP),
        ensures
            r == slot_of(self@ + rhs, BUF_SIZE_EXP),
    {
        let p = self.wrapping_add(rhs);
        proof {
            lemma_ring_size_facts(BUF_SIZE_EXP);
            lemma_mod_mod(self@ + rhs, ring_size(BUF_SIZE_EXP) as int, 2);
        }
        p.index()
    }

    /// The pointer as text: its raw value and its slot.
    pub fn to_text(self) -> (s: String)
        requires
            valid_ring_exp(BUF_SIZE_EXP),
        ensures
            s@ == ring_ptr_text(
                self@ as u32,
                slot_of(self@ as int, BUF_SIZE_EXP) as u32,
            ),
    {
        let raw = self.raw();
        let index = self.index();
        format_ring_ptr(raw, index)
    }

    /// Whether both pointers designate the same slot.
    pub fn has_same_index(self, rhs: Self) -> (r: bool)
        requires
            valid_ring_exp(BUF_SIZE_EXP),
        ensures
            r == (slot_of(self@ as int, BUF_SIZE_EXP) == slot_of(rhs@ as int, BUF_SIZE_EXP)),
    {
        self.index() == rhs.index()
    }

    /// Whether both pointers are equal, guard bit included.
    pub fn has_same_raw(self, rhs: Self) -> (r: bool)
        ensures
            r == (self@ == rhs@),
    {
        self.raw == rhs.raw
    }

    /// Number of slots of the ring.
    pub fn buf_size() -> (n: u32)
        requires
            valid_ring_exp(BUF_SIZE_EXP),
        ensures
            n == ring_size(BUF_SIZE_EXP),
    {
        proof {
            lemma_ring_size_facts(BUF_SIZE_EXP);
            lemma_u32_shl_is_mul(1u32, BUF_SIZE_EXP);
        }
        1u32 << BUF_SIZE_EXP
    }

    /// Mask of the slot bits.
    pub fn buf_size_mask() -> (m: u32)
        requires
            valid_ring_exp(BUF_SIZE_EXP),
        ensures
            m == ring_size(BUF_SIZE_EXP) - 1,
    {
        proof {
            lemma_ring_size_facts(BUF_SIZE_EXP);
        }
        Self::buf_size() - 1
    }

    /// Mask of the `{guard, idx}` bits.
    pub fn hw_ptr_mask() -> (m: u32)
        requires
            valid_ring_exp(BUF_SIZE_EXP),
        ensures
            m == ptr_space(BUF_SIZE_EXP) - 1,
    {
        proof {
            lemma_ring_size_facts(BUF_SIZE_EXP);
        }
        Self::buf_size() * 2 - 1
    }
}

} // verus!
