//! The descriptor slots of a ring and the descriptor format they hold.
use vstd::prelude::*;

verus! {

/// Size in bytes of one ring descriptor.
pub const DESC_SIZE: usize = 32;

/// One ring slot: a descriptor of `DESC_SIZE` bytes, held as four
/// little-endian 64-bit words.
#[derive(Clone, Copy, Debug, PartialEq, Eq, Structural)]
pub struct RingDesc {
    pub w0: u64,
    pub w1: u64,
    pub w2: u64,
    pub w3: u64,
}

impl RingDesc {
    /// The all-zero descriptor left behind in a consumed slot.
    pub open spec fn spec_zeroed() -> RingDesc {
        RingDesc { w0: 0, w1: 0, w2: 0, w3: 0 }
    }

    /// Returns the all-zero descriptor.
    pub fn zeroed() -> (d: RingDesc)
        ensures
            d == RingDesc::spec_zeroed(),
    {
        RingDesc { w0: 0, w1: 0, w2: 0, w3: 0 }
    }
}

/// The DMA region of a ring: its descriptor slots and the physical address
/// that the card uses to reach them.
pub struct DmaBuffer {
    slots: Vec<RingDesc>,
    phys_addr: u64,
}

impl DmaBuffer {
    /// The contents of the slots.
    pub closed spec fn slots(&self) -> Seq<RingDesc> {
        self.slots@
    }

    /// The physical address of the first slot.
    pub closed spec fn phys(&self) -> u64 {
        self.phys_addr
    }

    /// A region of `capacity` zeroed slots at physical address `phys_addr`.
    pub fn new(phys_addr: u64, capacity: usize) -> (b: DmaBuffer)
        ensures
            b.slots() == Seq::new(capacity as nat, |i: int| RingDesc::spec_zeroed()),
            b.phys() == phys_addr,
    {
        let mut slots: Vec<RingDesc> = Vec::with_capacity(capacity);
        let mut i: usize = 0;
        while i < capacity
            invariant
                i <= capacity,
                slots@ == Seq::new(i as nat, |j: int| RingDesc::spec_zeroed()),
            decreases capacity - i,
        {
            slots.push(RingDesc::zeroed());
            i = i + 1;
        }
        DmaBuffer { slots, phys_addr }
    }

    /// Number of slots.
    pub fn capacity(&self) -> (n: usize)
        ensures
            n == self.slots().len(),
    {
        self.slots.len()
    }

    /// Physical address of the first slot.
    pub fn phys_addr(&self) -> (a: u64)
        ensures
            a == self.phys(),
    {
        self.phys_addr
    }

    /// Reads slot `index`.
    pub fn read(&self, index: u32) -> (d: RingDesc)
        requires
            index < self.slots().len(),
        ensures
            d == self.slots()[index as int],
    {
        self.slots[index as usize]
    }

    /// Writes `desc` into slot `index`.
    pub fn write(&mut self, index: u32, desc: RingDesc)
        requires
            index < old(self).slots().len(),
        ensures
            final(self).slots() == old(self).slots().update(index as int, desc),
            final(self).phys() == old(self).phys(),
    {
        self.slots.set(index as usize, desc);
    }

    /// Clears slot `index` to the all-zero descriptor.
    pub fn zero(&mut self, index: u32)
        requires
            index < old(self).slots().len(),
        ensures
            final(self).slots() == old(self).slots().update(index as int, RingDesc::spec_zeroed()),
            final(self).phys() == old(self).phys(),
    {
        self.slots.set(index as usize, RingDesc::zeroed());
    }
}

} // verus!
