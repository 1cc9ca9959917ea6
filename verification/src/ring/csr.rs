//! Control and status registers through which host and card exchange ring
//! pointers, and the memory fences that order descriptor accesses with them.
//!
//! A register handle is modelled by the history of its accesses: every value
//! written to a register and every value a register read returned, oldest
//! first. A failed access leaves the history as it was.
use vstd::prelude::*;
use vstd::pervasive::arbitrary;

verus! {

/// A failed register access.
#[derive(Clone, Copy, Debug, PartialEq, Eq, Structural)]
pub struct CsrError;

/// Register access of a ring that the host fills (host to card).
pub trait WriterOps {
    /// Addresses written to the base-address register. A handle that does
    /// not keep this history leaves it unspecified.
    open spec fn base_writes(&self) -> Seq<u64> {
        arbitrary()
    }

    /// Values written to the head register.
    open spec fn head_writes(&self) -> Seq<u32> {
        arbitrary()
    }

    /// Values that reads of the tail register returned.
    open spec fn tail_reads(&self) -> Seq<u32> {
        arbitrary()
    }

    /// Number of register accesses that failed.
    open spec fn failed_accesses(&self) -> nat {
        arbitrary()
    }

    /// Whether a write of `addr` to the base-address register, made from
    /// this state of the handle, succeeds. A handle that does not define it
    /// leaves it unspecified.
    open spec fn base_write_succeeds(&self, addr: u64) -> bool {
        arbitrary()
    }

    /// Tells the card where the ring's descriptors live.
    fn write_base_addr(&mut self, addr: u64) -> (r: Result<(), CsrError>)
        ensures
            r is Ok <==> old(self).base_write_succeeds(addr),
            final(self).base_writes() == (if r is Ok {
                old(self).base_writes().push(addr)
            } else {
                old(self).base_writes()
            }),
            final(self).head_writes() == old(self).head_writes(),
            final(self).tail_reads() == old(self).tail_reads(),
            final(self).failed_accesses() == old(self).failed_accesses() + (if r is Ok {
                0int
            } else {
                1int
            }),
    ;

    /// Publishes the host's head pointer.
    fn write_head(&mut self, head: u32) -> (r: Result<(), CsrError>)
        ensures
            final(self).head_writes() == (if r is Ok {
                old(self).head_writes().push(head)
            } else {
                old(self).head_writes()
            }),
            final(self).base_writes() == old(self).base_writes(),
            final(self).tail_reads() == old(self).tail_reads(),
            final(self).failed_accesses() == old(self).failed_accesses() + (if r is Ok {
                0int
            } else {
                1int
            }),
    ;

    /// Reads the card's tail pointer.
    fn read_tail(&mut self) -> (r: Result<u32, CsrError>)
        ensures
            final(self).tail_reads() == (match r {
                Ok(v) => old(self).tail_reads().push(v),
                Err(_) => old(self).tail_reads(),
            }),
            final(self).base_writes() == old(self).base_writes(),
            final(self).head_writes() == old(self).head_writes(),
            final(self).failed_accesses() == old(self).failed_accesses() + (if r is Ok {
                0int
            } else {
                1int
            }),
    ;
}

/// Register access of a ring that the card fills (card to host).
pub trait ReaderOps {
    /// Addresses written to the base-address register. A handle that does
    /// not keep this history leaves it unspecified.
    open spec fn base_addr_writes(&self) -> Seq<u64> {
        arbitrary()
    }

    /// Values that reads of the head register returned.
    open spec fn head_reads(&self) -> Seq<u32> {
        arbitrary()
    }

    /// Values written to the tail register.
    open spec fn tail_writes(&self) -> Seq<u32> {
        arbitrary()
    }

    /// Tells the card where the ring's descriptors live.
    fn write_base_addr(&mut self, addr: u64)
        ensures
            final(self).base_addr_writes() == old(self).base_addr_writes().push(addr),
            final(self).head_reads() == old(self).head_reads(),
            final(self).tail_writes() == old(self).tail_writes(),
    ;

    /// Reads the card's head pointer.
    fn read_head(&mut self) -> (r: u32)
        ensures
            final(self).head_reads() == old(self).head_reads().push(r),
            final(self).base_addr_writes() == old(self).base_addr_writes(),
            final(self).tail_writes() == old(self).tail_writes(),
    ;

    /// Publishes the host's tail pointer.
    fn write_tail(&mut self, tail: u32)
        ensures
            final(self).tail_writes() == old(self).tail_writes().push(tail),
            final(self).base_addr_writes() == old(self).base_addr_writes(),
            final(self).head_reads() == old(self).head_reads(),
    ;
}

/// The pointer registers of a host-to-card ring as an emulated card holds
/// them: the host's writes land in them, the card moves its tail, and reads
/// return the current value.
pub struct ToCardRegisters {
    base_addr: u64,
    head: u32,
    tail: u32,
    base_log: Ghost<Seq<u64>>,
    head_log: Ghost<Seq<u32>>,
    tail_log: Ghost<Seq<u32>>,
}

impl ToCardRegisters {
    /// The base-address register.
    pub closed spec fn spec_base_addr(&self) -> u64 {
        self.base_addr
    }

    /// The head register.
    pub closed spec fn spec_head(&self) -> u32 {
        self.head
    }

    /// The tail register.
    pub closed spec fn spec_tail(&self) -> u32 {
        self.tail
    }

    /// The three access histories.
    pub closed spec fn logs(&self) -> (Seq<u64>, Seq<u32>, Seq<u32>) {
        (self.base_log@, self.head_log@, self.tail_log@)
    }

    /// Registers at zero, with no access made yet.
    pub fn new() -> (r: Self)
        ensures
            r.spec_base_addr() == 0,
            r.spec_head() == 0,
            r.spec_tail() == 0,
            r.logs() == (Seq::<u64>::empty(), Seq::<u32>::empty(), Seq::<u32>::empty()),
    {
        ToCardRegisters {
            base_addr: 0,
            head: 0,
            tail: 0,
            base_log: Ghost(Seq::empty()),
            head_log: Ghost(Seq::empty()),
            tail_log: Ghost(Seq::empty()),
        }
    }

    /// The base-address register.
    pub fn base_addr(&self) -> (a: u64)
        ensures
            a == self.spec_base_addr(),
    {
        self.base_addr
    }

    /// The head register.
    pub fn head(&self) -> (h: u32)
        ensures
            h == self.spec_head(),
    {
        self.head
    }

    /// The tail register.
    pub fn tail(&self) -> (t: u32)
        ensures
            t == self.spec_tail(),
    {
        self.tail
    }

    /// The card moves its tail pointer.
    pub fn card_set_tail(&mut self, value: u32)
        ensures
            final(self).spec_tail() == value,
            final(self).spec_head() == old(self).spec_head(),
            final(self).spec_base_addr() == old(self).spec_base_addr(),
            final(self).logs() == old(self).logs(),
    {
        self.tail = value;
    }
}

impl WriterOps for ToCardRegisters {
    closed spec fn base_writes(&self) -> Seq<u64> {
        self.base_log@
    }

    closed spec fn head_writes(&self) -> Seq<u32> {
        self.head_log@
    }

    closed spec fn tail_reads(&self) -> Seq<u32> {
        self.tail_log@
    }

    /// Register accesses of an emulated card never fail.
    open spec fn failed_accesses(&self) -> nat {
        0
    }

    /// Every base-address write of an emulated card succeeds.
    open spec fn base_write_succeeds(&self, addr: u64) -> bool {
        true
    }

    /// Sets the base-address register.
    fn write_base_addr(&mut self, addr: u64) -> (r: Result<(), CsrError>)
        ensures
            r is Ok,
            final(self).spec_base_addr() == addr,
            final(self).spec_head() == old(self).spec_head(),
            final(self).spec_tail() == old(self).spec_tail(),
    {
        self.base_addr = addr;
        self.base_log = Ghost(self.base_log@.push(addr));
        Ok(())
    }

    /// Sets the head register.
    fn write_head(&mut self, head: u32) -> (r: Result<(), CsrError>)
        ensures
            r is Ok,
            final(self).spec_head() == head,
            final(self).spec_base_addr() == old(self).spec_base_addr(),
            final(self).spec_tail() == old(self).spec_tail(),
    {
        self.head = head;
        self.head_log = Ghost(self.head_log@.push(head));
        Ok(())
    }

    /// Returns the tail register.
    fn read_tail(&mut self) -> (r: Result<u32, CsrError>)
        ensures
            r == Ok::<u32, CsrError>(old(self).spec_tail()),
            final(self).spec_head() == old(self).spec_head(),
            final(self).spec_base_addr() == old(self).spec_base_addr(),
            final(self).spec_tail() == old(self).spec_tail(),
    {
        self.tail_log = Ghost(self.tail_log@.push(self.tail));
        Ok(self.tail)
    }
}

/// The pointer registers of a card-to-host ring as an emulated card holds
/// them: the host's writes land in them, the card moves its head, and reads
/// return the current value.
pub struct ToHostRegisters {
    base_addr: u64,
    head: u32,
    tail: u32,
    base_log: Ghost<Seq<u64>>,
    head_log: Ghost<Seq<u32>>,
    tail_log: Ghost<Seq<u32>>,
}

impl ToHostRegisters {
    /// The base-address register.
    pub closed spec fn spec_base_addr(&self) -> u64 {
        self.base_addr
    }

    /// The head register.
    pub closed spec fn spec_head(&self) -> u32 {
        self.head
    }

    /// The tail register.
    pub closed spec fn spec_tail(&self) -> u32 {
        self.tail
    }

    /// The three access histories.
    pub closed spec fn logs(&self) -> (Seq<u64>, Seq<u32>, Seq<u32>) {
        (self.base_log@, self.head_log@, self.tail_log@)
    }

    /// Registers at zero, with no access made yet.
    pub fn new() -> (r: Self)
        ensures
            r.spec_base_addr() == 0,
            r.spec_head() == 0,
            r.spec_tail() == 0,
            r.logs() == (Seq::<u64>::empty(), Seq::<u32>::empty(), Seq::<u32>::empty()),
    {
        ToHostRegisters {
            base_addr: 0,
            head: 0,
            tail: 0,
            base_log: Ghost(Seq::empty()),
            head_log: Ghost(Seq::empty()),
            tail_log: Ghost(Seq::empty()),
        }
    }

    /// The base-address register.
    pub fn base_addr(&self) -> (a: u64)
        ensures
            a == self.spec_base_addr(),
    {
        self.base_addr
    }

    /// The head register.
    pub fn head(&self) -> (h: u32)
        ensures
            h == self.spec_head(),
    {
        self.head
    }

    /// The tail register.
    pub fn tail(&self) -> (t: u32)
        ensures
            t == self.spec_tail(),
    {
        self.tail
    }

    /// The card moves its head pointer.
    pub fn card_set_head(&mut self, value: u32)
        ensures
            final(self).spec_head() == value,
            final(self).spec_tail() == old(self).spec_tail(),
            final(self).spec_base_addr() == old(self).spec_base_addr(),
            final(self).logs() == old(self).logs(),
    {
        self.head = value;
    }
}

impl ReaderOps for ToHostRegisters {
    closed spec fn base_addr_writes(&self) -> Seq<u64> {
        self.base_log@
    }

    closed spec fn head_reads(&self) -> Seq<u32> {
        self.head_log@
    }

    closed spec fn tail_writes(&self) -> Seq<u32> {
        self.tail_log@
    }

    /// Sets the base-address register.
    fn write_base_addr(&mut self, addr: u64)
        ensures
            final(self).spec_base_addr() == addr,
            final(self).spec_head() == old(self).spec_head(),
            final(self).spec_tail() == old(self).spec_tail(),
    {
        self.base_addr = addr;
        self.base_log = Ghost(self.base_log@.push(addr));
    }

    /// Returns the head register.
    fn read_head(&mut self) -> (r: u32)
        ensures
            r == old(self).spec_head(),
            final(self).spec_head() == old(self).spec_head(),
            final(self).spec_base_addr() == old(self).spec_base_addr(),
            final(self).spec_tail() == old(self).spec_tail(),
    {
        self.head_log = Ghost(self.head_log@.push(self.head));
        self.head
    }

    /// Sets the tail register.
    fn write_tail(&mut self, tail: u32)
        ensures
            final(self).spec_tail() == tail,
            final(self).spec_head() == old(self).spec_head(),
            final(self).spec_base_addr() == old(self).spec_base_addr(),
    {
        self.tail = tail;
        self.tail_log = Ghost(self.tail_log@.push(tail));
    }
}
/// Orders every earlier memory write before every later one
/// (`std::sync::atomic::fence` with release ordering). It changes no value.
#[verifier::external_body]
pub fn release_fence() {
    std::sync::atomic::fence(std::sync::atomic::Ordering::Release);
}

/// Orders every earlier memory read before every later one
/// (`std::sync::atomic::fence` with acquire ordering). It changes no value.
#[verifier::external_body]
pub fn acquire_fence() {
    std::sync::atomic::fence(std::sync::atomic::Ordering::Acquire);
}

} // verus!
