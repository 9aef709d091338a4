use vstd::prelude::*;

verus! {

/// Identifier of a domain, a window or a tab, in this process's numbering.
pub type DomainId = u64;

pub type WindowId = u64;

pub type TabId = u64;

/// Issues identifiers of one namespace: each one larger than every one
/// issued before it. One allocator exists per namespace; callers on several
/// threads share it behind a lock, so allocations are totally ordered.
pub struct IdAllocator {
    next: u64,
}

impl IdAllocator {
    /// The value that the next call of `allocate` returns.
    pub closed spec fn next_id(&self) -> u64 {
        self.next
    }

    pub fn new() -> (r: IdAllocator)
        ensures
            r.next_id() == 0,
    {
        IdAllocator { next: 0 }
    }

    /// Whether another identifier can still be issued.
    pub fn can_allocate(&self) -> (r: bool)
        ensures
            r == (self.next_id() < u64::MAX),
    {
        self.next < u64::MAX
    }

    /// Whether `n` more identifiers can still be issued.
    pub fn can_allocate_n(&self, n: usize) -> (r: bool)
        ensures
            r == (self.next_id() + n <= u64::MAX),
    {
        n as u64 <= u64::MAX - self.next
    }

    /// Issues the next identifier of this namespace.
    pub fn allocate(&mut self) -> (r: u64)
        requires
            old(self).next_id() < u64::MAX,
        ensures
            r == old(self).next_id(),
            final(self).next_id() == r + 1,
    {
        let r = self.next;
        self.next = self.next + 1;
        r
    }
}

/// Any two identifiers issued one after the other by one allocator are
/// distinct, and the later one is the larger.
pub proof fn lemma_allocations_increase(a0: IdAllocator, a1: IdAllocator, a2: IdAllocator, x: u64, y: u64)
    requires
        x == a0.next_id(),
        a1.next_id() == x + 1,
        a1.next_id() <= y,
        y == a2.next_id(),
    ensures
        x < y,
        x != y,
{
}

} // verus!
