use vstd::prelude::*;

verus! {

/// How a pending call was resolved.
#[derive(Clone, Copy, Debug, PartialEq, Eq, Structural)]
pub enum Resolution {
    /// The response with the call's serial arrived.
    Response,
    /// The connection closed or failed before a response arrived.
    ConnectionFailed,
}

/// The calls of one transport that await a response, by serial number.
///
/// Each serial is issued once, and a call leaves the table when it is
/// resolved, so no call is resolved twice.
pub struct PendingCalls {
    next_serial: u64,
    pending: Vec<u64>,
}

impl PendingCalls {
    /// The serials of the pending calls, in issue order.
    pub closed spec fn pending(&self) -> Seq<u64> {
        self.pending@
    }

    /// The serial that the next call gets.
    pub closed spec fn next_serial(&self) -> u64 {
        self.next_serial
    }

    pub open spec fn wf(&self) -> bool {
        &&& self.pending().no_duplicates()
        &&& forall|i: int| 0 <= i < self.pending().len() ==> #[trigger] self.pending()[i] < self.next_serial()
    }

    pub fn new() -> (r: Self)
        ensures
            r.wf(),
            r.pending() == Seq::<u64>::empty(),
            r.next_serial() == 0,
    {
        PendingCalls { next_serial: 0, pending: Vec::new() }
    }

    /// Whether another call can get a serial.
    pub fn can_register(&self) -> (r: bool)
        ensures
            r == (self.next_serial() < u64::MAX),
    {
        self.next_serial < u64::MAX
    }

    /// Registers a call about to be written and returns its serial.
    pub fn register(&mut self) -> (r: u64)
        requires
            old(self).wf(),
            old(self).next_serial() < u64::MAX,
        ensures
            final(self).wf(),
            r == old(self).next_serial(),
            !old(self).pending().contains(r),
            final(self).next_serial() == r + 1,
            final(self).pending() == old(self).pending().push(r),
    {
        let r = self.next_serial;
        self.next_serial = self.next_serial + 1;
        self.pending.push(r);
        proof {
            let p = self.pending@;
            assert forall|i: int, j: int| 0 <= i < p.len() && 0 <= j < p.len() && i != j implies p[i] != p[j] by {
                if i < p.len() - 1 && j < p.len() - 1 {
                    assert(old(self).pending@[i] == p[i] && old(self).pending@[j] == p[j]);
                } else if i < p.len() - 1 {
                    assert(old(self).pending@[i] == p[i]);
                } else {
                    assert(old(self).pending@[j] == p[j]);
                }
            }
            assert forall|i: int| 0 <= i < p.len() implies #[trigger] p[i] < self.next_serial by {
                if i < p.len() - 1 {
                    assert(old(self).pending@[i] == p[i]);
                }
            }
            assert(self.pending() == p);
            if old(self).pending@.contains(r) {
                let k = choose|k: int| 0 <= k < old(self).pending@.len() && old(self).pending@[k] == r;
                assert(old(self).pending()[k] < old(self).next_serial());
            }
        }
        r
    }

    /// Resolves the call `serial` on its response. Returns false, changing
    /// nothing, where no such call is pending: it was resolved already.
    pub fn resolve(&mut self, serial: u64) -> (r: bool)
        requires
            old(self).wf(),
        ensures
            final(self).wf(),
            r == old(self).pending().contains(serial),
            final(self).next_serial() == old(self).next_serial(),
            !final(self).pending().contains(serial),
            !r ==> final(self).pending() == old(self).pending(),
            r ==> exists|i: int|
                0 <= i < old(self).pending().len() && old(self).pending()[i] == serial
                    && final(self).pending() == old(self).pending().remove(i),
    {
        let mut i: usize = 0;
        while i < self.pending.len()
            invariant
                0 <= i <= self.pending@.len(),
                forall|k: int| 0 <= k < i ==> self.pending@[k] != serial,
                self.pending@ == old(self).pending@,
                self.next_serial == old(self).next_serial,
                old(self).wf(),
            decreases self.pending@.len() - i,
        {
            if self.pending[i] == serial {
                let ghost before = self.pending@;
                self.pending.remove(i);
                proof {
                    let p = self.pending@;
                    assert forall|a: int, b: int| 0 <= a < p.len() && 0 <= b < p.len() && a != b implies p[a] != p[b] by {
                        let a1 = if a < i { a } else { a + 1 };
                        let b1 = if b < i { b } else { b + 1 };
                        assert(p[a] == before[a1] && p[b] == before[b1]);
                    }
                    assert forall|a: int| 0 <= a < p.len() implies #[trigger] p[a] < self.next_serial by {
                        let a1 = if a < i { a } else { a + 1 };
                        assert(p[a] == before[a1]);
                    }
                    if p.contains(serial) {
                        let a = choose|a: int| 0 <= a < p.len() && p[a] == serial;
                        let a1 = if a < i { a } else { a + 1 };
                        assert(p[a] == before[a1]);
                    }
                    assert(old(self).pending()[i as int] == serial);
                }
                return true;
            }
            i = i + 1;
        }
        false
    }

    /// The connection failed: every pending call is resolved with a
    /// connection failure, each exactly once, and the table is left empty.
    /// Returns the serials so resolved, in issue order.
    pub fn fail_all(&mut self) -> (r: Vec<(u64, Resolution)>)
        requires
            old(self).wf(),
        ensures
            final(self).wf(),
            final(self).pending() == Seq::<u64>::empty(),
            final(self).next_serial() == old(self).next_serial(),
            r@.len() == old(self).pending().len(),
            forall|i: int| 0 <= i < r@.len() ==> #[trigger] r@[i] == (old(self).pending()[i], Resolution::ConnectionFailed),
    {
        let mut r: Vec<(u64, Resolution)> = Vec::new();
        let mut i: usize = 0;
        while i < self.pending.len()
            invariant
                0 <= i <= self.pending@.len(),
                self.pending@ == old(self).pending@,
                r@.len() == i,
                forall|k: int| 0 <= k < i ==> #[trigger] r@[k] == (self.pending@[k], Resolution::ConnectionFailed),
            decreases self.pending@.len() - i,
        {
            r.push((self.pending[i], Resolution::ConnectionFailed));
            i = i + 1;
        }
        self.pending.clear();
        r
    }
}

/// After a connection failure resolved the pending calls of `before`, each
/// of them was resolved once (their serials are distinct), and none can be
/// resolved again: the table `after` holds no pending call.
pub proof fn lemma_failure_resolves_each_once(before: PendingCalls, after: PendingCalls, serial: u64)
    requires
        before.wf(),
        after.pending() == Seq::<u64>::empty(),
    ensures
        before.pending().no_duplicates(),
        !after.pending().contains(serial),
{
}

} // verus!
