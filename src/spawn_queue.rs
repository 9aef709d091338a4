use std::collections::VecDeque;
use vstd::prelude::*;

verus! {

/// How much one pass of `run` drains.
#[derive(Clone, Copy, Debug, PartialEq, Eq, Structural)]
pub enum DrainPolicy {
    /// Every queued item: for loops fed by a dense stream of other events.
    All,
    /// At most one item: for loops that must yield quickly to another
    /// event source.
    One,
}

/// What one pass drains from the queues `high` and `low`: the items handed
/// out, in order, and the two queues left behind.
pub open spec fn drain_pass<T>(high: Seq<T>, low: Seq<T>, policy: DrainPolicy) -> (Seq<T>, Seq<T>, Seq<T>) {
    match policy {
        DrainPolicy::All => (high + low, Seq::empty(), Seq::empty()),
        DrainPolicy::One => if high.len() > 0 {
            (seq![high[0]], high.drop_first(), low)
        } else if low.len() > 0 {
            (seq![low[0]], high, low.drop_first())
        } else {
            (Seq::empty(), high, low)
        },
    }
}

/// The items handed out by `n` single-item passes, one after the other,
/// with nothing enqueued in between.
pub open spec fn drain_one_passes<T>(high: Seq<T>, low: Seq<T>, n: nat) -> Seq<T>
    decreases n,
{
    if n == 0 {
        Seq::empty()
    } else {
        let (out, h, l) = drain_pass(high, low, DrainPolicy::One);
        out + drain_one_passes(h, l, (n - 1) as nat)
    }
}

/// Work handed from any thread to the one thread that owns the event loop.
///
/// Items of the normal class are handed out before any of the low class,
/// each class first in, first out. An enqueue raises the wakeup latch; a
/// pass clears it, so that the owning loop does not spin.
pub struct SpawnQueue<T> {
    spawned_funcs: VecDeque<T>,
    spawned_funcs_low_pri: VecDeque<T>,
    wakeup_pending: bool,
}

impl<T> SpawnQueue<T> {
    /// The queued items of the normal class, oldest first.
    pub closed spec fn high(&self) -> Seq<T> {
        self.spawned_funcs@
    }

    /// The queued items of the low class, oldest first.
    pub closed spec fn low(&self) -> Seq<T> {
        self.spawned_funcs_low_pri@
    }

    /// Whether an enqueue signalled the owning thread since its last pass.
    pub closed spec fn wakeup(&self) -> bool {
        self.wakeup_pending
    }

    /// The order in which the queued items will be handed out.
    pub open spec fn order(&self) -> Seq<T> {
        self.high() + self.low()
    }

    pub fn new() -> (r: Self)
        ensures
            r.high() == Seq::<T>::empty(),
            r.low() == Seq::<T>::empty(),
            !r.wakeup(),
    {
        SpawnQueue {
            spawned_funcs: VecDeque::new(),
            spawned_funcs_low_pri: VecDeque::new(),
            wakeup_pending: false,
        }
    }

    /// Enqueues `f` in the normal class.
    pub fn spawn(&mut self, f: T)
        ensures
            final(self).high() == old(self).high().push(f),
            final(self).low() == old(self).low(),
            final(self).wakeup(),
    {
        self.spawn_with_priority(f, true)
    }

    /// Enqueues `f` in the normal class if `high_pri`, else in the low one,
    /// and raises the wakeup latch.
    pub fn spawn_with_priority(&mut self, f: T, high_pri: bool)
        ensures
            high_pri ==> final(self).high() == old(self).high().push(f) && final(self).low() == old(
                self,
            ).low(),
            !high_pri ==> final(self).low() == old(self).low().push(f) && final(self).high()
                == old(self).high(),
            final(self).wakeup(),
    {
        self.queue_func(f, high_pri);
        self.wakeup_pending = true;
    }

    fn queue_func(&mut self, f: T, high_pri: bool)
        ensures
            high_pri ==> final(self).high() == old(self).high().push(f) && final(self).low() == old(
                self,
            ).low(),
            !high_pri ==> final(self).low() == old(self).low().push(f) && final(self).high()
                == old(self).high(),
            final(self).wakeup() == old(self).wakeup(),
    {
        if high_pri {
            self.spawned_funcs.push_back(f);
        } else {
            self.spawned_funcs_low_pri.push_back(f);
        }
    }

    /// Takes the next item: the oldest of the normal class, else the oldest
    /// of the low class.
    fn pop_func(&mut self) -> (r: Option<T>)
        ensures
            r is None <==> old(self).order().len() == 0,
            r is Some ==> {
                let (out, h, l) = drain_pass(old(self).high(), old(self).low(), DrainPolicy::One);
                &&& out == seq![r->0]
                &&& final(self).high() == h
                &&& final(self).low() == l
            },
            r is None ==> final(self).high() == old(self).high() && final(self).low() == old(
                self,
            ).low(),
            final(self).wakeup() == old(self).wakeup(),
    {
        if let Some(func) = self.spawned_funcs.pop_front() {
            assert(self.spawned_funcs@ =~= old(self).spawned_funcs@.drop_first());
            Some(func)
        } else {
            let r = self.spawned_funcs_low_pri.pop_front();
            proof {
                if r is Some {
                    assert(self.spawned_funcs_low_pri@ =~= old(self).spawned_funcs_low_pri@.drop_first());
                }
            }
            r
        }
    }

    /// Whether any item is queued.
    pub fn has_any_queued(&self) -> (r: bool)
        ensures
            r == (self.order().len() > 0),
    {
        self.spawned_funcs.len() > 0 || self.spawned_funcs_low_pri.len() > 0
    }

    /// One pass of the owning thread's loop: clears the wakeup latch and
    /// hands out what `policy` drains, in the order to run it. The flag
    /// says whether items are still queued afterwards.
    pub fn run(&mut self, policy: DrainPolicy) -> (r: (Vec<T>, bool))
        ensures
            ({
                let (out, h, l) = drain_pass(old(self).high(), old(self).low(), policy);
                &&& r.0@ == out
                &&& final(self).high() == h
                &&& final(self).low() == l
            }),
            r.1 == (final(self).order().len() > 0),
            !final(self).wakeup(),
    {
        self.wakeup_pending = false;
        let mut out: Vec<T> = Vec::new();
        match policy {
            DrainPolicy::One => {
                if let Some(f) = self.pop_func() {
                    out.push(f);
                    assert(out@ =~= seq![f]);
                }
            },
            DrainPolicy::All => {
                let ghost start = old(self).order();
                while self.has_any_queued()
                    invariant
                        out@ + self.order() == start,
                        !self.wakeup(),
                    decreases self.order().len(),
                {
                    let ghost before = self.order();
                    let f = self.pop_func();
                    if let Some(f) = f {
                        out.push(f);
                        proof {
                            assert(before =~= seq![f] + self.order());
                            assert(out@ + self.order() =~= start);
                        }
                    }
                }
                assert(out@ =~= start);
                assert(self.high() =~= Seq::<T>::empty());
                assert(self.low() =~= Seq::<T>::empty());
            },
        }
        let more = self.has_any_queued();
        (out, more)
    }
}

/// Single-item passes, with nothing enqueued in between, hand out every
/// queued item exactly once and in queue order: after as many passes as
/// there are items, what was handed out is the queue's order and nothing
/// is left.
pub proof fn lemma_one_passes_drain_in_order<T>(high: Seq<T>, low: Seq<T>, n: nat)
    requires
        n >= high.len() + low.len(),
    ensures
        drain_one_passes(high, low, n) == high + low,
    decreases n,
{
    if n > 0 {
        let (out, h, l) = drain_pass(high, low, DrainPolicy::One);
        lemma_one_passes_drain_in_order(h, l, (n - 1) as nat);
        if high.len() > 0 {
            assert(seq![high[0]] + (high.drop_first() + low) =~= high + low);
        } else if low.len() > 0 {
            assert(seq![low[0]] + (high + low.drop_first()) =~= high + low);
        } else {
            assert(out + (h + l) =~= high + low);
        }
    } else {
        assert(high + low =~= Seq::<T>::empty());
    }
}

/// A pass over an empty queue hands out nothing and leaves it empty, under
/// either policy.
pub proof fn lemma_empty_pass_is_idle<T>(policy: DrainPolicy)
    ensures
        drain_pass(Seq::<T>::empty(), Seq::<T>::empty(), policy) == (
            Seq::<T>::empty(),
            Seq::<T>::empty(),
            Seq::<T>::empty(),
        ),
{
    assert(Seq::<T>::empty() + Seq::<T>::empty() =~= Seq::<T>::empty());
}

} // verus!
