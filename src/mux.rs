use vstd::prelude::*;
use crate::ids::{DomainId, IdAllocator, TabId, WindowId};

verus! {

/// Size of a terminal: character cells and pixels. Passed through unchanged.
#[derive(Clone, Copy, Debug, PartialEq, Eq, Structural)]
pub struct TermSize {
    pub rows: u16,
    pub cols: u16,
    pub pixel_width: u16,
    pub pixel_height: u16,
}

/// A local tab: its local id, the domain that owns it and, for a tab that
/// stands for a tab of a remote server, that tab's remote id.
#[derive(Clone, Copy, Debug, PartialEq, Eq, Structural)]
pub struct LocalTab {
    pub tab_id: TabId,
    pub domain_id: DomainId,
    pub remote_tab_id: Option<TabId>,
    pub size: TermSize,
}

/// A local window and the ids of its tabs, in order.
pub struct LocalWindow {
    pub window_id: WindowId,
    pub tabs: Vec<TabId>,
}

/// The local entity collection, mutated only on the owning thread.
pub struct Mux {
    tabs: Vec<LocalTab>,
    windows: Vec<LocalWindow>,
    tab_ids: IdAllocator,
    window_ids: IdAllocator,
    detached_domains: Vec<DomainId>,
}

/// The ids of the windows in `ws`, in order.
pub open spec fn window_ids_of(ws: Seq<LocalWindow>) -> Seq<WindowId> {
    ws.map_values(|w: LocalWindow| w.window_id)
}

impl Mux {
    pub closed spec fn tabs(&self) -> Seq<LocalTab> {
        self.tabs@
    }

    pub closed spec fn windows(&self) -> Seq<LocalWindow> {
        self.windows@
    }

    /// The domains that reported a detach, oldest first: their entities are
    /// orphaned, and the collection decides whether to keep them.
    pub closed spec fn detached_domains(&self) -> Seq<DomainId> {
        self.detached_domains@
    }

    /// The id that the next new tab gets.
    pub closed spec fn next_tab_id(&self) -> u64 {
        self.tab_ids.next_id()
    }

    /// The id that the next new window gets.
    pub closed spec fn next_window_id(&self) -> u64 {
        self.window_ids.next_id()
    }

    /// Window ids are distinct, and each one was issued by the window allocator.
    pub open spec fn wf(&self) -> bool {
        &&& forall|i: int, j: int|
            0 <= i < self.windows().len() && 0 <= j < self.windows().len() && i != j
                ==> #[trigger] self.windows()[i].window_id != #[trigger] self.windows()[j].window_id
        &&& forall|i: int|
            0 <= i < self.windows().len() ==> #[trigger] self.windows()[i].window_id
                < self.next_window_id()
    }

    /// Whether the window `w` exists.
    pub open spec fn has_window(&self, w: WindowId) -> bool {
        exists|i: int| 0 <= i < self.windows().len() && #[trigger] self.windows()[i].window_id == w
    }

    /// The tab ids of the window `w`; window ids are distinct in a
    /// well-formed collection, so there is one such window.
    pub open spec fn window_tabs(&self, w: WindowId) -> Seq<TabId> {
        let i = choose|i: int| 0 <= i < self.windows().len() && #[trigger] self.windows()[i].window_id == w;
        self.windows()[i].tabs@
    }

    pub fn new() -> (r: Mux)
        ensures
            r.wf(),
            r.tabs() == Seq::<LocalTab>::empty(),
            r.windows() == Seq::<LocalWindow>::empty(),
            r.next_tab_id() == 0,
            r.next_window_id() == 0,
            r.detached_domains() == Seq::<DomainId>::empty(),
    {
        Mux {
            tabs: Vec::new(),
            windows: Vec::new(),
            tab_ids: IdAllocator::new(),
            window_ids: IdAllocator::new(),
            detached_domains: Vec::new(),
        }
    }

    /// Told that the domain `domain_id` detached: its tabs and windows are
    /// now orphaned. Records the domain and changes nothing else.
    pub fn domain_was_detached(&mut self, domain_id: DomainId)
        requires
            old(self).wf(),
        ensures
            final(self).wf(),
            final(self).detached_domains() == old(self).detached_domains().push(domain_id),
            final(self).tabs() == old(self).tabs(),
            final(self).windows() == old(self).windows(),
            final(self).next_tab_id() == old(self).next_tab_id(),
            final(self).next_window_id() == old(self).next_window_id(),
    {
        self.detached_domains.push(domain_id);
        assert(self.windows() == old(self).windows());
        assert(self.next_window_id() == old(self).next_window_id());
    }

    /// Whether the domain `domain_id` reported a detach.
    pub fn was_detached(&self, domain_id: DomainId) -> (r: bool)
        ensures
            r == self.detached_domains().contains(domain_id),
    {
        let mut i: usize = 0;
        while i < self.detached_domains.len()
            invariant
                0 <= i <= self.detached_domains@.len(),
                forall|k: int| 0 <= k < i ==> self.detached_domains@[k] != domain_id,
            decreases self.detached_domains@.len() - i,
        {
            if self.detached_domains[i] == domain_id {
                return true;
            }
            i = i + 1;
        }
        false
    }

    /// Whether `tabs` more tabs and `windows` more windows can still get ids.
    pub fn has_room_for(&self, tabs: usize, windows: usize) -> (r: bool)
        ensures
            r == (self.next_tab_id() + tabs <= u64::MAX && self.next_window_id() + windows
                <= u64::MAX),
    {
        self.tab_ids.can_allocate_n(tabs) && self.window_ids.can_allocate_n(windows)
    }

    pub fn tab_count(&self) -> (r: usize)
        ensures
            r == self.tabs().len(),
    {
        self.tabs.len()
    }

    pub fn window_count(&self) -> (r: usize)
        ensures
            r == self.windows().len(),
    {
        self.windows.len()
    }

    /// The tab at position `i`, in the order in which tabs were added.
    pub fn tab_at(&self, i: usize) -> (r: LocalTab)
        requires
            i < self.tabs().len(),
        ensures
            r == self.tabs()[i as int],
    {
        self.tabs[i]
    }

    /// Creates a tab with a fresh id and adds it to the collection.
    pub fn add_tab(&mut self, domain_id: DomainId, remote_tab_id: Option<TabId>, size: TermSize) -> (r: TabId)
        requires
            old(self).wf(),
            old(self).next_tab_id() < u64::MAX,
        ensures
            final(self).wf(),
            r == old(self).next_tab_id(),
            final(self).next_tab_id() == r + 1,
            final(self).next_window_id() == old(self).next_window_id(),
            final(self).tabs() == old(self).tabs().push(
                LocalTab { tab_id: r, domain_id, remote_tab_id, size },
            ),
            final(self).windows() == old(self).windows(),
    {
        let tab_id = self.tab_ids.allocate();
        self.tabs.push(LocalTab { tab_id, domain_id, remote_tab_id, size });
        assert(self.windows() == old(self).windows());
        assert(self.next_window_id() == old(self).next_window_id());
        tab_id
    }

    /// Creates a window with a fresh id and no tabs.
    pub fn new_empty_window(&mut self) -> (r: WindowId)
        requires
            old(self).wf(),
            old(self).next_window_id() < u64::MAX,
        ensures
            final(self).wf(),
            !old(self).has_window(r),
            r == old(self).next_window_id(),
            final(self).next_window_id() == r + 1,
            final(self).next_tab_id() == old(self).next_tab_id(),
            final(self).tabs() == old(self).tabs(),
            final(self).windows().len() == old(self).windows().len() + 1,
            final(self).windows().drop_last() == old(self).windows(),
            final(self).windows().last().window_id == r,
            final(self).windows().last().tabs@ == Seq::<TabId>::empty(),
            final(self).has_window(r),
            window_ids_of(final(self).windows()) == window_ids_of(old(self).windows()).push(r),
            forall|w: WindowId| #[trigger] old(self).has_window(w) ==> final(self).has_window(w),
            forall|w: WindowId| #[trigger] old(self).has_window(w) ==> final(self).window_tabs(w)
                == old(self).window_tabs(w),
    {
        let window_id = self.window_ids.allocate();
        self.windows.push(LocalWindow { window_id, tabs: Vec::new() });
        proof {
            assert(self.windows@.drop_last() =~= old(self).windows@);
            let ws = self.windows();
            assert(window_ids_of(ws) =~= window_ids_of(old(self).windows()).push(window_id)) by {
                assert forall|k: int| 0 <= k < ws.len() - 1 implies ws[k] == old(self).windows()[k] by {}
            }
            assert forall|i: int| 0 <= i < ws.len() - 1 implies #[trigger] ws[i].window_id
                < window_id by {
                assert(ws[i] == old(self).windows()[i]);
            }
            assert forall|i: int| 0 <= i < old(self).windows().len() implies #[trigger] old(
                self,
            ).windows()[i].window_id != window_id by {}
            assert(ws[ws.len() - 1].window_id == window_id);
            assert forall|w: WindowId| #[trigger] old(self).has_window(w) implies self.has_window(w)
                && self.window_tabs(w) == old(self).window_tabs(w) by {
                let j = choose|j: int| 0 <= j < old(self).windows().len() && #[trigger] old(self).windows()[j].window_id == w;
                assert(ws[j] == old(self).windows()[j]);
                let ja = choose|k: int| 0 <= k < ws.len() && #[trigger] ws[k].window_id == w;
                if ja != j {
                    assert(ws[ja].window_id == ws[j].window_id);
                }
            }
        }
        window_id
    }

    /// Whether the window `window` exists.
    pub fn contains_window(&self, window: WindowId) -> (r: bool)
        ensures
            r == self.has_window(window),
    {
        let mut i: usize = 0;
        while i < self.windows.len()
            invariant
                0 <= i <= self.windows@.len(),
                forall|k: int| 0 <= k < i ==> #[trigger] self.windows@[k].window_id != window,
            decreases self.windows@.len() - i,
        {
            if self.windows[i].window_id == window {
                assert(self.windows()[i as int].window_id == window);
                return true;
            }
            i = i + 1;
        }
        assert forall|k: int| 0 <= k < self.windows().len() implies #[trigger] self.windows()[k].window_id != window by {
            assert(self.windows()[k] == self.windows@[k]);
        }
        false
    }

    /// Appends the tab `tab` to the first window whose id is `window`;
    /// returns false, changing nothing, where there is no such window.
    pub fn add_tab_to_window(&mut self, tab: TabId, window: WindowId) -> (r: bool)
        requires
            old(self).wf(),
        ensures
            final(self).wf(),
            forall|w: WindowId| #[trigger] final(self).has_window(w) == old(self).has_window(w),
            r == old(self).has_window(window),
            final(self).tabs() == old(self).tabs(),
            final(self).next_tab_id() == old(self).next_tab_id(),
            final(self).next_window_id() == old(self).next_window_id(),
            window_ids_of(final(self).windows()) == window_ids_of(old(self).windows()),
            final(self).windows().len() == old(self).windows().len(),
            r ==> final(self).window_tabs(window) == old(self).window_tabs(window).push(tab),
            !r ==> final(self).windows() == old(self).windows(),
            forall|w: WindowId| w != window && #[trigger] old(self).has_window(w)
                ==> final(self).window_tabs(w) == old(self).window_tabs(w),
    {
        let mut i: usize = 0;
        while i < self.windows.len()
            invariant
                0 <= i <= self.windows@.len(),
                forall|k: int| 0 <= k < i ==> #[trigger] self.windows@[k].window_id != window,
            ensures
                0 <= i <= self.windows@.len(),
                i < self.windows@.len() ==> self.windows@[i as int].window_id == window,
                forall|k: int| 0 <= k < i ==> #[trigger] self.windows@[k].window_id != window,
            decreases self.windows@.len() - i,
        {
            if self.windows[i].window_id == window {
                break;
            }
            i = i + 1;
        }
        if i == self.windows.len() {
            return false;
        }
        let ghost before = self.windows@;
        let mut w = self.windows.remove(i);
        w.tabs.push(tab);
        self.windows.insert(i, w);
        proof {
            let after = self.windows@;
            assert(after =~= before.update(i as int, after[i as int]));
            assert(after[i as int].window_id == window);
            assert(after == self.windows());
            assert(before == old(self).windows());
            assert(window_ids_of(after) =~= window_ids_of(before));
            assert forall|w: WindowId| #[trigger] self.has_window(w) implies old(self).has_window(w) by {
                let j = choose|j: int| 0 <= j < after.len() && #[trigger] after[j].window_id == w;
                assert(before[j].window_id == w);
            }
            assert forall|a: int, b: int|
                0 <= a < after.len() && 0 <= b < after.len() && a != b implies #[trigger] after[a].window_id
                != #[trigger] after[b].window_id by {
                assert(after[a].window_id == before[a].window_id);
                assert(after[b].window_id == before[b].window_id);
            }
            assert forall|a: int| 0 <= a < after.len() implies #[trigger] after[a].window_id
                < self.next_window_id() by {
                assert(after[a].window_id == before[a].window_id);
            }
            assert(forall|k: int| 0 <= k < i ==> #[trigger] after[k].window_id != window);
            assert forall|w: WindowId| #[trigger] old(self).has_window(w) implies {
                &&& self.has_window(w)
                &&& (self.window_tabs(w) == if w == window {
                    old(self).window_tabs(w).push(tab)
                } else {
                    old(self).window_tabs(w)
                })
            } by {
                let j = choose|j: int| 0 <= j < before.len() && #[trigger] before[j].window_id == w;
                assert(after[j].window_id == w);
                assert(self.windows()[j].window_id == w);
                let ja = choose|j: int| 0 <= j < after.len() && #[trigger] after[j].window_id == w;
                let jb = choose|j: int| 0 <= j < before.len() && #[trigger] before[j].window_id == w;
                if w == window {
                    assert(before[i as int].window_id == window);
                    assert(ja == i && jb == i) by {
                        if ja != i as int {
                            assert(after[ja] == before[ja]);
                            assert(before[ja].window_id == before[i as int].window_id);
                        }
                        if jb != i as int {
                            assert(after[jb] == before[jb]);
                        }
                    }
                } else {
                    assert(after[jb] == before[jb]);
                    assert(ja != i as int);
                    assert(after[ja] == before[ja]);
                }
            }
        }
        true
    }
}

} // verus!
