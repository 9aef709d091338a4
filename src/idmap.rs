use vstd::prelude::*;

verus! {

/// The remote id most recently recorded against `local` among `entries`,
/// which are kept in the order in which they were last recorded.
pub open spec fn latest_remote_for(entries: Seq<(u64, u64)>, local: u64) -> Option<u64>
    decreases entries.len(),
{
    if entries.len() == 0 {
        None
    } else if entries.last().1 == local {
        Some(entries.last().0)
    } else {
        latest_remote_for(entries.drop_last(), local)
    }
}

/// The association of remote ids to local ids within `entries`.
pub open spec fn entries_map(entries: Seq<(u64, u64)>) -> Map<u64, u64>
    decreases entries.len(),
{
    if entries.len() == 0 {
        Map::empty()
    } else {
        entries_map(entries.drop_last()).insert(entries.last().0, entries.last().1)
    }
}

/// No remote id occurs twice in `entries`.
pub open spec fn keys_unique(entries: Seq<(u64, u64)>) -> bool {
    forall|i: int, j: int|
        0 <= i < entries.len() && 0 <= j < entries.len() && i != j ==> #[trigger] entries[i].0
            != #[trigger] entries[j].0
}

/// A per-connection table from remote entity ids to local entity ids.
///
/// Entries are kept in the order in which they were last recorded, one per
/// remote id. The reverse lookup is a linear scan: the tables of one
/// connection hold few entries.
pub struct EntityIdMap {
    entries: Vec<(u64, u64)>,
}

impl View for EntityIdMap {
    type V = Map<u64, u64>;

    closed spec fn view(&self) -> Map<u64, u64> {
        entries_map(self.entries@)
    }
}

impl EntityIdMap {
    /// The entries in the order in which they were last recorded.
    pub closed spec fn entries(&self) -> Seq<(u64, u64)> {
        self.entries@
    }

    pub open spec fn wf(&self) -> bool {
        keys_unique(self.entries())
    }

    pub fn new() -> (r: EntityIdMap)
        ensures
            r.wf(),
            r@ == Map::<u64, u64>::empty(),
            r.entries() == Seq::<(u64, u64)>::empty(),
    {
        EntityIdMap { entries: Vec::new() }
    }

    pub fn len(&self) -> (r: usize)
        requires
            self.wf(),
        ensures
            r == self@.dom().len(),
    {
        proof {
            lemma_entries_map_len(self.entries@);
        }
        self.entries.len()
    }

    /// The local id recorded for `remote`, if any.
    pub fn lookup_local(&self, remote: u64) -> (r: Option<u64>)
        requires
            self.wf(),
        ensures
            r == (if self@.contains_key(remote) {
                Some(self@[remote])
            } else {
                None
            }),
    {
        let mut i: usize = 0;
        while i < self.entries.len()
            invariant
                0 <= i <= self.entries@.len(),
                keys_unique(self.entries@),
                forall|k: int| 0 <= k < i ==> #[trigger] self.entries@[k].0 != remote,
            decreases self.entries@.len() - i,
        {
            if self.entries[i].0 == remote {
                proof {
                    lemma_entries_map_at(self.entries@, i as int);
                }
                return Some(self.entries[i].1);
            }
            i = i + 1;
        }
        proof {
            lemma_entries_map_absent(self.entries@, remote);
        }
        None
    }

    /// The remote id most recently recorded against `local`, if any, by a
    /// linear scan from the newest entry.
    pub fn lookup_remote(&self, local: u64) -> (r: Option<u64>)
        requires
            self.wf(),
        ensures
            r == latest_remote_for(self.entries(), local),
            r is Some ==> self@.contains_key(r->0) && self@[r->0] == local,
            r is None ==> forall|k: u64| #[trigger] self@.contains_key(k) ==> self@[k] != local,
    {
        let mut i: usize = self.entries.len();
        assert(self.entries@.subrange(0, i as int) =~= self.entries@);
        while i > 0
            invariant
                0 <= i <= self.entries@.len(),
                keys_unique(self.entries@),
                latest_remote_for(self.entries@, local) == latest_remote_for(
                    self.entries@.subrange(0, i as int),
                    local,
                ),
            decreases i,
        {
            let ghost prefix = self.entries@.subrange(0, i as int);
            assert(prefix.drop_last() =~= self.entries@.subrange(0, i - 1));
            if self.entries[i - 1].1 == local {
                proof {
                    lemma_latest_remote_sound(self.entries@, local);
                }
                return Some(self.entries[i - 1].0);
            }
            i = i - 1;
        }
        assert(self.entries@.subrange(0, 0) =~= Seq::<(u64, u64)>::empty());
        proof {
            lemma_latest_remote_sound(self.entries@, local);
        }
        None
    }

    /// Records `remote -> local`, replacing an earlier entry for `remote`.
    /// The new entry becomes the most recent one.
    pub fn record(&mut self, remote: u64, local: u64)
        requires
            old(self).wf(),
        ensures
            final(self).wf(),
            final(self)@ == old(self)@.insert(remote, local),
            final(self).entries().len() > 0,
            final(self).entries().last() == (remote, local),
    {
        let mut i: usize = 0;
        while i < self.entries.len()
            invariant
                0 <= i <= self.entries@.len(),
                keys_unique(self.entries@),
                forall|k: int| 0 <= k < i ==> #[trigger] self.entries@[k].0 != remote,
            ensures
                0 <= i <= self.entries@.len(),
                i < self.entries@.len() ==> self.entries@[i as int].0 == remote,
                forall|k: int| 0 <= k < i ==> #[trigger] self.entries@[k].0 != remote,
            decreases self.entries@.len() - i,
        {
            if self.entries[i].0 == remote {
                break;
            }
            i = i + 1;
        }
        let ghost before = self.entries@;
        if i < self.entries.len() {
            proof {
                lemma_remove_at(before, i as int);
            }
            self.entries.remove(i);
        } else {
            proof {
                lemma_entries_map_absent(before, remote);
                assert(entries_map(before).remove(remote) =~= entries_map(before));
            }
        }
        let ghost mid = self.entries@;
        assert(entries_map(mid) == entries_map(before).remove(remote));
        assert(forall|j: int| 0 <= j < mid.len() ==> #[trigger] mid[j].0 != remote);
        self.entries.push((remote, local));
        proof {
            let s = self.entries@;
            assert(s.drop_last() =~= mid);
            assert(keys_unique(s)) by {
                assert forall|a: int, b: int|
                    0 <= a < s.len() && 0 <= b < s.len() && a != b implies #[trigger] s[a].0
                    != #[trigger] s[b].0 by {
                    if a < mid.len() && b < mid.len() {
                        assert(s[a] == mid[a] && s[b] == mid[b]);
                    } else if a < mid.len() {
                        assert(s[a] == mid[a]);
                    } else {
                        assert(s[b] == mid[b]);
                    }
                }
            }
            assert(entries_map(s) =~= entries_map(before).insert(remote, local));
        }
    }

    /// Removes every entry.
    pub fn clear(&mut self)
        ensures
            final(self).wf(),
            final(self)@ == Map::<u64, u64>::empty(),
            final(self).entries() == Seq::<(u64, u64)>::empty(),
    {
        self.entries.clear();
    }
}

/// After `record(remote, local)`: looking up `remote` gives `local`, the
/// reverse lookup of `local` gives `remote` (the remote id most recently
/// recorded for it), and every other remote id keeps its local id until it
/// is itself overwritten.
pub proof fn lemma_record_then_lookup(before: EntityIdMap, after: EntityIdMap, remote: u64, local: u64)
    requires
        before.wf(),
        after.wf(),
        after@ == before@.insert(remote, local),
        after.entries().last() == (remote, local),
    ensures
        after@.contains_key(remote),
        after@[remote] == local,
        latest_remote_for(after.entries(), local) == Some(remote),
        forall|other: u64| other != remote && #[trigger] before@.contains_key(other) ==> after@.contains_key(other) && after@[other] == before@[other],
{
    assert(after@.contains_key(remote));
    if after.entries().len() == 0 {
        assert(entries_map(after.entries()) == Map::<u64, u64>::empty());
    }
}

proof fn lemma_entries_map_at(s: Seq<(u64, u64)>, i: int)
    requires
        keys_unique(s),
        0 <= i < s.len(),
    ensures
        entries_map(s).contains_key(s[i].0),
        entries_map(s)[s[i].0] == s[i].1,
    decreases s.len(),
{
    if i < s.len() - 1 {
        lemma_entries_map_at(s.drop_last(), i);
    }
}

proof fn lemma_entries_map_absent(s: Seq<(u64, u64)>, k: u64)
    requires
        forall|j: int| 0 <= j < s.len() ==> #[trigger] s[j].0 != k,
    ensures
        !entries_map(s).contains_key(k),
    decreases s.len(),
{
    if s.len() > 0 {
        lemma_entries_map_absent(s.drop_last(), k);
    }
}

proof fn lemma_entries_map_has(s: Seq<(u64, u64)>, k: u64)
    requires
        entries_map(s).contains_key(k),
    ensures
        exists|j: int| 0 <= j < s.len() && #[trigger] s[j].0 == k,
    decreases s.len(),
{
    if s.last().0 != k {
        lemma_entries_map_has(s.drop_last(), k);
        let j = choose|j: int| 0 <= j < s.len() - 1 && #[trigger] s.drop_last()[j].0 == k;
        assert(s[j].0 == k);
    } else {
        assert(s[s.len() - 1].0 == k);
    }
}

proof fn lemma_entries_map_len(s: Seq<(u64, u64)>)
    requires
        keys_unique(s),
    ensures
        entries_map(s).dom().len() == s.len(),
        entries_map(s).dom().finite(),
    decreases s.len(),
{
    if s.len() > 0 {
        let p = s.drop_last();
        assert(keys_unique(p)) by {
            assert forall|i: int, j: int|
                0 <= i < p.len() && 0 <= j < p.len() && i != j implies #[trigger] p[i].0
                != #[trigger] p[j].0 by {
                assert(s[i] == p[i] && s[j] == p[j]);
            }
        }
        lemma_entries_map_len(p);
        assert forall|j: int| 0 <= j < p.len() implies #[trigger] p[j].0 != s.last().0 by {
            assert(s[j] == p[j]);
        }
        lemma_entries_map_absent(p, s.last().0);
    }
}

proof fn lemma_latest_remote_sound(s: Seq<(u64, u64)>, local: u64)
    requires
        keys_unique(s),
    ensures
        latest_remote_for(s, local) is Some ==> entries_map(s).contains_key(
            latest_remote_for(s, local)->0,
        ) && entries_map(s)[latest_remote_for(s, local)->0] == local,
        latest_remote_for(s, local) is None ==> forall|k: u64| #[trigger]
            entries_map(s).contains_key(k) ==> entries_map(s)[k] != local,
    decreases s.len(),
{
    if s.len() > 0 {
        let p = s.drop_last();
        assert(keys_unique(p)) by {
            assert forall|i: int, j: int|
                0 <= i < p.len() && 0 <= j < p.len() && i != j implies #[trigger] p[i].0
                != #[trigger] p[j].0 by {
                assert(s[i] == p[i] && s[j] == p[j]);
            }
        }
        lemma_latest_remote_sound(p, local);
        assert(entries_map(s) == entries_map(p).insert(s.last().0, s.last().1));
        if s.last().1 != local {
            assert(latest_remote_for(s, local) == latest_remote_for(p, local));
            if latest_remote_for(p, local) is Some {
                let k = latest_remote_for(p, local)->0;
                lemma_entries_map_has(p, k);
                let j = choose|j: int| 0 <= j < p.len() && #[trigger] p[j].0 == k;
                assert(s[j] == p[j]);
                assert(s[j].0 != s[s.len() - 1].0);
            }
        }
    }
}

proof fn lemma_remove_at(s: Seq<(u64, u64)>, i: int)
    requires
        keys_unique(s),
        0 <= i < s.len(),
    ensures
        keys_unique(s.remove(i)),
        forall|j: int| 0 <= j < s.remove(i).len() ==> #[trigger] s.remove(i)[j].0 != s[i].0,
        entries_map(s.remove(i)) == entries_map(s).remove(s[i].0),
    decreases s.len(),
{
    let k = s[i].0;
    let r = s.remove(i);
    assert forall|a: int, b: int|
        0 <= a < r.len() && 0 <= b < r.len() && a != b implies #[trigger] r[a].0
        != #[trigger] r[b].0 by {
        let a1 = if a < i { a } else { a + 1 };
        let b1 = if b < i { b } else { b + 1 };
        assert(r[a] == s[a1] && r[b] == s[b1]);
    }
    assert forall|j: int| 0 <= j < r.len() implies #[trigger] r[j].0 != k by {
        let j1 = if j < i { j } else { j + 1 };
        assert(r[j] == s[j1]);
    }
    let p = s.drop_last();
    assert(keys_unique(p)) by {
        assert forall|a: int, b: int|
            0 <= a < p.len() && 0 <= b < p.len() && a != b implies #[trigger] p[a].0
            != #[trigger] p[b].0 by {
            assert(s[a] == p[a] && s[b] == p[b]);
        }
    }
    if i == s.len() - 1 {
        assert(r =~= p);
        assert forall|j: int| 0 <= j < p.len() implies #[trigger] p[j].0 != k by {
            assert(s[j] == p[j]);
        }
        lemma_entries_map_absent(p, k);
        assert(entries_map(s).remove(k) =~= entries_map(p));
    } else {
        assert(p[i] == s[i]);
        lemma_remove_at(p, i);
        assert(r =~= p.remove(i).push(s.last()));
        assert(r.drop_last() =~= p.remove(i));
        assert(s.last().0 != k);
        assert(entries_map(r) =~= entries_map(s).remove(k));
    }
}

} // verus!
