//! A mapping from object ids to values that is walked in ascending id order.

use vstd::prelude::*;

verus! {

/// Whether the ids of `entries` strictly increase from one entry to the next.
pub open spec fn ascending<V>(entries: Seq<(u32, V)>) -> bool {
    forall|i: int, j: int| 0 <= i < j < entries.len() ==> entries[i].0 < entries[j].0
}

/// Whether some entry of `entries` has the id `id`.
pub open spec fn has_id<V>(entries: Seq<(u32, V)>, id: u32) -> bool {
    exists|i: int| 0 <= i < entries.len() && #[trigger] entries[i].0 == id
}

/// The position of an entry of `entries` with the id `id`.
pub open spec fn position_of<V>(entries: Seq<(u32, V)>, id: u32) -> int {
    choose|i: int| 0 <= i < entries.len() && #[trigger] entries[i].0 == id
}

/// The mapping that a sequence of entries stands for.
pub open spec fn entries_map<V>(entries: Seq<(u32, V)>) -> Map<u32, V> {
    Map::new(|id: u32| has_id(entries, id), |id: u32| entries[position_of(entries, id)].1)
}

/// In an ascending sequence the entry at `at` is the one that its id maps to.
pub proof fn lemma_entry_is_mapped<V>(entries: Seq<(u32, V)>, at: int)
    requires
        ascending(entries),
        0 <= at < entries.len(),
    ensures
        entries_map(entries).contains_key(entries[at].0),
        entries_map(entries)[entries[at].0] == entries[at].1,
        position_of(entries, entries[at].0) == at,
{
    let id = entries[at].0;
    assert(has_id(entries, id));
    let p = position_of(entries, id);
    assert(0 <= p < entries.len() && entries[p].0 == id);
    if p < at {
        assert(entries[p].0 < entries[at].0);
    } else if at < p {
        assert(entries[at].0 < entries[p].0);
    }
}

/// An ascending sequence of ids holds each id at or above its position: the
/// sequence is no longer than the ids are many.
pub proof fn lemma_ascending_ids_outgrow_positions<V>(entries: Seq<(u32, V)>, at: int)
    requires
        ascending(entries),
        0 <= at < entries.len(),
    ensures
        entries[at].0 >= at,
    decreases at,
{
    if at > 0 {
        lemma_ascending_ids_outgrow_positions(entries, at - 1);
        assert(entries[at - 1].0 < entries[at].0);
    }
}

/// An ascending sequence of entries stands for a mapping of as many keys.
pub proof fn lemma_entries_count<V>(entries: Seq<(u32, V)>)
    requires
        ascending(entries),
    ensures
        entries_map(entries).dom().finite(),
        entries_map(entries).len() == entries.len(),
    decreases entries.len(),
{
    if entries.len() == 0 {
        assert(entries_map(entries).dom() =~= Set::<u32>::empty());
    } else {
        let front = entries.drop_last();
        let id = entries.last().0;
        lemma_entries_count(front);
        assert(!has_id(front, id)) by {
            if has_id(front, id) {
                let p = position_of(front, id);
                assert(entries[p].0 < entries[entries.len() - 1].0);
            }
        }
        assert(entries_map(entries).dom() =~= entries_map(front).dom().insert(id)) by {
            assert forall|k: u32| has_id(entries, k) <==> (has_id(front, k) || k == id) by {
                if has_id(entries, k) {
                    let p = position_of(entries, k);
                    if p < front.len() {
                        assert(front[p].0 == k);
                    }
                }
                if has_id(front, k) {
                    let p = position_of(front, k);
                    assert(entries[p].0 == k);
                }
                if k == id {
                    assert(entries[entries.len() - 1].0 == k);
                }
            }
        }
    }
}

/// A table of values keyed by object id and kept in ascending id order.
pub struct IdTable<V> {
    entries: Vec<(u32, V)>,
}

impl<V> View for IdTable<V> {
    type V = Map<u32, V>;

    open spec fn view(&self) -> Map<u32, V> {
        entries_map(self.entries())
    }
}

impl<V> IdTable<V> {
    #[verifier::type_invariant]
    spec fn ordered(&self) -> bool {
        ascending(self.entries@)
    }

    /// The entries of the table, in the order in which it is walked.
    pub closed spec fn entries(&self) -> Seq<(u32, V)> {
        self.entries@
    }

    /// An empty table.
    pub fn new() -> (table: IdTable<V>)
        ensures
            table.entries() == Seq::<(u32, V)>::empty(),
            table@ == Map::<u32, V>::empty(),
    {
        let table = IdTable { entries: Vec::new() };
        assert(table@ =~= Map::<u32, V>::empty());
        table
    }

    /// The number of entries; the entries always ascend by id.
    pub fn len(&self) -> (n: usize)
        ensures
            n == self.entries().len(),
            n == self@.len(),
            self@.dom().finite(),
            ascending(self.entries()),
            n <= 0x1_0000_0000,
    {
        proof {
            use_type_invariant(self);
            if self.entries@.len() > 0 {
                lemma_ascending_ids_outgrow_positions(self.entries@, self.entries@.len() - 1);
            }
            lemma_entries_count(self.entries@);
        }
        self.entries.len()
    }

    /// The first position whose id is not below `id`.
    fn lower_bound(&self, id: u32) -> (at: usize)
        ensures
            at <= self.entries().len(),
            forall|i: int| 0 <= i < at ==> self.entries()[i].0 < id,
            forall|i: int| at <= i < self.entries().len() ==> self.entries()[i].0 >= id,
    {
        proof {
            use_type_invariant(self);
        }
        let mut lo: usize = 0;
        let mut hi: usize = self.entries.len();
        while lo < hi
            invariant
                lo <= hi <= self.entries@.len(),
                ascending(self.entries@),
                forall|i: int| 0 <= i < lo ==> self.entries@[i].0 < id,
                forall|i: int| hi <= i < self.entries@.len() ==> self.entries@[i].0 >= id,
            decreases hi - lo,
        {
            let mid: usize = lo + (hi - lo) / 2;
            if self.entries[mid].0 < id {
                lo = mid + 1;
            } else {
                hi = mid;
            }
        }
        lo
    }

    /// Whether the table has an entry for `id`.
    pub fn contains_key(&self, id: u32) -> (found: bool)
        ensures
            found == self@.contains_key(id),
    {
        let at = self.lower_bound(id);
        let found = at < self.entries.len() && self.entries[at].0 == id;
        proof {
            use_type_invariant(self);
            if found {
                lemma_entry_is_mapped(self.entries@, at as int);
            } else if has_id(self.entries@, id) {
                let p = position_of(self.entries@, id);
                assert(self.entries@[p].0 == id);
            }
        }
        found
    }

    /// The value kept for `id`, if any.
    pub fn get(&self, id: u32) -> (value: Option<&V>)
        ensures
            value == if self@.contains_key(id) {
                Some(&self@[id])
            } else {
                None
            },
    {
        let at = self.lower_bound(id);
        proof {
            use_type_invariant(self);
        }
        if at < self.entries.len() && self.entries[at].0 == id {
            proof {
                lemma_entry_is_mapped(self.entries@, at as int);
            }
            Some(&self.entries[at].1)
        } else {
            proof {
                if has_id(self.entries@, id) {
                    let p = position_of(self.entries@, id);
                    assert(self.entries@[p].0 == id);
                }
            }
            None
        }
    }

    /// The entry at position `at` in ascending id order, if there is one.
    pub fn entry_at(&self, at: usize) -> (entry: Option<(u32, &V)>)
        ensures
            entry == if at < self.entries().len() {
                Some((self.entries()[at as int].0, &self.entries()[at as int].1))
            } else {
                None
            },
            at < self.entries().len() ==> self@.contains_key(self.entries()[at as int].0)
                && self@[self.entries()[at as int].0] == self.entries()[at as int].1,
    {
        if at < self.entries.len() {
            proof {
                use_type_invariant(self);
                lemma_entry_is_mapped(self.entries@, at as int);
            }
            Some((self.entries[at].0, &self.entries[at].1))
        } else {
            None
        }
    }

    /// The ids of all entries, in ascending order.
    pub fn ids(&self) -> (ids: Vec<u32>)
        ensures
            ids@.len() == self.entries().len(),
            forall|i: int| 0 <= i < ids@.len() ==> ids@[i] == (#[trigger] self.entries()[i]).0,
            forall|i: int, j: int| 0 <= i < j < ids@.len() ==> ids@[i] < ids@[j],
            forall|id: u32| ids@.contains(id) <==> self@.contains_key(id),
    {
        proof {
            use_type_invariant(self);
        }
        let mut ids: Vec<u32> = Vec::new();
        let mut at: usize = 0;
        while at < self.entries.len()
            invariant
                at <= self.entries@.len(),
                ids@.len() == at,
                forall|i: int| 0 <= i < at ==> ids@[i] == (#[trigger] self.entries@[i]).0,
            decreases self.entries@.len() - at,
        {
            ids.push(self.entries[at].0);
            at = at + 1;
        }
        proof {
            assert forall|i: int, j: int| 0 <= i < j < ids@.len() implies ids@[i] < ids@[j] by {
                assert(self.entries@[i].0 < self.entries@[j].0);
            }
            assert forall|id: u32| ids@.contains(id) <==> self@.contains_key(id) by {
                if ids@.contains(id) {
                    let i = choose|i: int| 0 <= i < ids@.len() && ids@[i] == id;
                    assert(self.entries@[i].0 == id);
                }
                if has_id(self.entries@, id) {
                    let p = position_of(self.entries@, id);
                    assert(ids@[p] == id);
                }
            }
        }
        ids
    }

    /// Sets the value for `id`, and hands back the value that it replaces.
    pub fn insert(&mut self, id: u32, value: V) -> (replaced: Option<V>)
        ensures
            final(self)@ == old(self)@.insert(id, value),
            replaced == if old(self)@.contains_key(id) {
                Some(old(self)@[id])
            } else {
                None
            },
    {
        let at = self.lower_bound(id);
        proof {
            use_type_invariant(&*self);
        }
        let ghost before = self.entries@;
        let mut entries: Vec<(u32, V)> = Vec::new();
        std::mem::swap(&mut self.entries, &mut entries);
        if at < entries.len() && entries[at].0 == id {
            let previous = entries.remove(at);
            entries.insert(at, (id, value));
            proof {
                let after = entries@;
                assert(after =~= before.update(at as int, (id, value)));
                lemma_entry_is_mapped(before, at as int);
                assert(ascending(after));
                lemma_update_is_map_insert(before, at as int, value);
            }
            self.entries = entries;
            Some(previous.1)
        } else {
            entries.insert(at, (id, value));
            proof {
                let after = entries@;
                assert(ascending(after));
                if has_id(before, id) {
                    let p = position_of(before, id);
                    assert(before[p].0 == id);
                }
                lemma_splice_is_map_insert(before, at as int, id, value);
            }
            self.entries = entries;
            None
        }
    }

    /// Takes the entry for `id` out of the table, and hands back its value.
    pub fn remove(&mut self, id: u32) -> (removed: Option<V>)
        ensures
            final(self)@ == old(self)@.remove(id),
            removed == if old(self)@.contains_key(id) {
                Some(old(self)@[id])
            } else {
                None
            },
    {
        let at = self.lower_bound(id);
        proof {
            use_type_invariant(&*self);
        }
        let ghost before = self.entries@;
        if at < self.entries.len() && self.entries[at].0 == id {
            let mut entries: Vec<(u32, V)> = Vec::new();
            std::mem::swap(&mut self.entries, &mut entries);
            let previous = entries.remove(at);
            proof {
                let after = entries@;
                assert(ascending(after));
                lemma_entry_is_mapped(before, at as int);
                lemma_cut_is_map_remove(before, at as int);
            }
            self.entries = entries;
            Some(previous.1)
        } else {
            proof {
                if has_id(before, id) {
                    let p = position_of(before, id);
                    assert(before[p].0 == id);
                }
                assert(entries_map(before).remove(id) =~= entries_map(before));
            }
            None
        }
    }
}

proof fn lemma_update_is_map_insert<V>(entries: Seq<(u32, V)>, at: int, value: V)
    requires
        ascending(entries),
        0 <= at < entries.len(),
    ensures
        entries_map(entries.update(at, (entries[at].0, value))) == entries_map(entries).insert(
            entries[at].0,
            value,
        ),
{
    let id = entries[at].0;
    let after = entries.update(at, (id, value));
    assert(ascending(after));
    let lhs = entries_map(after);
    let rhs = entries_map(entries).insert(id, value);
    assert forall|k: u32| lhs.contains_key(k) <==> rhs.contains_key(k) by {
        if has_id(after, k) {
            let p = position_of(after, k);
            assert(entries[p].0 == k);
        }
        if has_id(entries, k) {
            let p = position_of(entries, k);
            assert(after[p].0 == k);
        }
        assert(after[at].0 == id);
    }
    assert forall|k: u32| lhs.contains_key(k) implies lhs[k] == rhs[k] by {
        let p = position_of(after, k);
        lemma_entry_is_mapped(after, p);
        if k != id {
            lemma_entry_is_mapped(entries, p);
        } else {
            lemma_entry_is_mapped(after, at);
        }
    }
    assert(lhs =~= rhs);
}

proof fn lemma_splice_is_map_insert<V>(entries: Seq<(u32, V)>, at: int, id: u32, value: V)
    requires
        ascending(entries),
        0 <= at <= entries.len(),
        !has_id(entries, id),
        ascending(entries.insert(at, (id, value))),
    ensures
        entries_map(entries.insert(at, (id, value))) == entries_map(entries).insert(id, value),
{
    let after = entries.insert(at, (id, value));
    let lhs = entries_map(after);
    let rhs = entries_map(entries).insert(id, value);
    assert(after[at].0 == id);
    assert forall|k: u32| lhs.contains_key(k) <==> rhs.contains_key(k) by {
        if has_id(after, k) && k != id {
            let p = position_of(after, k);
            if p < at {
                assert(entries[p].0 == k);
            } else {
                assert(entries[p - 1].0 == k);
            }
        }
        if has_id(entries, k) {
            let p = position_of(entries, k);
            if p < at {
                assert(after[p].0 == k);
            } else {
                assert(after[p + 1].0 == k);
            }
        }
    }
    assert forall|k: u32| lhs.contains_key(k) implies lhs[k] == rhs[k] by {
        let p = position_of(after, k);
        lemma_entry_is_mapped(after, p);
        if k != id {
            if p < at {
                lemma_entry_is_mapped(entries, p);
            } else {
                lemma_entry_is_mapped(entries, p - 1);
            }
        } else {
            lemma_entry_is_mapped(after, at);
        }
    }
    assert(lhs =~= rhs);
}

proof fn lemma_cut_is_map_remove<V>(entries: Seq<(u32, V)>, at: int)
    requires
        ascending(entries),
        0 <= at < entries.len(),
    ensures
        entries_map(entries.remove(at)) == entries_map(entries).remove(entries[at].0),
{
    let id = entries[at].0;
    let after = entries.remove(at);
    assert(ascending(after));
    let lhs = entries_map(after);
    let rhs = entries_map(entries).remove(id);
    assert forall|k: u32| lhs.contains_key(k) <==> rhs.contains_key(k) by {
        if has_id(after, k) {
            let p = position_of(after, k);
            if p < at {
                assert(entries[p].0 == k);
                assert(entries[p].0 < entries[at].0);
            } else {
                assert(entries[p + 1].0 == k);
                assert(entries[at].0 < entries[p + 1].0);
            }
        }
        if has_id(entries, k) && k != id {
            let p = position_of(entries, k);
            if p < at {
                assert(after[p].0 == k);
            } else {
                assert(after[p - 1].0 == k);
            }
        }
    }
    assert forall|k: u32| lhs.contains_key(k) implies lhs[k] == rhs[k] by {
        let p = position_of(after, k);
        lemma_entry_is_mapped(after, p);
        if p < at {
            lemma_entry_is_mapped(entries, p);
        } else {
            lemma_entry_is_mapped(entries, p + 1);
        }
    }
    assert(lhs =~= rhs);
}

} // verus!
