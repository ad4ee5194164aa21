//! The tree structures behind the rendering: for each directory its
//! children, for each file its blocks, both in ascending id order.

use crate::layout::NFFS_ID_NONE;
use crate::registry::{InodeModel, NffsDiskBlock, NffsDiskInode};
use crate::table::{ascending, has_id, position_of, IdTable};
use vstd::prelude::*;

verus! {

/// The number of object ids.
pub open spec fn id_count() -> nat {
    0x1_0000_0000
}

/// The ids below `bound` that `links` links to `of`, in ascending order.
pub open spec fn linked_below(links: Map<u32, u32>, of: u32, bound: nat) -> Seq<u32>
    decreases bound,
{
    if bound == 0 {
        Seq::empty()
    } else {
        let rest = linked_below(links, of, (bound - 1) as nat);
        let id = (bound - 1) as u32;
        if bound <= id_count() && links.contains_key(id) && links[id] == of {
            rest.push(id)
        } else {
            rest
        }
    }
}

/// The lists of the ids below `bound` by what they are linked to; an id to
/// which none is linked has no list.
pub open spec fn adjacency_below(links: Map<u32, u32>, bound: nat) -> Map<u32, Seq<u32>> {
    Map::new(
        |of: u32| linked_below(links, of, bound).len() > 0,
        |of: u32| linked_below(links, of, bound),
    )
}

/// The lists of all ids by what they are linked to.
pub open spec fn adjacency(links: Map<u32, u32>) -> Map<u32, Seq<u32>> {
    adjacency_below(links, id_count())
}

/// The link from each inode that has a parent to that parent.
pub open spec fn parent_links(inodes: Map<u32, InodeModel>) -> Map<u32, u32> {
    Map::new(
        |id: u32| inodes.contains_key(id) && inodes[id].parent_id != NFFS_ID_NONE,
        |id: u32| inodes[id].parent_id,
    )
}

/// The link from each block to the inode that owns it.
pub open spec fn owner_links(blocks: Map<u32, NffsDiskBlock>) -> Map<u32, u32> {
    Map::new(|id: u32| blocks.contains_key(id), |id: u32| blocks[id].inode_id)
}

/// Every id of a list of linked ids is linked to the list's owner.
pub proof fn lemma_linked_below_members(links: Map<u32, u32>, of: u32, bound: nat, at: int)
    requires
        0 <= at < linked_below(links, of, bound).len(),
    ensures
        links.contains_key(linked_below(links, of, bound)[at]),
        links[linked_below(links, of, bound)[at]] == of,
        linked_below(links, of, bound)[at] < bound,
    decreases bound,
{
    if bound > 0 {
        let rest = linked_below(links, of, (bound - 1) as nat);
        if at < rest.len() {
            lemma_linked_below_members(links, of, (bound - 1) as nat, at);
        }
    }
}

/// A list of linked ids ascends.
pub proof fn lemma_linked_below_ascends(links: Map<u32, u32>, of: u32, bound: nat)
    ensures
        forall|i: int, j: int|
            0 <= i < j < linked_below(links, of, bound).len() ==> linked_below(links, of, bound)[i]
                < linked_below(links, of, bound)[j],
    decreases bound,
{
    if bound > 0 {
        let rest = linked_below(links, of, (bound - 1) as nat);
        lemma_linked_below_ascends(links, of, (bound - 1) as nat);
        assert forall|i: int, j: int|
            0 <= i < j < linked_below(links, of, bound).len() implies linked_below(
            links,
            of,
            bound,
        )[i] < linked_below(links, of, bound)[j] by {
            if j >= rest.len() {
                lemma_linked_below_members(links, of, (bound - 1) as nat, i);
            }
        }
    }
}

/// Every id that is linked to `of` stands in the list of `of`.
pub proof fn lemma_linked_below_complete(links: Map<u32, u32>, of: u32, bound: nat, id: u32)
    requires
        links.contains_key(id),
        links[id] == of,
        id < bound <= id_count(),
    ensures
        linked_below(links, of, bound).contains(id),
    decreases bound,
{
    let rest = linked_below(links, of, (bound - 1) as nat);
    if id == bound - 1 {
        assert(linked_below(links, of, bound) == rest.push(id));
        assert(rest.push(id)[rest.len() as int] == id);
    } else {
        lemma_linked_below_complete(links, of, (bound - 1) as nat, id);
        let at = choose|at: int| 0 <= at < rest.len() && rest[at] == id;
        assert(linked_below(links, of, bound)[at] == id);
    }
}

/// Where no id from `low` up to `high` has a link, the lists below `high`
/// are the lists below `low`.
proof fn lemma_linked_below_gap(links: Map<u32, u32>, of: u32, low: nat, high: nat)
    requires
        low <= high,
        forall|id: u32| low <= id < high ==> !links.contains_key(id),
    ensures
        linked_below(links, of, high) == linked_below(links, of, low),
    decreases high,
{
    if low < high {
        lemma_linked_below_gap(links, of, low, (high - 1) as nat);
    }
}

/// A value that may name, by id, the object it belongs to.
pub trait Linked {
    /// The id that the value is linked to, if any.
    spec fn link(&self) -> Option<u32>;

    /// The id that the value is linked to, if any.
    fn owner(&self) -> (owner: Option<u32>)
        ensures
            owner == self.link(),
    ;
}

impl Linked for NffsDiskInode {
    open spec fn link(&self) -> Option<u32> {
        if self.parent_id != NFFS_ID_NONE {
            Some(self.parent_id)
        } else {
            None
        }
    }

    /// The parent directory; the root has none.
    fn owner(&self) -> (owner: Option<u32>) {
        if self.parent_id != NFFS_ID_NONE {
            Some(self.parent_id)
        } else {
            None
        }
    }
}

impl Linked for NffsDiskBlock {
    open spec fn link(&self) -> Option<u32> {
        Some(self.inode_id)
    }

    /// The inode that owns the block.
    fn owner(&self) -> (owner: Option<u32>) {
        Some(self.inode_id)
    }
}

/// The links of the values of a table.
pub open spec fn links_of<V: Linked>(table: Map<u32, V>) -> Map<u32, u32> {
    Map::new(
        |id: u32| table.contains_key(id) && table[id].link() is Some,
        |id: u32| table[id].link()->0,
    )
}

/// The lists of a table of lists.
pub open spec fn lists_of(table: Map<u32, Vec<u32>>) -> Map<u32, Seq<u32>> {
    table.map_values(|list: Vec<u32>| list@)
}

/// The bound below which the first `done` entries of `entries` lie: the id
/// of the next entry, or the number of ids where there is no next entry.
pub open spec fn frontier<V>(entries: Seq<(u32, V)>, done: int) -> nat {
    if 0 <= done < entries.len() {
        entries[done].0 as nat
    } else {
        id_count()
    }
}

proof fn lemma_no_link_between<V: Linked>(table: IdTable<V>, done: int, low: nat)
    requires
        ascending(table.entries()),
        0 <= done <= table.entries().len(),
        done == 0 ==> low == 0,
        done > 0 ==> low == table.entries()[done - 1].0 + 1,
    ensures
        low <= frontier(table.entries(), done),
        forall|id: u32|
            low <= id < frontier(table.entries(), done) ==> !links_of(table@).contains_key(id),
{
    let entries = table.entries();
    assert forall|id: u32| low <= id < frontier(entries, done) implies !links_of(
        table@,
    ).contains_key(id) by {
        if has_id(entries, id) {
            let p = position_of(entries, id);
            if p < done {
                if p < done - 1 {
                    assert(entries[p].0 < entries[done - 1].0);
                }
            } else if p > done {
                assert(entries[done].0 < entries[p].0);
            }
        }
    }
    if 0 < done < entries.len() {
        assert(entries[done - 1].0 < entries[done].0);
    }
}

/// Groups the ids of a table by what its values are linked to: the list of
/// an id holds, in ascending order, the ids of the values linked to it.
pub fn group_by_link<V: Linked>(table: &IdTable<V>) -> (groups: IdTable<Vec<u32>>)
    ensures
        lists_of(groups@) == adjacency(links_of(table@)),
{
    let ghost links = links_of(table@);
    let mut groups: IdTable<Vec<u32>> = IdTable::new();
    let count = table.len();
    let mut done: usize = 0;
    proof {
        lemma_no_link_between(*table, 0, 0);
        assert forall|of: u32|
            linked_below(links, of, frontier(table.entries(), 0)) == Seq::<u32>::empty() by {
            lemma_linked_below_gap(links, of, 0, frontier(table.entries(), 0));
        }
        assert(lists_of(groups@) =~= adjacency_below(links, frontier(table.entries(), 0)));
    }
    while done < count
        invariant
            done <= count == table.entries().len(),
            ascending(table.entries()),
            links == links_of(table@),
            lists_of(groups@) == adjacency_below(links, frontier(table.entries(), done as int)),
        decreases count - done,
    {
        let ghost before = lists_of(groups@);
        let ghost bound = frontier(table.entries(), done as int);
        match table.entry_at(done) {
            Some((id, value)) => {
                assert(bound == id);
                match value.owner() {
                    Some(of) => {
                        let ghost kept = groups@;
                        let mut list = match groups.remove(of) {
                            Some(list) => list,
                            None => Vec::new(),
                        };
                        assert(list@ == linked_below(links, of, bound)) by {
                            if kept.contains_key(of) {
                                assert(before.contains_key(of));
                                assert(before[of] == kept[of]@);
                            } else {
                                assert(!before.contains_key(of));
                                assert(linked_below(links, of, bound).len() == 0);
                                assert(list@ =~= linked_below(links, of, bound));
                            }
                        }
                        list.push(id);
                        let ghost grown = list@;
                        groups.insert(of, list);
                        proof {
                            assert(links.contains_key(id) && links[id] == of);
                            assert forall|other: u32|
                                (#[trigger] lists_of(groups@).contains_key(other)) <==> linked_below(
                                    links,
                                    other,
                                    (id + 1) as nat,
                                ).len() > 0 by {
                                if other != of {
                                    assert(before.contains_key(other) <==> kept.contains_key(
                                        other,
                                    ));
                                }
                            }
                            assert forall|other: u32| #[trigger]
                                lists_of(groups@).contains_key(other) implies lists_of(
                                groups@,
                            )[other] == linked_below(links, other, (id + 1) as nat) by {
                                if other != of {
                                    assert(before.contains_key(other));
                                    assert(before[other] == kept[other]@);
                                }
                            }
                            assert(lists_of(groups@) =~= adjacency_below(links, (id + 1) as nat));
                        }
                    },
                    None => {
                        proof {
                            assert(!links.contains_key(id));
                            assert(lists_of(groups@) =~= adjacency_below(links, (id + 1) as nat));
                        }
                    },
                }
                proof {
                    lemma_no_link_between(*table, done + 1, (id + 1) as nat);
                    let next = frontier(table.entries(), done + 1);
                    assert forall|of: u32|
                        linked_below(links, of, next) == linked_below(
                            links,
                            of,
                            (id + 1) as nat,
                        ) by {
                        lemma_linked_below_gap(links, of, (id + 1) as nat, next);
                    }
                    assert(adjacency_below(links, next) =~= adjacency_below(
                        links,
                        (id + 1) as nat,
                    ));
                }
            },
            None => {},
        }
        done = done + 1;
    }
    groups
}

} // verus!
