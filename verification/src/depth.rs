//! How deep a tree can be: where the root has no parent, no branch reaches
//! down as many levels as there are inodes, so that none is cut short.

use crate::layout::{NFFS_ID_NONE, NFFS_ID_ROOT_DIR};
use crate::registry::{InodeModel, NffsDiskBlock};
use crate::render::{branch_text, descent_text, tree_of, tree_text};
use crate::tree::{id_count, lemma_linked_below_members, parent_links};
use vstd::prelude::*;
use vstd::set_lib::lemma_len_subset;

verus! {

/// Whether `path` leads from the root down to an inode, each inode on it
/// being a child of the one before.
pub open spec fn descends_from_root(inodes: Map<u32, InodeModel>, path: Seq<u32>) -> bool {
    &&& path.len() >= 1
    &&& path[0] == NFFS_ID_ROOT_DIR
    &&& forall|i: int| 0 <= i < path.len() ==> inodes.contains_key(#[trigger] path[i])
    &&& forall|i: int|
        1 <= i < path.len() ==> (#[trigger] inodes[path[i]]).parent_id == path[i - 1]
            && inodes[path[i]].parent_id != NFFS_ID_NONE
}

/// Whether the root is there and has no parent.
pub open spec fn rooted(inodes: Map<u32, InodeModel>) -> bool {
    inodes.contains_key(NFFS_ID_ROOT_DIR) && inodes[NFFS_ID_ROOT_DIR].parent_id == NFFS_ID_NONE
}

proof fn lemma_path_has_no_inode_twice(inodes: Map<u32, InodeModel>, path: Seq<u32>)
    requires
        rooted(inodes),
        descends_from_root(inodes, path),
    ensures
        path.no_duplicates(),
    decreases path.len(),
{
    if path.len() > 1 {
        let front = path.drop_last();
        let last = path.last();
        assert(descends_from_root(inodes, front)) by {
            assert forall|i: int| 0 <= i < front.len() implies inodes.contains_key(
                #[trigger] front[i],
            ) by {
                assert(front[i] == path[i]);
            }
            assert forall|i: int| 1 <= i < front.len() implies (#[trigger] inodes[front[i]]).parent_id
                == front[i - 1] && inodes[front[i]].parent_id != NFFS_ID_NONE by {
                assert(front[i] == path[i]);
                assert(inodes[path[i]].parent_id == path[i - 1]);
            }
        }
        lemma_path_has_no_inode_twice(inodes, front);
        assert forall|i: int, j: int| 0 <= i < path.len() && 0 <= j < path.len() && i != j implies path[i]
            != path[j] by {
            let low = if i < j {
                i
            } else {
                j
            };
            let high = if i < j {
                j
            } else {
                i
            };
            if high < path.len() - 1 {
                assert(front[low] != front[high]);
            } else if path[low] == path[high] {
                // The last inode stands earlier on the path: its parent is
                // then the inode before that one, too.
                assert(inodes[path[high]].parent_id == path[high - 1]);
                if low == 0 {
                    assert(inodes[path[high]].parent_id != NFFS_ID_NONE);
                } else {
                    assert(inodes[path[low]].parent_id == path[low - 1]);
                    assert(front[low - 1] != front[high - 1]);
                }
            }
        }
    }
}

proof fn lemma_path_is_shorter_than_the_registry(inodes: Map<u32, InodeModel>, path: Seq<u32>)
    requires
        rooted(inodes),
        inodes.dom().finite(),
        descends_from_root(inodes, path),
    ensures
        path.len() <= inodes.len(),
{
    lemma_path_has_no_inode_twice(inodes, path);
    path.unique_seq_to_set();
    assert(path.to_set().subset_of(inodes.dom())) by {
        assert forall|id: u32| path.to_set().contains(id) implies inodes.dom().contains(id) by {
            let i = choose|i: int| 0 <= i < path.len() && path[i] == id;
            assert(inodes.contains_key(path[i]));
        }
    }
    lemma_len_subset(path.to_set(), inodes.dom());
}

proof fn lemma_branch_is_not_cut(
    inodes: Map<u32, InodeModel>,
    blocks: Map<u32, NffsDiskBlock>,
    path: Seq<u32>,
    prefix: Seq<char>,
    limit: nat,
    from: nat,
)
    requires
        rooted(inodes),
        inodes.dom().finite(),
        descends_from_root(inodes, path),
        limit >= inodes.len(),
    ensures
        branch_text(
            tree_of(inodes, blocks),
            path.last(),
            (path.len() - 1) as nat,
            prefix,
            limit,
            from,
        ) == branch_text(
            tree_of(inodes, blocks),
            path.last(),
            (path.len() - 1) as nat,
            prefix,
            inodes.len(),
            from,
        ),
    decreases inodes.len() - path.len(), tree_of(inodes, blocks).children[path.last()].len() - from,
{
    let tree = tree_of(inodes, blocks);
    let id = path.last();
    let level = (path.len() - 1) as nat;
    lemma_path_is_shorter_than_the_registry(inodes, path);
    if tree.children.contains_key(id) && from < tree.children[id].len() {
        let child = tree.children[id][from as int];
        let last = from + 1 == tree.children[id].len();
        let grown = path.push(child);
        lemma_linked_below_members(parent_links(inodes), id, id_count(), from as int);
        assert(descends_from_root(inodes, grown)) by {
            assert forall|i: int| 0 <= i < grown.len() implies inodes.contains_key(
                #[trigger] grown[i],
            ) by {
                if i < path.len() {
                    assert(grown[i] == path[i]);
                }
            }
            assert forall|i: int| 1 <= i < grown.len() implies (#[trigger] inodes[grown[i]]).parent_id
                == grown[i - 1] && inodes[grown[i]].parent_id != NFFS_ID_NONE by {
                if i < path.len() {
                    assert(grown[i] == path[i]);
                    assert(inodes[path[i]].parent_id == path[i - 1]);
                }
            }
        }
        lemma_path_is_shorter_than_the_registry(inodes, grown);
        lemma_branch_is_not_cut(
            inodes,
            blocks,
            grown,
            prefix + descent_text(last, level),
            limit,
            0,
        );
        lemma_branch_is_not_cut(inodes, blocks, path, prefix, limit, from + 1);
    }
}

/// Where the root has no parent, no branch of the tree is cut short: the
/// tree is rendered down to its last inode.
pub proof fn law_no_branch_is_cut(
    inodes: Map<u32, InodeModel>,
    blocks: Map<u32, NffsDiskBlock>,
    limit: nat,
)
    requires
        rooted(inodes),
        inodes.dom().finite(),
        limit >= inodes.len(),
    ensures
        tree_text(tree_of(inodes, blocks)) == "/\n"@ + branch_text(
            tree_of(inodes, blocks),
            NFFS_ID_ROOT_DIR,
            0,
            Seq::empty(),
            limit,
            0,
        ),
{
    let path = seq![NFFS_ID_ROOT_DIR];
    assert(descends_from_root(inodes, path));
    lemma_branch_is_not_cut(inodes, blocks, path, Seq::empty(), limit, 0);
}

} // verus!
