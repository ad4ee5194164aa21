//! The consistency check: whether a registry is a closed graph with a root.

use crate::layout::{NFFS_ID_NONE, NFFS_ID_ROOT_DIR};
use crate::registry::{inode_models, InodeModel, NffsDiskBlock, NffsDiskInode};
use crate::table::{has_id, lemma_entry_is_mapped, position_of, IdTable};
use vstd::prelude::*;

verus! {

/// The root directory is there.
pub open spec fn has_root(inodes: Map<u32, InodeModel>) -> bool {
    inodes.contains_key(NFFS_ID_ROOT_DIR)
}

/// Every inode but the root has its parent among the inodes.
pub open spec fn parents_closed(inodes: Map<u32, InodeModel>) -> bool {
    forall|id: u32|
        inodes.contains_key(id) && id != NFFS_ID_ROOT_DIR ==> inodes.contains_key(
            #[trigger] inodes[id].parent_id,
        )
}

/// Every block has its owner among the inodes.
pub open spec fn owners_closed(
    inodes: Map<u32, InodeModel>,
    blocks: Map<u32, NffsDiskBlock>,
) -> bool {
    forall|id: u32| blocks.contains_key(id) ==> inodes.contains_key(#[trigger] blocks[id].inode_id)
}

/// Every block but the first of its file has its predecessor among the
/// blocks.
pub open spec fn chains_closed(blocks: Map<u32, NffsDiskBlock>) -> bool {
    forall|id: u32|
        blocks.contains_key(id) && (#[trigger] blocks[id]).prev_id != NFFS_ID_NONE
            ==> blocks.contains_key(blocks[id].prev_id)
}

/// Whether the inodes and blocks form a closed graph with a root.
pub open spec fn registry_closed(
    inodes: Map<u32, InodeModel>,
    blocks: Map<u32, NffsDiskBlock>,
) -> bool {
    &&& has_root(inodes)
    &&& parents_closed(inodes)
    &&& owners_closed(inodes, blocks)
    &&& chains_closed(blocks)
}

/// Checks that the root directory is there, that every other inode has its
/// parent, that every block has its owner, and that every block has the
/// block before it, where it names one.
pub fn is_valid_fs(inodes: &IdTable<NffsDiskInode>, blocks: &IdTable<NffsDiskBlock>) -> (valid:
    bool)
    ensures
        valid == registry_closed(inode_models(inodes@), blocks@),
{
    let ghost models = inode_models(inodes@);
    if !inodes.contains_key(NFFS_ID_ROOT_DIR) {
        return false;
    }
    let inode_count = inodes.len();
    let mut at: usize = 0;
    while at < inode_count
        invariant
            at <= inode_count == inodes.entries().len(),
            models == inode_models(inodes@),
            forall|i: int|
                0 <= i < at && inodes.entries()[i].0 != NFFS_ID_ROOT_DIR ==> models.contains_key(
                    (#[trigger] inodes.entries()[i]).1.parent_id,
                ),
        decreases inode_count - at,
    {
        match inodes.entry_at(at) {
            Some((id, inode)) => {
                if id != NFFS_ID_ROOT_DIR && !inodes.contains_key(inode.parent_id) {
                    assert(models[id].parent_id == inode.parent_id);
                    return false;
                }
            },
            None => {},
        }
        at = at + 1;
    }
    proof {
        assert forall|id: u32| models.contains_key(id) && id != NFFS_ID_ROOT_DIR implies models.contains_key(
            #[trigger] models[id].parent_id,
        ) by {
            assert(has_id(inodes.entries(), id));
            let p = position_of(inodes.entries(), id);
            lemma_entry_is_mapped(inodes.entries(), p);
            assert(models.contains_key(inodes.entries()[p].1.parent_id));
        }
    }
    let block_count = blocks.len();
    let mut at: usize = 0;
    while at < block_count
        invariant
            at <= block_count == blocks.entries().len(),
            models == inode_models(inodes@),
            forall|i: int|
                0 <= i < at ==> models.contains_key((#[trigger] blocks.entries()[i]).1.inode_id),
            forall|i: int|
                0 <= i < at && (#[trigger] blocks.entries()[i]).1.prev_id != NFFS_ID_NONE
                    ==> blocks@.contains_key(blocks.entries()[i].1.prev_id),
        decreases block_count - at,
    {
        match blocks.entry_at(at) {
            Some((id, block)) => {
                if !inodes.contains_key(block.inode_id) {
                    assert(blocks@[id].inode_id == block.inode_id);
                    return false;
                }
                if block.prev_id != NFFS_ID_NONE && !blocks.contains_key(block.prev_id) {
                    assert(blocks@[id].prev_id == block.prev_id);
                    return false;
                }
            },
            None => {},
        }
        at = at + 1;
    }
    proof {
        assert forall|id: u32| blocks@.contains_key(id) implies models.contains_key(
            #[trigger] blocks@[id].inode_id,
        ) by {
            assert(has_id(blocks.entries(), id));
            let p = position_of(blocks.entries(), id);
            lemma_entry_is_mapped(blocks.entries(), p);
            assert(models.contains_key(blocks.entries()[p].1.inode_id));
        }
        assert forall|id: u32|
            blocks@.contains_key(id) && (#[trigger] blocks@[id]).prev_id
                != NFFS_ID_NONE implies blocks@.contains_key(blocks@[id].prev_id) by {
            assert(has_id(blocks.entries(), id));
            let p = position_of(blocks.entries(), id);
            lemma_entry_is_mapped(blocks.entries(), p);
            assert(blocks.entries()[p].1.prev_id != NFFS_ID_NONE);
        }
    }
    true
}

} // verus!
