//! The order in which the children of a directory and the blocks of a file
//! are listed.

use crate::registry::{InodeModel, NffsDiskBlock};
use crate::render::tree_of;
use crate::tree::{id_count, lemma_linked_below_ascends, owner_links, parent_links};
use std::cmp::Ordering;
use vstd::prelude::*;

verus! {

/// A block of a file: its id, and its record.
pub type BlockIdAndInfo<'a> = (u32, &'a NffsDiskBlock);

/// The order of two object ids.
pub open spec fn id_order(a: u32, b: u32) -> Ordering {
    if a < b {
        Ordering::Less
    } else if a > b {
        Ordering::Greater
    } else {
        Ordering::Equal
    }
}

/// Orders two blocks by their ids, the records left aside.
pub fn disk_block_sort(a: &BlockIdAndInfo, b: &BlockIdAndInfo) -> (order: Ordering)
    ensures
        order == id_order(a.0, b.0),
{
    if a.0 < b.0 {
        return Ordering::Less;
    } else if a.0 > b.0 {
        return Ordering::Greater;
    }
    Ordering::Equal
}

/// The blocks of a file are listed in ascending order of their ids.
pub proof fn law_blocks_are_listed_in_order(
    inodes: Map<u32, InodeModel>,
    blocks: Map<u32, NffsDiskBlock>,
    owner: u32,
    first: int,
    second: int,
)
    requires
        tree_of(inodes, blocks).blocktree.contains_key(owner),
        0 <= first < second < tree_of(inodes, blocks).blocktree[owner].len(),
    ensures
        id_order(
            tree_of(inodes, blocks).blocktree[owner][first],
            tree_of(inodes, blocks).blocktree[owner][second],
        ) == Ordering::Less,
{
    lemma_linked_below_ascends(owner_links(blocks), owner, id_count());
}

/// The children of a directory are listed in ascending order of their ids.
pub proof fn law_children_are_listed_in_order(
    inodes: Map<u32, InodeModel>,
    blocks: Map<u32, NffsDiskBlock>,
    parent: u32,
    first: int,
    second: int,
)
    requires
        tree_of(inodes, blocks).children.contains_key(parent),
        0 <= first < second < tree_of(inodes, blocks).children[parent].len(),
    ensures
        id_order(
            tree_of(inodes, blocks).children[parent][first],
            tree_of(inodes, blocks).children[parent][second],
        ) == Ordering::Less,
{
    lemma_linked_below_ascends(parent_links(inodes), parent, id_count());
}

} // verus!
