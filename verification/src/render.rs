//! The tree of a registry as text.

use crate::layout::NFFS_ID_ROOT_DIR;
use crate::registry::{inode_models, InodeModel, NffsDiskBlock, NffsDiskInode};
use crate::table::IdTable;
use crate::text::{decimal, decimal_text, hex, hex_text};
use crate::tree::{
    adjacency, group_by_link, id_count, lemma_linked_below_members, links_of,
    lists_of, owner_links, parent_links,
};
use vstd::prelude::*;
use vstd::string::*;

verus! {

/// What a tree is rendered from: the registry, the children of each
/// directory and the blocks of each file.
pub struct TreeModel {
    pub inodes: Map<u32, InodeModel>,
    pub blocks: Map<u32, NffsDiskBlock>,
    pub children: Map<u32, Seq<u32>>,
    pub blocktree: Map<u32, Seq<u32>>,
}

/// The tree structures of a registry: each inode with a parent is a child of
/// that parent, each block belongs to the inode that owns it.
pub open spec fn tree_of(inodes: Map<u32, InodeModel>, blocks: Map<u32, NffsDiskBlock>)
    -> TreeModel {
    TreeModel {
        inodes,
        blocks,
        children: adjacency(parent_links(inodes)),
        blocktree: adjacency(owner_links(blocks)),
    }
}

/// Whether the lists of a tree name only inodes and blocks that are there.
pub open spec fn tree_consistent(tree: TreeModel) -> bool {
    &&& forall|parent: u32, k: int|
        tree.children.contains_key(parent) && 0 <= k < tree.children[parent].len()
            ==> tree.inodes.contains_key(#[trigger] tree.children[parent][k])
    &&& forall|owner: u32, k: int|
        tree.blocktree.contains_key(owner) && 0 <= k < tree.blocktree[owner].len()
            ==> tree.blocks.contains_key(#[trigger] tree.blocktree[owner][k])
}

/// The sum of the data lengths of the blocks `ids`.
pub open spec fn total_len(blocks: Map<u32, NffsDiskBlock>, ids: Seq<u32>) -> nat
    decreases ids.len(),
{
    if ids.len() == 0 {
        0
    } else {
        total_len(blocks, ids.drop_last()) + blocks[ids.last()].len as nat
    }
}

/// The ids `ids` in hexadecimal, with a comma and a space between them.
pub open spec fn block_ids_text(ids: Seq<u32>) -> Seq<char>
    decreases ids.len(),
{
    if ids.len() == 0 {
        Seq::empty()
    } else {
        block_ids_text(ids.drop_last()) + (if ids.len() > 1 {
            ", "@
        } else {
            ""@
        }) + "0x"@ + hex_text(ids.last() as nat, 8)
    }
}

/// What follows the name of an inode that owns blocks: the sum of their
/// lengths, and their ids in ascending order.
pub open spec fn annotation_text(tree: TreeModel, id: u32) -> Seq<char> {
    if tree.blocktree.contains_key(id) {
        " [size="@ + decimal_text(total_len(tree.blocks, tree.blocktree[id])) + ", blocks=("@
            + block_ids_text(tree.blocktree[id]) + ")]"@
    } else {
        ""@
    }
}

/// `count` spaces.
pub open spec fn spaces(count: nat) -> Seq<char>
    decreases count,
{
    if count == 0 {
        Seq::empty()
    } else {
        spaces((count - 1) as nat) + " "@
    }
}

/// What the prefix grows by below a child at `level`: blank below the last
/// child of its parent, a bar and blanks below any other.
pub open spec fn descent_text(last: bool, level: nat) -> Seq<char> {
    if last {
        spaces((level + 1) * 5)
    } else {
        "│"@ + spaces(((level + 1) * 5 - 1) as nat)
    }
}

/// The line of one child.
pub open spec fn child_line(tree: TreeModel, child: u32, prefix: Seq<char>, last: bool) -> Seq<
    char,
> {
    prefix + (if last {
        "└── "@
    } else {
        "├── "@
    }) + tree.inodes[child].name + annotation_text(tree, child) + "\n"@
}

/// The children of `id` from number `from` on, each followed by its own
/// branch; `id` stands `level` levels below the root.  Nothing is rendered
/// from `limit` levels down.
pub open spec fn branch_text(
    tree: TreeModel,
    id: u32,
    level: nat,
    prefix: Seq<char>,
    limit: nat,
    from: nat,
) -> Seq<char>
    decreases limit - level, tree.children[id].len() - from,
{
    if level >= limit || !tree.children.contains_key(id) || from >= tree.children[id].len() {
        Seq::empty()
    } else {
        let child = tree.children[id][from as int];
        let last = from + 1 == tree.children[id].len();
        child_line(tree, child, prefix, last) + branch_text(
            tree,
            child,
            level + 1,
            prefix + descent_text(last, level),
            limit,
            0,
        ) + branch_text(tree, id, level, prefix, limit, from + 1)
    }
}

/// The whole tree: the root as `/`, then its branch.  A branch is rendered
/// as many levels down as there are inodes.
pub open spec fn tree_text(tree: TreeModel) -> Seq<char> {
    "/\n"@ + branch_text(tree, NFFS_ID_ROOT_DIR, 0, Seq::empty(), tree.inodes.len(), 0)
}

/// The tree that four tables stand for.
pub open spec fn tree_model(
    inodes: Map<u32, NffsDiskInode>,
    blocks: Map<u32, NffsDiskBlock>,
    children: Map<u32, Vec<u32>>,
    blocktree: Map<u32, Vec<u32>>,
) -> TreeModel {
    TreeModel {
        inodes: inode_models(inodes),
        blocks,
        children: lists_of(children),
        blocktree: lists_of(blocktree),
    }
}

fn spaces_str(count: u128) -> (text: String)
    ensures
        text@ == spaces(count as nat),
{
    let mut text = String::new();
    let mut done: u128 = 0;
    while done < count
        invariant
            done <= count,
            text@ == spaces(done as nat),
        decreases count - done,
    {
        text.append(" ");
        done = done + 1;
    }
    text
}

fn block_ids_str(ids: &Vec<u32>) -> (text: String)
    ensures
        text@ == block_ids_text(ids@),
{
    let mut text = String::new();
    let mut at: usize = 0;
    while at < ids.len()
        invariant
            at <= ids@.len(),
            text@ == block_ids_text(ids@.subrange(0, at as int)),
        decreases ids@.len() - at,
    {
        proof {
            assert(ids@.subrange(0, at + 1).drop_last() =~= ids@.subrange(0, at as int));
        }
        text.append(
            if at > 0 {
                ", "
            } else {
                ""
            },
        );
        text.append("0x");
        text.append(hex(ids[at], 8).as_str());
        at = at + 1;
    }
    proof {
        assert(ids@.subrange(0, at as int) =~= ids@);
    }
    text
}

fn total_len_of(blocks: &IdTable<NffsDiskBlock>, ids: &Vec<u32>) -> (total: u128)
    requires
        forall|k: int| 0 <= k < ids@.len() ==> blocks@.contains_key(#[trigger] ids@[k]),
    ensures
        total == total_len(blocks@, ids@),
{
    let mut total: u128 = 0;
    let mut at: usize = 0;
    while at < ids.len()
        invariant
            at <= ids@.len(),
            total == total_len(blocks@, ids@.subrange(0, at as int)),
            total <= at * 0xffff,
            forall|k: int| 0 <= k < ids@.len() ==> blocks@.contains_key(#[trigger] ids@[k]),
        decreases ids@.len() - at,
    {
        proof {
            assert(ids@.subrange(0, at + 1).drop_last() =~= ids@.subrange(0, at as int));
            assert(blocks@.contains_key(ids@[at as int]));
        }
        let len: u128 = match blocks.get(ids[at]) {
            Some(block) => block.len as u128,
            None => 0,
        };
        total = total + len;
        at = at + 1;
    }
    proof {
        assert(ids@.subrange(0, at as int) =~= ids@);
    }
    total
}

fn annotation(
    blocks: &IdTable<NffsDiskBlock>,
    blocktree: &IdTable<Vec<u32>>,
    id: u32,
    Ghost(tree): Ghost<TreeModel>,
) -> (text: String)
    requires
        tree.blocks == blocks@,
        tree.blocktree == lists_of(blocktree@),
        tree_consistent(tree),
    ensures
        text@ == annotation_text(tree, id),
{
    match blocktree.get(id) {
        Some(ids) => {
            assert(tree.blocktree.contains_key(id) && tree.blocktree[id] == ids@);
            assert forall|k: int| 0 <= k < ids@.len() implies blocks@.contains_key(
                #[trigger] ids@[k],
            ) by {
                assert(tree.blocks.contains_key(tree.blocktree[id][k]));
            }
            let mut text = " [size=".to_owned();
            text.append(decimal(total_len_of(blocks, ids)).as_str());
            text.append(", blocks=(");
            text.append(block_ids_str(ids).as_str());
            text.append(")]");
            text
        },
        None => {
            assert(!tree.blocktree.contains_key(id));
            "".to_owned()
        },
    }
}

/// Renders the branch of the inode `id`, which stands `level` levels below
/// the root: each child on a line of its own after `prefix`, with its size
/// and blocks where it owns any, and followed by its own branch.  Nothing
/// is rendered from `limit` levels down.
pub fn print_tree_branch(
    inodes: &IdTable<NffsDiskInode>,
    blocks: &IdTable<NffsDiskBlock>,
    children: &IdTable<Vec<u32>>,
    blocktree: &IdTable<Vec<u32>>,
    id: u32,
    level: usize,
    prefix: &str,
    limit: usize,
) -> (text: String)
    requires
        tree_consistent(tree_model(inodes@, blocks@, children@, blocktree@)),
    ensures
        text@ == branch_text(
            tree_model(inodes@, blocks@, children@, blocktree@),
            id,
            level as nat,
            prefix@,
            limit as nat,
            0,
        ),
    decreases limit - level,
{
    let ghost tree = tree_model(inodes@, blocks@, children@, blocktree@);
    let mut text = String::new();
    if level >= limit {
        return text;
    }
    let kids = match children.get(id) {
        Some(kids) => kids,
        None => {
            return text;
        },
    };
    assert(tree.children.contains_key(id) && tree.children[id] == kids@);
    let ghost whole = branch_text(tree, id, level as nat, prefix@, limit as nat, 0);
    let count = kids.len();
    let mut from: usize = 0;
    while from < count
        invariant
            from <= count == kids@.len(),
            level < limit,
            tree == tree_model(inodes@, blocks@, children@, blocktree@),
            tree_consistent(tree),
            tree.children.contains_key(id) && tree.children[id] == kids@,
            whole == branch_text(tree, id, level as nat, prefix@, limit as nat, 0),
            text@ + branch_text(tree, id, level as nat, prefix@, limit as nat, from as nat)
                == whole,
        decreases count - from,
    {
        let child = kids[from];
        let last = from + 1 == count;
        let ghost before = text@;
        let ghost descent = prefix@ + descent_text(last, level as nat);
        let ghost line = child_line(tree, child, prefix@, last);
        let ghost below = branch_text(tree, child, (level + 1) as nat, descent, limit as nat, 0);
        let ghost rest = branch_text(
            tree,
            id,
            level as nat,
            prefix@,
            limit as nat,
            (from + 1) as nat,
        );
        assert(tree.inodes.contains_key(tree.children[id][from as int]));
        let inode = match inodes.get(child) {
            Some(inode) => inode,
            None => {
                return text;
            },
        };
        let mut shown = prefix.to_owned();
        shown.append(
            if last {
                "└── "
            } else {
                "├── "
            },
        );
        shown.append(inode.name.as_str());
        shown.append(annotation(blocks, blocktree, child, Ghost(tree)).as_str());
        shown.append("\n");
        assert(shown@ == line);
        text.append(shown.as_str());
        let pad: u128 = (level as u128 + 1) * 5;
        let mut deeper = prefix.to_owned();
        if last {
            deeper.append(spaces_str(pad).as_str());
        } else {
            let mut bar = "│".to_owned();
            bar.append(spaces_str(pad - 1).as_str());
            deeper.append(bar.as_str());
        }
        assert(deeper@ == descent);
        let branch = print_tree_branch(
            inodes,
            blocks,
            children,
            blocktree,
            child,
            level + 1,
            deeper.as_str(),
            limit,
        );
        text.append(branch.as_str());
        proof {
            assert(branch@ == below);
            assert(text@ == before + line + below);
            assert(before + (line + below + rest) =~= before + line + below + rest);
        }
        from = from + 1;
    }
    proof {
        assert(text@ + Seq::<char>::empty() =~= text@);
    }
    text
}

/// Builds the tree structures of a registry and renders the tree: the root
/// as `/`, then the children of each directory in ascending id order.
pub fn build_tree(inodes: &IdTable<NffsDiskInode>, blocks: &IdTable<NffsDiskBlock>) -> (text:
    String)
    ensures
        text@ == tree_text(tree_of(inode_models(inodes@), blocks@)),
{
    let children = group_by_link(inodes);
    let blocktree = group_by_link(blocks);
    let ghost tree = tree_model(inodes@, blocks@, children@, blocktree@);
    let limit = inodes.len();
    proof {
        assert(links_of(inodes@) =~= parent_links(inode_models(inodes@)));
        assert(links_of(blocks@) =~= owner_links(blocks@));
        assert(tree == tree_of(inode_models(inodes@), blocks@));
        assert(inode_models(inodes@).dom() =~= inodes@.dom());
        assert forall|parent: u32, k: int|
            tree.children.contains_key(parent) && 0 <= k < tree.children[parent].len()
                implies tree.inodes.contains_key(#[trigger] tree.children[parent][k]) by {
            lemma_linked_below_members(parent_links(tree.inodes), parent, id_count(), k);
        }
        assert forall|owner: u32, k: int|
            tree.blocktree.contains_key(owner) && 0 <= k < tree.blocktree[owner].len()
                implies tree.blocks.contains_key(#[trigger] tree.blocktree[owner][k]) by {
            lemma_linked_below_members(owner_links(tree.blocks), owner, id_count(), k);
        }
    }
    let mut text = "/\n".to_owned();
    text.append(
        print_tree_branch(inodes, blocks, &children, &blocktree, NFFS_ID_ROOT_DIR, 0, "", limit)
            .as_str(),
    );
    proof {
        reveal_strlit("");
        assert(""@ =~= Seq::<char>::empty());
    }
    text
}

} // verus!
