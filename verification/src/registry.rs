//! The object registry: the inode and data-block records whose checksum
//! verified, each kind keyed by object id.

use crate::layout::{PackedNffsDiskBlock, PackedNffsDiskInode};
use crate::table::IdTable;
use vstd::prelude::*;
use vstd::utf8::{decode_utf8, valid_utf8};

verus! {

/// A directory or a file, as the registry keeps it.
#[derive(Debug, Clone)]
pub struct NffsDiskInode {
    /// Id of the containing directory; `NFFS_ID_NONE` for the root.
    pub parent_id: u32,
    /// Id of the last data block; `NFFS_ID_NONE` where there is none.
    pub lastblock_id: u32,
    /// Sequence number; greater supersedes lesser.
    pub seq: u16,
    pub name: String,
    pub crc_ok: bool,
}

/// What an inode record holds, with its name as a sequence of characters.
pub struct InodeModel {
    pub parent_id: u32,
    pub lastblock_id: u32,
    pub seq: u16,
    pub name: Seq<char>,
    pub crc_ok: bool,
}

impl View for NffsDiskInode {
    type V = InodeModel;

    open spec fn view(&self) -> InodeModel {
        InodeModel {
            parent_id: self.parent_id,
            lastblock_id: self.lastblock_id,
            seq: self.seq,
            name: self.name@,
            crc_ok: self.crc_ok,
        }
    }
}

/// One chunk of a file's contents, as the registry keeps it.
#[derive(Debug, Clone, Copy, PartialEq, Eq, Structural)]
pub struct NffsDiskBlock {
    /// Id of the owning inode.
    pub inode_id: u32,
    /// Id of the previous block of the file; `NFFS_ID_NONE` for the first.
    pub prev_id: u32,
    /// Sequence number.
    pub seq: u16,
    /// Number of data bytes.
    pub len: u16,
    pub crc_ok: bool,
}

/// The block record that a header and its data stand for.
pub open spec fn block_record(obj: PackedNffsDiskBlock, data_len: nat, crc_ok: bool)
    -> NffsDiskBlock {
    NffsDiskBlock {
        inode_id: obj.inode_id,
        prev_id: obj.prev_id,
        seq: obj.seq,
        len: (data_len % 0x1_0000) as u16,
        crc_ok,
    }
}

/// The inode record that a header and the bytes of its name stand for.
pub open spec fn inode_record(obj: PackedNffsDiskInode, name: Seq<u8>, crc_ok: bool)
    -> InodeModel {
    InodeModel {
        parent_id: obj.parent_id,
        lastblock_id: obj.lastblock_id,
        seq: obj.seq,
        name: decode_utf8(name),
        crc_ok,
    }
}

/// Builds the registry record of a data block.  The length kept is that of
/// `data`, modulo 2^16.
pub fn unpack_block(obj: &PackedNffsDiskBlock, data: &[u8], crc_ok: bool) -> (block: NffsDiskBlock)
    ensures
        block == block_record(*obj, data@.len(), crc_ok),
{
    let len: usize = data.len() % 0x1_0000;
    NffsDiskBlock {
        inode_id: obj.inode_id,
        prev_id: obj.prev_id,
        seq: obj.seq,
        len: len as u16,
        crc_ok,
    }
}

/// `std::str::from_utf8`: the text that `bytes` encode, where and only where
/// they are well-formed UTF-8.
#[verifier::external_body]
pub(crate) fn str_from_utf8(bytes: &[u8]) -> (text: Option<&str>)
    ensures
        text is Some <==> valid_utf8(bytes@),
        text matches Some(s) ==> s@ == decode_utf8(bytes@),
{
    match std::str::from_utf8(bytes) {
        Ok(s) => Some(s),
        Err(_) => None,
    }
}

/// Builds the registry record of an inode.  There is none where the bytes of
/// the name are not UTF-8.
pub fn unpack_inode(obj: &PackedNffsDiskInode, name: &[u8], crc_ok: bool) -> (inode: Option<
    NffsDiskInode,
>)
    ensures
        inode is Some <==> valid_utf8(name@),
        inode matches Some(record) ==> record@ == inode_record(*obj, name@, crc_ok),
{
    match str_from_utf8(name) {
        Some(text) => Some(
            NffsDiskInode {
                parent_id: obj.parent_id,
                lastblock_id: obj.lastblock_id,
                seq: obj.seq,
                name: text.to_owned(),
                crc_ok,
            },
        ),
        None => None,
    }
}

/// How two inode records of one id are resolved.
#[derive(Debug, Clone, Copy, PartialEq, Eq, Structural)]
pub enum SeqPolicy {
    /// The record seen later replaces the one kept only where its sequence
    /// number is greater.
    GreaterSupersedes,
    /// The record seen later replaces the one kept unless its sequence number
    /// is greater.
    GreaterYields,
}

/// Whether a record with sequence number `seen` replaces one of the same id
/// that is kept with sequence number `kept`.
pub open spec fn supersedes(policy: SeqPolicy, kept: u16, seen: u16) -> bool {
    match policy {
        SeqPolicy::GreaterSupersedes => seen > kept,
        SeqPolicy::GreaterYields => !(seen > kept),
    }
}

/// The inode mapping after `seen` was scanned under the id `id`.
pub open spec fn resolve_inode(
    inodes: Map<u32, InodeModel>,
    id: u32,
    seen: InodeModel,
    policy: SeqPolicy,
) -> Map<u32, InodeModel> {
    if inodes.contains_key(id) && !supersedes(policy, inodes[id].seq, seen.seq) {
        inodes
    } else {
        inodes.insert(id, seen)
    }
}

/// The models of the inodes of a table.
pub open spec fn inode_models(inodes: Map<u32, NffsDiskInode>) -> Map<u32, InodeModel> {
    inodes.map_values(|inode: NffsDiskInode| inode@)
}

/// The two mappings of a registry.
pub struct RegistryModel {
    pub inodes: Map<u32, InodeModel>,
    pub blocks: Map<u32, NffsDiskBlock>,
}

/// The registry with nothing in it.
pub open spec fn empty_registry() -> RegistryModel {
    RegistryModel { inodes: Map::empty(), blocks: Map::empty() }
}

/// The registry of one image: inodes and data blocks by id.
pub struct Registry {
    pub inodes: IdTable<NffsDiskInode>,
    pub blocks: IdTable<NffsDiskBlock>,
}

impl View for Registry {
    type V = RegistryModel;

    open spec fn view(&self) -> RegistryModel {
        RegistryModel { inodes: inode_models(self.inodes@), blocks: self.blocks@ }
    }
}

impl Registry {
    /// A registry with nothing in it.
    pub fn new() -> (registry: Registry)
        ensures
            registry@ == empty_registry(),
    {
        let registry = Registry { inodes: IdTable::new(), blocks: IdTable::new() };
        assert(registry@.inodes =~= Map::<u32, InodeModel>::empty());
        registry
    }

    /// Enters an inode record under `id`.  A record already kept under `id`
    /// stays unless `policy` lets the new one supersede it.
    pub fn insert_inode(&mut self, id: u32, inode: NffsDiskInode, policy: SeqPolicy)
        ensures
            final(self)@.inodes == resolve_inode(old(self)@.inodes, id, inode@, policy),
            final(self)@.blocks == old(self)@.blocks,
    {
        let keep = match self.inodes.get(id) {
            Some(kept) => match policy {
                SeqPolicy::GreaterSupersedes => !(inode.seq > kept.seq),
                SeqPolicy::GreaterYields => inode.seq > kept.seq,
            },
            None => false,
        };
        if !keep {
            let ghost before = self.inodes@;
            self.inodes.insert(id, inode);
            assert(inode_models(before.insert(id, inode)) =~= inode_models(before).insert(
                id,
                inode@,
            ));
        }
    }

    /// Enters a block record under `id`, in place of any record kept there.
    pub fn insert_block(&mut self, id: u32, block: NffsDiskBlock)
        ensures
            final(self)@.blocks == old(self)@.blocks.insert(id, block),
            final(self)@.inodes == old(self)@.inodes,
    {
        self.blocks.insert(id, block);
    }

    /// The inode kept under `id`, if any.
    pub fn get_inode(&self, id: u32) -> (inode: Option<&NffsDiskInode>)
        ensures
            inode is Some <==> self@.inodes.contains_key(id),
            inode matches Some(record) ==> record@ == self@.inodes[id],
    {
        self.inodes.get(id)
    }

    /// The block kept under `id`, if any.
    pub fn get_block(&self, id: u32) -> (block: Option<&NffsDiskBlock>)
        ensures
            block == if self@.blocks.contains_key(id) {
                Some(&self@.blocks[id])
            } else {
                None
            },
    {
        self.blocks.get(id)
    }
}

} // verus!
