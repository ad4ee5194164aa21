//! The on-disk structures: constants, little-endian fields, and the three
//! fixed-size headers (area, inode, data block).

use vstd::prelude::*;

verus! {

pub const NFFS_AREA_MAGIC0: u32 = 0xb98a_31e2;

pub const NFFS_AREA_MAGIC1: u32 = 0x7fb0_428c;

pub const NFFS_AREA_MAGIC2: u32 = 0xace0_8253;

pub const NFFS_AREA_MAGIC3: u32 = 0xb185_fc8e;

/// Size of an area header.
pub const NFFS_DISK_AREA_SZ: usize = 24;

/// Size of an inode header; the file name follows it.
pub const NFFS_DISK_INODE_SZ: usize = 20;

/// Size of a data-block header; the data follows it.
pub const NFFS_DISK_BLOCK_SZ: usize = 20;

/// Offset of the checksum field in an inode header; the checksum covers the
/// header bytes before it and the file name.
pub const NFFS_DISK_INODE_OFFSET_CRC: usize = 18;

/// Offset of the checksum field in a block header; the checksum covers the
/// header bytes before it and the data.
pub const NFFS_DISK_BLOCK_OFFSET_CRC: usize = 18;

/// "No such object": the parent of the root, the predecessor of a first
/// block, and the first word of unwritten space.
pub const NFFS_ID_NONE: u32 = 0xffff_ffff;

/// Ids below this are directories; ids from here up to `NFFS_ID_BLOCK_MIN`
/// are files.
pub const NFFS_ID_FILE_MIN: u32 = 0x1000_0000;

/// Ids from here on are data blocks.
pub const NFFS_ID_BLOCK_MIN: u32 = 0x8000_0000;

/// The id of the root directory.
pub const NFFS_ID_ROOT_DIR: u32 = 0;

/// The area id of a scratch area.
pub const NFFS_AREA_ID_NONE: u8 = 0xff;

pub const INODE_FREE: u8 = 0x00;

/// The inode is a dummy.
pub const INODE_DUMMY: u8 = 0x01;

/// The parent is not in the cache.
pub const INODE_DUMMYPARENT: u8 = 0x02;

/// The last block is not in the cache.
pub const INODE_DUMMYLSTBLK: u8 = 0x04;

/// A dummy inode for a block.
pub const INODE_DUMMYINOBLK: u8 = 0x08;

/// Always replaced by an inode of the same id.
pub const INODE_OBSOLETE: u8 = 0x10;

/// In the directory structure.
pub const INODE_INTREE: u8 = 0x20;

/// In the hash table.
pub const INODE_INHASH: u8 = 0x40;

/// The inode is deleted.
pub const INODE_DELETED: u8 = 0x80;

/// The 16-bit little-endian value at `at`.
pub open spec fn le_u16(bytes: Seq<u8>, at: int) -> u16 {
    (bytes[at] + 0x100 * bytes[at + 1]) as u16
}

/// The 32-bit little-endian value at `at`.
pub open spec fn le_u32(bytes: Seq<u8>, at: int) -> u32 {
    (bytes[at] + 0x100 * bytes[at + 1] + 0x1_0000 * bytes[at + 2] + 0x100_0000 * bytes[at
        + 3]) as u32
}

/// Reads the 16-bit little-endian value at `at`, or nothing where it does not
/// fit in `data`.
pub fn read_le_u16(data: &[u8], at: usize) -> (value: Option<u16>)
    ensures
        value == if at + 2 <= data@.len() {
            Some(le_u16(data@, at as int))
        } else {
            None
        },
{
    if data.len() < 2 || at > data.len() - 2 {
        return None;
    }
    let lo: u16 = data[at] as u16;
    let hi: u16 = data[at + 1] as u16;
    Some(lo + 0x100 * hi)
}

/// Reads the 32-bit little-endian value at `at`, or nothing where it does not
/// fit in `data`.
pub fn read_le_u32(data: &[u8], at: usize) -> (value: Option<u32>)
    ensures
        value == if at + 4 <= data@.len() {
            Some(le_u32(data@, at as int))
        } else {
            None
        },
{
    if data.len() < 4 || at > data.len() - 4 {
        return None;
    }
    let b0: u32 = data[at] as u32;
    let b1: u32 = data[at + 1] as u32;
    let b2: u32 = data[at + 2] as u32;
    let b3: u32 = data[at + 3] as u32;
    Some(b0 + 0x100 * b1 + 0x1_0000 * b2 + 0x100_0000 * b3)
}

fn field_u16(data: &[u8], at: usize) -> (value: u16)
    requires
        at + 2 <= data@.len(),
    ensures
        value == le_u16(data@, at as int),
{
    let lo: u16 = data[at] as u16;
    let hi: u16 = data[at + 1] as u16;
    lo + 0x100 * hi
}

fn field_u32(data: &[u8], at: usize) -> (value: u32)
    requires
        at + 4 <= data@.len(),
    ensures
        value == le_u32(data@, at as int),
{
    let b0: u32 = data[at] as u32;
    let b1: u32 = data[at + 1] as u32;
    let b2: u32 = data[at + 2] as u32;
    let b3: u32 = data[at + 3] as u32;
    b0 + 0x100 * b1 + 0x1_0000 * b2 + 0x100_0000 * b3
}

/// Whether `magic` starts with the four magic words of a genuine area.
pub open spec fn magic_matches(magic: Seq<u32>) -> bool {
    &&& magic.len() >= 4
    &&& magic[0] == NFFS_AREA_MAGIC0
    &&& magic[1] == NFFS_AREA_MAGIC1
    &&& magic[2] == NFFS_AREA_MAGIC2
    &&& magic[3] == NFFS_AREA_MAGIC3
}

/// Labels the magic words of an area header: "good" where the first four
/// words are the area magic, "bad" in every other case.
pub fn check_magic(magic: &[u32]) -> (label: &'static str)
    ensures
        label@ == if magic_matches(magic@) {
            "good"@
        } else {
            "bad"@
        },
{
    if magic.len() >= 4 && magic[0] == NFFS_AREA_MAGIC0 && magic[1] == NFFS_AREA_MAGIC1 && magic[2]
        == NFFS_AREA_MAGIC2 && magic[3] == NFFS_AREA_MAGIC3 {
        return "good";
    }
    "bad"
}

/// The header that opens every area.
#[derive(Debug, Clone, Copy, PartialEq, Eq)]
pub struct NffsDiskArea {
    pub magic: [u32; 4],
    /// Total size of the area in bytes, this header included.
    pub length: u32,
    pub version: u8,
    /// Garbage-collection epoch.
    pub gc_seq: u8,
    pub reserved8: u8,
    /// 255 marks a scratch area.
    pub id: u8,
}

impl NffsDiskArea {
    /// The header that the first 24 bytes of `bytes` encode.
    pub open spec fn parse(bytes: Seq<u8>) -> NffsDiskArea {
        NffsDiskArea {
            magic: [le_u32(bytes, 0), le_u32(bytes, 4), le_u32(bytes, 8), le_u32(bytes, 12)],
            length: le_u32(bytes, 16),
            version: bytes[20],
            gc_seq: bytes[21],
            reserved8: bytes[22],
            id: bytes[23],
        }
    }

    /// Decodes an area header from the start of `bytes`; nothing where
    /// `bytes` is shorter than a header.
    pub fn decode(bytes: &[u8]) -> (header: Option<NffsDiskArea>)
        ensures
            header == if bytes@.len() >= NFFS_DISK_AREA_SZ {
                Some(Self::parse(bytes@))
            } else {
                None
            },
    {
        if bytes.len() < NFFS_DISK_AREA_SZ {
            return None;
        }
        Some(
            NffsDiskArea {
                magic: [
                    field_u32(bytes, 0),
                    field_u32(bytes, 4),
                    field_u32(bytes, 8),
                    field_u32(bytes, 12),
                ],
                length: field_u32(bytes, 16),
                version: bytes[20],
                gc_seq: bytes[21],
                reserved8: bytes[22],
                id: bytes[23],
            },
        )
    }

    /// Whether all four magic words are those of a genuine area.
    pub open spec fn genuine(&self) -> bool {
        magic_matches(self.magic@)
    }

    /// Whether the area is the scratch area kept for garbage collection.
    pub open spec fn scratch(&self) -> bool {
        self.id == NFFS_AREA_ID_NONE
    }

    /// Whether all four magic words are those of a genuine area.
    pub fn is_genuine(&self) -> (genuine: bool)
        ensures
            genuine == self.genuine(),
    {
        self.magic[0] == NFFS_AREA_MAGIC0 && self.magic[1] == NFFS_AREA_MAGIC1 && self.magic[2]
            == NFFS_AREA_MAGIC2 && self.magic[3] == NFFS_AREA_MAGIC3
    }

    /// Whether the area is the scratch area kept for garbage collection.
    pub fn is_scratch(&self) -> (scratch: bool)
        ensures
            scratch == self.scratch(),
    {
        self.id == NFFS_AREA_ID_NONE
    }
}

/// The fixed header of an inode record, field by field.
#[derive(Debug, Clone, Copy, PartialEq, Eq, Structural)]
pub struct PackedNffsDiskInode {
    /// Unique object id.
    pub id: u32,
    /// Object id of the parent directory.
    pub parent_id: u32,
    /// Object id of the last data block.
    pub lastblock_id: u32,
    /// Sequence number; greater supersedes lesser.
    pub seq: u16,
    pub reserved16: u16,
    pub flags: u8,
    pub filename_len: u8,
    /// Covers the rest of the header and the file name.
    pub crc16: u16,
}

impl PackedNffsDiskInode {
    /// The header that the first 20 bytes of `bytes` encode.
    pub open spec fn parse(bytes: Seq<u8>) -> PackedNffsDiskInode {
        PackedNffsDiskInode {
            id: le_u32(bytes, 0),
            parent_id: le_u32(bytes, 4),
            lastblock_id: le_u32(bytes, 8),
            seq: le_u16(bytes, 12),
            reserved16: le_u16(bytes, 14),
            flags: bytes[16],
            filename_len: bytes[17],
            crc16: le_u16(bytes, 18),
        }
    }

    /// Decodes an inode header from the start of `bytes`; nothing where
    /// `bytes` is shorter than a header.
    pub fn decode(bytes: &[u8]) -> (header: Option<PackedNffsDiskInode>)
        ensures
            header == if bytes@.len() >= NFFS_DISK_INODE_SZ {
                Some(Self::parse(bytes@))
            } else {
                None
            },
    {
        if bytes.len() < NFFS_DISK_INODE_SZ {
            return None;
        }
        Some(
            PackedNffsDiskInode {
                id: field_u32(bytes, 0),
                parent_id: field_u32(bytes, 4),
                lastblock_id: field_u32(bytes, 8),
                seq: field_u16(bytes, 12),
                reserved16: field_u16(bytes, 14),
                flags: bytes[16],
                filename_len: bytes[17],
                crc16: field_u16(bytes, 18),
            },
        )
    }

    /// Size of the whole record: header and file name.
    pub open spec fn record_size(&self) -> nat {
        (NFFS_DISK_INODE_SZ + self.filename_len) as nat
    }
}

/// The fixed header of a data-block record, field by field.
#[derive(Debug, Clone, Copy, PartialEq, Eq, Structural)]
pub struct PackedNffsDiskBlock {
    /// Unique object id.
    pub id: u32,
    /// Object id of the owning inode.
    pub inode_id: u32,
    /// Object id of the previous block in the file; `NFFS_ID_NONE` for the
    /// first block.
    pub prev_id: u32,
    /// Sequence number; greater supersedes lesser.
    pub seq: u16,
    pub reserved16: u16,
    pub data_len: u16,
    /// Covers the rest of the header and the data.
    pub crc16: u16,
}

impl PackedNffsDiskBlock {
    /// The header that the first 20 bytes of `bytes` encode.
    pub open spec fn parse(bytes: Seq<u8>) -> PackedNffsDiskBlock {
        PackedNffsDiskBlock {
            id: le_u32(bytes, 0),
            inode_id: le_u32(bytes, 4),
            prev_id: le_u32(bytes, 8),
            seq: le_u16(bytes, 12),
            reserved16: le_u16(bytes, 14),
            data_len: le_u16(bytes, 16),
            crc16: le_u16(bytes, 18),
        }
    }

    /// Decodes a block header from the start of `bytes`; nothing where
    /// `bytes` is shorter than a header.
    pub fn decode(bytes: &[u8]) -> (header: Option<PackedNffsDiskBlock>)
        ensures
            header == if bytes@.len() >= NFFS_DISK_BLOCK_SZ {
                Some(Self::parse(bytes@))
            } else {
                None
            },
    {
        if bytes.len() < NFFS_DISK_BLOCK_SZ {
            return None;
        }
        Some(
            PackedNffsDiskBlock {
                id: field_u32(bytes, 0),
                inode_id: field_u32(bytes, 4),
                prev_id: field_u32(bytes, 8),
                seq: field_u16(bytes, 12),
                reserved16: field_u16(bytes, 14),
                data_len: field_u16(bytes, 16),
                crc16: field_u16(bytes, 18),
            },
        )
    }

    /// Size of the whole record: header and data.
    pub open spec fn record_size(&self) -> nat {
        (NFFS_DISK_BLOCK_SZ + self.data_len) as nat
    }
}

} // verus!
