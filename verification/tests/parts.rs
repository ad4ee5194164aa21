use nffs_info::layout::{NFFS_ID_BLOCK_MIN, NFFS_ID_FILE_MIN, NFFS_ID_NONE};
use nffs_info::layout::{PackedNffsDiskBlock, PackedNffsDiskInode};
use nffs_info::registry::{
    unpack_block, unpack_inode, NffsDiskBlock, NffsDiskInode, Registry, SeqPolicy,
};
use nffs_info::render::{build_tree, print_tree_branch};
use nffs_info::scan::ScanError;
use nffs_info::table::IdTable;
use nffs_info::text::{
    decimal, hex, inode_flags_str, print_area_info, print_block_info, print_inode_info,
    scan_error_str,
};
use nffs_info::tree::{group_by_link, Linked};
use nffs_info::validate::is_valid_fs;

fn inode(parent: u32, seq: u16, name: &str) -> NffsDiskInode {
    NffsDiskInode {
        parent_id: parent,
        lastblock_id: NFFS_ID_NONE,
        seq,
        name: name.to_string(),
        crc_ok: true,
    }
}

fn block(owner: u32, prev: u32, len: u16) -> NffsDiskBlock {
    NffsDiskBlock { inode_id: owner, prev_id: prev, seq: 0, len, crc_ok: true }
}

fn inode_header(id: u32, flags: u8, crc: u16) -> PackedNffsDiskInode {
    PackedNffsDiskInode {
        id,
        parent_id: 0x12,
        lastblock_id: 0x8000_00ab,
        seq: 513,
        reserved16: 0,
        flags,
        filename_len: 4,
        crc16: crc,
    }
}

#[test]
fn table_keeps_ids_in_ascending_order() {
    let mut table: IdTable<&str> = IdTable::new();
    assert_eq!(table.len(), 0);
    assert_eq!(table.entry_at(0), None);
    for (id, value) in [(5, "five"), (1, "one"), (9, "nine"), (3, "three"), (0xffff_ffff, "max")] {
        assert_eq!(table.insert(id, value), None);
    }
    assert_eq!(table.insert(0, "zero"), None);
    assert_eq!(table.len(), 6);
    let ids: Vec<u32> = (0..table.len()).map(|at| table.entry_at(at).unwrap().0).collect();
    assert_eq!(ids, vec![0, 1, 3, 5, 9, 0xffff_ffff]);
    assert_eq!(table.entry_at(3), Some((5, &"five")));
    assert_eq!(table.entry_at(6), None);
    assert_eq!(table.get(3), Some(&"three"));
    assert_eq!(table.get(4), None);
    assert!(table.contains_key(9));
    assert!(!table.contains_key(2));
    assert_eq!(table.insert(3, "drei"), Some("three"));
    assert_eq!(table.len(), 6);
    assert_eq!(table.get(3), Some(&"drei"));
    assert_eq!(table.remove(3), Some("drei"));
    assert_eq!(table.remove(3), None);
    assert_eq!(table.len(), 5);
    assert!(!table.contains_key(3));
    assert_eq!(table.entry_at(2), Some((5, &"five")));
}

#[test]
fn registry_resolves_inodes_by_policy() {
    let mut registry = Registry::new();
    registry.insert_inode(1, inode(0, 5, "five"), SeqPolicy::GreaterSupersedes);
    registry.insert_inode(1, inode(0, 4, "four"), SeqPolicy::GreaterSupersedes);
    assert_eq!(registry.get_inode(1).unwrap().name, "five");
    registry.insert_inode(1, inode(0, 5, "five again"), SeqPolicy::GreaterSupersedes);
    assert_eq!(registry.get_inode(1).unwrap().name, "five");
    registry.insert_inode(1, inode(0, 6, "six"), SeqPolicy::GreaterSupersedes);
    assert_eq!(registry.get_inode(1).unwrap().name, "six");
    registry.insert_inode(1, inode(0, 7, "seven"), SeqPolicy::GreaterYields);
    assert_eq!(registry.get_inode(1).unwrap().name, "six");
    registry.insert_inode(1, inode(0, 6, "six again"), SeqPolicy::GreaterYields);
    assert_eq!(registry.get_inode(1).unwrap().name, "six again");
    registry.insert_inode(1, inode(0, 2, "two"), SeqPolicy::GreaterYields);
    assert_eq!(registry.get_inode(1).unwrap().name, "two");
    assert!(registry.get_inode(2).is_none());
    assert!(registry.get_block(NFFS_ID_BLOCK_MIN).is_none());
    registry.insert_block(NFFS_ID_BLOCK_MIN, block(1, NFFS_ID_NONE, 10));
    registry.insert_block(NFFS_ID_BLOCK_MIN, block(1, NFFS_ID_NONE, 3));
    assert_eq!(registry.get_block(NFFS_ID_BLOCK_MIN).unwrap().len, 3);
}

#[test]
fn records_are_unpacked_from_headers() {
    let header = PackedNffsDiskBlock {
        id: NFFS_ID_BLOCK_MIN,
        inode_id: 7,
        prev_id: 8,
        seq: 9,
        reserved16: 0,
        data_len: 3,
        crc16: 0,
    };
    assert_eq!(
        unpack_block(&header, &[1, 2, 3], true),
        NffsDiskBlock { inode_id: 7, prev_id: 8, seq: 9, len: 3, crc_ok: true }
    );
    assert_eq!(unpack_block(&header, &vec![0; 65536 + 5], false).len, 5);
    assert!(!unpack_block(&header, &[], false).crc_ok);
    let header = inode_header(3, 0, 0);
    let record = unpack_inode(&header, "naïve".as_bytes(), true).unwrap();
    assert_eq!(record.name, "naïve");
    assert_eq!(record.parent_id, 0x12);
    assert_eq!(record.lastblock_id, 0x8000_00ab);
    assert_eq!(record.seq, 513);
    assert!(record.crc_ok);
    assert_eq!(unpack_inode(&header, b"", false).unwrap().name, "");
    assert!(unpack_inode(&header, &[0xc3], true).is_none());
    assert!(unpack_inode(&header, &[0x61, 0x80], true).is_none());
    assert!(unpack_inode(&header, &[0xed, 0xa0, 0x80], true).is_none());
}

#[test]
fn closure_of_a_registry() {
    let mut inodes: IdTable<NffsDiskInode> = IdTable::new();
    let mut blocks: IdTable<NffsDiskBlock> = IdTable::new();
    assert!(!is_valid_fs(&inodes, &blocks));
    inodes.insert(0, inode(NFFS_ID_NONE, 0, ""));
    assert!(is_valid_fs(&inodes, &blocks));
    inodes.insert(2, inode(1, 0, "child"));
    assert!(!is_valid_fs(&inodes, &blocks));
    inodes.insert(1, inode(0, 0, "dir"));
    assert!(is_valid_fs(&inodes, &blocks));
    blocks.insert(NFFS_ID_BLOCK_MIN + 1, block(NFFS_ID_FILE_MIN, NFFS_ID_BLOCK_MIN, 1));
    assert!(!is_valid_fs(&inodes, &blocks));
    inodes.insert(NFFS_ID_FILE_MIN, inode(2, 0, "file"));
    assert!(!is_valid_fs(&inodes, &blocks));
    blocks.insert(NFFS_ID_BLOCK_MIN, block(NFFS_ID_FILE_MIN, NFFS_ID_NONE, 1));
    assert!(is_valid_fs(&inodes, &blocks));
    inodes.insert(0, inode(77, 0, "root with a parent"));
    assert!(is_valid_fs(&inodes, &blocks));
    inodes.remove(0);
    assert!(!is_valid_fs(&inodes, &blocks));
}

#[test]
fn links_of_records() {
    assert_eq!(inode(NFFS_ID_NONE, 0, "").owner(), None);
    assert_eq!(inode(4, 0, "").owner(), Some(4));
    assert_eq!(block(9, NFFS_ID_NONE, 0).owner(), Some(9));
    assert_eq!(block(NFFS_ID_NONE, NFFS_ID_NONE, 0).owner(), Some(NFFS_ID_NONE));
}

#[test]
fn children_are_grouped_in_ascending_order() {
    let mut inodes: IdTable<NffsDiskInode> = IdTable::new();
    inodes.insert(9, inode(0, 0, "i"));
    inodes.insert(0, inode(NFFS_ID_NONE, 0, ""));
    inodes.insert(4, inode(0, 0, "d"));
    inodes.insert(7, inode(4, 0, "g"));
    inodes.insert(2, inode(4, 0, "b"));
    inodes.insert(3, inode(50, 0, "stray"));
    let children = group_by_link(&inodes);
    assert_eq!(children.len(), 3);
    assert_eq!(children.get(0), Some(&vec![4, 9]));
    assert_eq!(children.get(4), Some(&vec![2, 7]));
    assert_eq!(children.get(50), Some(&vec![3]));
    assert_eq!(children.get(NFFS_ID_NONE), None);
    assert_eq!(children.get(9), None);
    let empty: IdTable<NffsDiskBlock> = IdTable::new();
    assert_eq!(group_by_link(&empty).len(), 0);
}

#[test]
fn tree_of_an_empty_registry() {
    let inodes: IdTable<NffsDiskInode> = IdTable::new();
    let blocks: IdTable<NffsDiskBlock> = IdTable::new();
    assert_eq!(build_tree(&inodes, &blocks), "/\n");
}

#[test]
fn tree_with_bars_and_deeper_levels() {
    let mut inodes: IdTable<NffsDiskInode> = IdTable::new();
    let mut blocks: IdTable<NffsDiskBlock> = IdTable::new();
    inodes.insert(0, inode(NFFS_ID_NONE, 0, "ignored"));
    inodes.insert(1, inode(0, 0, "a"));
    inodes.insert(2, inode(1, 0, "b"));
    inodes.insert(3, inode(2, 0, "c"));
    inodes.insert(4, inode(2, 0, "d"));
    inodes.insert(5, inode(0, 0, "e"));
    inodes.insert(NFFS_ID_FILE_MIN, inode(3, 0, "f"));
    blocks.insert(NFFS_ID_BLOCK_MIN + 2, block(NFFS_ID_FILE_MIN, NFFS_ID_NONE, 65535));
    blocks.insert(NFFS_ID_BLOCK_MIN + 1, block(NFFS_ID_FILE_MIN, NFFS_ID_NONE, 65535));
    blocks.insert(0xffff_fffe, block(5, NFFS_ID_NONE, 1));
    assert_eq!(
        build_tree(&inodes, &blocks),
        "/\n\
         ├── a\n\
         │    └── b\n\
         │              ├── c\n\
         │              │              └── f [size=131070, blocks=(0x80000001, 0x80000002)]\n\
         │              └── d\n\
         └── e [size=1, blocks=(0xfffffffe)]\n"
    );
}

#[test]
fn branch_of_a_subtree() {
    let mut inodes: IdTable<NffsDiskInode> = IdTable::new();
    let blocks: IdTable<NffsDiskBlock> = IdTable::new();
    inodes.insert(0, inode(NFFS_ID_NONE, 0, ""));
    inodes.insert(1, inode(0, 0, "a"));
    inodes.insert(2, inode(1, 0, "b"));
    inodes.insert(3, inode(1, 0, "c"));
    let children = group_by_link(&inodes);
    let blocktree = group_by_link(&blocks);
    assert_eq!(
        print_tree_branch(&inodes, &blocks, &children, &blocktree, 1, 1, "> ", 4),
        "> ├── b\n> └── c\n"
    );
    assert_eq!(print_tree_branch(&inodes, &blocks, &children, &blocktree, 1, 4, "> ", 4), "");
    assert_eq!(print_tree_branch(&inodes, &blocks, &children, &blocktree, 2, 0, "", 4), "");
    assert_eq!(
        print_tree_branch(&inodes, &blocks, &children, &blocktree, 0, 0, "", 1),
        "└── a\n"
    );
}

#[test]
fn a_parent_cycle_through_the_root_is_cut_off() {
    let mut inodes: IdTable<NffsDiskInode> = IdTable::new();
    let blocks: IdTable<NffsDiskBlock> = IdTable::new();
    inodes.insert(0, inode(1, 0, "root"));
    inodes.insert(1, inode(0, 0, "loop"));
    assert!(is_valid_fs(&inodes, &blocks));
    assert_eq!(build_tree(&inodes, &blocks), "/\n└── loop\n     └── root\n");
}

#[test]
fn numbers_as_text() {
    assert_eq!(decimal(0), "0");
    assert_eq!(decimal(9), "9");
    assert_eq!(decimal(10), "10");
    assert_eq!(decimal(65535), "65535");
    assert_eq!(decimal(u128::MAX), u128::MAX.to_string());
    assert_eq!(hex(0, 8), "00000000");
    assert_eq!(hex(0x1234_abcd, 8), "1234abcd");
    assert_eq!(hex(0xffff_ffff, 8), "ffffffff");
    assert_eq!(hex(0xbeef, 4), "beef");
    assert_eq!(hex(0x5, 2), "05");
    assert_eq!(hex(0x1234, 2), "34");
    assert_eq!(hex(7, 0), "");
    for value in [1u32, 15, 16, 255, 256, 4095, 0x8000_0000] {
        assert_eq!(hex(value, 8), format!("{:08x}", value));
        assert_eq!(decimal(value as u128), format!("{}", value));
    }
}

#[test]
fn flags_as_text() {
    assert_eq!(inode_flags_str(0x00), " (FREE)");
    assert_eq!(inode_flags_str(0x01), " (DUMMY)");
    assert_eq!(inode_flags_str(0x02), " (DUMMYPARENT)");
    assert_eq!(inode_flags_str(0x04), " (DUMMYLSTBLK)");
    assert_eq!(inode_flags_str(0x08), " (DUMMYLINOBLK)");
    assert_eq!(inode_flags_str(0x10), " (OBSOLETE)");
    assert_eq!(inode_flags_str(0x20), " (INTREE)");
    assert_eq!(inode_flags_str(0x40), " (INHASH)");
    assert_eq!(inode_flags_str(0x80), " (DELETED)");
    assert_eq!(inode_flags_str(0x60), " (INTREE|INHASH)");
    assert_eq!(inode_flags_str(0x81), " (DUMMY|DELETED)");
    assert_eq!(
        inode_flags_str(0xff),
        " (DUMMY|DUMMYPARENT|DUMMYLSTBLK|DUMMYLINOBLK|OBSOLETE|INTREE|INHASH|DELETED)"
    );
}

#[test]
fn report_of_a_block() {
    let header = PackedNffsDiskBlock {
        id: 0x8000_0001,
        inode_id: 0x1000_0002,
        prev_id: 0x8000_0000,
        seq: 7,
        reserved16: 0,
        data_len: 65535,
        crc16: 0x0abc,
    };
    assert_eq!(
        print_block_info(&header, 12, 0x0abc),
        "\t-> Block 12\n\t\tid: 0x80000001\n\t\tinode_id: 0x10000002\n\
         \t\tprev_id: 0x80000000\n\t\tseq: 7\n\t\tdata_len: 65535\n\t\tcrc: 0x0abc (good)\n"
    );
    assert!(print_block_info(&header, 0, 0x0abd).ends_with("\t\tcrc: 0x0abd (bad)\n"));
}

#[test]
fn report_of_an_inode() {
    assert_eq!(
        print_inode_info(&inode_header(0x1000_0000, 0x21, 0x1f), 300, b"a.md", 0x1f).unwrap(),
        "\t-> Inode 300\n\t\tid: 0x10000000\n\t\tparent_id: 0x00000012\n\
         \t\tlastblock_id: 0x800000ab\n\t\tseq: 513\n\t\tflags: 0x21 (DUMMY|INTREE)\n\
         \t\tfilename: \"a.md\"\n\t\tcrc: 0x001f (good)\n"
    );
    assert_eq!(
        print_inode_info(&inode_header(0x0fff_ffff, 0, 0x1f), 0, b"docs", 0x1f).unwrap(),
        "\t-> Inode 0\n\t\tid: 0x0fffffff\n\t\tparent_id: 0x00000012\n\
         \t\tlastblock_id: 0x800000ab\n\t\tseq: 513\n\t\tflags: 0x00 (FREE)\n\
         \t\tdirname: \"docs\"\n\t\tcrc: 0x001f (good)\n"
    );
    let root = print_inode_info(&inode_header(0, 0, 0x1f), 0, &[0xff, 0xfe], 0x1f).unwrap();
    assert!(root.contains("\t\tdirname: \"/\"\n"));
    let bad = print_inode_info(&inode_header(5, 0, 0x1f), 0, &[0xff, 0xfe], 0x20).unwrap();
    assert!(bad.ends_with("\t\tflags: 0x00 (FREE)\n\t\tcrc: 0x0020 (bad)\n"));
    assert_eq!(print_inode_info(&inode_header(5, 0, 0x1f), 0, &[0xff, 0xfe], 0x1f), None);
}

#[test]
fn report_of_an_area() {
    let bytes: Vec<u8> = (0..24u8).collect();
    let header = nffs_info::layout::NffsDiskArea::decode(&bytes).unwrap();
    assert_eq!(
        print_area_info(&header, 3),
        "Disk Area 3\n\tmagic: bad\n\tlength: 319951120\n\tversion: 20\n\tgc_seq: 21\n\
         \tid: 23\n"
    );
}

#[test]
fn reasons_for_stopping() {
    assert_eq!(
        scan_error_str(&ScanError::TruncatedAreaHeader { offset: 4096 }),
        "Area header cut short at offset 4096\n"
    );
    assert_eq!(
        scan_error_str(&ScanError::BadAreaLength { offset: 24, length: 0 }),
        "Area at offset 24 has the invalid length 0\n"
    );
    assert_eq!(
        scan_error_str(&ScanError::InvalidName { id: 0x1000_0001 }),
        "Inode 0x10000001 has a name that is not UTF-8\n"
    );
}
