use nffs_info::layout::NFFS_ID_NONE;
use nffs_info::order::{disk_block_sort, BlockIdAndInfo};
use nffs_info::registry::NffsDiskBlock;
use std::cmp::Ordering;

#[test]
fn blocks_are_ordered_by_id_alone() {
    let small = NffsDiskBlock { inode_id: 1, prev_id: NFFS_ID_NONE, seq: 0, len: 1, crc_ok: true };
    let large = NffsDiskBlock { inode_id: 9, prev_id: 7, seq: 9, len: 900, crc_ok: false };
    let a: BlockIdAndInfo = (0x8000_0000, &large);
    let b: BlockIdAndInfo = (0x8000_0001, &small);
    let c: BlockIdAndInfo = (0x8000_0001, &large);
    assert_eq!(disk_block_sort(&a, &b), Ordering::Less);
    assert_eq!(disk_block_sort(&b, &a), Ordering::Greater);
    assert_eq!(disk_block_sort(&b, &c), Ordering::Equal);
    assert_eq!(disk_block_sort(&a, &a), Ordering::Equal);
    let mut list = vec![c, a, (0xffff_ffff, &small), (0, &small)];
    list.sort_by(disk_block_sort);
    let ids: Vec<u32> = list.iter().map(|entry| entry.0).collect();
    assert_eq!(ids, vec![0, 0x8000_0000, 0x8000_0001, 0xffff_ffff]);
}
