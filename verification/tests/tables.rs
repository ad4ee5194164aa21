use nffs_info::inspect::check_fs;
use nffs_info::table::IdTable;

#[test]
fn ids_come_out_in_ascending_order() {
    let mut table: IdTable<u8> = IdTable::new();
    assert_eq!(table.ids(), Vec::<u32>::new());
    for id in [40u32, 7, 0x8000_0000, 0, 7, 0xffff_ffff, 12] {
        table.insert(id, id as u8);
    }
    assert_eq!(table.ids(), vec![0, 7, 12, 40, 0x8000_0000, 0xffff_ffff]);
    table.remove(12);
    table.remove(13);
    assert_eq!(table.ids(), vec![0, 7, 40, 0x8000_0000, 0xffff_ffff]);
    for (at, id) in table.ids().into_iter().enumerate() {
        assert_eq!(table.entry_at(at).map(|entry| entry.0), Some(id));
        assert_eq!(table.get(id), Some(&(id as u8)));
    }
}

#[test]
fn registry_of_nothing_has_no_ids() {
    let check = check_fs(&[0xff; 10]);
    assert_eq!(check.registry.inodes.ids(), Vec::<u32>::new());
    assert_eq!(check.registry.blocks.ids(), Vec::<u32>::new());
}
