use nffs_info::crc::checksum_of_spans;
use nffs_info::inspect::{check_fs, report_fs};
use nffs_info::layout::{
    NFFS_AREA_MAGIC0, NFFS_AREA_MAGIC1, NFFS_AREA_MAGIC2, NFFS_AREA_MAGIC3, NFFS_ID_NONE,
};
use nffs_info::registry::SeqPolicy;
use nffs_info::text::{format_event, format_log};

fn root_only_image() -> Vec<u8> {
    let mut image = Vec::new();
    for word in [NFFS_AREA_MAGIC0, NFFS_AREA_MAGIC1, NFFS_AREA_MAGIC2, NFFS_AREA_MAGIC3] {
        image.extend_from_slice(&word.to_le_bytes());
    }
    image.extend_from_slice(&48u32.to_le_bytes());
    image.extend_from_slice(&[1, 2, 0, 9]);
    let mut record = Vec::new();
    record.extend_from_slice(&0u32.to_le_bytes());
    record.extend_from_slice(&NFFS_ID_NONE.to_le_bytes());
    record.extend_from_slice(&NFFS_ID_NONE.to_le_bytes());
    record.extend_from_slice(&[4, 0, 0, 0, 0x20, 0]);
    let crc = checksum_of_spans(&record, b"");
    record.extend_from_slice(&crc.to_le_bytes());
    image.extend(record);
    image.extend_from_slice(&[0xff; 4]);
    image
}

#[test]
fn whole_report_of_a_valid_image() {
    let image = root_only_image();
    let crc = u16::from_le_bytes([image[42], image[43]]);
    let (valid, text) = report_fs(&image, SeqPolicy::GreaterSupersedes);
    assert!(valid);
    assert_eq!(
        text,
        format!(
            "Disk Area 0\n\tmagic: good\n\tlength: 48\n\tversion: 1\n\tgc_seq: 2\n\tid: 9\n\
             \t-> Inode 0\n\t\tid: 0x00000000\n\t\tparent_id: 0xffffffff\n\
             \t\tlastblock_id: 0xffffffff\n\t\tseq: 4\n\t\tflags: 0x20 (INTREE)\n\
             \t\tdirname: \"/\"\n\t\tcrc: 0x{:04x} (good)\n\tFree space: 4\n/\n",
            crc
        )
    );
}

#[test]
fn whole_report_of_an_invalid_image() {
    let mut image = root_only_image();
    image[30] ^= 0x08;
    let (valid, text) = report_fs(&image, SeqPolicy::GreaterSupersedes);
    assert!(!valid);
    assert!(text.ends_with(" (bad)\n\tFree space: 4\n"));
    assert!(!text.contains("dirname"));
    let (valid, text) = report_fs(&[], SeqPolicy::GreaterYields);
    assert!(!valid);
    assert_eq!(text, "");
    let (valid, text) = report_fs(&image[..47], SeqPolicy::GreaterSupersedes);
    assert!(!valid);
    assert_eq!(text, "Area at offset 0 has the invalid length 48\n");
}

#[test]
fn log_is_the_events_in_order() {
    let image = root_only_image();
    let check = check_fs(&image);
    let mut expected = String::new();
    for event in check.log.iter() {
        expected.push_str(&format_event(event, &image).unwrap());
    }
    assert_eq!(format_log(&check.log, &image), Some(expected));
    assert_eq!(format_log(&Vec::new(), &image), Some(String::new()));
    assert_eq!(format_log(&check.log, &image[..30]), None);
}
