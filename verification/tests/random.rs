use nffs_info::crc::checksum_of_spans;
use nffs_info::inspect::{check_fs, check_fs_with};
use nffs_info::registry::SeqPolicy;
use nffs_info::scan::{decode_object, DiskObject, ScanEvent};
use nffs_info::text::format_event;
use nffs_info::validate::is_valid_fs;

struct Lcg(u64);

impl Lcg {
    fn next(&mut self) -> u32 {
        self.0 = self.0.wrapping_mul(6364136223846793005).wrapping_add(1442695040888963407);
        (self.0 >> 33) as u32
    }

    fn bytes(&mut self, len: usize) -> Vec<u8> {
        (0..len).map(|_| self.next() as u8).collect()
    }
}

fn framed_image(rng: &mut Lcg) -> Vec<u8> {
    let mut image = Vec::new();
    for _ in 0..(1 + rng.next() % 3) {
        let mut stream = Vec::new();
        for _ in 0..(rng.next() % 6) {
            let block = rng.next() % 2 == 0;
            let id = if block { 0x8000_0000 | (rng.next() % 4) } else { rng.next() % 4 };
            let link = rng.next() % 5;
            let payload: Vec<u8> =
                (0..(rng.next() % 9)).map(|_| b'a' + (rng.next() % 26) as u8).collect();
            let mut record = Vec::new();
            record.extend_from_slice(&id.to_le_bytes());
            record.extend_from_slice(&link.to_le_bytes());
            record.extend_from_slice(&0xffff_ffffu32.to_le_bytes());
            record.extend_from_slice(&((rng.next() % 3) as u16).to_le_bytes());
            record.extend_from_slice(&[0, 0]);
            if block {
                record.extend_from_slice(&(payload.len() as u16).to_le_bytes());
            } else {
                record.push(0);
                record.push(payload.len() as u8);
            }
            let mut crc = checksum_of_spans(&record, &payload);
            if rng.next() % 5 == 0 {
                crc ^= 1 << (rng.next() % 16);
            }
            record.extend_from_slice(&crc.to_le_bytes());
            record.extend_from_slice(&payload);
            stream.extend(record);
        }
        stream.extend(std::iter::repeat(0xff).take((rng.next() % 30) as usize));
        let length = 24 + stream.len() as u32;
        let mut header = vec![0u8; 16];
        header.extend_from_slice(&length.to_le_bytes());
        header.extend_from_slice(&[0, 0, 0, 0]);
        image.extend(header);
        image.extend(stream);
    }
    image
}

fn inspect_twice(data: &[u8]) {
    for policy in [SeqPolicy::GreaterSupersedes, SeqPolicy::GreaterYields] {
        let first = check_fs_with(data, policy);
        let second = check_fs_with(data, policy);
        assert_eq!(first.log, second.log);
        assert_eq!(first.valid, second.valid);
        assert_eq!(first.tree, second.tree);
        let stopped = matches!(first.log.last(), Some(ScanEvent::Stopped { .. }));
        let closed = is_valid_fs(&first.registry.inodes, &first.registry.blocks);
        assert_eq!(first.valid, !stopped && closed);
        assert_eq!(first.tree.is_empty(), !first.valid);
        for event in first.log.iter() {
            assert!(format_event(event, data).is_some());
            match event {
                ScanEvent::Inode { header, crc, .. } => {
                    assert_eq!(
                        first.registry.inodes.contains_key(header.id) || header.crc16 != *crc,
                        true
                    );
                }
                ScanEvent::Block { header, crc, .. } => {
                    assert_eq!(
                        first.registry.blocks.contains_key(header.id) || header.crc16 != *crc,
                        true
                    );
                }
                _ => {}
            }
        }
    }
}

#[test]
fn arbitrary_bytes_are_inspected() {
    let mut rng = Lcg(1);
    for round in 0..300 {
        let len = (rng.next() % 200) as usize;
        let mut data = rng.bytes(len);
        if round % 3 == 0 && len >= 24 {
            let length = 24 + rng.next() % 100;
            data[16..20].copy_from_slice(&length.to_le_bytes());
        }
        inspect_twice(&data);
        assert_eq!(check_fs(&data).log, check_fs_with(&data, SeqPolicy::GreaterSupersedes).log);
    }
}

#[test]
fn framed_images_are_inspected() {
    let mut rng = Lcg(7);
    let mut valid = 0;
    for _ in 0..400 {
        let image = framed_image(&mut rng);
        inspect_twice(&image);
        if check_fs(&image).valid {
            valid += 1;
        }
        let mut damaged = image.clone();
        if !damaged.is_empty() {
            let at = rng.next() as usize % damaged.len();
            damaged[at] ^= 1 << (rng.next() % 8);
            inspect_twice(&damaged);
        }
    }
    assert!(valid > 0);
}

#[test]
fn a_record_is_never_read_past_its_stream() {
    let mut rng = Lcg(99);
    for _ in 0..2000 {
        let len = (rng.next() % 64) as usize;
        let stream = rng.bytes(len);
        match decode_object(&stream) {
            DiskObject::Inode { header, .. } => {
                assert!(20 + header.filename_len as usize <= stream.len())
            }
            DiskObject::Block { header, .. } => {
                assert!(20 + header.data_len as usize <= stream.len())
            }
            DiskObject::FreeSpace => assert_eq!(&stream[..4], &[0xff; 4]),
            DiskObject::Truncated => {}
        }
    }
}
