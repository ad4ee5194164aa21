//! The object decoder and the area scanner: from the bytes of an image to
//! the sequence of things found in it, and to the registry.

use crate::crc::{checksum_of_spans, crc16_xmodem};
use crate::layout::{
    NffsDiskArea, PackedNffsDiskBlock, PackedNffsDiskInode, NFFS_DISK_AREA_SZ,
    NFFS_DISK_BLOCK_OFFSET_CRC, NFFS_DISK_BLOCK_SZ, NFFS_DISK_INODE_OFFSET_CRC,
    NFFS_DISK_INODE_SZ, NFFS_ID_BLOCK_MIN, NFFS_ID_NONE, le_u32, read_le_u32,
};
use crate::registry::{
    block_record, empty_registry, inode_record, resolve_inode, unpack_block, unpack_inode,
    Registry, RegistryModel, SeqPolicy,
};
use vstd::prelude::*;
use vstd::utf8::valid_utf8;

verus! {

/// What stands at a position of an area's object stream.
#[derive(Debug, Clone, Copy, PartialEq, Eq, Structural)]
#[allow(inconsistent_fields)]
pub enum DiskObject {
    /// The stream goes on with unwritten space.
    FreeSpace,
    /// A record that does not fit in what is left of the stream.
    Truncated,
    /// An inode record; `crc` is the checksum computed over it.
    Inode { header: PackedNffsDiskInode, crc: u16 },
    /// A data-block record; `crc` is the checksum computed over it.
    Block { header: PackedNffsDiskBlock, crc: u16 },
}

impl DiskObject {
    /// The number of bytes that the record takes in the stream; 0 where
    /// there is no record.
    pub open spec fn size(&self) -> nat {
        match *self {
            DiskObject::Inode { header, .. } => header.record_size(),
            DiskObject::Block { header, .. } => header.record_size(),
            _ => 0,
        }
    }

    /// Whether this is a record whose stored checksum is the computed one.
    pub open spec fn checksum_ok(&self) -> bool {
        match *self {
            DiskObject::Inode { header, crc } => header.crc16 == crc,
            DiskObject::Block { header, crc } => header.crc16 == crc,
            _ => false,
        }
    }
}

/// The bytes that a record's checksum covers: its header up to the checksum
/// field, then the `payload_len` bytes that follow the header.
pub open spec fn covered_span(stream: Seq<u8>, payload_len: int) -> Seq<u8> {
    stream.subrange(0, NFFS_DISK_INODE_OFFSET_CRC as int) + stream.subrange(
        NFFS_DISK_INODE_SZ as int,
        NFFS_DISK_INODE_SZ + payload_len,
    )
}

/// What stands at the start of `stream`, the rest of an area's object stream.
pub open spec fn object_at(stream: Seq<u8>) -> DiskObject {
    if stream.len() < 4 {
        DiskObject::Truncated
    } else if le_u32(stream, 0) == NFFS_ID_NONE {
        DiskObject::FreeSpace
    } else if stream.len() < NFFS_DISK_INODE_SZ {
        DiskObject::Truncated
    } else if le_u32(stream, 0) >= NFFS_ID_BLOCK_MIN {
        let header = PackedNffsDiskBlock::parse(stream);
        if stream.len() < header.record_size() {
            DiskObject::Truncated
        } else {
            DiskObject::Block {
                header,
                crc: crc16_xmodem(covered_span(stream, header.data_len as int)),
            }
        }
    } else {
        let header = PackedNffsDiskInode::parse(stream);
        if stream.len() < header.record_size() {
            DiskObject::Truncated
        } else {
            DiskObject::Inode {
                header,
                crc: crc16_xmodem(covered_span(stream, header.filename_len as int)),
            }
        }
    }
}

/// Classifies and decodes what stands at the start of `stream`, and computes
/// the checksum of a record that fits.
pub fn decode_object(stream: &[u8]) -> (object: DiskObject)
    ensures
        object == object_at(stream@),
{
    let id = match read_le_u32(stream, 0) {
        Some(id) => id,
        None => {
            return DiskObject::Truncated;
        },
    };
    if id == NFFS_ID_NONE {
        return DiskObject::FreeSpace;
    }
    if id >= NFFS_ID_BLOCK_MIN {
        let header = match PackedNffsDiskBlock::decode(stream) {
            Some(header) => header,
            None => {
                return DiskObject::Truncated;
            },
        };
        let len: usize = header.data_len as usize;
        if stream.len() - NFFS_DISK_BLOCK_SZ < len {
            return DiskObject::Truncated;
        }
        let covered = &stream[0..NFFS_DISK_BLOCK_OFFSET_CRC];
        let data = &stream[NFFS_DISK_BLOCK_SZ..NFFS_DISK_BLOCK_SZ + len];
        DiskObject::Block { header, crc: checksum_of_spans(covered, data) }
    } else {
        let header = match PackedNffsDiskInode::decode(stream) {
            Some(header) => header,
            None => {
                return DiskObject::Truncated;
            },
        };
        let len: usize = header.filename_len as usize;
        if stream.len() - NFFS_DISK_INODE_SZ < len {
            return DiskObject::Truncated;
        }
        let covered = &stream[0..NFFS_DISK_INODE_OFFSET_CRC];
        let name = &stream[NFFS_DISK_INODE_SZ..NFFS_DISK_INODE_SZ + len];
        DiskObject::Inode { header, crc: checksum_of_spans(covered, name) }
    }
}

/// Why a scan went no further.
#[derive(Debug, Clone, Copy, PartialEq, Eq, Structural)]
pub enum ScanError {
    /// Bytes are left at `offset`, but fewer than an area header takes.
    TruncatedAreaHeader { offset: usize },
    /// The area at `offset` declares a length below that of its own header,
    /// or one that runs past the end of the image.
    BadAreaLength { offset: usize, length: u32 },
    /// The inode `id` has a verified checksum and a name that is not UTF-8.
    InvalidName { id: u32 },
}

/// One thing found while scanning an image, in the order of the scan.
#[derive(Debug, Clone, Copy, PartialEq, Eq)]
#[allow(inconsistent_fields)]
pub enum ScanEvent {
    /// The header of the area number `index`.
    Area { index: usize, header: NffsDiskArea },
    /// The inode record number `index` of its area, whose name stands at
    /// `name_at` in the image; `crc` is the checksum computed over it.
    Inode { index: usize, header: PackedNffsDiskInode, crc: u16, name_at: usize },
    /// The block record number `index` of its area; `crc` is the checksum
    /// computed over it.
    Block { index: usize, header: PackedNffsDiskBlock, crc: u16 },
    /// The rest of the area, `bytes` long, is unwritten.
    FreeSpace { bytes: usize },
    /// A record does not fit in the rest of the area, which is given up.
    AbortArea,
    /// The scan ends here.
    Stopped { error: ScanError },
}

/// Whether a sequence of events ends with the scan being stopped.
pub open spec fn stopped(events: Seq<ScanEvent>) -> bool {
    events.len() > 0 && events.last() is Stopped
}

/// The bytes of the name of an inode record whose header is `header` and
/// whose name stands at `name_at` in `img`.
pub open spec fn name_bytes(img: Seq<u8>, name_at: int, header: PackedNffsDiskInode) -> Seq<u8> {
    img.subrange(name_at, name_at + header.filename_len)
}

/// The events of the object stream `[cursor, end)` of `img`, whose next
/// record is number `index`.
pub open spec fn area_events(img: Seq<u8>, cursor: int, end: int, index: nat) -> Seq<ScanEvent>
    decreases end - cursor,
{
    if !(0 <= cursor < end <= img.len()) {
        Seq::empty()
    } else {
        match object_at(img.subrange(cursor, end)) {
            DiskObject::FreeSpace => seq![ScanEvent::FreeSpace { bytes: (end - cursor) as usize }],
            DiskObject::Truncated => seq![ScanEvent::AbortArea],
            DiskObject::Inode { header, crc } => {
                let name_at = cursor + NFFS_DISK_INODE_SZ;
                if header.crc16 == crc && !valid_utf8(name_bytes(img, name_at, header)) {
                    seq![ScanEvent::Stopped { error: ScanError::InvalidName { id: header.id } }]
                } else {
                    seq![
                        ScanEvent::Inode {
                            index: index as usize,
                            header,
                            crc,
                            name_at: name_at as usize,
                        },
                    ] + area_events(img, cursor + header.record_size(), end, index + 1)
                }
            },
            DiskObject::Block { header, crc } => {
                seq![ScanEvent::Block { index: index as usize, header, crc }] + area_events(
                    img,
                    cursor + header.record_size(),
                    end,
                    index + 1,
                )
            },
        }
    }
}

/// Whether an area header at `offset` declares a length that holds the
/// header and stays within an image of `image_len` bytes.
pub open spec fn area_fits(header: NffsDiskArea, offset: int, image_len: int) -> bool {
    NFFS_DISK_AREA_SZ <= header.length && offset + header.length <= image_len
}

/// The events of the areas of `img` from `offset` on, the first of them
/// being area number `index`.
pub open spec fn image_events(img: Seq<u8>, offset: int, index: nat) -> Seq<ScanEvent>
    decreases img.len() - offset,
{
    if offset < 0 || offset >= img.len() {
        Seq::empty()
    } else if img.len() - offset < NFFS_DISK_AREA_SZ {
        seq![
            ScanEvent::Stopped {
                error: ScanError::TruncatedAreaHeader { offset: offset as usize },
            },
        ]
    } else {
        let header = NffsDiskArea::parse(img.subrange(offset, offset + NFFS_DISK_AREA_SZ));
        if !area_fits(header, offset, img.len() as int) {
            seq![
                ScanEvent::Stopped {
                    error: ScanError::BadAreaLength {
                        offset: offset as usize,
                        length: header.length,
                    },
                },
            ]
        } else {
            let here = seq![ScanEvent::Area { index: index as usize, header }] + area_events(
                img,
                offset + NFFS_DISK_AREA_SZ,
                offset + header.length,
                0,
            );
            if stopped(here) {
                here
            } else {
                here + image_events(img, offset + header.length, index + 1)
            }
        }
    }
}

/// The events of a whole image.
pub open spec fn scan_events(img: Seq<u8>) -> Seq<ScanEvent> {
    image_events(img, 0, 0)
}

/// The registry after one more event: a record whose checksum verified is
/// entered, everything else leaves the registry as it is.
pub open spec fn apply_event(
    registry: RegistryModel,
    img: Seq<u8>,
    event: ScanEvent,
    policy: SeqPolicy,
) -> RegistryModel {
    match event {
        ScanEvent::Inode { header, crc, name_at, .. } => if header.crc16 == crc {
            RegistryModel {
                inodes: resolve_inode(
                    registry.inodes,
                    header.id,
                    inode_record(header, name_bytes(img, name_at as int, header), true),
                    policy,
                ),
                blocks: registry.blocks,
            }
        } else {
            registry
        },
        ScanEvent::Block { header, crc, .. } => if header.crc16 == crc {
            RegistryModel {
                inodes: registry.inodes,
                blocks: registry.blocks.insert(
                    header.id,
                    block_record(header, header.data_len as nat, true),
                ),
            }
        } else {
            registry
        },
        _ => registry,
    }
}

/// The registry after a sequence of events, taken in order.
pub open spec fn registry_after(
    registry: RegistryModel,
    img: Seq<u8>,
    events: Seq<ScanEvent>,
    policy: SeqPolicy,
) -> RegistryModel
    decreases events.len(),
{
    if events.len() == 0 {
        registry
    } else {
        apply_event(
            registry_after(registry, img, events.drop_last(), policy),
            img,
            events.last(),
            policy,
        )
    }
}

/// The registry of a whole image.
pub open spec fn registry_of(img: Seq<u8>, policy: SeqPolicy) -> RegistryModel {
    registry_after(empty_registry(), img, scan_events(img), policy)
}

/// Entering the events of `first` and then those of `second` is entering
/// those of `first + second`.
pub proof fn lemma_registry_after_concat(
    registry: RegistryModel,
    img: Seq<u8>,
    first: Seq<ScanEvent>,
    second: Seq<ScanEvent>,
    policy: SeqPolicy,
)
    ensures
        registry_after(registry_after(registry, img, first, policy), img, second, policy)
            == registry_after(registry, img, first + second, policy),
    decreases second.len(),
{
    if second.len() == 0 {
        assert(first + second =~= first);
    } else {
        lemma_registry_after_concat(registry, img, first, second.drop_last(), policy);
        assert((first + second).drop_last() =~= first + second.drop_last());
        assert((first + second).last() == second.last());
    }
}

/// Reports the area number `index`, whose header is `area`, and scans its
/// object stream, the bytes from `start` up to `end` of the image `data`:
/// the events are added to `log`, and the records whose checksum verifies
/// are entered in `registry`.
pub fn disk_area_info(
    registry: &mut Registry,
    log: &mut Vec<ScanEvent>,
    policy: SeqPolicy,
    area: &NffsDiskArea,
    index: usize,
    data: &[u8],
    start: usize,
    end: usize,
)
    requires
        start <= end <= data@.len(),
    ensures
        final(log)@ == old(log)@ + seq![ScanEvent::Area { index, header: *area }] + area_events(
            data@,
            start as int,
            end as int,
            0,
        ),
        final(registry)@ == registry_after(
            old(registry)@,
            data@,
            area_events(data@, start as int, end as int, 0),
            policy,
        ),
{
    let ghost log0 = log@;
    let ghost registry0 = registry@;
    let ghost whole = area_events(data@, start as int, end as int, 0);
    log.push(ScanEvent::Area { index, header: *area });
    let ghost log1 = log@;
    let ghost mut done: Seq<ScanEvent> = Seq::empty();
    let mut cursor: usize = start;
    let mut number: usize = 0;
    while cursor < end
        invariant_except_break
            done + area_events(data@, cursor as int, end as int, number as nat) == whole,
        invariant
            start <= cursor <= end <= data@.len(),
            number <= cursor - start,
            log@ == log1 + done,
            registry@ == registry_after(registry0, data@, done, policy),
        ensures
            done == whole,
        decreases end - cursor,
    {
        let ghost rest = area_events(data@, cursor as int, end as int, number as nat);
        let ghost before = done;
        let object = decode_object(&data[cursor..end]);
        match object {
            DiskObject::FreeSpace => {
                let event = ScanEvent::FreeSpace { bytes: end - cursor };
                log.push(event);
                proof {
                    done = done.push(event);
                    assert(rest =~= seq![event]);
                    assert(done =~= before + rest);
                    lemma_registry_after_push(registry0, data@, before, event, policy);
                }
                break ;
            },
            DiskObject::Truncated => {
                let event = ScanEvent::AbortArea;
                log.push(event);
                proof {
                    done = done.push(event);
                    assert(rest =~= seq![event]);
                    assert(done =~= before + rest);
                    lemma_registry_after_push(registry0, data@, before, event, policy);
                }
                break ;
            },
            DiskObject::Inode { header, crc } => {
                let len: usize = header.filename_len as usize;
                let name_at: usize = cursor + NFFS_DISK_INODE_SZ;
                let name = &data[name_at..name_at + len];
                assert(name@ == name_bytes(data@, name_at as int, header));
                let event = ScanEvent::Inode { index: number, header, crc, name_at };
                let ghost next = area_events(
                    data@,
                    cursor + header.record_size(),
                    end as int,
                    (number + 1) as nat,
                );
                if header.crc16 == crc {
                    match unpack_inode(&header, name, true) {
                        Some(inode) => {
                            registry.insert_inode(header.id, inode, policy);
                        },
                        None => {
                            let event = ScanEvent::Stopped {
                                error: ScanError::InvalidName { id: header.id },
                            };
                            log.push(event);
                            proof {
                                done = done.push(event);
                                assert(rest =~= seq![event]);
                                assert(done =~= before + rest);
                                lemma_registry_after_push(registry0, data@, before, event, policy);
                            }
                            break ;
                        },
                    }
                }
                log.push(event);
                proof {
                    done = done.push(event);
                    assert(rest =~= seq![event] + next);
                    assert(done + next =~= before + rest);
                    lemma_registry_after_push(registry0, data@, before, event, policy);
                }
                cursor = name_at + len;
                number = number + 1;
            },
            DiskObject::Block { header, crc } => {
                let len: usize = header.data_len as usize;
                let data_at: usize = cursor + NFFS_DISK_BLOCK_SZ;
                let event = ScanEvent::Block { index: number, header, crc };
                let ghost next = area_events(
                    data@,
                    cursor + header.record_size(),
                    end as int,
                    (number + 1) as nat,
                );
                if header.crc16 == crc {
                    let block = unpack_block(&header, &data[data_at..data_at + len], true);
                    registry.insert_block(header.id, block);
                }
                log.push(event);
                proof {
                    done = done.push(event);
                    assert(rest =~= seq![event] + next);
                    assert(done + next =~= before + rest);
                    lemma_registry_after_push(registry0, data@, before, event, policy);
                }
                cursor = data_at + len;
                number = number + 1;
            },
        }
    }
    proof {
        assert(done =~= whole);
        assert(log@ =~= log0 + seq![ScanEvent::Area { index, header: *area }] + whole);
    }
}

proof fn lemma_registry_after_push(
    registry: RegistryModel,
    img: Seq<u8>,
    events: Seq<ScanEvent>,
    event: ScanEvent,
    policy: SeqPolicy,
)
    ensures
        registry_after(registry, img, events.push(event), policy) == apply_event(
            registry_after(registry, img, events, policy),
            img,
            event,
            policy,
        ),
{
    assert(events.push(event).drop_last() =~= events);
}

/// What a scan of an image yields: the events in scan order, and the
/// registry of the records whose checksum verified.
pub struct Scan {
    pub log: Vec<ScanEvent>,
    pub registry: Registry,
}

/// Scans a whole image, area after area from offset 0, each area's object
/// stream record after record.  The scan ends at the end of the image, or is
/// stopped where an area header does not fit, where an area's length is out
/// of range, or where a verified inode has a name that is not UTF-8.
pub fn scan_image(data: &[u8], policy: SeqPolicy) -> (scan: Scan)
    ensures
        scan.log@ == scan_events(data@),
        scan.registry@ == registry_of(data@, policy),
{
    let mut log: Vec<ScanEvent> = Vec::new();
    let mut registry = Registry::new();
    let ghost whole = scan_events(data@);
    let mut offset: usize = 0;
    let mut index: usize = 0;
    while offset < data.len()
        invariant_except_break
            log@ + image_events(data@, offset as int, index as nat) == whole,
        invariant
            offset <= data@.len(),
            index <= offset,
            registry@ == registry_after(empty_registry(), data@, log@, policy),
        ensures
            log@ == whole,
        decreases data@.len() - offset,
    {
        let ghost before = log@;
        let ghost rest = image_events(data@, offset as int, index as nat);
        if data.len() - offset < NFFS_DISK_AREA_SZ {
            let event = ScanEvent::Stopped { error: ScanError::TruncatedAreaHeader { offset } };
            log.push(event);
            proof {
                assert(rest =~= seq![event]);
                assert(log@ =~= before + rest);
                lemma_registry_after_push(empty_registry(), data@, before, event, policy);
            }
            break ;
        }
        let header = match NffsDiskArea::decode(&data[offset..offset + NFFS_DISK_AREA_SZ]) {
            Some(header) => header,
            None => {
                break ;
            },
        };
        let length: usize = header.length as usize;
        if length < NFFS_DISK_AREA_SZ || data.len() - offset < length {
            let event = ScanEvent::Stopped {
                error: ScanError::BadAreaLength { offset, length: header.length },
            };
            log.push(event);
            proof {
                assert(rest =~= seq![event]);
                assert(log@ =~= before + rest);
                lemma_registry_after_push(empty_registry(), data@, before, event, policy);
            }
            break ;
        }
        let ghost area = area_events(
            data@,
            offset + NFFS_DISK_AREA_SZ,
            offset + header.length,
            0,
        );
        let ghost opening = ScanEvent::Area { index, header };
        let ghost here = seq![opening] + area;
        let ghost entered = registry@;
        disk_area_info(
            &mut registry,
            &mut log,
            policy,
            &header,
            index,
            data,
            offset + NFFS_DISK_AREA_SZ,
            offset + length,
        );
        proof {
            assert(log@ =~= before + here);
            lemma_registry_after_push(empty_registry(), data@, before, opening, policy);
            lemma_registry_after_concat(
                empty_registry(),
                data@,
                before.push(opening),
                area,
                policy,
            );
            assert(before.push(opening) + area =~= before + here);
            assert(log@.last() == here.last());
        }
        let halted = match log[log.len() - 1] {
            ScanEvent::Stopped { .. } => true,
            _ => false,
        };
        if halted {
            proof {
                assert(stopped(here));
                assert(rest == here);
            }
            break ;
        }
        proof {
            assert(!stopped(here));
            assert(rest == here + image_events(data@, offset + header.length, (index + 1) as nat));
            assert(log@ + image_events(data@, offset + header.length, (index + 1) as nat)
                =~= before + rest);
        }
        offset = offset + length;
        index = index + 1;
    }
    proof {
        if offset >= data@.len() {
            assert(image_events(data@, offset as int, index as nat) =~= Seq::<ScanEvent>::empty());
            assert(log@ + Seq::<ScanEvent>::empty() =~= log@);
        }
    }
    Scan { log, registry }
}

} // verus!
