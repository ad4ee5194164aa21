//! What holds of every image, stated over the models of the scan, of the
//! registry and of the rendering, and proved.

use crate::crc::lemma_crc_detects_one_changed_byte;
use crate::inspect::{image_tree_text, image_valid, inspection_of, FsCheck};
use crate::layout::{
    le_u16, le_u32, NffsDiskArea, NFFS_DISK_AREA_SZ, NFFS_DISK_INODE_OFFSET_CRC,
    NFFS_DISK_INODE_SZ, NFFS_ID_BLOCK_MIN, NFFS_ID_NONE, NFFS_ID_ROOT_DIR,
};
use crate::registry::{empty_registry, InodeModel, NffsDiskBlock, RegistryModel, SeqPolicy};
use crate::render::{annotation_text, block_ids_text, total_len, tree_of, tree_text};
use crate::scan::{
    apply_event, area_events, area_fits, covered_span, image_events, object_at, registry_after,
    registry_of, scan_events, stopped, DiskObject, ScanEvent,
};
use crate::text::{decimal_text, event_printable};
use crate::tree::{id_count, lemma_linked_below_complete, linked_below, owner_links};
use crate::validate::registry_closed;
use vstd::prelude::*;

verus! {

/// The sum of the data lengths of the blocks below `bound` that `owner`
/// owns.
pub open spec fn owned_bytes_below(blocks: Map<u32, NffsDiskBlock>, owner: u32, bound: nat) -> nat
    decreases bound,
{
    if bound == 0 {
        0
    } else {
        let id = (bound - 1) as u32;
        owned_bytes_below(blocks, owner, (bound - 1) as nat) + (if bound <= id_count()
            && blocks.contains_key(id) && blocks[id].inode_id == owner {
            blocks[id].len as nat
        } else {
            0
        })
    }
}

/// The sum of the data lengths of all the blocks that `owner` owns.
pub open spec fn owned_bytes(blocks: Map<u32, NffsDiskBlock>, owner: u32) -> nat {
    owned_bytes_below(blocks, owner, id_count())
}

proof fn lemma_total_len_is_owned_bytes(blocks: Map<u32, NffsDiskBlock>, owner: u32, bound: nat)
    ensures
        total_len(blocks, linked_below(owner_links(blocks), owner, bound)) == owned_bytes_below(
            blocks,
            owner,
            bound,
        ),
    decreases bound,
{
    if bound > 0 {
        lemma_total_len_is_owned_bytes(blocks, owner, (bound - 1) as nat);
        let rest = linked_below(owner_links(blocks), owner, (bound - 1) as nat);
        let id = (bound - 1) as u32;
        if bound <= id_count() && blocks.contains_key(id) && blocks[id].inode_id == owner {
            assert(rest.push(id).drop_last() =~= rest);
        }
    }
}

/// The size that the tree shows for an inode is the sum of the data lengths
/// of the blocks that the inode owns; an inode is shown without a size only
/// where it owns no block.
pub proof fn law_rendered_size_is_sum_of_block_lengths(
    inodes: Map<u32, InodeModel>,
    blocks: Map<u32, NffsDiskBlock>,
    id: u32,
)
    ensures
        ({
            let tree = tree_of(inodes, blocks);
            &&& tree.blocktree.contains_key(id) ==> annotation_text(tree, id) == " [size="@
                + decimal_text(owned_bytes(blocks, id)) + ", blocks=("@ + block_ids_text(
                tree.blocktree[id],
            ) + ")]"@
            &&& !tree.blocktree.contains_key(id) ==> forall|block: u32|
                blocks.contains_key(block) ==> (#[trigger] blocks[block]).inode_id != id
        }),
{
    let tree = tree_of(inodes, blocks);
    lemma_total_len_is_owned_bytes(blocks, id, id_count());
    if !tree.blocktree.contains_key(id) {
        assert forall|block: u32| blocks.contains_key(block) implies (#[trigger] blocks[block]).inode_id
            != id by {
            if blocks[block].inode_id == id {
                lemma_linked_below_complete(owner_links(blocks), id, id_count(), block);
            }
        }
    }
}

/// Whether an event is one of a well-formed image: an area with the right
/// magic, a record whose checksum verifies, or free space.
pub open spec fn event_well_formed(event: ScanEvent) -> bool {
    match event {
        ScanEvent::Area { header, .. } => header.genuine(),
        ScanEvent::Inode { header, crc, .. } => header.crc16 == crc,
        ScanEvent::Block { header, crc, .. } => header.crc16 == crc,
        ScanEvent::FreeSpace { .. } => true,
        ScanEvent::AbortArea => false,
        ScanEvent::Stopped { .. } => false,
    }
}

/// Whether an image is well formed: its areas chain up to its end and have
/// the right magic, every record fits and has a matching checksum, and the
/// graph of its inodes and blocks is closed.
pub open spec fn well_formed(img: Seq<u8>, policy: SeqPolicy) -> bool {
    &&& forall|k: int|
        0 <= k < scan_events(img).len() ==> event_well_formed(#[trigger] scan_events(img)[k])
    &&& registry_closed(registry_of(img, policy).inodes, registry_of(img, policy).blocks)
}

/// A well-formed image is reported valid, and its tree is rendered from its
/// registry.
pub proof fn law_well_formed_image_is_valid(img: Seq<u8>, policy: SeqPolicy)
    requires
        well_formed(img, policy),
    ensures
        image_valid(img, policy),
        image_tree_text(img, policy) == tree_text(
            tree_of(registry_of(img, policy).inodes, registry_of(img, policy).blocks),
        ),
{
    let events = scan_events(img);
    if stopped(events) {
        assert(event_well_formed(events[events.len() - 1]));
    }
}

/// Changing one byte of the span that a record's checksum covers makes the
/// stored checksum fail, as long as the bytes still frame a record of the
/// same kind and length.
pub proof fn law_changed_byte_fails_checksum(before: Seq<u8>, after: Seq<u8>, at: int)
    requires
        before.len() == after.len(),
        object_at(before).checksum_ok(),
        0 <= at < object_at(before).size(),
        at != NFFS_DISK_INODE_OFFSET_CRC && at != NFFS_DISK_INODE_OFFSET_CRC + 1,
        before[at] != after[at],
        forall|j: int| 0 <= j < before.len() && j != at ==> before[j] == after[j],
        object_at(before) is Inode <==> object_at(after) is Inode,
        object_at(before) is Block <==> object_at(after) is Block,
        object_at(before).size() == object_at(after).size(),
    ensures
        !object_at(after).checksum_ok(),
{
    let payload = object_at(before).size() - NFFS_DISK_INODE_SZ;
    let span_before = covered_span(before, payload);
    let span_after = covered_span(after, payload);
    let moved = if at < NFFS_DISK_INODE_OFFSET_CRC {
        at
    } else {
        at - 2
    };
    assert(span_before.len() == span_after.len());
    assert(span_before[moved] == before[at]);
    assert(span_after[moved] == after[at]);
    assert forall|j: int| 0 <= j < span_before.len() && j != moved implies span_before[j]
        == span_after[j] by {
        if j < NFFS_DISK_INODE_OFFSET_CRC {
            assert(span_before[j] == before[j]);
            assert(span_after[j] == after[j]);
        } else {
            assert(span_before[j] == before[j + 2]);
            assert(span_after[j] == after[j + 2]);
        }
    }
    lemma_crc_detects_one_changed_byte(0, span_before, span_after, moved);
    assert(le_u16(before, 18) == le_u16(after, 18));
}

/// A record whose checksum fails is reported, leaves the registry as it
/// was, and the scan goes on behind it, at the distance of its declared
/// length.
pub proof fn law_bad_checksum_record_is_skipped(
    img: Seq<u8>,
    cursor: int,
    end: int,
    index: nat,
    registry: RegistryModel,
    policy: SeqPolicy,
)
    requires
        0 <= cursor < end <= img.len(),
        object_at(img.subrange(cursor, end)) is Inode || object_at(img.subrange(cursor, end))
            is Block,
        !object_at(img.subrange(cursor, end)).checksum_ok(),
    ensures
        ({
            let object = object_at(img.subrange(cursor, end));
            let events = area_events(img, cursor, end, index);
            &&& events.len() >= 1
            &&& events[0] is Inode || events[0] is Block
            &&& events == seq![events[0]] + area_events(
                img,
                cursor + object.size(),
                end,
                index + 1,
            )
            &&& apply_event(registry, img, events[0], policy) == registry
        }),
{
}

/// A record that is read fits in what is left of its area, header and all.
pub proof fn law_record_fits_in_stream(stream: Seq<u8>)
    ensures
        object_at(stream).size() <= stream.len(),
        object_at(stream) is Inode || object_at(stream) is Block ==> object_at(stream).size()
            >= NFFS_DISK_INODE_SZ,
{
}

/// What is not free space and declares a length that runs past the end of
/// its area is not read as a record.
pub proof fn law_overlong_record_is_not_read(stream: Seq<u8>)
    requires
        stream.len() >= 4,
        le_u32(stream, 0) != NFFS_ID_NONE,
        stream.len() < NFFS_DISK_INODE_SZ || (if le_u32(stream, 0) >= NFFS_ID_BLOCK_MIN {
            NFFS_DISK_INODE_SZ + le_u16(stream, 16)
        } else {
            NFFS_DISK_INODE_SZ + stream[17]
        }) > stream.len(),
    ensures
        object_at(stream) == DiskObject::Truncated,
{
}

/// Where a record does not fit, the scan of the area ends with the one
/// report of that.
pub proof fn law_truncated_record_ends_the_area(img: Seq<u8>, cursor: int, end: int, index: nat)
    requires
        0 <= cursor < end <= img.len(),
        object_at(img.subrange(cursor, end)) is Truncated,
    ensures
        area_events(img, cursor, end, index) == seq![ScanEvent::AbortArea],
{
}

proof fn lemma_area_events_are_printable(img: Seq<u8>, cursor: int, end: int, index: nat)
    requires
        img.len() <= usize::MAX,
    ensures
        forall|k: int|
            0 <= k < area_events(img, cursor, end, index).len() ==> event_printable(
                img,
                #[trigger] area_events(img, cursor, end, index)[k],
            ),
    decreases end - cursor,
{
    if 0 <= cursor < end <= img.len() {
        let object = object_at(img.subrange(cursor, end));
        let events = area_events(img, cursor, end, index);
        match object {
            DiskObject::Inode { header, crc } => {
                lemma_area_events_are_printable(
                    img,
                    cursor + header.record_size(),
                    end,
                    index + 1,
                );
                let rest = area_events(img, cursor + header.record_size(), end, index + 1);
                assert forall|k: int| 0 <= k < events.len() implies event_printable(
                    img,
                    #[trigger] events[k],
                ) by {
                    if events.len() > 1 || events[0] is Inode {
                        if k > 0 {
                            assert(events[k] == rest[k - 1]);
                        }
                    }
                }
            },
            DiskObject::Block { header, crc } => {
                lemma_area_events_are_printable(
                    img,
                    cursor + header.record_size(),
                    end,
                    index + 1,
                );
                let rest = area_events(img, cursor + header.record_size(), end, index + 1);
                assert forall|k: int| 0 <= k < events.len() implies event_printable(
                    img,
                    #[trigger] events[k],
                ) by {
                    if k > 0 {
                        assert(events[k] == rest[k - 1]);
                    }
                }
            },
            _ => {},
        }
    }
}

proof fn lemma_image_events_are_printable(img: Seq<u8>, offset: int, index: nat)
    requires
        img.len() <= usize::MAX,
    ensures
        forall|k: int|
            0 <= k < image_events(img, offset, index).len() ==> event_printable(
                img,
                #[trigger] image_events(img, offset, index)[k],
            ),
    decreases img.len() - offset,
{
    let events = image_events(img, offset, index);
    if 0 <= offset < img.len() && img.len() - offset >= NFFS_DISK_AREA_SZ {
        let header = NffsDiskArea::parse(img.subrange(offset, offset + NFFS_DISK_AREA_SZ));
        if area_fits(header, offset, img.len() as int) {
            let area = area_events(img, offset + NFFS_DISK_AREA_SZ, offset + header.length, 0);
            let here = seq![ScanEvent::Area { index: index as usize, header }] + area;
            lemma_area_events_are_printable(
                img,
                offset + NFFS_DISK_AREA_SZ,
                offset + header.length,
                0,
            );
            assert forall|k: int| 0 <= k < here.len() implies event_printable(
                img,
                #[trigger] here[k],
            ) by {
                if k > 0 {
                    assert(here[k] == area[k - 1]);
                }
            }
            if !stopped(here) {
                let rest = image_events(img, offset + header.length, index + 1);
                lemma_image_events_are_printable(img, offset + header.length, index + 1);
                assert forall|k: int| 0 <= k < events.len() implies event_printable(
                    img,
                    #[trigger] events[k],
                ) by {
                    if k < here.len() {
                        assert(events[k] == here[k]);
                    } else {
                        assert(events[k] == rest[k - here.len()]);
                    }
                }
            }
        }
    }
}

/// Every event of a scan can be reported from the image that was scanned:
/// no name that the scan refers to lies outside the image.  The image is as
/// long as a slice can be.
pub proof fn law_scanned_events_are_printable(img: Seq<u8>)
    requires
        img.len() <= usize::MAX,
    ensures
        forall|k: int|
            0 <= k < scan_events(img).len() ==> event_printable(img, #[trigger] scan_events(img)[k]),
{
    lemma_image_events_are_printable(img, 0, 0);
}

/// Whether no event but the last stops the scan.
pub open spec fn stops_only_at_end(events: Seq<ScanEvent>) -> bool {
    forall|k: int| 0 <= k < events.len() - 1 ==> !((#[trigger] events[k]) is Stopped)
}

proof fn lemma_area_stops_only_at_end(img: Seq<u8>, cursor: int, end: int, index: nat)
    ensures
        stops_only_at_end(area_events(img, cursor, end, index)),
    decreases end - cursor,
{
    if 0 <= cursor < end <= img.len() {
        let events = area_events(img, cursor, end, index);
        match object_at(img.subrange(cursor, end)) {
            DiskObject::Inode { header, crc } => {
                let rest = area_events(img, cursor + header.record_size(), end, index + 1);
                lemma_area_stops_only_at_end(img, cursor + header.record_size(), end, index + 1);
                assert forall|k: int| 0 <= k < events.len() - 1 implies !((
                #[trigger] events[k]) is Stopped) by {
                    if k > 0 {
                        assert(events[k] == rest[k - 1]);
                    }
                }
            },
            DiskObject::Block { header, crc } => {
                let rest = area_events(img, cursor + header.record_size(), end, index + 1);
                lemma_area_stops_only_at_end(img, cursor + header.record_size(), end, index + 1);
                assert forall|k: int| 0 <= k < events.len() - 1 implies !((
                #[trigger] events[k]) is Stopped) by {
                    if k > 0 {
                        assert(events[k] == rest[k - 1]);
                    }
                }
            },
            _ => {},
        }
    }
}

proof fn lemma_image_stops_only_at_end(img: Seq<u8>, offset: int, index: nat)
    ensures
        stops_only_at_end(image_events(img, offset, index)),
    decreases img.len() - offset,
{
    let events = image_events(img, offset, index);
    if 0 <= offset < img.len() && img.len() - offset >= NFFS_DISK_AREA_SZ {
        let header = NffsDiskArea::parse(img.subrange(offset, offset + NFFS_DISK_AREA_SZ));
        if area_fits(header, offset, img.len() as int) {
            let area = area_events(img, offset + NFFS_DISK_AREA_SZ, offset + header.length, 0);
            let here = seq![ScanEvent::Area { index: index as usize, header }] + area;
            lemma_area_stops_only_at_end(
                img,
                offset + NFFS_DISK_AREA_SZ,
                offset + header.length,
                0,
            );
            assert(stops_only_at_end(here)) by {
                assert forall|k: int| 0 <= k < here.len() - 1 implies !((#[trigger] here[k])
                    is Stopped) by {
                    if k > 0 {
                        assert(here[k] == area[k - 1]);
                    }
                }
            }
            if !stopped(here) {
                let rest = image_events(img, offset + header.length, index + 1);
                lemma_image_stops_only_at_end(img, offset + header.length, index + 1);
                assert forall|k: int| 0 <= k < events.len() - 1 implies !((
                #[trigger] events[k]) is Stopped) by {
                    if k < here.len() {
                        assert(events[k] == here[k]);
                        if k == here.len() - 1 {
                            assert(here[k] == here.last());
                        }
                    } else {
                        assert(events[k] == rest[k - here.len()]);
                    }
                }
            }
        }
    }
}

/// A scan is stopped at most once, and with that it ends: an image whose
/// last event does not stop the scan was scanned to its end.
pub proof fn law_scan_stops_only_at_its_end(img: Seq<u8>)
    ensures
        stops_only_at_end(scan_events(img)),
{
    lemma_image_stops_only_at_end(img, 0, 0);
}

/// Two inspections of the same bytes under the same policy yield the same
/// events, the same registry, the same verdict and the same tree.
pub proof fn law_rescan_is_identical(
    img: Seq<u8>,
    policy: SeqPolicy,
    first: FsCheck,
    second: FsCheck,
)
    requires
        inspection_of(img, policy, first),
        inspection_of(img, policy, second),
    ensures
        first.log@ == second.log@,
        first.registry@ == second.registry@,
        first.valid == second.valid,
        first.tree@ == second.tree@,
{
}

/// A registry without the inode 0 is not valid.
pub proof fn law_missing_root_is_invalid(
    inodes: Map<u32, InodeModel>,
    blocks: Map<u32, NffsDiskBlock>,
)
    requires
        !inodes.contains_key(NFFS_ID_ROOT_DIR),
    ensures
        !registry_closed(inodes, blocks),
{
}

/// A registry with an inode, other than the root, whose parent is not among
/// the inodes is not valid.
pub proof fn law_dangling_parent_is_invalid(
    inodes: Map<u32, InodeModel>,
    blocks: Map<u32, NffsDiskBlock>,
    id: u32,
)
    requires
        inodes.contains_key(id),
        id != NFFS_ID_ROOT_DIR,
        !inodes.contains_key(inodes[id].parent_id),
    ensures
        !registry_closed(inodes, blocks),
{
}

/// A registry with a block whose owner is not among the inodes is not
/// valid.
pub proof fn law_dangling_owner_is_invalid(
    inodes: Map<u32, InodeModel>,
    blocks: Map<u32, NffsDiskBlock>,
    id: u32,
)
    requires
        blocks.contains_key(id),
        !inodes.contains_key(blocks[id].inode_id),
    ensures
        !registry_closed(inodes, blocks),
{
}

/// A registry with a block that names a block before it which is not among
/// the blocks is not valid.
pub proof fn law_dangling_predecessor_is_invalid(
    inodes: Map<u32, InodeModel>,
    blocks: Map<u32, NffsDiskBlock>,
    id: u32,
)
    requires
        blocks.contains_key(id),
        blocks[id].prev_id != NFFS_ID_NONE,
        !blocks.contains_key(blocks[id].prev_id),
    ensures
        !registry_closed(inodes, blocks),
{
}

/// Whether an event reports an inode record of the id `id` whose checksum
/// verified.
pub open spec fn verified_inode(event: ScanEvent, id: u32) -> bool {
    event matches ScanEvent::Inode { header, crc, .. } && header.crc16 == crc && header.id == id
}

/// Whether an event reports a block record of the id `id` whose checksum
/// verified.
pub open spec fn verified_block(event: ScanEvent, id: u32) -> bool {
    event matches ScanEvent::Block { header, crc, .. } && header.crc16 == crc && header.id == id
}

/// Whether the events report an inode record of the id `id` whose checksum
/// verified.
pub open spec fn has_verified_inode(events: Seq<ScanEvent>, id: u32) -> bool {
    exists|k: int| 0 <= k < events.len() && verified_inode(#[trigger] events[k], id)
}

/// Whether the events report a block record of the id `id` whose checksum
/// verified.
pub open spec fn has_verified_block(events: Seq<ScanEvent>, id: u32) -> bool {
    exists|k: int| 0 <= k < events.len() && verified_block(#[trigger] events[k], id)
}

proof fn lemma_registry_ids(
    registry: RegistryModel,
    img: Seq<u8>,
    events: Seq<ScanEvent>,
    policy: SeqPolicy,
    id: u32,
)
    ensures
        registry_after(registry, img, events, policy).inodes.contains_key(id) <==> (
        registry.inodes.contains_key(id) || has_verified_inode(events, id)),
        registry_after(registry, img, events, policy).blocks.contains_key(id) <==> (
        registry.blocks.contains_key(id) || has_verified_block(events, id)),
    decreases events.len(),
{
    if events.len() > 0 {
        let front = events.drop_last();
        let last = events.last();
        lemma_registry_ids(registry, img, front, policy, id);
        if has_verified_inode(front, id) {
            let k = choose|k: int| 0 <= k < front.len() && verified_inode(#[trigger] front[k], id);
            assert(verified_inode(events[k], id));
        }
        if has_verified_block(front, id) {
            let k = choose|k: int| 0 <= k < front.len() && verified_block(#[trigger] front[k], id);
            assert(verified_block(events[k], id));
        }
        if verified_inode(last, id) {
            assert(verified_inode(events[events.len() - 1], id));
        }
        if verified_block(last, id) {
            assert(verified_block(events[events.len() - 1], id));
        }
        if has_verified_inode(events, id) {
            let k = choose|k: int|
                0 <= k < events.len() && verified_inode(#[trigger] events[k], id);
            if k < front.len() {
                assert(verified_inode(front[k], id));
            }
        }
        if has_verified_block(events, id) {
            let k = choose|k: int|
                0 <= k < events.len() && verified_block(#[trigger] events[k], id);
            if k < front.len() {
                assert(verified_block(front[k], id));
            }
        }
    }
}

/// The registry of an image holds an id exactly where the scan met a record
/// of that id whose checksum verified: a record whose checksum fails never
/// enters the registry.
pub proof fn law_registry_holds_the_verified_ids(img: Seq<u8>, policy: SeqPolicy, id: u32)
    ensures
        registry_of(img, policy).inodes.contains_key(id) <==> has_verified_inode(
            scan_events(img),
            id,
        ),
        registry_of(img, policy).blocks.contains_key(id) <==> has_verified_block(
            scan_events(img),
            id,
        ),
{
    lemma_registry_ids(empty_registry(), img, scan_events(img), policy, id);
}

/// An image in which no inode record of the id 0 has a checksum that
/// verifies is reported invalid.
pub proof fn law_image_without_root_is_invalid(img: Seq<u8>, policy: SeqPolicy)
    requires
        !has_verified_inode(scan_events(img), NFFS_ID_ROOT_DIR),
    ensures
        !image_valid(img, policy),
        image_tree_text(img, policy) == Seq::<char>::empty(),
{
    law_registry_holds_the_verified_ids(img, policy, NFFS_ID_ROOT_DIR);
}

/// An image whose registry holds an inode, other than the root, whose parent
/// is not in the registry is reported invalid.
pub proof fn law_image_with_dangling_parent_is_invalid(img: Seq<u8>, policy: SeqPolicy, id: u32)
    requires
        registry_of(img, policy).inodes.contains_key(id),
        id != NFFS_ID_ROOT_DIR,
        !registry_of(img, policy).inodes.contains_key(
            registry_of(img, policy).inodes[id].parent_id,
        ),
    ensures
        !image_valid(img, policy),
{
}

/// An image whose registry holds a block whose owner is not in the registry
/// is reported invalid.
pub proof fn law_image_with_dangling_owner_is_invalid(img: Seq<u8>, policy: SeqPolicy, id: u32)
    requires
        registry_of(img, policy).blocks.contains_key(id),
        !registry_of(img, policy).inodes.contains_key(
            registry_of(img, policy).blocks[id].inode_id,
        ),
    ensures
        !image_valid(img, policy),
{
}

/// An image whose registry holds a block that names a block before it which
/// is not in the registry is reported invalid.
pub proof fn law_image_with_dangling_predecessor_is_invalid(
    img: Seq<u8>,
    policy: SeqPolicy,
    id: u32,
)
    requires
        registry_of(img, policy).blocks.contains_key(id),
        registry_of(img, policy).blocks[id].prev_id != NFFS_ID_NONE,
        !registry_of(img, policy).blocks.contains_key(registry_of(img, policy).blocks[id].prev_id),
    ensures
        !image_valid(img, policy),
{
}

} // verus!
