//! The whole inspection of an image: scan, consistency check, rendering.

use crate::laws::law_scanned_events_are_printable;
use crate::registry::{Registry, SeqPolicy};
use crate::render::{build_tree, tree_of, tree_text};
use crate::scan::{registry_of, scan_events, scan_image, stopped, ScanEvent};
use crate::text::{format_log, log_text};
use crate::validate::{is_valid_fs, registry_closed};
use vstd::prelude::*;
use vstd::string::*;

verus! {

/// What the inspection of an image yields.
pub struct FsCheck {
    /// The events of the scan, in scan order.
    pub log: Vec<ScanEvent>,
    /// The records whose checksum verified.
    pub registry: Registry,
    /// Whether the scan went through and the registry is a closed graph
    /// with a root.
    pub valid: bool,
    /// The rendered tree of a valid image; empty for any other.
    pub tree: String,
}

/// Whether an image is valid: its scan goes through to the end, and its
/// registry is a closed graph with a root.
pub open spec fn image_valid(img: Seq<u8>, policy: SeqPolicy) -> bool {
    !stopped(scan_events(img)) && registry_closed(
        registry_of(img, policy).inodes,
        registry_of(img, policy).blocks,
    )
}

/// The rendered tree of a valid image; empty for any other.
pub open spec fn image_tree_text(img: Seq<u8>, policy: SeqPolicy) -> Seq<char> {
    if image_valid(img, policy) {
        tree_text(tree_of(registry_of(img, policy).inodes, registry_of(img, policy).blocks))
    } else {
        Seq::empty()
    }
}

/// Whether `check` is what the inspection of `img` yields.
pub open spec fn inspection_of(img: Seq<u8>, policy: SeqPolicy, check: FsCheck) -> bool {
    &&& check.log@ == scan_events(img)
    &&& check.registry@ == registry_of(img, policy)
    &&& check.valid == image_valid(img, policy)
    &&& check.tree@ == image_tree_text(img, policy)
}

/// Inspects an image, resolving inode records of one id by `policy`: scans
/// it, checks the registry, and renders the tree where the image is valid.
pub fn check_fs_with(data: &[u8], policy: SeqPolicy) -> (check: FsCheck)
    ensures
        inspection_of(data@, policy, check),
{
    let scan = scan_image(data, policy);
    let halted = scan.log.len() > 0 && match scan.log[scan.log.len() - 1] {
        ScanEvent::Stopped { .. } => true,
        _ => false,
    };
    let valid = !halted && is_valid_fs(&scan.registry.inodes, &scan.registry.blocks);
    let tree = if valid {
        build_tree(&scan.registry.inodes, &scan.registry.blocks)
    } else {
        String::new()
    };
    FsCheck { log: scan.log, registry: scan.registry, valid, tree }
}

/// Inspects an image; of two inode records of one id, the one with the
/// greater sequence number is kept.
pub fn check_fs(data: &[u8]) -> (check: FsCheck)
    ensures
        inspection_of(data@, SeqPolicy::GreaterSupersedes, check),
{
    check_fs_with(data, SeqPolicy::GreaterSupersedes)
}

/// The whole report of an image: what the scan found, event by event, then
/// the tree where the image is valid.
pub open spec fn report_text(img: Seq<u8>, policy: SeqPolicy) -> Seq<char> {
    log_text(img, scan_events(img)) + image_tree_text(img, policy)
}

/// Inspects an image and writes its whole report; tells whether the image
/// is valid.
pub fn report_fs(data: &[u8], policy: SeqPolicy) -> (report: (bool, String))
    ensures
        report.0 == image_valid(data@, policy),
        report.1@ == report_text(data@, policy),
{
    let check = check_fs_with(data, policy);
    let size = data.len();
    proof {
        assert(data@.len() == size);
        law_scanned_events_are_printable(data@);
    }
    let mut text = match format_log(&check.log, data) {
        Some(text) => text,
        None => String::new(),
    };
    text.append(check.tree.as_str());
    (check.valid, text)
}

} // verus!
