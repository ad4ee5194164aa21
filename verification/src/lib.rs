//! Offline inspection of NFFS flash images.
//!
//! An image is read as a chain of areas; each area holds a packed stream of
//! inode and data-block records.  The records whose checksum verifies are
//! collected into a registry, the registry is checked for referential
//! closure, and the directory tree is rendered from it.
//!
//! - `crc`: the record checksum, CRC-16/XMODEM.
//! - `layout`: the on-disk constants and headers.
//! - `table`: a mapping by object id that is walked in ascending order.
//! - `registry`: the inode and block records, and how duplicates resolve.
//! - `scan`: the object decoder and the area scanner.
//! - `text`: the report of a scan as text.
//! - `validate`: the consistency check of a registry.
//! - `tree`, `order`, `render`: the tree structures and their rendering.
//! - `inspect`: scan, check and rendering in one call.
//! - `laws`, `depth`: what holds of every image.
//! - `script`, `areas`, `harness`: what the simulator of the file system
//!   engine decides: script commands, flash areas, restore results.

pub mod crc;
pub mod layout;
pub mod table;
pub mod registry;
pub mod scan;
pub mod text;
pub mod validate;
pub mod tree;
pub mod order;
pub mod render;
pub mod inspect;
pub mod laws;
pub mod depth;
pub mod script;
pub mod areas;
pub mod harness;
