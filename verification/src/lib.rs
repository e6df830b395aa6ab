//! A raw block-device paging and byte-pattern search engine.
//!
//! Given a byte-addressable device image, the library reads fixed-size
//! windows at arbitrary byte offsets, renders each window as fixed-width
//! lines of (offset, hex, text) triples, and scans the device for a
//! caller-supplied byte sequence with an overlap-safe chunked algorithm
//! that aligns any match back to a sector boundary.
//!
//! The device is modelled as a plain byte sequence; opening a device path
//! and reading bytes from it is the caller's concern. A presentation shell
//! drives the [`session::DiskVisualizer`] state machine with
//! [`session::Message`] events and displays the resulting page of
//! [`page::Line`] records.

pub mod cursor;
pub mod errors;
pub mod page;
pub mod render;
pub mod scan;
pub mod sector;
pub mod session;
