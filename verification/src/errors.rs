//! The error taxonomy of the engine.
//!
//! Every error is recoverable at the session level: the prior page and
//! cursor state are retained and a user-facing message can be surfaced.

use vstd::prelude::*;

verus! {

/// What can go wrong while paging or scanning a device.
#[derive(Clone, Copy, Debug, PartialEq, Eq, Structural)]
pub enum DiskError {
    /// Opening the device failed. Produced by the I/O shell, never by the
    /// in-memory engine itself.
    DeviceNotFound,
    /// Fewer bytes remain from the requested offset than the requested
    /// window or chunk needs.
    ShortRead,
    /// A search pattern was empty, or too long to fit a scan chunk.
    InvalidPattern,
    /// An address entered in navigation mode did not parse as hexadecimal.
    InvalidHexAddress,
    /// A scan ran off the end of the device without locating the pattern.
    NoMatch,
}

} // verus!
