//! One rendered display line.

use vstd::prelude::*;

verus! {

/// One display line of a page: a position label, the hexadecimal rendering
/// of one byte group, and the printable/mnemonic rendering of the same
/// group. Immutable after creation.
#[derive(Debug)]
pub struct Line {
    /// The byte offset of the line, rendered as zero-padded uppercase hex.
    pub position: String,
    /// Two uppercase hex digits and a trailing space for each byte.
    pub hex_bytes: String,
    /// The printable or mnemonic rendering of each byte.
    pub ascii_bytes: String,
}

impl Line {
    /// Builds a line from its three already-rendered fields.
    pub fn create(position: String, hex_bytes: String, ascii_bytes: String) -> (line: Line)
        ensures
            line.position@ == position@,
            line.hex_bytes@ == hex_bytes@,
            line.ascii_bytes@ == ascii_bytes@,
    {
        Line { position, hex_bytes, ascii_bytes }
    }
}

impl Clone for Line {
    fn clone(&self) -> (other: Line)
        ensures
            other.position@ == self.position@,
            other.hex_bytes@ == self.hex_bytes@,
            other.ascii_bytes@ == self.ascii_bytes@,
    {
        Line {
            position: self.position.clone(),
            hex_bytes: self.hex_bytes.clone(),
            ascii_bytes: self.ascii_bytes.clone(),
        }
    }
}

} // verus!
