//! Reading one fixed-size window of a device and rendering it.

use vstd::prelude::*;

use crate::errors::DiskError;
use crate::page::Line;
use crate::render::{format_page, page_matches};

verus! {

broadcast use vstd::std_specs::vec::group_vec_axioms;

/// The number of bytes read in a single device access.
pub const WINDOW_SIZE: usize = 512;

/// The [`WINDOW_SIZE`]-byte window of `data` starting at byte offset `start`.
pub open spec fn window(data: Seq<u8>, start: int) -> Seq<u8> {
    data.subrange(start, start + WINDOW_SIZE)
}

/// Whether a full window is available at byte offset `start` of `data`.
pub open spec fn window_available(data: Seq<u8>, start: int) -> bool {
    0 <= start && start + WINDOW_SIZE <= data.len()
}

/// Reads the [`WINDOW_SIZE`]-byte window of the device starting at byte
/// offset `start` and renders it as a page, one line per byte group.
/// Fails with `ShortRead` when fewer than [`WINDOW_SIZE`] bytes remain
/// from `start` to the end of the device. `start` need not be
/// sector-aligned; callers decide alignment policy.
pub fn read_sector(device: &Vec<u8>, start: u64) -> (r: Result<Vec<Line>, DiskError>)
    ensures
        match r {
            Ok(page) => window_available(device@, start as int) && page_matches(
                page@,
                window(device@, start as int),
                start as nat,
            ),
            Err(e) => e == DiskError::ShortRead && !window_available(device@, start as int),
        },
{
    if device.len() < WINDOW_SIZE || start > (device.len() - WINDOW_SIZE) as u64 {
        return Err(DiskError::ShortRead);
    }
    let s = start as usize;
    let mut buf: Vec<u8> = Vec::new();
    let mut j: usize = 0;
    while j < WINDOW_SIZE
        invariant
            s == start,
            s + WINDOW_SIZE <= device@.len(),
            device@.len() <= usize::MAX,
            j <= WINDOW_SIZE,
            buf@ =~= device@.subrange(s as int, s as int + j),
        decreases WINDOW_SIZE - j,
    {
        buf.push(device[s + j]);
        proof {
            assert(device@.subrange(s as int, s as int + j + 1) =~= device@.subrange(
                s as int,
                s as int + j,
            ).push(device@[s as int + j]));
        }
        j += 1;
    }
    Ok(format_page(buf.as_slice(), start))
}

/// Reading is deterministic: the page rendered for a window of an
/// unmodified device at a given offset is pinned by the device contents
/// and the offset alone, so re-reading the same offset yields an
/// identical page.
pub proof fn lemma_read_deterministic(
    d1: Seq<u8>,
    d2: Seq<u8>,
    start: int,
    p1: Seq<Line>,
    p2: Seq<Line>,
)
    requires
        d1 == d2,
        page_matches(p1, window(d1, start), start as nat),
        page_matches(p2, window(d2, start), start as nat),
    ensures
        p1.len() == p2.len(),
        forall|i: int|
            0 <= i < p1.len() ==> {
                &&& (#[trigger] p1[i]).position@ == p2[i].position@
                &&& p1[i].hex_bytes@ == p2[i].hex_bytes@
                &&& p1[i].ascii_bytes@ == p2[i].ascii_bytes@
            },
{
}

} // verus!
