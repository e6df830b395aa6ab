//! Scanning a device chunk-by-chunk for a byte pattern.
//!
//! The device is read in [`CHUNK_SIZE`]-byte chunks. Each chunk is first
//! pre-filtered on byte membership (a necessary-but-not-sufficient test),
//! then scanned with a naive restart-on-mismatch matcher that keeps a
//! running count of consecutive matching bytes and resets the count to
//! zero on any mismatch. The matcher is deliberately not a
//! failure-function-based search: after a failed partial match it can
//! miss overlapping occurrences that share a prefix with the pattern.
//! What it does report is always a real occurrence (proved below).
//!
//! Chunk starts advance by `CHUNK_SIZE - pattern length`, so an
//! occurrence straddling a chunk boundary is wholly contained in the next
//! chunk (proved below). A found occurrence is aligned downward to the
//! nearest [`ALIGN_SIZE`]-byte boundary, and the window there is returned
//! as a page.

use vstd::arithmetic::div_mod::lemma_fundamental_div_mod;
use vstd::prelude::*;
use vstd::slice::slice_subrange;

use crate::errors::DiskError;
use crate::page::Line;
use crate::render::page_matches;
use crate::sector::{read_sector, window, window_available};

verus! {

broadcast use vstd::std_specs::vec::group_vec_axioms, vstd::slice::group_slice_axioms;

/// The number of bytes read in one scanning pass.
pub const CHUNK_SIZE: usize = 10240;

/// A found occurrence is aligned downward to a multiple of this size,
/// the sector size, so that the returned window starts on a sector
/// boundary at or below the occurrence.
pub const ALIGN_SIZE: usize = 512;

/// A search pattern must be non-empty and shorter than a chunk.
pub open spec fn valid_pattern(pat: Seq<u8>) -> bool {
    0 < pat.len() < CHUNK_SIZE
}

/// The pattern occurs in `data` starting at byte offset `s`.
pub open spec fn occurs_at(data: Seq<u8>, pat: Seq<u8>, s: int) -> bool {
    &&& 0 <= s
    &&& s + pat.len() <= data.len()
    &&& data.subrange(s, s + pat.len()) == pat
}

/// The state of the naive matcher from position `i` of the chunk on,
/// with `m` consecutive bytes already matched: the position one past the
/// first full match it reports, if any. On a mismatch the count resets
/// to zero without reconsidering the current byte.
pub open spec fn scan_from(chunk: Seq<u8>, pat: Seq<u8>, i: int, m: int) -> Option<int>
    recommends
        0 < pat.len(),
        0 <= i,
        0 <= m < pat.len(),
    decreases chunk.len() - i,
        when 0 <= i && 0 <= m < pat.len()
{
    if i >= chunk.len() {
        None
    } else {
        let m2: int = if chunk[i] == pat[m] {
            m + 1
        } else {
            0
        };
        if m2 == pat.len() {
            Some(i + 1)
        } else {
            scan_from(chunk, pat, i + 1, m2)
        }
    }
}

/// The position one past the first full match the naive matcher reports
/// in `chunk`, if any.
pub open spec fn match_end(chunk: Seq<u8>, pat: Seq<u8>) -> Option<int>
    recommends
        0 < pat.len(),
{
    scan_from(chunk, pat, 0, 0)
}

proof fn lemma_scan_sound(chunk: Seq<u8>, pat: Seq<u8>, i: int, m: int, e: int)
    requires
        0 < pat.len(),
        0 <= m < pat.len(),
        m <= i <= chunk.len(),
        chunk.subrange(i - m, i) == pat.subrange(0, m),
        scan_from(chunk, pat, i, m) == Some(e),
    ensures
        pat.len() <= e <= chunk.len(),
        occurs_at(chunk, pat, e - pat.len()),
    decreases chunk.len() - i,
{
    if i >= chunk.len() {
        assert(false);
    } else {
        let m2: int = if chunk[i] == pat[m] {
            m + 1
        } else {
            0
        };
        if m2 == pat.len() {
            assert(chunk[i] == pat[m]);
            assert(e == i + 1);
            assert(chunk.subrange(i - m, i + 1) =~= chunk.subrange(i - m, i) + seq![chunk[i]]);
            assert(pat =~= pat.subrange(0, m) + seq![pat[m]]);
            assert(chunk.subrange(e - pat.len(), e) == pat);
        } else {
            if chunk[i] == pat[m] {
                assert(chunk.subrange(i + 1 - m2, i + 1) =~= chunk.subrange(i - m, i)
                    + seq![chunk[i]]);
                assert(pat.subrange(0, m2) =~= pat.subrange(0, m) + seq![pat[m]]);
            } else {
                assert(chunk.subrange(i + 1, i + 1) =~= pat.subrange(0, 0));
            }
            lemma_scan_sound(chunk, pat, i + 1, m2, e);
        }
    }
}

/// The naive matcher is sound: whatever it reports is a real occurrence,
/// ending at the reported position.
pub proof fn lemma_match_end_sound(chunk: Seq<u8>, pat: Seq<u8>, e: int)
    requires
        0 < pat.len(),
        match_end(chunk, pat) == Some(e),
    ensures
        pat.len() <= e <= chunk.len(),
        occurs_at(chunk, pat, e - pat.len()),
{
    assert(chunk.subrange(0, 0) =~= pat.subrange(0, 0));
    lemma_scan_sound(chunk, pat, 0, 0, e);
}

/// The byte value `b` occurs somewhere in `s`.
pub open spec fn contains_byte(s: Seq<u8>, b: u8) -> bool {
    exists|k: int| 0 <= k < s.len() && s[k] == b
}

/// Every byte value occurring in the pattern also occurs in the chunk:
/// the pre-filter's necessary condition.
pub open spec fn has_all_pattern_bytes(chunk: Seq<u8>, pat: Seq<u8>) -> bool {
    forall|j: int| 0 <= j < pat.len() ==> contains_byte(chunk, #[trigger] pat[j])
}

/// The pre-filter never produces a false negative: a chunk containing an
/// occurrence of the pattern contains every byte value of the pattern.
pub proof fn lemma_occurrence_implies_all_bytes(chunk: Seq<u8>, pat: Seq<u8>, s: int)
    requires
        occurs_at(chunk, pat, s),
    ensures
        has_all_pattern_bytes(chunk, pat),
{
    assert forall|j: int| 0 <= j < pat.len() implies contains_byte(chunk, #[trigger] pat[j]) by {
        assert(chunk.subrange(s, s + pat.len())[j] == chunk[s + j]);
        assert(chunk[s + j] == pat[j]);
    }
}

/// Skipping a chunk that fails the pre-filter never loses a match: in
/// such a chunk the matcher would have found nothing.
pub proof fn lemma_no_bytes_no_match(chunk: Seq<u8>, pat: Seq<u8>)
    requires
        0 < pat.len(),
        !has_all_pattern_bytes(chunk, pat),
    ensures
        match_end(chunk, pat) is None,
{
    match match_end(chunk, pat) {
        Some(e) => {
            lemma_match_end_sound(chunk, pat, e);
            lemma_occurrence_implies_all_bytes(chunk, pat, e - pat.len());
            assert(false);
        },
        None => {},
    }
}

fn contains_byte_exec(chunk: &[u8], b: u8) -> (r: bool)
    ensures
        r == contains_byte(chunk@, b),
{
    let mut k: usize = 0;
    while k < chunk.len()
        invariant
            k <= chunk@.len(),
            forall|t: int| 0 <= t < k ==> chunk@[t] != b,
        decreases chunk@.len() - k,
    {
        if chunk[k] == b {
            assert(chunk@[k as int] == b);
            return true;
        }
        k += 1;
    }
    false
}

fn has_all_pattern_bytes_exec(chunk: &[u8], pat: &[u8]) -> (r: bool)
    ensures
        r == has_all_pattern_bytes(chunk@, pat@),
{
    let mut j: usize = 0;
    while j < pat.len()
        invariant
            j <= pat@.len(),
            forall|t: int| 0 <= t < j ==> contains_byte(chunk@, #[trigger] pat@[t]),
        decreases pat@.len() - j,
    {
        if !contains_byte_exec(chunk, pat[j]) {
            assert(!contains_byte(chunk@, pat@[j as int]));
            return false;
        }
        j += 1;
    }
    true
}

/// Runs the naive restart-on-mismatch matcher over one chunk. Returns
/// the position one past the first full match it reports, if any.
pub fn chunk_match(chunk: &[u8], pat: &[u8]) -> (r: Option<usize>)
    requires
        0 < pat@.len(),
    ensures
        match r {
            Some(e) => match_end(chunk@, pat@) == Some(e as int),
            None => match_end(chunk@, pat@) is None,
        },
{
    let mut i: usize = 0;
    let mut m: usize = 0;
    proof {
        assert(vstd::slice::spec_slice_len(chunk) == chunk@.len());
    }
    while i < chunk.len()
        invariant
            0 < pat@.len(),
            i <= chunk@.len(),
            m < pat@.len(),
            chunk@.len() <= usize::MAX,
            scan_from(chunk@, pat@, i as int, m as int) == match_end(chunk@, pat@),
        decreases chunk@.len() - i,
    {
        let m2: usize = if chunk[i] == pat[m] {
            m + 1
        } else {
            0
        };
        if m2 == pat.len() {
            return Some(i + 1);
        }
        m = m2;
        i += 1;
    }
    None
}

/// `v` rounded down to the nearest multiple of [`ALIGN_SIZE`].
pub open spec fn align_down(v: int) -> int {
    v - (v % (ALIGN_SIZE as int))
}

/// Rounding down to an alignment boundary moves an offset back by less
/// than one alignment unit and lands on a multiple of the unit.
pub proof fn lemma_align_down_bounds(v: int)
    requires
        0 <= v,
    ensures
        0 <= align_down(v) <= v,
        v - align_down(v) < ALIGN_SIZE,
        align_down(v) % (ALIGN_SIZE as int) == 0,
{
    lemma_fundamental_div_mod(v, ALIGN_SIZE as int);
    assert(align_down(v) == (ALIGN_SIZE as int) * (v / (ALIGN_SIZE as int)));
    assert(((ALIGN_SIZE as int) * (v / (ALIGN_SIZE as int))) % (ALIGN_SIZE as int) == 0) by {
        vstd::arithmetic::div_mod::lemma_mod_multiples_basic(
            v / (ALIGN_SIZE as int),
            ALIGN_SIZE as int,
        );
    }
}

/// The raw byte offset at which the chunked scan, started at chunk
/// offset `off`, first reports a match; `None` when a short read ends
/// the scan first.
pub open spec fn find_from(data: Seq<u8>, pat: Seq<u8>, off: int) -> Option<int>
    recommends
        valid_pattern(pat),
        0 <= off,
    decreases data.len() - off,
        when valid_pattern(pat) && 0 <= off
{
    if off + CHUNK_SIZE > data.len() {
        None
    } else {
        match match_end(data.subrange(off, off + CHUNK_SIZE), pat) {
            Some(e) => Some(off + e - pat.len()),
            None => find_from(data, pat, off + CHUNK_SIZE - pat.len()),
        }
    }
}

/// The raw byte offset at which the whole chunked scan first reports a
/// match, if any.
pub open spec fn find_raw(data: Seq<u8>, pat: Seq<u8>) -> Option<int>
    recommends
        valid_pattern(pat),
{
    find_from(data, pat, 0)
}

/// The sector-aligned offset a successful scan returns, if any.
pub open spec fn scan_result(data: Seq<u8>, pat: Seq<u8>) -> Option<int>
    recommends
        valid_pattern(pat),
{
    match find_raw(data, pat) {
        Some(raw) => Some(align_down(raw)),
        None => None,
    }
}

proof fn lemma_find_from_sound(data: Seq<u8>, pat: Seq<u8>, off: int, raw: int)
    requires
        valid_pattern(pat),
        0 <= off,
        find_from(data, pat, off) == Some(raw),
    ensures
        off <= raw,
        occurs_at(data, pat, raw),
    decreases data.len() - off,
{
    if off + CHUNK_SIZE > data.len() {
        assert(false);
    } else {
        let chunk = data.subrange(off, off + CHUNK_SIZE);
        match match_end(chunk, pat) {
            Some(e) => {
                lemma_match_end_sound(chunk, pat, e);
                assert(data.subrange(raw, raw + pat.len()) =~= chunk.subrange(e - pat.len(), e));
            },
            None => {
                lemma_find_from_sound(data, pat, off + CHUNK_SIZE - pat.len(), raw);
            },
        }
    }
}

/// The chunked scan is sound: a reported raw offset is a real occurrence
/// of the pattern, and the aligned offset the scan returns is at or
/// below it by less than one alignment unit.
pub proof fn lemma_find_sound(data: Seq<u8>, pat: Seq<u8>, raw: int)
    requires
        valid_pattern(pat),
        find_raw(data, pat) == Some(raw),
    ensures
        occurs_at(data, pat, raw),
        scan_result(data, pat) == Some(align_down(raw)),
        align_down(raw) <= raw < align_down(raw) + ALIGN_SIZE,
        align_down(raw) % (ALIGN_SIZE as int) == 0,
{
    lemma_find_from_sound(data, pat, 0, raw);
    lemma_align_down_bounds(raw);
}

/// When the pattern occurs at exactly one offset `o` of the device, a
/// successful scan returns an aligned offset at most `o` and more than
/// `o - ALIGN_SIZE`: the returned window starts at the sector boundary
/// at or just below the occurrence.
pub proof fn lemma_find_aligned_near_unique_occurrence(
    data: Seq<u8>,
    pat: Seq<u8>,
    o: int,
    raw: int,
)
    requires
        valid_pattern(pat),
        forall|s: int| occurs_at(data, pat, s) ==> s == o,
        find_raw(data, pat) == Some(raw),
    ensures
        scan_result(data, pat) == Some(align_down(o)),
        o - ALIGN_SIZE < align_down(o) <= o,
{
    lemma_find_sound(data, pat, raw);
    assert(raw == o);
}

/// Chunk starts advance by `CHUNK_SIZE - pattern length`, so every
/// occurrence of a valid pattern is wholly contained in some chunk of
/// the scan sequence: a pattern straddling a chunk boundary is seen
/// whole in the following chunk.
pub proof fn lemma_occurrence_covered_by_some_chunk(data: Seq<u8>, pat: Seq<u8>, s: int)
    requires
        valid_pattern(pat),
        0 <= s,
    ensures
        exists|k: int|
            {
                &&& 0 <= k
                &&& #[trigger] (k * (CHUNK_SIZE - pat.len())) <= s
                &&& s + pat.len() <= k * (CHUNK_SIZE - pat.len()) + CHUNK_SIZE
            },
{
    let c = CHUNK_SIZE - pat.len();
    let k = s / c;
    lemma_fundamental_div_mod(s, c);
    assert(k * c == s - s % c) by (nonlinear_arith)
        requires
            s == c * k + s % c,
    ;
    assert(0 <= k && k * c <= s && s + pat.len() <= k * c + CHUNK_SIZE);
}

/// In a device that is zero everywhere else, a planted pattern of
/// nonzero bytes is the only occurrence of itself.
pub proof fn lemma_plant_is_unique_occurrence(data: Seq<u8>, pat: Seq<u8>, s: int, s2: int)
    requires
        0 < pat.len(),
        forall|k: int| 0 <= k < pat.len() ==> pat[k] != 0,
        occurs_at(data, pat, s),
        forall|t: int| 0 <= t < data.len() && !(s <= t < s + pat.len()) ==> data[t] == 0,
        occurs_at(data, pat, s2),
    ensures
        s2 == s,
{
    assert(data[s2] == data.subrange(s2, s2 + pat.len())[0]);
    assert(data[s2 + pat.len() - 1] == data.subrange(s2, s2 + pat.len())[pat.len() - 1]);
    assert(data[s2] == pat[0] && data[s2] != 0);
    assert(data[s2 + pat.len() - 1] == pat[pat.len() - 1] && data[s2 + pat.len() - 1] != 0);
}

proof fn lemma_scan_skips_zeros(chunk: Seq<u8>, pat: Seq<u8>, i: int, r: int)
    requires
        0 < pat.len(),
        pat[0] != 0,
        0 <= i <= r <= chunk.len(),
        forall|t: int| i <= t < r ==> chunk[t] == 0,
    ensures
        scan_from(chunk, pat, i, 0) == scan_from(chunk, pat, r, 0),
    decreases r - i,
{
    if i < r {
        assert(chunk[i] == 0);
        lemma_scan_skips_zeros(chunk, pat, i + 1, r);
    }
}

proof fn lemma_scan_completes_at_plant(chunk: Seq<u8>, pat: Seq<u8>, r: int, k: int)
    requires
        0 < pat.len(),
        0 <= r,
        0 <= k < pat.len(),
        r + pat.len() <= chunk.len(),
        chunk.subrange(r, r + pat.len()) == pat,
    ensures
        scan_from(chunk, pat, r + k, k) == Some(r + pat.len()),
    decreases pat.len() - k,
{
    assert(chunk[r + k] == chunk.subrange(r, r + pat.len())[k]);
    assert(chunk[r + k] == pat[k]);
    if k + 1 < pat.len() {
        lemma_scan_completes_at_plant(chunk, pat, r, k + 1);
    }
}

/// The naive matcher is complete on a clean chunk: zeros up to the
/// plant, then a pattern of nonzero bytes, give a match ending exactly
/// where the plant ends.
pub proof fn lemma_match_end_finds_clean_plant(chunk: Seq<u8>, pat: Seq<u8>, r: int)
    requires
        0 < pat.len(),
        pat[0] != 0,
        0 <= r,
        r + pat.len() <= chunk.len(),
        chunk.subrange(r, r + pat.len()) == pat,
        forall|t: int| 0 <= t < r ==> chunk[t] == 0,
    ensures
        match_end(chunk, pat) == Some(r + pat.len()),
{
    lemma_scan_skips_zeros(chunk, pat, 0, r);
    lemma_scan_completes_at_plant(chunk, pat, r, 0);
}

proof fn lemma_find_from_reaches_plant(data: Seq<u8>, pat: Seq<u8>, s: int, off: int)
    requires
        valid_pattern(pat),
        forall|k: int| 0 <= k < pat.len() ==> pat[k] != 0,
        occurs_at(data, pat, s),
        forall|t: int| 0 <= t < data.len() && !(s <= t < s + pat.len()) ==> data[t] == 0,
        0 <= off <= (s / (CHUNK_SIZE - pat.len() as int)) * (CHUNK_SIZE - pat.len() as int),
        ((s / (CHUNK_SIZE - pat.len() as int)) * (CHUNK_SIZE - pat.len() as int) - off) % (
        CHUNK_SIZE - pat.len() as int) == 0,
        (s / (CHUNK_SIZE - pat.len() as int)) * (CHUNK_SIZE - pat.len() as int) + CHUNK_SIZE
            <= data.len(),
    ensures
        find_from(data, pat, off) == Some(s),
    decreases (s / (CHUNK_SIZE - pat.len() as int)) * (CHUNK_SIZE - pat.len() as int) - off,
{
    let c = CHUNK_SIZE - pat.len() as int;
    let off0 = (s / c) * c;
    lemma_fundamental_div_mod(s, c);
    assert((s / c) * c == c * (s / c)) by (nonlinear_arith);
    assert(off0 == s - s % c);
    assert(off + CHUNK_SIZE <= data.len());
    let chunk = data.subrange(off, off + CHUNK_SIZE);
    match match_end(chunk, pat) {
        Some(e) => {
            lemma_match_end_sound(chunk, pat, e);
            assert(data.subrange(off + e - pat.len(), off + e) =~= chunk.subrange(
                e - pat.len(),
                e,
            ));
            assert(occurs_at(data, pat, off + e - pat.len()));
            lemma_plant_is_unique_occurrence(data, pat, s, off + e - pat.len());
            assert(find_from(data, pat, off) == Some(s));
        },
        None => {
            if off == off0 {
                let r = s - off0;
                assert(0 <= r < c);
                assert(chunk.subrange(r, r + pat.len()) =~= data.subrange(s, s + pat.len()));
                assert(forall|t: int| 0 <= t < r ==> chunk[t] == data[off0 + t] && chunk[t] == 0);
                assert(pat[0] == data.subrange(s, s + pat.len())[0]);
                lemma_match_end_finds_clean_plant(chunk, pat, r);
                assert(false);
            }
            assert(off < off0);
            assert(off0 - off >= c) by {
                let x = off0 - off;
                lemma_fundamental_div_mod(x, c);
                assert(x == c * (x / c));
                if x / c <= 0 {
                    assert(c * (x / c) <= 0) by (nonlinear_arith)
                        requires
                            c > 0,
                            x / c <= 0,
                    ;
                    assert(false);
                }
                assert(c * (x / c) >= c) by (nonlinear_arith)
                    requires
                        c > 0,
                        x / c >= 1,
                ;
            }
            assert((off0 - (off + c)) % c == 0) by {
                vstd::arithmetic::div_mod::lemma_mod_sub_multiples_vanish(off0 - off, c);
            }
            lemma_find_from_reaches_plant(data, pat, s, off + c);
        },
    }
}

/// The scan is complete for an isolated plant: on a device that is zero
/// everywhere except a planted pattern of nonzero bytes, with at least
/// one full chunk of device remaining at the plant, the scan locates
/// exactly the plant — also when the plant straddles a chunk boundary —
/// and returns the sector boundary at or just below it.
pub proof fn lemma_find_locates_isolated_pattern(data: Seq<u8>, pat: Seq<u8>, s: int)
    requires
        valid_pattern(pat),
        forall|k: int| 0 <= k < pat.len() ==> pat[k] != 0,
        occurs_at(data, pat, s),
        forall|t: int| 0 <= t < data.len() && !(s <= t < s + pat.len()) ==> data[t] == 0,
        s + CHUNK_SIZE <= data.len(),
    ensures
        find_raw(data, pat) == Some(s),
        scan_result(data, pat) == Some(align_down(s)),
        s - ALIGN_SIZE < align_down(s) <= s,
{
    let c = CHUNK_SIZE - pat.len() as int;
    let off0 = (s / c) * c;
    lemma_fundamental_div_mod(s, c);
    assert((s / c) * c == c * (s / c)) by (nonlinear_arith);
    assert(off0 == s - s % c);
    assert(0 <= off0 <= s);
    assert((off0 - 0) % c == 0) by {
        vstd::arithmetic::div_mod::lemma_mod_multiples_basic(s / c, c);
    }
    lemma_find_from_reaches_plant(data, pat, s, 0);
    lemma_align_down_bounds(s);
}

/// Scans the device chunk-by-chunk for the pattern. On the first chunk
/// in which the naive matcher reports a match, aligns the raw match
/// offset down to the nearest [`ALIGN_SIZE`]-byte boundary and returns
/// the rendered window there together with the aligned offset. Fails
/// with `InvalidPattern` when the pattern is empty or does not fit a
/// chunk, with `NoMatch` when the scan runs off the end of the device,
/// and with `ShortRead` when no full window remains at the aligned
/// offset.
pub fn find_term(device: &Vec<u8>, pattern: &[u8]) -> (r: Result<(Vec<Line>, u64), DiskError>)
    ensures
        match r {
            Ok((page, start)) => {
                &&& valid_pattern(pattern@)
                &&& scan_result(device@, pattern@) == Some(start as int)
                &&& window_available(device@, start as int)
                &&& page_matches(page@, window(device@, start as int), start as nat)
            },
            Err(e) => match e {
                DiskError::InvalidPattern => !valid_pattern(pattern@),
                DiskError::NoMatch => valid_pattern(pattern@) && scan_result(device@, pattern@)
                    is None,
                DiskError::ShortRead => {
                    &&& valid_pattern(pattern@)
                    &&& match scan_result(device@, pattern@) {
                        Some(a) => !window_available(device@, a),
                        None => false,
                    }
                },
                _ => false,
            },
        },
{
    if pattern.len() == 0 || pattern.len() >= CHUNK_SIZE {
        return Err(DiskError::InvalidPattern);
    }
    let mut off: usize = 0;
    proof {
        assert(vstd::std_specs::vec::spec_vec_len(device) == device@.len());
    }
    loop
        invariant
            valid_pattern(pattern@),
            pattern@.len() < CHUNK_SIZE,
            device@.len() <= usize::MAX,
            off <= device@.len(),
            find_from(device@, pattern@, off as int) == find_raw(device@, pattern@),
        decreases device@.len() - off,
    {
        if device.len() < CHUNK_SIZE || off > device.len() - CHUNK_SIZE {
            return Err(DiskError::NoMatch);
        }
        let chunk: &[u8] = slice_subrange(device.as_slice(), off, off + CHUNK_SIZE);
        let skip = !has_all_pattern_bytes_exec(chunk, pattern);
        if skip {
            proof {
                lemma_no_bytes_no_match(chunk@, pattern@);
            }
        } else {
            match chunk_match(chunk, pattern) {
                Some(e) => {
                    proof {
                        lemma_match_end_sound(chunk@, pattern@, e as int);
                    }
                    let raw = off + e - pattern.len();
                    let aligned = raw - (raw % ALIGN_SIZE);
                    proof {
                        lemma_align_down_bounds(raw as int);
                        assert(find_raw(device@, pattern@) == Some(raw as int));
                        assert(scan_result(device@, pattern@) == Some(aligned as int));
                    }
                    match read_sector(device, aligned as u64) {
                        Ok(page) => {
                            return Ok((page, aligned as u64));
                        },
                        Err(_) => {
                            return Err(DiskError::ShortRead);
                        },
                    }
                },
                None => {},
            }
        }
        off = off + (CHUNK_SIZE - pattern.len());
    }
}

} // verus!
