//! Offset arithmetic and input parsing for navigation.

use vstd::prelude::*;

use crate::errors::DiskError;

verus! {

broadcast use vstd::slice::group_slice_axioms;

/// The offset reached by stepping `delta` bytes backward from `offset`:
/// clamped to zero on underflow, so the offset never goes negative.
pub open spec fn stepped_back(offset: u64, delta: u64) -> u64 {
    if offset >= delta {
        (offset - delta) as u64
    } else {
        0
    }
}

/// Steps `delta` bytes backward, snapping to offset zero when fewer than
/// `delta` bytes lie before the current offset.
pub fn step_backward(offset: u64, delta: u64) -> (r: u64)
    ensures
        r == stepped_back(offset, delta),
        offset < delta ==> r == 0,
{
    if offset >= delta {
        offset - delta
    } else {
        0
    }
}

/// Steps `delta` bytes forward; `None` when the offset would not fit the
/// address width.
pub fn step_forward(offset: u64, delta: u64) -> (r: Option<u64>)
    ensures
        match r {
            Some(v) => v == offset + delta,
            None => offset + delta > u64::MAX,
        },
{
    if offset <= u64::MAX - delta {
        Some(offset + delta)
    } else {
        None
    }
}

/// The byte is the ASCII encoding of a hex digit.
pub open spec fn is_hex_digit_byte(b: u8) -> bool {
    (0x30 <= b <= 0x39) || (0x41 <= b <= 0x46) || (0x61 <= b <= 0x66)
}

/// The value of an ASCII hex digit byte.
pub open spec fn hex_digit_byte_value(b: u8) -> nat {
    if 0x30 <= b <= 0x39 {
        (b - 0x30) as nat
    } else if 0x41 <= b <= 0x46 {
        (b - 0x41 + 10) as nat
    } else {
        (b - 0x61 + 10) as nat
    }
}

/// The unsigned value of a sequence of ASCII hex digit bytes, most
/// significant digit first.
pub open spec fn hex_value(bs: Seq<u8>) -> nat
    decreases bs.len(),
{
    if bs.len() == 0 {
        0
    } else {
        16 * hex_value(bs.drop_last()) + hex_digit_byte_value(bs.last())
    }
}

/// The bytes parse as a base-16 address: non-empty, hex digits only, and
/// a value that fits the 64-bit address width.
pub open spec fn valid_hex_input(bs: Seq<u8>) -> bool {
    &&& bs.len() > 0
    &&& forall|i: int| 0 <= i < bs.len() ==> is_hex_digit_byte(#[trigger] bs[i])
    &&& hex_value(bs) <= u64::MAX
}

/// A longer prefix of hex digits never has a smaller value.
proof fn lemma_hex_value_prefix_monotonic(bs: Seq<u8>, i: int, j: int)
    requires
        0 <= i <= j <= bs.len(),
    ensures
        hex_value(bs.subrange(0, i)) <= hex_value(bs.subrange(0, j)),
    decreases j - i,
{
    if i < j {
        lemma_hex_value_prefix_monotonic(bs, i, j - 1);
        let p = bs.subrange(0, j);
        assert(p.drop_last() =~= bs.subrange(0, j - 1));
        assert(hex_value(bs.subrange(0, j - 1)) <= hex_value(p));
    }
}

/// Parses the bytes of a navigation input as an unsigned base-16
/// address. Accepts exactly the non-empty all-hex-digit inputs whose
/// value fits 64 bits; rejects everything else with `InvalidHexAddress`.
pub fn parse_hex_address(input: &[u8]) -> (r: Result<u64, DiskError>)
    ensures
        match r {
            Ok(v) => valid_hex_input(input@) && v == hex_value(input@),
            Err(e) => e == DiskError::InvalidHexAddress && !valid_hex_input(input@),
        },
{
    if input.len() == 0 {
        return Err(DiskError::InvalidHexAddress);
    }
    let mut acc: u64 = 0;
    let mut i: usize = 0;
    proof {
        assert(input@.subrange(0, 0) =~= Seq::<u8>::empty());
    }
    while i < input.len()
        invariant
            i <= input@.len(),
            input@.len() <= usize::MAX,
            forall|t: int| 0 <= t < i ==> is_hex_digit_byte(#[trigger] input@[t]),
            acc == hex_value(input@.subrange(0, i as int)),
        decreases input@.len() - i,
    {
        let b = input[i];
        let d: u64 = if 0x30 <= b && b <= 0x39 {
            (b - 0x30) as u64
        } else if 0x41 <= b && b <= 0x46 {
            (b - 0x41) as u64 + 10
        } else if 0x61 <= b && b <= 0x66 {
            (b - 0x61) as u64 + 10
        } else {
            return Err(DiskError::InvalidHexAddress);
        };
        proof {
            assert(is_hex_digit_byte(b) && d == hex_digit_byte_value(b));
        }
        if acc > (u64::MAX - d) / 16 {
            proof {
                let p = input@.subrange(0, i as int + 1);
                assert(p.drop_last() =~= input@.subrange(0, i as int));
                assert(hex_value(p) == 16 * acc + d);
                assert(hex_value(p) > u64::MAX);
                lemma_hex_value_prefix_monotonic(input@, i as int + 1, input@.len() as int);
                assert(input@.subrange(0, input@.len() as int) =~= input@);
            }
            return Err(DiskError::InvalidHexAddress);
        }
        acc = 16 * acc + d;
        proof {
            let p = input@.subrange(0, i as int + 1);
            assert(p.drop_last() =~= input@.subrange(0, i as int));
            assert(p.last() == b);
        }
        i += 1;
    }
    proof {
        assert(input@.subrange(0, input@.len() as int) =~= input@);
    }
    Ok(acc)
}

} // verus!
