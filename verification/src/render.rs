//! Rendering a raw byte buffer as a page of display lines.
//!
//! A buffer is partitioned into consecutive groups of [`GROUP_WIDTH`]
//! bytes; a trailing group shorter than that is discarded. Group `i`
//! (0-based) becomes one [`Line`] whose position label is
//! `base_offset + (i+1)*GROUP_WIDTH` in zero-padded uppercase hex, whose
//! hex field is two uppercase digits and a space per byte, and whose text
//! field renders each byte on its own: `0x00` as `.`, the ISO control
//! bytes `0x85 0x0A 0x0B 0x0C 0x0D` as the mnemonics `NL LF LT FF CR`,
//! and every other byte value as the Unicode scalar `U+0000`..`U+00FF`
//! with the same value (a Latin-1 mapping, deliberately not a multi-byte
//! UTF-8 decode).

use vstd::prelude::*;

use crate::page::Line;

verus! {

broadcast use vstd::slice::group_slice_axioms;

/// The number of bytes rendered into one display line.
pub const GROUP_WIDTH: usize = 16;

/// The minimum width, in hex digits, of a position label.
pub const OFFSET_LABEL_WIDTH: usize = 5;

/// Relies on `String::push` of std: appends the given char to the end of
/// the string.
pub assume_specification[ String::push ](s: &mut String, c: char)
    ensures
        final(s)@ == old(s)@.push(c),
;

/// The uppercase hex digit for a value below 16.
pub open spec fn hex_digit(d: nat) -> char {
    if d == 0 {
        '0'
    } else if d == 1 {
        '1'
    } else if d == 2 {
        '2'
    } else if d == 3 {
        '3'
    } else if d == 4 {
        '4'
    } else if d == 5 {
        '5'
    } else if d == 6 {
        '6'
    } else if d == 7 {
        '7'
    } else if d == 8 {
        '8'
    } else if d == 9 {
        '9'
    } else if d == 10 {
        'A'
    } else if d == 11 {
        'B'
    } else if d == 12 {
        'C'
    } else if d == 13 {
        'D'
    } else if d == 14 {
        'E'
    } else {
        'F'
    }
}

/// The hex digits of `v`, zero-padded on the left to at least `w` digits.
pub open spec fn label_digits(v: nat, w: nat) -> Seq<char>
    decreases v, w,
{
    if v < 16 && w <= 1 {
        seq![hex_digit(v)]
    } else {
        label_digits(v / 16, if w == 0 { 0 } else { (w - 1) as nat }).push(hex_digit(v % 16))
    }
}

/// The position label of byte offset `v`: its hex digits, zero-padded to
/// at least [`OFFSET_LABEL_WIDTH`] digits.
pub open spec fn position_label(v: nat) -> Seq<char> {
    label_digits(v, OFFSET_LABEL_WIDTH as nat)
}

/// The hex rendering of one byte: two uppercase digits and a space.
pub open spec fn hex_of_byte(b: u8) -> Seq<char> {
    seq![hex_digit((b / 16) as nat), hex_digit((b % 16) as nat), ' ']
}

/// The hex rendering of a byte group: each byte's rendering, in order.
pub open spec fn hex_render(bs: Seq<u8>) -> Seq<char>
    decreases bs.len(),
{
    if bs.len() == 0 {
        Seq::empty()
    } else {
        hex_of_byte(bs[0]) + hex_render(bs.drop_first())
    }
}

/// The text rendering of one byte: `.` for a NUL byte, a two-letter
/// mnemonic for the ISO control bytes, and otherwise the Unicode scalar
/// with the byte's own value.
pub open spec fn text_of_byte(b: u8) -> Seq<char> {
    if b == 0x00 {
        seq!['.']
    } else if b == 0x85 {
        seq!['N', 'L']
    } else if b == 0x0A {
        seq!['L', 'F']
    } else if b == 0x0B {
        seq!['L', 'T']
    } else if b == 0x0C {
        seq!['F', 'F']
    } else if b == 0x0D {
        seq!['C', 'R']
    } else {
        seq![b as char]
    }
}

/// The text rendering of a byte group: each byte's rendering, in order.
pub open spec fn text_render(bs: Seq<u8>) -> Seq<char>
    decreases bs.len(),
{
    if bs.len() == 0 {
        Seq::empty()
    } else {
        text_of_byte(bs[0]) + text_render(bs.drop_first())
    }
}

/// The `i`-th full byte group of a buffer.
pub open spec fn group(data: Seq<u8>, i: int) -> Seq<u8> {
    data.subrange(GROUP_WIDTH * i, GROUP_WIDTH * i + GROUP_WIDTH)
}

/// Whether `line` is the correct rendering of group `i` of `data` read at
/// byte offset `base`.
pub open spec fn line_matches(line: Line, data: Seq<u8>, base: nat, i: int) -> bool {
    &&& line.position@ == position_label((base + (i + 1) * GROUP_WIDTH) as nat)
    &&& line.hex_bytes@ == hex_render(group(data, i))
    &&& line.ascii_bytes@ == text_render(group(data, i))
}

/// Whether `lines` is the correct rendering of the whole buffer `data`
/// read at byte offset `base`: one line per full group, partial trailing
/// group dropped.
pub open spec fn page_matches(lines: Seq<Line>, data: Seq<u8>, base: nat) -> bool {
    &&& lines.len() == data.len() as int / (GROUP_WIDTH as int)
    &&& forall|i: int| 0 <= i < lines.len() ==> line_matches(#[trigger] lines[i], data, base, i)
}

/// The hex rendering distributes over concatenation: the rendering of a
/// byte depends on that byte alone, with no cross-byte state.
pub proof fn lemma_hex_render_concat(s1: Seq<u8>, s2: Seq<u8>)
    ensures
        hex_render(s1 + s2) == hex_render(s1) + hex_render(s2),
    decreases s1.len(),
{
    if s1.len() == 0 {
        assert(s1 + s2 =~= s2);
        assert(hex_render(s1) + hex_render(s2) =~= hex_render(s2));
    } else {
        lemma_hex_render_concat(s1.drop_first(), s2);
        assert((s1 + s2).drop_first() =~= s1.drop_first() + s2);
        assert(hex_of_byte((s1 + s2)[0]) + (hex_render(s1.drop_first()) + hex_render(s2))
            =~= (hex_of_byte(s1[0]) + hex_render(s1.drop_first())) + hex_render(s2));
    }
}

/// The text rendering distributes over concatenation: the rendering of a
/// byte depends on that byte alone, with no cross-byte state.
pub proof fn lemma_text_render_concat(s1: Seq<u8>, s2: Seq<u8>)
    ensures
        text_render(s1 + s2) == text_render(s1) + text_render(s2),
    decreases s1.len(),
{
    if s1.len() == 0 {
        assert(s1 + s2 =~= s2);
        assert(text_render(s1) + text_render(s2) =~= text_render(s2));
    } else {
        lemma_text_render_concat(s1.drop_first(), s2);
        assert((s1 + s2).drop_first() =~= s1.drop_first() + s2);
        assert(text_of_byte((s1 + s2)[0]) + (text_render(s1.drop_first()) + text_render(s2))
            =~= (text_of_byte(s1[0]) + text_render(s1.drop_first())) + text_render(s2));
    }
}

/// A one-byte group renders to exactly that byte's own rendering.
pub proof fn lemma_text_render_singleton(b: u8)
    ensures
        text_render(seq![b]) == text_of_byte(b),
{
    assert(seq![b].drop_first() =~= Seq::<u8>::empty());
    assert(text_render(Seq::<u8>::empty()) =~= Seq::<char>::empty());
    assert(text_render(seq![b]) =~= text_of_byte(seq![b][0]) + text_render(seq![b].drop_first()));
    assert(text_of_byte(b) + Seq::<char>::empty() =~= text_of_byte(b));
}

/// A one-byte group renders to exactly that byte's own hex rendering.
pub proof fn lemma_hex_render_singleton(b: u8)
    ensures
        hex_render(seq![b]) == hex_of_byte(b),
{
    assert(seq![b].drop_first() =~= Seq::<u8>::empty());
    assert(hex_render(Seq::<u8>::empty()) =~= Seq::<char>::empty());
    assert(hex_render(seq![b]) =~= hex_of_byte(seq![b][0]) + hex_render(seq![b].drop_first()));
    assert(hex_of_byte(b) + Seq::<char>::empty() =~= hex_of_byte(b));
}

fn push_hex_digit(s: &mut String, d: u8)
    requires
        d < 16,
    ensures
        final(s)@ == old(s)@.push(hex_digit(d as nat)),
{
    let c: char = match d {
        0 => '0',
        1 => '1',
        2 => '2',
        3 => '3',
        4 => '4',
        5 => '5',
        6 => '6',
        7 => '7',
        8 => '8',
        9 => '9',
        10 => 'A',
        11 => 'B',
        12 => 'C',
        13 => 'D',
        14 => 'E',
        _ => 'F',
    };
    s.push(c);
}

fn push_label_digits(s: &mut String, v: u64, w: usize)
    ensures
        final(s)@ == old(s)@ + label_digits(v as nat, w as nat),
    decreases v, w,
{
    if v < 16 && w <= 1 {
        push_hex_digit(s, v as u8);
        assert(old(s)@.push(hex_digit(v as nat)) =~= old(s)@ + label_digits(v as nat, w as nat));
    } else {
        let w2: usize = if w == 0 { 0 } else { w - 1 };
        push_label_digits(s, v / 16, w2);
        push_hex_digit(s, (v % 16) as u8);
        assert((old(s)@ + label_digits((v / 16) as nat, w2 as nat)).push(
            hex_digit((v % 16) as nat),
        ) =~= old(s)@ + label_digits(v as nat, w as nat));
    }
}

/// Renders the position label of byte offset `v`.
pub fn render_position(v: u64) -> (s: String)
    ensures
        s@ == position_label(v as nat),
{
    let mut s = String::new();
    push_label_digits(&mut s, v, OFFSET_LABEL_WIDTH);
    proof {
        assert(Seq::<char>::empty() + position_label(v as nat) =~= position_label(v as nat));
    }
    s
}

fn push_hex_byte(s: &mut String, b: u8)
    ensures
        final(s)@ == old(s)@ + hex_of_byte(b),
{
    push_hex_digit(s, b / 16);
    push_hex_digit(s, b % 16);
    s.push(' ');
    assert(old(s)@.push(hex_digit((b / 16) as nat)).push(hex_digit((b % 16) as nat)).push(' ')
        =~= old(s)@ + hex_of_byte(b));
}

fn push_text_byte(s: &mut String, b: u8)
    ensures
        final(s)@ == old(s)@ + text_of_byte(b),
{
    if b == 0x00 {
        s.push('.');
        assert(old(s)@.push('.') =~= old(s)@ + text_of_byte(b));
    } else if b == 0x85 {
        s.push('N');
        s.push('L');
        assert(old(s)@.push('N').push('L') =~= old(s)@ + text_of_byte(b));
    } else if b == 0x0A {
        s.push('L');
        s.push('F');
        assert(old(s)@.push('L').push('F') =~= old(s)@ + text_of_byte(b));
    } else if b == 0x0B {
        s.push('L');
        s.push('T');
        assert(old(s)@.push('L').push('T') =~= old(s)@ + text_of_byte(b));
    } else if b == 0x0C {
        s.push('F');
        s.push('F');
        assert(old(s)@.push('F').push('F') =~= old(s)@ + text_of_byte(b));
    } else if b == 0x0D {
        s.push('C');
        s.push('R');
        assert(old(s)@.push('C').push('R') =~= old(s)@ + text_of_byte(b));
    } else {
        let c: char = b as char;
        s.push(c);
        assert(old(s)@.push(b as char) =~= old(s)@ + text_of_byte(b));
    }
}

/// Renders a raw byte buffer read at byte offset `base_offset` as a page
/// of display lines: one line per full group of [`GROUP_WIDTH`] bytes, in
/// order, the partial trailing group dropped.
pub fn format_page(buffer: &[u8], base_offset: u64) -> (lines: Vec<Line>)
    requires
        base_offset + buffer@.len() <= u64::MAX,
    ensures
        page_matches(lines@, buffer@, base_offset as nat),
{
    let mut lines: Vec<Line> = Vec::new();
    let n: usize = buffer.len() / GROUP_WIDTH;
    let mut g: usize = 0;
    while g < n
        invariant
            base_offset + buffer@.len() <= u64::MAX,
            n == buffer@.len() as int / (GROUP_WIDTH as int),
            g <= n,
            lines@.len() == g,
            forall|i: int|
                0 <= i < g ==> line_matches(#[trigger] lines@[i], buffer@, base_offset as nat, i),
        decreases n - g,
    {
        let mut hex = String::new();
        let mut text = String::new();
        let mut j: usize = 0;
        proof {
            assert(buffer@.subrange(
                GROUP_WIDTH * g as int,
                GROUP_WIDTH * g as int,
            ) =~= Seq::<u8>::empty());
        }
        while j < GROUP_WIDTH
            invariant
                g < n,
                n == buffer@.len() as int / (GROUP_WIDTH as int),
                j <= GROUP_WIDTH,
                hex@ == hex_render(
                    buffer@.subrange(GROUP_WIDTH * g as int, GROUP_WIDTH * g as int + j),
                ),
                text@ == text_render(
                    buffer@.subrange(GROUP_WIDTH * g as int, GROUP_WIDTH * g as int + j),
                ),
            decreases GROUP_WIDTH - j,
        {
            proof {
                assert(GROUP_WIDTH * (g + 1) <= GROUP_WIDTH * n) by (nonlinear_arith)
                    requires
                        g + 1 <= n,
                ;
                assert(GROUP_WIDTH * n <= buffer@.len()) by (nonlinear_arith)
                    requires
                        n == buffer@.len() as int / (GROUP_WIDTH as int),
                ;
                assert(vstd::slice::spec_slice_len(buffer) == buffer@.len());
                assert(buffer@.len() <= usize::MAX);
                assert(GROUP_WIDTH * g + 16 <= GROUP_WIDTH * (g + 1)) by (nonlinear_arith);
                assert(GROUP_WIDTH * g + j < buffer@.len());
            }
            let b = buffer[GROUP_WIDTH * g + j];
            push_hex_byte(&mut hex, b);
            push_text_byte(&mut text, b);
            proof {
                let pre = buffer@.subrange(GROUP_WIDTH * g as int, GROUP_WIDTH * g as int + j);
                let post = buffer@.subrange(
                    GROUP_WIDTH * g as int,
                    GROUP_WIDTH * g as int + j + 1,
                );
                assert(post =~= pre + seq![buffer@[GROUP_WIDTH * g as int + j]]);
                lemma_hex_render_concat(pre, seq![b]);
                lemma_text_render_concat(pre, seq![b]);
                lemma_hex_render_singleton(b);
                lemma_text_render_singleton(b);
            }
            j += 1;
        }
        let label_offset: u64 = base_offset + (g as u64 + 1) * (GROUP_WIDTH as u64);
        let label = render_position(label_offset);
        lines.push(Line::create(label, hex, text));
        g += 1;
    }
    lines
}

} // verus!
