use disk_visualizer::page::Line;
use disk_visualizer::render::format_page;

#[test]
fn line_create_holds_fields() {
    let line = Line::create(
        String::from("00010"),
        String::from("41 "),
        String::from("A"),
    );
    assert_eq!(line.position, "00010");
    assert_eq!(line.hex_bytes, "41 ");
    assert_eq!(line.ascii_bytes, "A");
    let copy = line.clone();
    assert_eq!(copy.position, "00010");
    assert_eq!(copy.hex_bytes, "41 ");
    assert_eq!(copy.ascii_bytes, "A");
}

#[test]
fn page_line_count_drops_partial_group() {
    // 100 bytes: 6 full groups of 16, the trailing 4 bytes are dropped.
    let buf = vec![0u8; 100];
    let page = format_page(&buf, 0);
    assert_eq!(page.len(), 6);
}

#[test]
fn page_line_count_exact_multiple() {
    let buf = vec![0u8; 512];
    let page = format_page(&buf, 0);
    assert_eq!(page.len(), 32);
}

#[test]
fn page_empty_buffer() {
    let buf: Vec<u8> = Vec::new();
    let page = format_page(&buf, 0);
    assert_eq!(page.len(), 0);
}

#[test]
fn page_fifteen_bytes_is_empty() {
    let buf = vec![0x41u8; 15];
    let page = format_page(&buf, 0);
    assert_eq!(page.len(), 0);
}

#[test]
fn line_fields_for_printable_bytes() {
    let buf: Vec<u8> = b"ABCDEFGHIJKLMNOP".to_vec();
    let page = format_page(&buf, 0);
    assert_eq!(page.len(), 1);
    assert_eq!(page[0].position, "00010");
    assert_eq!(
        page[0].hex_bytes,
        "41 42 43 44 45 46 47 48 49 4A 4B 4C 4D 4E 4F 50 "
    );
    assert_eq!(page[0].ascii_bytes, "ABCDEFGHIJKLMNOP");
}

#[test]
fn text_rendering_mnemonics_and_latin1() {
    let buf: Vec<u8> = vec![
        0x00, 0x85, 0x0A, 0x0B, 0x0C, 0x0D, 0x41, 0x61, 0x30, 0x7A, 0x20, 0x21, 0xFF, 0x4E,
        0x4C, 0x7E,
    ];
    let page = format_page(&buf, 0);
    assert_eq!(page.len(), 1);
    assert_eq!(
        page[0].hex_bytes,
        "00 85 0A 0B 0C 0D 41 61 30 7A 20 21 FF 4E 4C 7E "
    );
    assert_eq!(page[0].ascii_bytes, ".NLLFLTFFCRAa0z !\u{ff}NL~");
}

#[test]
fn text_rendering_depends_on_byte_alone() {
    // The same byte value renders identically whatever its neighbours:
    // 'Q' surrounded by zeros and 'Q' surrounded by letters.
    let mut a = vec![0u8; 16];
    a[7] = b'Q';
    let mut b = vec![b'x'; 16];
    b[3] = b'Q';
    let pa = format_page(&a, 0);
    let pb = format_page(&b, 0);
    assert_eq!(&pa[0].ascii_bytes[7..8], "Q");
    assert_eq!(&pb[0].ascii_bytes[3..4], "Q");
}

#[test]
fn position_labels_advance_by_group_width() {
    let buf = vec![0u8; 48];
    let page = format_page(&buf, 0x200);
    assert_eq!(page.len(), 3);
    assert_eq!(page[0].position, "00210");
    assert_eq!(page[1].position, "00220");
    assert_eq!(page[2].position, "00230");
}

#[test]
fn position_label_wider_than_five_digits() {
    let buf = vec![0u8; 16];
    // 0xFFFF0 + 0x10 = 0x100000 needs six digits.
    let page = format_page(&buf, 0xF_FFF0);
    assert_eq!(page[0].position, "100000");
}

#[test]
fn position_label_zero_padded() {
    let buf = vec![0u8; 16];
    let page = format_page(&buf, 0);
    assert_eq!(page[0].position, "00010");
}
