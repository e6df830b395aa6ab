use disk_visualizer::cursor::{parse_hex_address, step_backward, step_forward};
use disk_visualizer::errors::DiskError;
use disk_visualizer::session::{DiskVisualizer, Message, Mode};

fn numbered_device(len: usize) -> Vec<u8> {
    let mut d = vec![0u8; len];
    for (i, b) in d.iter_mut().enumerate() {
        *b = (i % 251) as u8;
    }
    d
}

#[test]
fn step_backward_clamps_to_zero() {
    assert_eq!(step_backward(5, 16), 0);
    assert_eq!(step_backward(0, 512), 0);
    assert_eq!(step_backward(511, 512), 0);
    assert_eq!(step_backward(1000, 512), 488);
    assert_eq!(step_backward(512, 512), 0);
}

#[test]
fn step_forward_checks_address_width() {
    assert_eq!(step_forward(1000, 512), Some(1512));
    assert_eq!(step_forward(u64::MAX - 10, 512), None);
    assert_eq!(step_forward(u64::MAX - 512, 512), Some(u64::MAX));
}

#[test]
fn parse_hex_accepts_addresses() {
    assert_eq!(parse_hex_address(b"1A").unwrap(), 26);
    assert_eq!(parse_hex_address(b"1a").unwrap(), 26);
    assert_eq!(parse_hex_address(b"0").unwrap(), 0);
    assert_eq!(parse_hex_address(b"ff").unwrap(), 255);
    assert_eq!(parse_hex_address(b"FFFFFFFFFFFFFFFF").unwrap(), u64::MAX);
    assert_eq!(parse_hex_address(b"00000000000000000001").unwrap(), 1);
}

#[test]
fn parse_hex_rejects_bad_input() {
    assert_eq!(
        parse_hex_address(b"").unwrap_err(),
        DiskError::InvalidHexAddress
    );
    assert_eq!(
        parse_hex_address(b"xyz").unwrap_err(),
        DiskError::InvalidHexAddress
    );
    assert_eq!(
        parse_hex_address(b"12 34").unwrap_err(),
        DiskError::InvalidHexAddress
    );
    assert_eq!(
        parse_hex_address(b"+1A").unwrap_err(),
        DiskError::InvalidHexAddress
    );
    // One digit past the 64-bit address width.
    assert_eq!(
        parse_hex_address(b"10000000000000000").unwrap_err(),
        DiskError::InvalidHexAddress
    );
}

#[test]
fn new_session_shows_first_window() {
    let v = DiskVisualizer::new(numbered_device(1024));
    assert_eq!(v.start, 0);
    assert_eq!(v.operation_mode, Mode::Read);
    assert_eq!(v.current_page.len(), 32);
    assert_eq!(v.string_input, "");
    assert_eq!(v.placeholder, "");
}

#[test]
fn new_session_on_tiny_device_shows_empty_page() {
    let v = DiskVisualizer::new(vec![0u8; 100]);
    assert_eq!(v.start, 0);
    assert_eq!(v.current_page.len(), 0);
}

#[test]
fn paging_moves_one_window() {
    let mut v = DiskVisualizer::new(numbered_device(2048));
    v.update(Message::PageDown);
    assert_eq!(v.start, 512);
    v.update(Message::PageUp);
    assert_eq!(v.start, 0);
}

#[test]
fn paging_down_past_end_is_ignored() {
    let mut v = DiskVisualizer::new(numbered_device(1024));
    v.update(Message::PageDown);
    assert_eq!(v.start, 512);
    let before = v.current_page.len();
    v.update(Message::PageDown);
    assert_eq!(v.start, 512);
    assert_eq!(v.current_page.len(), before);
}

#[test]
fn line_stepping_moves_one_group() {
    let mut v = DiskVisualizer::new(numbered_device(2048));
    v.update(Message::Down);
    assert_eq!(v.start, 16);
    v.update(Message::Up);
    assert_eq!(v.start, 0);
}

#[test]
fn page_up_snaps_to_zero_from_partial_offset() {
    let mut v = DiskVisualizer::new(numbered_device(2048));
    v.update(Message::Down);
    assert_eq!(v.start, 16);
    v.update(Message::PageUp);
    assert_eq!(v.start, 0);
}

#[test]
fn backward_from_zero_is_a_no_op() {
    let mut v = DiskVisualizer::new(numbered_device(2048));
    v.update(Message::Up);
    assert_eq!(v.start, 0);
    v.update(Message::PageUp);
    assert_eq!(v.start, 0);
}

#[test]
fn entering_modes_sets_prompt_and_clears_input() {
    let mut v = DiskVisualizer::new(numbered_device(1024));
    v.update(Message::InputChange(String::from("leftover")));
    v.update(Message::Find);
    assert_eq!(v.operation_mode, Mode::Find);
    assert_eq!(v.string_input, "");
    assert_eq!(v.placeholder, "Enter the term to search for");
    v.update(Message::Navigate);
    assert_eq!(v.operation_mode, Mode::Navigate);
    assert_eq!(v.placeholder, "Enter the position to navigate to, in hex");
    v.update(Message::Load);
    assert_eq!(v.operation_mode, Mode::Load);
    assert_eq!(v.placeholder, "Enter the device to load (e.g. C:, sda)");
}

#[test]
fn escape_returns_to_read_mode() {
    let mut v = DiskVisualizer::new(numbered_device(1024));
    v.update(Message::Find);
    v.update(Message::InputChange(String::from("abc")));
    v.update(Message::Esc);
    assert_eq!(v.operation_mode, Mode::Read);
    assert_eq!(v.string_input, "");
}

#[test]
fn navigate_jumps_to_hex_address() {
    let mut v = DiskVisualizer::new(numbered_device(1024));
    v.update(Message::Navigate);
    v.update(Message::InputChange(String::from("1A")));
    v.update(Message::SubmitInput);
    assert_eq!(v.start, 26);
    // 26 + 16 = 42 = 0x2A
    assert_eq!(v.current_page[0].position, "0002A");
}

#[test]
fn navigate_with_bad_input_keeps_state_and_reports() {
    let mut v = DiskVisualizer::new(numbered_device(1024));
    v.update(Message::Navigate);
    v.update(Message::InputChange(String::from("zz")));
    v.update(Message::SubmitInput);
    assert_eq!(v.start, 0);
    assert_eq!(
        v.placeholder,
        "The input could not be parsed as a hex address"
    );
    assert_eq!(v.string_input, "zz");
}

#[test]
fn navigate_past_end_keeps_state() {
    let mut v = DiskVisualizer::new(numbered_device(1024));
    v.update(Message::Navigate);
    v.update(Message::InputChange(String::from("FFFF")));
    v.update(Message::SubmitInput);
    assert_eq!(v.start, 0);
}

#[test]
fn find_with_empty_input_changes_nothing() {
    let mut v = DiskVisualizer::new(numbered_device(32768));
    v.update(Message::Find);
    let page_before: Vec<String> =
        v.current_page.iter().map(|l| l.hex_bytes.clone()).collect();
    v.update(Message::SubmitInput);
    assert_eq!(v.start, 0);
    assert_eq!(v.operation_mode, Mode::Find);
    let page_after: Vec<String> =
        v.current_page.iter().map(|l| l.hex_bytes.clone()).collect();
    assert_eq!(page_before, page_after);
}

#[test]
fn find_submit_jumps_to_aligned_match() {
    let mut d = vec![0u8; 32768];
    d[1024..1029].copy_from_slice(b"HELLO");
    let mut v = DiskVisualizer::new(d);
    v.update(Message::Find);
    v.update(Message::InputChange(String::from("HELLO")));
    v.update(Message::SubmitInput);
    assert_eq!(v.start, 1024);
    // 1024 + 16 = 0x410
    assert_eq!(v.current_page[0].position, "00410");
    assert_eq!(&v.current_page[0].ascii_bytes[0..5], "HELLO");
}

#[test]
fn find_submit_without_match_keeps_state() {
    let mut v = DiskVisualizer::new(numbered_device(32768));
    v.update(Message::Find);
    v.update(Message::InputChange(String::from("not here at all")));
    v.update(Message::SubmitInput);
    assert_eq!(v.start, 0);
}

#[test]
fn find_term_method_reports_aligned_hit() {
    let mut d = vec![0u8; 32768];
    d[20500..20506].copy_from_slice(b"needle");
    let mut v = DiskVisualizer::new(d);
    v.update(Message::Find);
    v.update(Message::InputChange(String::from("needle")));
    let (_, start) = v.find_term().unwrap();
    assert_eq!(start, 20480);
}

#[test]
fn submit_in_read_and_load_modes_changes_nothing() {
    let mut v = DiskVisualizer::new(numbered_device(1024));
    v.update(Message::SubmitInput);
    assert_eq!(v.start, 0);
    assert_eq!(v.operation_mode, Mode::Read);
    v.update(Message::Load);
    v.update(Message::InputChange(String::from("sdb")));
    v.update(Message::SubmitInput);
    assert_eq!(v.start, 0);
    assert_eq!(v.operation_mode, Mode::Load);
}

#[test]
fn load_device_swaps_bytes_and_rewinds() {
    let mut v = DiskVisualizer::new(numbered_device(2048));
    v.update(Message::PageDown);
    assert_eq!(v.start, 512);
    v.load_device(vec![b'B'; 1024]);
    assert_eq!(v.start, 0);
    assert_eq!(v.current_page.len(), 32);
    assert_eq!(v.current_page[0].ascii_bytes, "BBBBBBBBBBBBBBBB");
}

#[test]
fn load_failed_surfaces_message_and_clears_input() {
    let mut v = DiskVisualizer::new(numbered_device(1024));
    v.update(Message::Load);
    v.update(Message::InputChange(String::from("nosuch")));
    v.load_failed();
    assert_eq!(v.placeholder, "The requested device was not found");
    assert_eq!(v.string_input, "");
    assert_eq!(v.start, 0);
}

#[test]
fn input_change_overwrites_verbatim() {
    let mut v = DiskVisualizer::new(numbered_device(1024));
    v.update(Message::InputChange(String::from("one")));
    v.update(Message::InputChange(String::from("two")));
    assert_eq!(v.string_input, "two");
}
