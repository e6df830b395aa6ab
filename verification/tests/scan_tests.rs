use disk_visualizer::errors::DiskError;
use disk_visualizer::scan::find_term;
use disk_visualizer::sector::read_sector;

fn device_with(len: usize, plant_at: usize, pattern: &[u8]) -> Vec<u8> {
    let mut d = vec![0u8; len];
    d[plant_at..plant_at + pattern.len()].copy_from_slice(pattern);
    d
}

#[test]
fn read_sector_renders_one_window() {
    let device = vec![b'A'; 1024];
    let page = read_sector(&device, 0).unwrap();
    assert_eq!(page.len(), 32);
    assert_eq!(page[0].position, "00010");
    assert_eq!(page[0].ascii_bytes, "AAAAAAAAAAAAAAAA");
}

#[test]
fn read_sector_short_read_near_end() {
    let device = vec![0u8; 1024];
    assert_eq!(read_sector(&device, 600).unwrap_err(), DiskError::ShortRead);
}

#[test]
fn read_sector_last_full_window() {
    let device = vec![0u8; 1024];
    assert!(read_sector(&device, 512).is_ok());
}

#[test]
fn read_sector_device_too_short() {
    let device = vec![0u8; 511];
    assert_eq!(read_sector(&device, 0).unwrap_err(), DiskError::ShortRead);
}

#[test]
fn read_sector_is_deterministic() {
    let mut device = vec![0u8; 2048];
    for (i, b) in device.iter_mut().enumerate() {
        *b = (i % 251) as u8;
    }
    let p1 = read_sector(&device, 512).unwrap();
    let p2 = read_sector(&device, 512).unwrap();
    assert_eq!(p1.len(), p2.len());
    for (l1, l2) in p1.iter().zip(p2.iter()) {
        assert_eq!(l1.position, l2.position);
        assert_eq!(l1.hex_bytes, l2.hex_bytes);
        assert_eq!(l1.ascii_bytes, l2.ascii_bytes);
    }
}

#[test]
fn find_rejects_empty_pattern() {
    let device = vec![0u8; 20480];
    assert_eq!(
        find_term(&device, b"").unwrap_err(),
        DiskError::InvalidPattern
    );
}

#[test]
fn find_rejects_oversize_pattern() {
    let device = vec![0u8; 20480];
    let pattern = vec![b'a'; 10240];
    assert_eq!(
        find_term(&device, &pattern).unwrap_err(),
        DiskError::InvalidPattern
    );
}

#[test]
fn find_reports_no_match() {
    let device = vec![0u8; 20480];
    assert_eq!(find_term(&device, b"XYZ").unwrap_err(), DiskError::NoMatch);
}

#[test]
fn find_hello_at_sector_boundary() {
    // "HELLO " planted at byte 20480: the match aligns to sector 20480
    // and the first rendered line is labelled with its first group end.
    let device = device_with(32768, 20480, b"HELLO ");
    let (page, start) = find_term(&device, b"HELLO").unwrap();
    assert_eq!(start, 20480);
    // 20480 + 16 = 0x5010
    assert_eq!(page[0].position, "05010");
    assert_eq!(&page[0].ascii_bytes[0..5], "HELLO");
}

#[test]
fn find_aligns_down_to_sector_below_plant() {
    // Planted away from chunk and sector boundaries: the returned offset
    // is the sector boundary at or just below the plant.
    let device = device_with(32768, 20500, b"needle");
    let (_, start) = find_term(&device, b"needle").unwrap();
    assert_eq!(start, 20480);
    assert!(start <= 20500);
    assert!(start + 512 > 20500);
}

#[test]
fn find_pattern_straddling_chunk_boundary() {
    // A 6-byte pattern planted at 10237 straddles the 10240 chunk
    // boundary; the overlapped chunk starting at 10235 sees it whole.
    let device = device_with(20480, 10237, b"ABCDEF");
    let (_, start) = find_term(&device, b"ABCDEF").unwrap();
    // 10237 rounds down to 19 * 512 = 9728.
    assert_eq!(start, 9728);
}

#[test]
fn find_short_read_when_window_does_not_fit() {
    // The match is real, but no full window remains at its aligned
    // offset: 20465 aligns down to 19968, and 19968 + 512 > 20477.
    let device = device_with(20477, 20465, b"WORLD");
    assert_eq!(
        find_term(&device, b"WORLD").unwrap_err(),
        DiskError::ShortRead
    );
}

#[test]
fn find_first_occurrence_wins() {
    let mut device = vec![0u8; 32768];
    device[1000..1004].copy_from_slice(b"spot");
    device[5000..5004].copy_from_slice(b"spot");
    let (_, start) = find_term(&device, b"spot").unwrap();
    // 1000 aligns down to 512.
    assert_eq!(start, 512);
}

#[test]
fn find_in_device_shorter_than_one_chunk() {
    // The very first chunk read is already short: the scan terminates
    // without a match even though the bytes are present.
    let device = device_with(10000, 100, b"gone");
    assert_eq!(find_term(&device, b"gone").unwrap_err(), DiskError::NoMatch);
}
