use ironfoil_core::tinfoil::{
    initiate_transfer, is_announced_game, parse_command_header, parse_file_range_header,
    resolve_requested_path, reuse_cached_file, send_response_header, RangeTransfer,
    RequestedPathError, TinfoilCommand, SEND_BUFFER_LEN,
};

fn command_header(id: u32) -> Vec<u8> {
    let mut h = b"TUC0".to_vec();
    h.extend_from_slice(&[0, 0, 0, 0]);
    h.extend_from_slice(&id.to_le_bytes());
    h.resize(32, 0);
    h
}

#[test]
fn response_header_layout() {
    let mut out = Vec::new();
    send_response_header(&mut out, 0x0102_0304_0506);
    assert_eq!(out.len(), 32);
    assert_eq!(&out[..4], b"TUC0");
    assert_eq!(&out[4..8], &[0, 0, 0, 0]);
    assert_eq!(&out[8..12], &[1, 0, 0, 0]);
    assert_eq!(&out[12..20], &0x0102_0304_0506u64.to_le_bytes());
    assert_eq!(&out[20..], &[0u8; 12]);
    // It reads as a file-range command header.
    assert_eq!(parse_command_header(&out), TinfoilCommand::FileRange);
}

#[test]
fn command_headers() {
    assert_eq!(parse_command_header(&command_header(0)), TinfoilCommand::Exit);
    assert_eq!(parse_command_header(&command_header(1)), TinfoilCommand::FileRange);
    assert_eq!(parse_command_header(&command_header(2)), TinfoilCommand::Invalid);
    let mut bad = command_header(1);
    bad[3] = b'1';
    assert_eq!(parse_command_header(&bad), TinfoilCommand::BadMagic);
}

#[test]
fn file_range_header_fields() {
    let mut h = Vec::new();
    h.extend_from_slice(&100u64.to_le_bytes());
    h.extend_from_slice(&0x1_0000_0000u64.to_le_bytes());
    h.extend_from_slice(&9u64.to_le_bytes());
    h.resize(32, 0);
    let f = parse_file_range_header(&h);
    assert_eq!(f.range_size, 100);
    assert_eq!(f.range_offset, 0x1_0000_0000);
    assert_eq!(f.game_path_utf8_len, 9);
}

#[test]
fn requested_paths() {
    let games = vec!["/games/a.nsp".to_string(), "/games/b.xci".to_string()];
    assert_eq!(resolve_requested_path(b"/games/b.xci", &games), Ok("/games/b.xci".to_string()));
    // Paths are compared as paths: a repeated separator does not matter.
    assert_eq!(resolve_requested_path(b"/games//a.nsp", &games), Ok("/games//a.nsp".to_string()));
    assert_eq!(resolve_requested_path(b"/games/c.nsp", &games), Err(RequestedPathError::NotPresent));
    assert_eq!(resolve_requested_path(&[0xff, 0xfe], &games), Err(RequestedPathError::InvalidUtf8));
    assert!(is_announced_game("/games/a.nsp", &games));
    assert!(!is_announced_game("/games/a.ns", &games));
}

#[test]
fn cached_file_reuse() {
    assert!(reuse_cached_file(&Some("/g/a.nsp".to_string()), "/g/a.nsp"));
    assert!(!reuse_cached_file(&Some("/g/a.nsp".to_string()), "/g/b.nsp"));
    assert!(!reuse_cached_file(&None, "/g/a.nsp"));
}

#[test]
fn range_goes_out_in_pieces() {
    assert_eq!(SEND_BUFFER_LEN, 22);
    let mut t = RangeTransfer::new(1000, 50, 7);
    let mut pieces = Vec::new();
    while let Some(n) = t.next_chunk() {
        pieces.push(n);
    }
    assert_eq!(pieces, vec![22, 22, 6]);
    assert_eq!(t.remaining_bytes(), 0);
    assert_eq!(t.current_file_offset_bytes(), 1050);
    assert_eq!(t.all_files_offset_bytes(), 57);
    assert_eq!(t.next_chunk(), None);
}

#[test]
fn empty_range() {
    let mut t = RangeTransfer::new(5, 0, 0);
    assert_eq!(t.next_chunk(), None);
    assert_eq!(t.current_file_offset_bytes(), 5);
}

#[test]
fn tinfoil_list_announcement() {
    let paths = vec!["a.nsp".to_string()];
    let bytes = initiate_transfer(6, &paths);
    assert_eq!(&bytes[..4], b"TUL0");
    assert_eq!(&bytes[4..8], &6u32.to_le_bytes());
    assert_eq!(&bytes[8..16], &[0u8; 8]);
    assert_eq!(&bytes[16..], b"a.nsp\n");
}

#[test]
fn range_offsets_stop_at_u64_max() {
    let mut t = RangeTransfer::new(u64::MAX - 5, 30, u64::MAX - 1);
    assert_eq!(t.next_chunk(), Some(22));
    assert_eq!(t.current_file_offset_bytes(), u64::MAX);
    assert_eq!(t.all_files_offset_bytes(), u64::MAX);
    assert_eq!(t.remaining_bytes(), 8);
    assert_eq!(t.next_chunk(), Some(8));
    assert_eq!(t.next_chunk(), None);
}

#[test]
fn every_announced_path_is_accepted_verbatim() {
    let games = vec![
        "/games/Zelda <EU>.nsp".to_string(),
        "relative/ü b.xci".to_string(),
        "C:\\games\\c.nsz".to_string(),
        "/trailing/".to_string(),
    ];
    for g in &games {
        assert_eq!(resolve_requested_path(g.as_bytes(), &games), Ok(g.clone()));
        assert!(reuse_cached_file(&Some(g.clone()), g));
    }
}
