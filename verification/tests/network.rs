use ironfoil_core::network::{
    base_url, deny_response, head_response, is_range_line, keepalive_message,
    parse_range_line, partial_content_response, range_length, route_request,
    urls_with_newlines, DenyReason, HttpMethod, RequestDecision,
};

fn games() -> Vec<String> {
    vec!["/games/Zelda <EU>.nsp".to_string(), "/games/plain.xci".to_string()]
}

#[test]
fn urls_are_percent_encoded() {
    let base = base_url("192.168.1.2");
    assert_eq!(base, b"http://192.168.1.2:8080/");
    let urls = urls_with_newlines(&base, &games());
    assert_eq!(
        String::from_utf8(urls).unwrap(),
        "http://192.168.1.2:8080//games/Zelda%20%3CEU%3E.nsp\nhttp://192.168.1.2:8080//games/plain.xci\n"
    );
}

#[test]
fn non_ascii_and_controls_are_encoded() {
    let paths = vec!["é\t`\"%41".to_string()];
    let urls = urls_with_newlines(b"", &paths);
    assert_eq!(String::from_utf8(urls).unwrap(), "%C3%A9%09%60%22%41\n");
}

#[test]
fn keepalive_prefix_is_big_endian_length() {
    let msg = keepalive_message(b"abc\n");
    assert_eq!(msg, vec![0, 0, 0, 4, b'a', b'b', b'c', b'\n']);
}

#[test]
fn announced_url_is_served() {
    let g = games();
    match route_request("GET /%2Fgames%2FZelda%20%3CEU%3E.nsp HTTP/1.1", &g) {
        RequestDecision::Serve { method, game_path } => {
            assert_eq!(method, HttpMethod::Get);
            assert_eq!(game_path, "/games/Zelda <EU>.nsp");
        }
        other => panic!("unexpected {:?}", other),
    }
    match route_request("HEAD //games/plain.xci HTTP/1.1", &g) {
        RequestDecision::Serve { method, game_path } => {
            assert_eq!(method, HttpMethod::Head);
            assert_eq!(game_path, "/games/plain.xci");
        }
        other => panic!("unexpected {:?}", other),
    }
    match route_request("POST //games/plain.xci HTTP/1.1", &g) {
        RequestDecision::Serve { method, .. } => assert_eq!(method, HttpMethod::Other),
        other => panic!("unexpected {:?}", other),
    }
}

#[test]
fn bad_requests_are_denied() {
    let g = games();
    assert!(matches!(
        route_request("GET //games/other.nsp HTTP/1.1", &g),
        RequestDecision::Deny(DenyReason::NotPresent)
    ));
    assert!(matches!(
        route_request("GET //games/plain.xci HTTP/1.0", &g),
        RequestDecision::Deny(DenyReason::InvalidStartLine)
    ));
    assert!(matches!(
        route_request("GET //games/plain.xci", &g),
        RequestDecision::Deny(DenyReason::InvalidStartLine)
    ));
    assert!(matches!(
        route_request("GET /%FF HTTP/1.1", &g),
        RequestDecision::Deny(DenyReason::InvalidUtf8)
    ));
    assert!(matches!(route_request("GET", &g), RequestDecision::Malformed));
    assert!(matches!(route_request("GET  HTTP/1.1", &g), RequestDecision::Malformed));
    assert!(matches!(route_request("GET /é HTTP/1.1", &g), RequestDecision::Deny(DenyReason::NotPresent)));
    assert!(matches!(route_request("GET é HTTP/1.1", &g), RequestDecision::Malformed));
}

#[test]
fn range_lines() {
    assert!(is_range_line("Range: bytes=0-99"));
    assert!(!is_range_line("Host: x"));
    assert!(!is_range_line("Range:"));
    assert_eq!(parse_range_line("Range: bytes=0-99"), Some((0, 99)));
    assert_eq!(parse_range_line("Range: bytes=+5-18446744073709551615"), Some((5, u64::MAX)));
    assert_eq!(parse_range_line("Range: bytes=1-2-3"), Some((1, 2)));
    assert_eq!(parse_range_line("Range: bytes=5"), None);
    assert_eq!(parse_range_line("Range: bytes=a-2"), None);
    assert_eq!(parse_range_line("Range: bytes=1-18446744073709551616"), None);
    assert_eq!(parse_range_line("Range: x"), None);
}

#[test]
fn range_lengths() {
    assert_eq!(range_length(0, 99), Some(100));
    assert_eq!(range_length(5, 5), Some(1));
    assert_eq!(range_length(6, 5), None);
    assert_eq!(range_length(0, u64::MAX), None);
}

#[test]
fn responses() {
    assert_eq!(deny_response(), b"HTTP/1.1 400 Bad Request\r\n\r\n");
    assert_eq!(
        head_response(1234),
        b"HTTP/1.1 200 OK\r\nAccept-Ranges: bytes\r\nContent-Range: bytes: 0-1234\r\nContent-Length: 1234\r\n\r\n"
    );
    assert_eq!(
        partial_content_response(10, 12, 100, 3, b"xyz"),
        b"HTTP/1.1 206 Partial Content\r\nAccept-Ranges: bytes\r\nContent-Range: bytes: 10-12/100\r\nContent-Length: 3\r\n\r\nxyz"
    );
}

#[test]
fn urlencode_keeps_path_characters() {
    let urls = urls_with_newlines(b"", &vec!["/g/a b.nsp".to_string()]);
    assert_eq!(String::from_utf8(urls).unwrap(), "/g/a%20b.nsp\n");
}

#[test]
fn urlencode_leaves_no_fragment_byte() {
    let mut all = String::new();
    for c in (1u8..0x80).map(char::from) {
        all.push(c);
    }
    all.push_str("ü€😀");
    let urls = urls_with_newlines(b"", &vec![all]);
    let body = &urls[..urls.len() - 1];
    for &b in body {
        assert!(b < 0x80);
        assert!(!(b < 0x20 || b == 0x7f || b == b' ' || b == b'"' || b == b'<' || b == b'>' || b == b'`'));
    }
}

#[test]
fn urlencoded_path_without_percent_is_served_back() {
    let g = vec!["/games/Mario & Luigi ü.nsz".to_string()];
    let urls = urls_with_newlines(b"", &g);
    let target = String::from_utf8(urls[..urls.len() - 1].to_vec()).unwrap();
    match route_request(&format!("GET /{} HTTP/1.1", target), &g) {
        RequestDecision::Serve { game_path, .. } => assert_eq!(game_path, g[0]),
        other => panic!("unexpected {:?}", other),
    }
}
