//! Installing over the network: the host announces URLs of its games to the
//! console over a keep-alive connection, then serves byte ranges of them over HTTP.

use vstd::prelude::*;
use vstd::utf8::{decode_utf8, encode_scalar, encode_utf8, has_width_1_encoding, valid_utf8};

use crate::codec::{be32, bytes_equal, push_be32, push_bytes};
use crate::decimal::{decimal, parse_u64, parse_u64_spec, push_decimal};

verus! {

/// The port on which the host serves its games over HTTP.
pub const HOST_HTTP_PORT: u16 = 8080;

/// The port on which the console listens for the list of URLs.
pub const TARGET_PORT: u16 = 2000;

/// Bytes that a URL path must not hold literally: C0 controls, DEL, space, `"`,
/// `<`, `>` and `` ` `` (the URL fragment percent-encode set).
pub open spec fn in_fragment_set(b: u8) -> bool {
    b < 0x20 || b == 0x7f || b == 0x20 || b == 0x22 || b == 0x3c || b == 0x3e || b == 0x60
}

/// Bytes that percent-encoding replaces: the non-ASCII ones and those of the set.
pub open spec fn should_percent_encode(b: u8) -> bool {
    b >= 0x80 || in_fragment_set(b)
}

/// The upper-case hexadecimal digit of `n < 16`.
pub open spec fn hex_digit_upper(n: u8) -> u8 {
    if n < 10 {
        (0x30 + n) as u8
    } else {
        (0x41 + n - 10) as u8
    }
}

/// Percent-encoding with the fragment set: each byte to replace becomes `%`
/// followed by two upper-case hexadecimal digits.
pub open spec fn percent_encoded(bytes: Seq<u8>) -> Seq<u8>
    decreases bytes.len(),
{
    if bytes.len() == 0 {
        Seq::empty()
    } else {
        let b = bytes[0];
        let head = if should_percent_encode(b) {
            seq![0x25u8, hex_digit_upper(b / 16), hex_digit_upper(b % 16)]
        } else {
            seq![b]
        };
        head + percent_encoded(bytes.drop_first())
    }
}

/// Whether `b` is a hexadecimal digit, of either case.
pub open spec fn is_hex_digit(b: u8) -> bool {
    (0x30 <= b <= 0x39) || (0x41 <= b <= 0x46) || (0x61 <= b <= 0x66)
}

/// The value of a hexadecimal digit.
pub open spec fn hex_value(b: u8) -> u8 {
    if b <= 0x39 {
        (b - 0x30) as u8
    } else if b <= 0x46 {
        (b - 0x41 + 10) as u8
    } else {
        (b - 0x61 + 10) as u8
    }
}

/// Percent-decoding: each `%` followed by two hexadecimal digits becomes the
/// byte they name; every other byte stays.
pub open spec fn percent_decoded(bytes: Seq<u8>) -> Seq<u8>
    decreases bytes.len(),
{
    if bytes.len() == 0 {
        Seq::empty()
    } else if bytes[0] == 0x25 && bytes.len() >= 3 && is_hex_digit(bytes[1]) && is_hex_digit(
        bytes[2],
    ) {
        seq![(hex_value(bytes[1]) * 16 + hex_value(bytes[2])) as u8] + percent_decoded(
            bytes.subrange(3, bytes.len() as int),
        )
    } else {
        seq![bytes[0]] + percent_decoded(bytes.drop_first())
    }
}

/// Calls `percent_encoding::utf8_percent_encode` with the fragment set (controls,
/// space, `"`, `<`, `>`, `` ` ``) and collects the result: the UTF-8 bytes of
/// `input`, each non-ASCII byte and each byte of the set written as `%XX`.
#[verifier::external_body]
pub(crate) fn urlencode(input: &str) -> (encoded: String)
    ensures
        encode_utf8(encoded@) == percent_encoded(encode_utf8(input@)),
{
    let set = percent_encoding::CONTROLS.add(b' ').add(b'"').add(b'<').add(b'>').add(b'`');
    percent_encoding::utf8_percent_encode(input, Box::leak(Box::new(set))).to_string()
}

/// Calls `percent_encoding::percent_decode` and then `decode_utf8` on the
/// result: the percent-decoded bytes, if they are UTF-8, as a string.
#[verifier::external_body]
pub(crate) fn percent_decode_utf8(input: &[u8]) -> (decoded: Option<String>)
    ensures
        decoded is Some <==> valid_utf8(percent_decoded(input@)),
        decoded matches Some(s) ==> s@ == decode_utf8(percent_decoded(input@)),
{
    percent_encoding::percent_decode(input).decode_utf8().ok().map(|s| s.into_owned())
}

/// The bytes of `"http://"`.
pub open spec fn http_scheme() -> Seq<u8> {
    seq![0x68u8, 0x74u8, 0x74u8, 0x70u8, 0x3au8, 0x2fu8, 0x2fu8]
}

/// `http://{host}:{HOST_HTTP_PORT}/`.
pub open spec fn base_url_spec(host: Seq<char>) -> Seq<u8> {
    http_scheme() + encode_utf8(host) + seq![0x3au8] + decimal(HOST_HTTP_PORT as nat) + seq![0x2fu8]
}

/// The URL under which the host serves its games, given how it writes its own address.
pub fn base_url(host: &str) -> (url: Vec<u8>)
    ensures
        url@ == base_url_spec(host@),
{
    let mut url: Vec<u8> = Vec::new();
    let scheme: [u8; 7] = [0x68, 0x74, 0x74, 0x70, 0x3a, 0x2f, 0x2f];
    assert(scheme@ =~= http_scheme());
    push_bytes(&mut url, scheme.as_slice());
    push_bytes(&mut url, host.as_bytes());
    url.push(0x3a);
    push_decimal(&mut url, HOST_HTTP_PORT as u64);
    url.push(0x2f);
    url
}

/// The URL of each game, each followed by a newline.
pub open spec fn url_list(base: Seq<u8>, game_paths: Seq<Seq<char>>) -> Seq<u8>
    decreases game_paths.len(),
{
    if game_paths.len() == 0 {
        Seq::empty()
    } else {
        url_list(base, game_paths.drop_last()) + base + percent_encoded(
            encode_utf8(game_paths.last()),
        ) + seq![0x0au8]
    }
}

/// The URLs of the games, each the base URL followed by the percent-encoded
/// path, one per line.
pub fn urls_with_newlines(base_url: &[u8], game_paths: &Vec<String>) -> (urls: Vec<u8>)
    ensures
        urls@ == url_list(base_url@, game_paths.deep_view()),
{
    let mut urls: Vec<u8> = Vec::new();
    let mut i: usize = 0;
    while i < game_paths.len()
        invariant
            i <= game_paths@.len(),
            urls@ == url_list(base_url@, game_paths.deep_view().take(i as int)),
        decreases game_paths@.len() - i,
    {
        let ghost before = game_paths.deep_view().take(i as int);
        let encoded = urlencode(game_paths[i].as_str());
        push_bytes(&mut urls, base_url);
        push_bytes(&mut urls, encoded.as_str().as_bytes());
        urls.push(0x0a);
        proof {
            let after = game_paths.deep_view().take(i + 1);
            assert(after.drop_last() =~= before);
            assert(after.last() == game_paths@[i as int]@);
        }
        i = i + 1;
    }
    assert(game_paths.deep_view().take(game_paths@.len() as int) =~= game_paths.deep_view());
    urls
}

/// The message that starts a network install: the length of the URL list as a
/// big-endian `u32`, then the list.
pub fn keepalive_message(urls: &[u8]) -> (msg: Vec<u8>)
    requires
        urls@.len() <= u32::MAX,
    ensures
        msg@ == be32(urls@.len() as u32) + urls@,
{
    let mut msg: Vec<u8> = Vec::new();
    push_be32(&mut msg, urls.len() as u32);
    push_bytes(&mut msg, urls);
    msg
}

/// The first index at or after `from` where `bytes` holds `b`, or its length.
pub open spec fn find_byte(bytes: Seq<u8>, b: u8, from: int) -> int
    decreases bytes.len() - from,
{
    if from >= bytes.len() {
        bytes.len() as int
    } else if bytes[from] == b {
        from
    } else {
        find_byte(bytes, b, from + 1)
    }
}

/// The first index at or after `from` where `bytes` holds `b`, or its length.
pub fn find_byte_from(bytes: &[u8], b: u8, from: usize) -> (pos: usize)
    requires
        from <= bytes@.len(),
    ensures
        pos == find_byte(bytes@, b, from as int),
    decreases bytes@.len() - from,
{
    if from >= bytes.len() {
        bytes.len()
    } else if bytes[from] == b {
        from
    } else {
        find_byte_from(bytes, b, from + 1)
    }
}

/// Whether `b` continues a multi-byte UTF-8 character.
pub open spec fn is_utf8_continuation(b: u8) -> bool {
    0x80 <= b <= 0xbf
}

/// The HTTP request methods that the host tells apart.
#[derive(Clone, Copy, Debug, PartialEq, Eq, Structural)]
pub enum HttpMethod {
    Get,
    Head,
    Other,
}

/// The bytes of `"GET"`.
pub open spec fn get_method() -> Seq<u8> {
    seq![0x47u8, 0x45u8, 0x54u8]
}

/// The bytes of `"HEAD"`.
pub open spec fn head_method() -> Seq<u8> {
    seq![0x48u8, 0x45u8, 0x41u8, 0x44u8]
}

/// The bytes of `"HTTP/1.1"`.
pub open spec fn http_version() -> Seq<u8> {
    seq![0x48u8, 0x54u8, 0x54u8, 0x50u8, 0x2fu8, 0x31u8, 0x2eu8, 0x31u8]
}

/// The method that the first word of a request line names.
pub open spec fn method_spec(word: Seq<u8>) -> HttpMethod {
    if word == get_method() {
        HttpMethod::Get
    } else if word == head_method() {
        HttpMethod::Head
    } else {
        HttpMethod::Other
    }
}

/// Why a request was answered with 400 Bad Request before its method was looked at.
#[derive(Clone, Copy, Debug, PartialEq, Eq, Structural)]
pub enum DenyReason {
    /// The percent-decoded path is not UTF-8.
    InvalidUtf8,
    /// The request line does not end in `HTTP/1.1`.
    InvalidStartLine,
    /// The path is not one of the host's games.
    NotPresent,
}

/// What the host does with a request line.
#[derive(Debug)]
pub enum RequestDecision {
    /// The line has no request target, or the target does not start with a
    /// one-byte character; the server gives up.
    Malformed,
    /// Answer 400 Bad Request.
    Deny(DenyReason),
    /// The request names one of the games; serve it according to the method
    /// (a method other than GET and HEAD is answered with 400 Bad Request).
    Serve { method: HttpMethod, game_path: String },
}

/// The decision for a request line, in terms of plain values.
pub enum RequestDecisionSpec {
    Malformed,
    Deny(DenyReason),
    Serve { method: HttpMethod, game_path: Seq<char> },
}

/// The decision for a request line `line` (its bytes): the words are separated
/// by spaces; the second is the target, whose first byte is dropped and the rest
/// percent-decoded; the third must be `HTTP/1.1`; the decoded path must be one
/// of `game_paths`.
pub open spec fn route_spec(line: Seq<u8>, game_paths: Seq<Seq<char>>) -> RequestDecisionSpec {
    let s0 = find_byte(line, 0x20, 0);
    if s0 >= line.len() {
        RequestDecisionSpec::Malformed
    } else {
        let s1 = find_byte(line, 0x20, s0 + 1);
        let target = line.subrange(s0 + 1, s1);
        if target.len() == 0 || (target.len() > 1 && is_utf8_continuation(target[1])) {
            RequestDecisionSpec::Malformed
        } else {
            let decoded = percent_decoded(target.subrange(1, target.len() as int));
            if !valid_utf8(decoded) {
                RequestDecisionSpec::Deny(DenyReason::InvalidUtf8)
            } else if !(s1 < line.len() && line.subrange(s1 + 1, find_byte(line, 0x20, s1 + 1))
                == http_version()) {
                RequestDecisionSpec::Deny(DenyReason::InvalidStartLine)
            } else if !(exists|i: int|
                0 <= i < game_paths.len() && game_paths[i] == decode_utf8(decoded)) {
                RequestDecisionSpec::Deny(DenyReason::NotPresent)
            } else {
                RequestDecisionSpec::Serve {
                    method: method_spec(line.subrange(0, s0)),
                    game_path: decode_utf8(decoded),
                }
            }
        }
    }
}

/// Whether an executable decision is the one described.
pub open spec fn decision_matches(d: RequestDecision, s: RequestDecisionSpec) -> bool {
    match s {
        RequestDecisionSpec::Malformed => d is Malformed,
        RequestDecisionSpec::Deny(r) => d matches RequestDecision::Deny(r2) && r2 == r,
        RequestDecisionSpec::Serve { method, game_path } => d matches RequestDecision::Serve {
            method: m,
            game_path: p,
        } && m == method && p@ == game_path,
    }
}

/// Decides what to do with the first line of an HTTP request.
pub fn route_request(start_line: &str, game_paths: &Vec<String>) -> (d: RequestDecision)
    ensures
        decision_matches(d, route_spec(encode_utf8(start_line@), game_paths.deep_view())),
{
    let line = start_line.as_bytes();
    let ghost paths = game_paths.deep_view();
    let s0 = find_byte_from(line, 0x20, 0);
    if s0 >= line.len() {
        return RequestDecision::Malformed;
    }
    let s1 = find_byte_from(line, 0x20, s0 + 1);
    proof {
        lemma_find_byte_bounds(line@, 0x20, s0 + 1);
    }
    let target = &line[s0 + 1..s1];
    if target.len() == 0 || (target.len() > 1 && 0x80 <= target[1] && target[1] <= 0xbf) {
        return RequestDecision::Malformed;
    }
    let decoded = match percent_decode_utf8(&target[1..target.len()]) {
        None => return RequestDecision::Deny(DenyReason::InvalidUtf8),
        Some(s) => s,
    };
    let version: [u8; 8] = [0x48, 0x54, 0x54, 0x50, 0x2f, 0x31, 0x2e, 0x31];
    assert(version@ =~= http_version());
    if s1 >= line.len() {
        return RequestDecision::Deny(DenyReason::InvalidStartLine);
    }
    let s2 = find_byte_from(line, 0x20, s1 + 1);
    proof {
        lemma_find_byte_bounds(line@, 0x20, s1 + 1);
    }
    if !bytes_equal(&line[s1 + 1..s2], version.as_slice()) {
        return RequestDecision::Deny(DenyReason::InvalidStartLine);
    }
    let found = contains_path(game_paths, &decoded);
    if !found {
        return RequestDecision::Deny(DenyReason::NotPresent);
    }
    let get: [u8; 3] = [0x47, 0x45, 0x54];
    let head: [u8; 4] = [0x48, 0x45, 0x41, 0x44];
    assert(get@ =~= get_method());
    assert(head@ =~= head_method());
    let word = &line[0..s0];
    let method = if bytes_equal(word, get.as_slice()) {
        HttpMethod::Get
    } else if bytes_equal(word, head.as_slice()) {
        HttpMethod::Head
    } else {
        HttpMethod::Other
    };
    RequestDecision::Serve { method, game_path: decoded }
}

/// Whether one of `game_paths` is exactly `path`.
pub fn contains_path(game_paths: &Vec<String>, path: &String) -> (found: bool)
    ensures
        found == exists|i: int| 0 <= i < game_paths@.len() && game_paths.deep_view()[i] == path@,
{
    let ghost paths = game_paths.deep_view();
    let mut i: usize = 0;
    while i < game_paths.len()
        invariant
            i <= game_paths@.len(),
            paths == game_paths.deep_view(),
            forall|j: int| 0 <= j < i ==> paths[j] != path@,
        decreases game_paths@.len() - i,
    {
        assert(paths[i as int] == game_paths@[i as int]@);
        if game_paths[i] == *path {
            return true;
        }
        i = i + 1;
    }
    false
}

/// The bytes of `"Range: "`.
pub open spec fn range_prefix() -> Seq<u8> {
    seq![0x52u8, 0x61u8, 0x6eu8, 0x67u8, 0x65u8, 0x3au8, 0x20u8]
}

/// Whether a header line is the `Range` header: it starts with `"Range: "`.
pub open spec fn is_range_line_spec(line: Seq<u8>) -> bool {
    line.len() >= 7 && line.subrange(0, 7) == range_prefix()
}

/// Whether a header line is the `Range` header.
pub fn is_range_line(line: &str) -> (res: bool)
    ensures
        res == is_range_line_spec(encode_utf8(line@)),
{
    let b = line.as_bytes();
    let prefix: [u8; 7] = [0x52, 0x61, 0x6e, 0x67, 0x65, 0x3a, 0x20];
    assert(prefix@ =~= range_prefix());
    b.len() >= 7 && bytes_equal(&b[0..7], prefix.as_slice())
}

/// The two numbers of a `Range` header line: what follows its first 13 bytes
/// (`"Range: bytes="`) is split at `-`; the first two pieces must parse as
/// `u64`s. `None` where the line is shorter than 13 bytes, byte 13 is inside a
/// character, there is no `-`, or a piece does not parse.
pub open spec fn range_spec(line: Seq<u8>) -> Option<(u64, u64)> {
    if line.len() < 13 || (line.len() > 13 && is_utf8_continuation(line[13])) {
        None
    } else {
        let rest = line.subrange(13, line.len() as int);
        let d0 = find_byte(rest, 0x2d, 0);
        if d0 >= rest.len() {
            None
        } else {
            let d1 = find_byte(rest, 0x2d, d0 + 1);
            match (
                parse_u64_spec(rest.subrange(0, d0)),
                parse_u64_spec(rest.subrange(d0 + 1, d1)),
            ) {
                (Some(a), Some(b)) => Some((a, b)),
                _ => None,
            }
        }
    }
}

/// Reads the first and last byte of the range that a `Range` header asks for.
pub fn parse_range_line(range_line: &str) -> (range: Option<(u64, u64)>)
    ensures
        range == range_spec(encode_utf8(range_line@)),
{
    let line = range_line.as_bytes();
    if line.len() < 13 || (line.len() > 13 && 0x80 <= line[13] && line[13] <= 0xbf) {
        return None;
    }
    let rest = &line[13..line.len()];
    let d0 = find_byte_from(rest, 0x2d, 0);
    if d0 >= rest.len() {
        return None;
    }
    let d1 = find_byte_from(rest, 0x2d, d0 + 1);
    proof {
        lemma_find_byte_bounds(rest@, 0x2d, 0);
        lemma_find_byte_bounds(rest@, 0x2d, d0 + 1);
    }
    match (parse_u64(&rest[0..d0]), parse_u64(&rest[d0 + 1..d1])) {
        (Some(a), Some(b)) => Some((a, b)),
        _ => None,
    }
}

/// The number of bytes from `range_start` to `range_end`, both included; `None`
/// where that is not a positive `u64`.
pub fn range_length(range_start: u64, range_end: u64) -> (len: Option<u64>)
    ensures
        len matches Some(n) ==> n == range_end - range_start + 1,
        len is None <==> !(range_start <= range_end && range_end - range_start < u64::MAX),
{
    if range_end < range_start || range_end - range_start == u64::MAX {
        None
    } else {
        Some(range_end - range_start + 1)
    }
}

/// The answer to a bad request.
pub open spec fn bad_request_response() -> Seq<u8> {
    encode_utf8("HTTP/1.1 400 Bad Request\r\n\r\n"@)
}

/// The answer to a bad request: `HTTP/1.1 400 Bad Request`.
pub fn deny_response() -> (response: Vec<u8>)
    ensures
        response@ == bad_request_response(),
{
    let mut out: Vec<u8> = Vec::new();
    push_bytes(&mut out, "HTTP/1.1 400 Bad Request\r\n\r\n".as_bytes());
    out
}

/// The head of the answer to a GET for bytes `range_start..=range_end` of a
/// game of `game_size` bytes.
pub open spec fn partial_content_head(
    range_start: u64,
    range_end: u64,
    game_size: u64,
    range_length: u64,
) -> Seq<u8> {
    encode_utf8(
        "HTTP/1.1 206 Partial Content\r\nAccept-Ranges: bytes\r\nContent-Range: bytes: "@,
    ) + decimal(range_start as nat) + seq![0x2du8] + decimal(range_end as nat) + seq![0x2fu8]
        + decimal(game_size as nat) + encode_utf8("\r\nContent-Length: "@) + decimal(
        range_length as nat,
    ) + encode_utf8("\r\n\r\n"@)
}

/// The answer to a GET: the `206 Partial Content` head, then the bytes of the range.
pub fn partial_content_response(
    range_start: u64,
    range_end: u64,
    game_size: u64,
    range_length: u64,
    body: &[u8],
) -> (response: Vec<u8>)
    ensures
        response@ == partial_content_head(range_start, range_end, game_size, range_length)
            + body@,
{
    let mut out: Vec<u8> = Vec::new();
    push_bytes(
        &mut out,
        "HTTP/1.1 206 Partial Content\r\nAccept-Ranges: bytes\r\nContent-Range: bytes: ".as_bytes(),
    );
    push_decimal(&mut out, range_start);
    out.push(0x2d);
    push_decimal(&mut out, range_end);
    out.push(0x2f);
    push_decimal(&mut out, game_size);
    push_bytes(&mut out, "\r\nContent-Length: ".as_bytes());
    push_decimal(&mut out, range_length);
    push_bytes(&mut out, "\r\n\r\n".as_bytes());
    push_bytes(&mut out, body);
    out
}

/// The answer to a HEAD for a game of `game_size` bytes.
pub open spec fn head_response_spec(game_size: u64) -> Seq<u8> {
    encode_utf8("HTTP/1.1 200 OK\r\nAccept-Ranges: bytes\r\nContent-Range: bytes: 0-"@)
        + decimal(game_size as nat) + encode_utf8("\r\nContent-Length: "@) + decimal(
        game_size as nat,
    ) + encode_utf8("\r\n\r\n"@)
}

/// The answer to a HEAD: `200 OK` with the size of the game.
pub fn head_response(game_size: u64) -> (response: Vec<u8>)
    ensures
        response@ == head_response_spec(game_size),
{
    let mut out: Vec<u8> = Vec::new();
    push_bytes(
        &mut out,
        "HTTP/1.1 200 OK\r\nAccept-Ranges: bytes\r\nContent-Range: bytes: 0-".as_bytes(),
    );
    push_decimal(&mut out, game_size);
    push_bytes(&mut out, "\r\nContent-Length: ".as_bytes());
    push_decimal(&mut out, game_size);
    push_bytes(&mut out, "\r\n\r\n".as_bytes());
    out
}

/// `find_byte` stays between where it starts and the end.
pub proof fn lemma_find_byte_bounds(bytes: Seq<u8>, b: u8, from: int)
    requires
        0 <= from <= bytes.len(),
    ensures
        from <= find_byte(bytes, b, from) <= bytes.len(),
        find_byte(bytes, b, from) < bytes.len() ==> bytes[find_byte(bytes, b, from)] == b,
        forall|k: int| from <= k < find_byte(bytes, b, from) ==> bytes[k] != b,
    decreases bytes.len() - from,
{
    if from < bytes.len() && bytes[from] != b {
        lemma_find_byte_bounds(bytes, b, from + 1);
    }
}

/// `find_byte` finds the first `b` at or after `from`.
pub proof fn lemma_find_byte_exact(bytes: Seq<u8>, b: u8, from: int, j: int)
    requires
        0 <= from <= j <= bytes.len(),
        forall|k: int| from <= k < j ==> bytes[k] != b,
        j == bytes.len() || bytes[j] == b,
    ensures
        find_byte(bytes, b, from) == j,
    decreases j - from,
{
    if from < j {
        lemma_find_byte_exact(bytes, b, from + 1, j);
    }
}

/// No `%` in `bytes` is followed by two hexadecimal digits, so that nothing in
/// it reads as an escape.
pub open spec fn has_no_escape(bytes: Seq<u8>) -> bool {
    forall|i: int|
        0 <= i && i + 2 < bytes.len() && #[trigger] bytes[i] == 0x25 ==> !(is_hex_digit(
            bytes[i + 1],
        ) && is_hex_digit(bytes[i + 2]))
}

proof fn lemma_hex_digit_roundtrip(b: u8)
    ensures
        is_hex_digit(hex_digit_upper(b / 16)),
        is_hex_digit(hex_digit_upper(b % 16)),
        (hex_value(hex_digit_upper(b / 16)) * 16 + hex_value(hex_digit_upper(b % 16))) as u8 == b,
{
}

/// Every byte of a percent-encoding is ASCII and outside the fragment set: no
/// control byte, space, `"`, `<`, `>` or `` ` `` is left in it.
pub proof fn lemma_percent_encoded_bytes(bytes: Seq<u8>)
    ensures
        forall|i: int|
            0 <= i < percent_encoded(bytes).len() ==> #[trigger] percent_encoded(bytes)[i] < 0x80
                && !in_fragment_set(percent_encoded(bytes)[i]),
        bytes.len() > 0 ==> percent_encoded(bytes).len() > 0 && percent_encoded(bytes)[0] == (if should_percent_encode(bytes[0]) {
            0x25u8
        } else {
            bytes[0]
        }),
    decreases bytes.len(),
{
    if bytes.len() > 0 {
        let b = bytes[0];
        lemma_percent_encoded_bytes(bytes.drop_first());
        lemma_hex_digit_roundtrip(b);
        let head = if should_percent_encode(b) {
            seq![0x25u8, hex_digit_upper(b / 16), hex_digit_upper(b % 16)]
        } else {
            seq![b]
        };
        let rest = percent_encoded(bytes.drop_first());
        assert(percent_encoded(bytes) == head + rest);
        assert forall|i: int| 0 <= i < percent_encoded(bytes).len() implies #[trigger] percent_encoded(bytes)[i]
            < 0x80 && !in_fragment_set(percent_encoded(bytes)[i]) by {
            if i >= head.len() {
                assert(percent_encoded(bytes)[i] == rest[i - head.len()]);
            }
        }
    }
}

/// Decoding what was encoded gives back the bytes, as long as no `%` in them
/// is followed by two hexadecimal digits.
pub proof fn lemma_percent_roundtrip(bytes: Seq<u8>)
    requires
        has_no_escape(bytes),
    ensures
        percent_decoded(percent_encoded(bytes)) == bytes,
    decreases bytes.len(),
{
    if bytes.len() > 0 {
        let b = bytes[0];
        let tail = bytes.drop_first();
        assert(has_no_escape(tail)) by {
            assert forall|i: int| 0 <= i && i + 2 < tail.len() && #[trigger] tail[i] == 0x25 implies !(
            is_hex_digit(tail[i + 1]) && is_hex_digit(tail[i + 2])) by {
                assert(bytes[i + 1] == tail[i]);
            }
        }
        lemma_percent_roundtrip(tail);
        lemma_hex_digit_roundtrip(b);
        lemma_percent_encoded_bytes(tail);
        let e = percent_encoded(bytes);
        let et = percent_encoded(tail);
        if should_percent_encode(b) {
            let head = seq![0x25u8, hex_digit_upper(b / 16), hex_digit_upper(b % 16)];
            assert(e == head + et);
            assert(e.subrange(3, e.len() as int) =~= et);
            assert(percent_decoded(e) == seq![b] + percent_decoded(et));
        } else {
            assert(e == seq![b] + et);
            assert(e.drop_first() =~= et);
            if b == 0x25 {
                if e.len() >= 3 && is_hex_digit(e[1]) && is_hex_digit(e[2]) {
                    // e[1] is the first byte of the encoded tail: a hex digit is
                    // never encoded, so it is tail[0] itself.
                    assert(e[1] == et[0]);
                    assert(et[0] == tail[0]);
                    let tt = tail.drop_first();
                    lemma_percent_encoded_bytes(tt);
                    assert(et == seq![tail[0]] + percent_encoded(tt));
                    assert(e[2] == et[1]);
                    assert(et[1] == percent_encoded(tt)[0]);
                    assert(percent_encoded(tt)[0] == tt[0]);
                    assert(bytes[1] == tail[0] && bytes[2] == tt[0]);
                    assert(false);
                }
            }
            assert(percent_decoded(e) == seq![b] + percent_decoded(et));
        }
        assert(seq![b] + tail =~= bytes);
    }
}

/// The request line with which a console asks, with the method word
/// `method`, for the URL of `path`.
pub open spec fn request_line(method: Seq<u8>, path: Seq<char>) -> Seq<u8> {
    method + seq![0x20u8, 0x2fu8] + percent_encoded(encode_utf8(path)) + seq![0x20u8]
        + http_version()
}

/// The request line with which a console asks for the URL of `path`.
pub open spec fn get_request_line(path: Seq<char>) -> Seq<u8> {
    request_line(get_method(), path)
}

/// A request for the URL that the host announced for one of its games is
/// served that game, whatever the method word (a word without spaces), as
/// long as no `%` in the game's path is followed by two hexadecimal digits:
/// the target is decoded the same way for every method.
pub proof fn lemma_announced_url_is_served_to(method: Seq<u8>, game_paths: Seq<Seq<char>>, k: int)
    requires
        method.len() > 0,
        forall|i: int| 0 <= i < method.len() ==> method[i] != 0x20u8,
        0 <= k < game_paths.len(),
        has_no_escape(encode_utf8(game_paths[k])),
    ensures
        route_spec(request_line(method, game_paths[k]), game_paths) == (RequestDecisionSpec::Serve {
            method: method_spec(method),
            game_path: game_paths[k],
        }),
{
    let path = game_paths[k];
    let raw = encode_utf8(path);
    let enc = percent_encoded(raw);
    let line = request_line(method, path);
    let m = method.len() as int;
    lemma_percent_encoded_bytes(raw);
    lemma_percent_roundtrip(raw);
    vstd::utf8::encode_utf8_valid_utf8(path);
    vstd::utf8::encode_utf8_decode_utf8(path);
    let n = enc.len() as int;
    assert(line.len() == m + 2 + n + 1 + 8);
    assert(line.subrange(0, m) =~= method);
    assert forall|i: int| 0 <= i < m implies line[i] != 0x20u8 by {
        assert(line[i] == method[i]);
    }
    assert(line[m] == 0x20u8);
    assert forall|i: int| 0 <= i < n implies line[m + 2 + i] == #[trigger] enc[i] by {}
    lemma_find_byte_exact(line, 0x20, 0, m);
    assert forall|i: int| m + 1 <= i < m + 2 + n implies line[i] != 0x20 by {
        if i >= m + 2 {
            assert(line[i] == enc[i - m - 2]);
        }
    }
    assert(line[m + 2 + n] == 0x20u8);
    lemma_find_byte_exact(line, 0x20, m + 1, m + 2 + n);
    let target = line.subrange(m + 1, m + 2 + n);
    assert(target.subrange(1, target.len() as int) =~= enc);
    if target.len() > 1 {
        assert(target[1] == enc[0]);
    }
    assert forall|i: int| m + 3 + n <= i < line.len() implies line[i] != 0x20 by {
        assert(line[i] == http_version()[i - (m + 3 + n)]);
    }
    lemma_find_byte_exact(line, 0x20, m + 3 + n, line.len() as int);
    assert(line.subrange(m + 3 + n, line.len() as int) =~= http_version());
    assert(game_paths[k] == decode_utf8(percent_decoded(enc)));
}

/// A GET for the URL that the host announced for one of its games is served
/// that game, as long as no `%` in the game's path is followed by two
/// hexadecimal digits.
pub proof fn lemma_announced_url_is_served(game_paths: Seq<Seq<char>>, k: int)
    requires
        0 <= k < game_paths.len(),
        has_no_escape(encode_utf8(game_paths[k])),
    ensures
        route_spec(get_request_line(game_paths[k]), game_paths) == (RequestDecisionSpec::Serve {
            method: HttpMethod::Get,
            game_path: game_paths[k],
        }),
{
    lemma_announced_url_is_served_to(get_method(), game_paths, k);
}

/// A HEAD for the URL that the host announced for one of its games is served
/// that game (so answered with its size), as long as no `%` in the game's path
/// is followed by two hexadecimal digits.
pub proof fn lemma_announced_url_is_served_to_head(game_paths: Seq<Seq<char>>, k: int)
    requires
        0 <= k < game_paths.len(),
        has_no_escape(encode_utf8(game_paths[k])),
    ensures
        route_spec(request_line(head_method(), game_paths[k]), game_paths) == (
        RequestDecisionSpec::Serve { method: HttpMethod::Head, game_path: game_paths[k] }),
{
    assert(get_method() != head_method()) by {
        assert(get_method().len() != head_method().len());
    }
    lemma_announced_url_is_served_to(head_method(), game_paths, k);
}


/// Percent-encoding works byte by byte: the encoding of two byte strings one
/// after the other is their encodings one after the other.
pub proof fn lemma_percent_encoded_concat(a: Seq<u8>, b: Seq<u8>)
    ensures
        percent_encoded(a + b) == percent_encoded(a) + percent_encoded(b),
    decreases a.len(),
{
    if a.len() == 0 {
        assert(a + b =~= b);
    } else {
        lemma_percent_encoded_concat(a.drop_first(), b);
        assert((a + b).drop_first() =~= a.drop_first() + b);
        assert((a + b)[0] == a[0]);
    }
}

/// Bytes that need no encoding are kept as they are: ASCII characters outside
/// the fragment set, such as `/` and `.`, stay literal.
pub proof fn lemma_percent_encoded_keeps(bytes: Seq<u8>)
    requires
        forall|i: int| 0 <= i < bytes.len() ==> !should_percent_encode(#[trigger] bytes[i]),
    ensures
        percent_encoded(bytes) == bytes,
    decreases bytes.len(),
{
    if bytes.len() > 0 {
        let tail = bytes.drop_first();
        assert forall|i: int| 0 <= i < tail.len() implies !should_percent_encode(#[trigger] tail[i]) by {
            assert(tail[i] == bytes[i + 1]);
        }
        lemma_percent_encoded_keeps(tail);
        assert(!should_percent_encode(bytes[0]));
        assert(seq![bytes[0]] + tail =~= bytes);
    }
}

/// A character whose UTF-8 encoding holds the byte of `%` is `%` itself: every
/// byte of a longer encoding has its high bit set.
proof fn lemma_encode_scalar_percent(c: char)
    ensures
        forall|i: int|
            0 <= i < encode_scalar(c as u32).len() && #[trigger] encode_scalar(c as u32)[i] == 0x25u8
                ==> c == '%',
{
    let v = c as u32;
    vstd::utf8::char_is_scalar(c);
    if has_width_1_encoding(v) {
        assert(((v & 0x7Fu32) as u8) == 0x25u8 ==> v == 0x25u32) by (bit_vector)
            requires
                v <= 0x7Fu32,
        ;
        if v == 0x25u32 {
            vstd::utf8::char_u32_cast(c, v);
            vstd::utf8::char_u32_cast('%', v);
        }
    } else {
        assert((0xC0u8 | (((v >> 6u32) & 0x1Fu32) as u8)) != 0x25u8) by (bit_vector);
        assert((0xE0u8 | (((v >> 12u32) & 0x0Fu32) as u8)) != 0x25u8) by (bit_vector);
        assert((0xF0u8 | (((v >> 18u32) & 0x7u32) as u8)) != 0x25u8) by (bit_vector);
        assert((0x80u8 | ((v & 0x3Fu32) as u8)) != 0x25u8) by (bit_vector);
        assert((0x80u8 | (((v >> 6u32) & 0x3Fu32) as u8)) != 0x25u8) by (bit_vector);
        assert((0x80u8 | (((v >> 12u32) & 0x3Fu32) as u8)) != 0x25u8) by (bit_vector);
    }
}

/// The UTF-8 encoding of text without a `%` holds no byte of `%`, so nothing
/// in it reads as an escape.
pub proof fn lemma_no_percent_no_escape(text: Seq<char>)
    requires
        !text.contains('%'),
    ensures
        forall|i: int| 0 <= i < encode_utf8(text).len() ==> #[trigger] encode_utf8(text)[i] != 0x25u8,
        has_no_escape(encode_utf8(text)),
    decreases text.len(),
{
    if text.len() > 0 {
        let rest = text.drop_first();
        assert(!rest.contains('%')) by {
            if rest.contains('%') {
                let k = choose|k: int| 0 <= k < rest.len() && rest[k] == '%';
                assert(text[k + 1] == '%');
            }
        }
        lemma_no_percent_no_escape(rest);
        lemma_encode_scalar_percent(text[0]);
        assert(text[0] != '%');
        let head = encode_scalar(text[0] as u32);
        let bytes = encode_utf8(text);
        assert(bytes == head + encode_utf8(rest));
        assert forall|i: int| 0 <= i < bytes.len() implies #[trigger] bytes[i] != 0x25u8 by {
            if i < head.len() {
                assert(bytes[i] == head[i]);
            } else {
                assert(bytes[i] == encode_utf8(rest)[i - head.len()]);
            }
        }
    }
}

/// A URL-encoded path without a `%` decodes back to the path: its percent-
/// decoding is UTF-8, and that text is the path.
pub proof fn lemma_urlencode_roundtrip(path: Seq<char>)
    requires
        !path.contains('%'),
    ensures
        valid_utf8(percent_decoded(percent_encoded(encode_utf8(path)))),
        decode_utf8(percent_decoded(percent_encoded(encode_utf8(path)))) == path,
{
    lemma_no_percent_no_escape(path);
    lemma_percent_roundtrip(encode_utf8(path));
    vstd::utf8::encode_utf8_valid_utf8(path);
    vstd::utf8::encode_utf8_decode_utf8(path);
}


/// A GET for the URL that the host announced for one of its games is served
/// that game whenever the game's path holds no `%`.
pub proof fn lemma_announced_url_without_percent_is_served(game_paths: Seq<Seq<char>>, k: int)
    requires
        0 <= k < game_paths.len(),
        !game_paths[k].contains('%'),
    ensures
        route_spec(get_request_line(game_paths[k]), game_paths) == (RequestDecisionSpec::Serve {
            method: HttpMethod::Get,
            game_path: game_paths[k],
        }),
{
    lemma_no_percent_no_escape(game_paths[k]);
    lemma_announced_url_is_served(game_paths, k);
}

} // verus!
