//! The TinFoil USB install protocol (spoken by Awoo Installer, CyberFoil and others).
//!
//! The host announces its games with `"TUL0"`, the length of the list, eight
//! zero bytes and the list itself. The console then sends 32-byte command
//! headers starting with `"TUC0"`; a file-range command is followed by a
//! 32-byte range header and the requested path, and answered with a 32-byte
//! response header and the bytes of the range.

use vstd::prelude::*;
use vstd::utf8::{decode_utf8, encode_utf8, valid_utf8};

use crate::codec::{le32, le32_at, le64, le64_at, push_bytes, push_le32, push_le64, read_le32, read_le64};
use crate::listing::{listing, paths_listing};
use crate::paths::{path_matches, paths_equal};

verus! {

/// Length of a command header, a range header and a response header.
pub const HEADER_SIZE: usize = 0x20;

/// The bytes of `"TUC0"`, which start every command and response header.
pub open spec fn command_magic() -> Seq<u8> {
    seq![0x54u8, 0x55u8, 0x43u8, 0x30u8]
}

/// The bytes of `"TUL0"`, which start the list of games.
pub open spec fn list_magic() -> Seq<u8> {
    seq![0x54u8, 0x55u8, 0x4cu8, 0x30u8]
}

/// Command direction of a response.
pub const COMMAND_DIRECTION_RESPONSE: u32 = 0;

/// Command id that ends the install.
pub const COMMAND_EXIT: u32 = 0;

/// Command id that requests a range of a file.
pub const COMMAND_FILE_RANGE: u32 = 1;

/// The size of the buffer through which a range is sent; the range goes out in
/// pieces of at most this many bytes. `2 ^ 20` is a bitwise XOR, so the pieces
/// are 22 bytes long (not a mebibyte); that is the size the transfer uses.
pub const SEND_BUFFER_LEN: usize = 2 ^ 20;

/// The response header for a range of `range_size` bytes.
pub open spec fn response_header(range_size: u64) -> Seq<u8> {
    command_magic() + le32(COMMAND_DIRECTION_RESPONSE) + le32(COMMAND_FILE_RANGE) + le64(
        range_size,
    ) + Seq::new(12, |i: int| 0u8)
}

/// Appends the header that answers a file-range command for `range_size` bytes.
pub fn send_response_header(usb_writer: &mut Vec<u8>, range_size: u64)
    ensures
        final(usb_writer)@ == old(usb_writer)@ + response_header(range_size),
{
    let ghost start = usb_writer@;
    usb_writer.push(0x54u8);
    usb_writer.push(0x55u8);
    usb_writer.push(0x43u8);
    usb_writer.push(0x30u8);
    push_le32(usb_writer, COMMAND_DIRECTION_RESPONSE);
    push_le32(usb_writer, COMMAND_FILE_RANGE);
    push_le64(usb_writer, range_size);
    let mut i: usize = 0;
    let ghost mid = usb_writer@;
    while i < 12
        invariant
            i <= 12,
            usb_writer@ == mid + Seq::new(i as nat, |j: int| 0u8),
        decreases 12 - i,
    {
        usb_writer.push(0u8);
        i = i + 1;
        assert(usb_writer@ =~= mid + Seq::new(i as nat, |j: int| 0u8));
    }
    assert(usb_writer@ =~= start + response_header(range_size));
}

/// The response header is itself a well-formed header: it starts with
/// `"TUC0"`, names the file-range command, and carries the range size in bytes 12..20.
pub proof fn lemma_response_header_reads_back(range_size: u64)
    ensures
        response_header(range_size).len() == HEADER_SIZE,
        command_spec(response_header(range_size)) == TinfoilCommand::FileRange,
        le64_at(response_header(range_size), 12) == range_size,
{
    let h = response_header(range_size);
    let a = command_magic() + le32(COMMAND_DIRECTION_RESPONSE);
    let b = a + le32(COMMAND_FILE_RANGE);
    let c = b + le64(range_size);
    assert(h == c + Seq::new(12, |i: int| 0u8));
    assert(a.len() == 8 && b.len() == 12 && c.len() == 20);
    assert(h.subrange(0, 4) =~= command_magic()) by {
        assert(h.subrange(0, 4) =~= a.subrange(0, 4));
    }
    assert(le32_at(h, 8) == le32_at(le32(COMMAND_FILE_RANGE), 0)) by {
        assert(h[8] == b[8] && h[9] == b[9] && h[10] == b[10] && h[11] == b[11]);
    }
    crate::codec::lemma_le32_roundtrip(COMMAND_FILE_RANGE);
    assert(le64_at(h, 12) == le64_at(le64(range_size), 0)) by {
        assert forall|i: int| 12 <= i < 20 implies h[i] == #[trigger] le64(range_size)[i - 12] by {
            assert(h[i] == c[i]);
        }
    }
    crate::codec::lemma_le64_roundtrip(range_size);
}

/// What a command header asks for.
#[derive(Clone, Copy, Debug, PartialEq, Eq, Structural)]
pub enum TinfoilCommand {
    /// The header does not start with `"TUC0"`; it is skipped.
    BadMagic,
    /// The install is over.
    Exit,
    /// A range of a file is requested.
    FileRange,
    /// An unknown command id, which ends the install with an error.
    Invalid,
}

/// What a 32-byte command header asks for: the magic sits in bytes 0..4, the
/// command id in bytes 8..12.
pub open spec fn command_spec(header: Seq<u8>) -> TinfoilCommand {
    if header.subrange(0, 4) != command_magic() {
        TinfoilCommand::BadMagic
    } else if le32_at(header, 8) == COMMAND_EXIT {
        TinfoilCommand::Exit
    } else if le32_at(header, 8) == COMMAND_FILE_RANGE {
        TinfoilCommand::FileRange
    } else {
        TinfoilCommand::Invalid
    }
}

/// Reads what a command header asks for.
pub fn parse_command_header(header: &[u8]) -> (command: TinfoilCommand)
    requires
        header@.len() == HEADER_SIZE,
    ensures
        command == command_spec(header@),
{
    let magic_ok = header[0] == 0x54u8 && header[1] == 0x55u8 && header[2] == 0x43u8 && header[3]
        == 0x30u8;
    assert(magic_ok == (header@.subrange(0, 4) == command_magic())) by {
        if header@.subrange(0, 4) == command_magic() {
            assert(header@.subrange(0, 4)[0] == header@[0]);
            assert(header@.subrange(0, 4)[1] == header@[1]);
            assert(header@.subrange(0, 4)[2] == header@[2]);
            assert(header@.subrange(0, 4)[3] == header@[3]);
        }
        if magic_ok {
            assert(header@.subrange(0, 4) =~= command_magic());
        }
    }
    if !magic_ok {
        return TinfoilCommand::BadMagic;
    }
    let command_id = read_le32(header, 8);
    if command_id == COMMAND_EXIT {
        TinfoilCommand::Exit
    } else if command_id == COMMAND_FILE_RANGE {
        TinfoilCommand::FileRange
    } else {
        TinfoilCommand::Invalid
    }
}

/// The fields of a file-range header.
#[derive(Clone, Copy, Debug, PartialEq, Eq, Structural)]
pub struct FileRangeHeader {
    /// Number of bytes requested (bytes 0..8).
    pub range_size: u64,
    /// Offset of the range in the file (bytes 8..16).
    pub range_offset: u64,
    /// Length of the path that follows, as the console states it (bytes 16..24).
    pub game_path_utf8_len: u64,
}

/// Reads the fields of a 32-byte file-range header, each a little-endian 64-bit number.
pub fn parse_file_range_header(header: &[u8]) -> (parsed: FileRangeHeader)
    requires
        header@.len() == HEADER_SIZE,
    ensures
        parsed.range_size == le64_at(header@, 0),
        parsed.range_offset == le64_at(header@, 8),
        parsed.game_path_utf8_len == le64_at(header@, 16),
{
    FileRangeHeader {
        range_size: read_le64(header, 0),
        range_offset: read_le64(header, 8),
        game_path_utf8_len: read_le64(header, 16),
    }
}

/// Decodes bytes as UTF-8 with `std::str::from_utf8`, which accepts exactly the
/// well-formed UTF-8 byte strings and decodes them.
#[verifier::external_body]
pub(crate) fn utf8_to_string(bytes: &[u8]) -> (s: Option<String>)
    ensures
        s is Some <==> valid_utf8(bytes@),
        s matches Some(t) ==> t@ == decode_utf8(bytes@),
{
    std::str::from_utf8(bytes).ok().map(|t| t.to_string())
}

/// Why a requested path was refused.
#[derive(Clone, Copy, Debug, PartialEq, Eq, Structural)]
pub enum RequestedPathError {
    /// The path is not UTF-8.
    InvalidUtf8,
    /// The path is not among the announced games.
    NotPresent,
}

/// Whether `path` is one of `game_paths`: the same string, or an equal path.
pub open spec fn is_announced(path: Seq<char>, game_paths: Seq<Seq<char>>) -> bool {
    exists|i: int| 0 <= i < game_paths.len() && path_matches(game_paths[i], path)
}

/// Whether `path` is one of `game_paths`: the same string, or an equal path.
pub fn is_announced_game(path: &str, game_paths: &Vec<String>) -> (res: bool)
    ensures
        res == is_announced(path@, game_paths.deep_view()),
{
    let ghost paths = game_paths.deep_view();
    let mut i: usize = 0;
    while i < game_paths.len()
        invariant
            i <= game_paths@.len(),
            paths == game_paths.deep_view(),
            forall|j: int| 0 <= j < i ==> !path_matches(#[trigger] paths[j], path@),
        decreases game_paths@.len() - i,
    {
        if paths_equal(game_paths[i].as_str(), path) {
            assert(paths[i as int] == game_paths@[i as int]@);
            return true;
        }
        assert(paths[i as int] == game_paths@[i as int]@);
        i = i + 1;
    }
    false
}

/// The path that a file-range command asks for: the bytes must be UTF-8 and name
/// an announced game.
pub fn resolve_requested_path(path_bytes: &[u8], game_paths: &Vec<String>) -> (res: Result<
    String,
    RequestedPathError,
>)
    ensures
        !valid_utf8(path_bytes@) ==> res == Err::<String, RequestedPathError>(
            RequestedPathError::InvalidUtf8,
        ),
        valid_utf8(path_bytes@) && !is_announced(decode_utf8(path_bytes@), game_paths.deep_view())
            ==> res == Err::<String, RequestedPathError>(RequestedPathError::NotPresent),
        valid_utf8(path_bytes@) && is_announced(decode_utf8(path_bytes@), game_paths.deep_view())
            ==> (res matches Ok(p) && p@ == decode_utf8(path_bytes@)),
{
    match utf8_to_string(path_bytes) {
        None => Err(RequestedPathError::InvalidUtf8),
        Some(path) => {
            if is_announced_game(path.as_str(), game_paths) {
                Ok(path)
            } else {
                Err(RequestedPathError::NotPresent)
            }
        },
    }
}

/// Whether the file kept open from an earlier request can serve a request for
/// `requested`: its path is the same string, or an equal path.
pub fn reuse_cached_file(cached_path: &Option<String>, requested: &str) -> (reuse: bool)
    ensures
        reuse == (cached_path matches Some(p) && path_matches(p@, requested@)),
{
    match cached_path {
        Some(p) => paths_equal(p.as_str(), requested),
        None => false,
    }
}

/// The sizes of the pieces in which `remaining` bytes go out, in order.
pub open spec fn chunk_sizes(remaining: nat) -> Seq<nat>
    decreases remaining,
{
    if remaining == 0 {
        Seq::empty()
    } else {
        let chunk = if remaining < SEND_BUFFER_LEN { remaining } else { SEND_BUFFER_LEN as nat };
        proof {
            assert(SEND_BUFFER_LEN == 22) by (bit_vector);
        }
        seq![chunk] + chunk_sizes((remaining - chunk) as nat)
    }
}

/// The sum of a sequence of sizes.
pub open spec fn total(sizes: Seq<nat>) -> nat
    decreases sizes.len(),
{
    if sizes.len() == 0 {
        0
    } else {
        sizes[0] + total(sizes.drop_first())
    }
}

/// The progress of sending one requested range.
pub struct RangeTransfer {
    remaining: u64,
    current_file_offset_bytes: u64,
    all_files_offset_bytes: u64,
}

impl RangeTransfer {
    /// Bytes of the range not sent yet.
    pub closed spec fn remaining_spec(&self) -> nat {
        self.remaining as nat
    }

    /// Offset in the file just past what has been sent.
    pub closed spec fn current_file_offset_spec(&self) -> nat {
        self.current_file_offset_bytes as nat
    }

    /// Bytes of all files sent so far.
    pub closed spec fn all_files_offset_spec(&self) -> nat {
        self.all_files_offset_bytes as nat
    }

    /// Starts sending `range_size` bytes from `range_offset`, after
    /// `all_files_offset_bytes` bytes of all files were sent.
    pub fn new(range_offset: u64, range_size: u64, all_files_offset_bytes: u64) -> (t: Self)
        ensures
            t.remaining_spec() == range_size,
            t.current_file_offset_spec() == range_offset,
            t.all_files_offset_spec() == all_files_offset_bytes,
    {
        RangeTransfer {
            remaining: range_size,
            current_file_offset_bytes: range_offset,
            all_files_offset_bytes,
        }
    }

    /// Bytes of the range not sent yet.
    pub fn remaining_bytes(&self) -> (r: u64)
        ensures
            r == self.remaining_spec(),
    {
        self.remaining
    }

    /// Offset in the file just past what has been sent.
    pub fn current_file_offset_bytes(&self) -> (r: u64)
        ensures
            r == self.current_file_offset_spec(),
    {
        self.current_file_offset_bytes
    }

    /// Bytes of all files sent so far.
    pub fn all_files_offset_bytes(&self) -> (r: u64)
        ensures
            r == self.all_files_offset_spec(),
    {
        self.all_files_offset_bytes
    }

    /// The size of the next piece to send, and the progress once it is sent;
    /// `None` when the range is done. Both offsets grow by the size of the
    /// piece, and stop at `u64::MAX` rather than wrap (no file is that long, so
    /// reading such a range fails before they get there).
    pub fn next_chunk(&mut self) -> (chunk: Option<usize>)
        ensures
            old(self).remaining_spec() == 0 ==> chunk is None && *final(self) == *old(self),
            old(self).remaining_spec() > 0 ==> (chunk matches Some(c) && {
                &&& c == chunk_sizes(old(self).remaining_spec())[0]
                &&& chunk_sizes(final(self).remaining_spec()) == chunk_sizes(
                    old(self).remaining_spec(),
                ).drop_first()
                &&& final(self).remaining_spec() == old(self).remaining_spec() - c
                &&& final(self).current_file_offset_spec() == saturated(
                    old(self).current_file_offset_spec() + c,
                )
                &&& final(self).all_files_offset_spec() == saturated(
                    old(self).all_files_offset_spec() + c,
                )
            }),
    {
        if self.remaining == 0 {
            return None;
        }
        assert(SEND_BUFFER_LEN == 22) by (bit_vector);
        let chunk: usize = if self.remaining < SEND_BUFFER_LEN as u64 {
            self.remaining as usize
        } else {
            SEND_BUFFER_LEN
        };
        self.remaining = self.remaining - chunk as u64;
        self.current_file_offset_bytes = self.current_file_offset_bytes.saturating_add(chunk as u64);
        self.all_files_offset_bytes = self.all_files_offset_bytes.saturating_add(chunk as u64);
        assert(chunk_sizes(old(self).remaining as nat).drop_first() =~= chunk_sizes(
            self.remaining as nat,
        ));
        Some(chunk)
    }
}

/// `n`, or `u64::MAX` where `n` is larger.
pub open spec fn saturated(n: int) -> int {
    if n > u64::MAX {
        u64::MAX as int
    } else {
        n
    }
}

/// The pieces of a range are between 1 and `SEND_BUFFER_LEN` bytes long and add
/// up to the size of the range.
pub proof fn lemma_chunks_cover_range(remaining: nat)
    ensures
        total(chunk_sizes(remaining)) == remaining,
        forall|i: int|
            0 <= i < chunk_sizes(remaining).len() ==> 0 < #[trigger] chunk_sizes(remaining)[i]
                <= SEND_BUFFER_LEN,
    decreases remaining,
{
    if remaining > 0 {
        assert(SEND_BUFFER_LEN == 22) by (bit_vector);
        let chunk = if remaining < SEND_BUFFER_LEN { remaining } else { SEND_BUFFER_LEN as nat };
        lemma_chunks_cover_range((remaining - chunk) as nat);
        let s = chunk_sizes(remaining);
        assert(s.drop_first() =~= chunk_sizes((remaining - chunk) as nat));
        assert forall|i: int| 0 <= i < s.len() implies 0 < #[trigger] s[i] <= SEND_BUFFER_LEN by {
            if i > 0 {
                assert(s[i] == s.drop_first()[i - 1]);
            }
        }
    }
}

/// The bytes that start a TinFoil install: `"TUL0"`, the announced length,
/// eight zero bytes, then the list of paths.
pub open spec fn list_announcement(
    paths_with_newlines_string_length: u32,
    game_paths: Seq<Seq<char>>,
) -> Seq<u8> {
    list_magic() + le32(paths_with_newlines_string_length) + Seq::new(8, |i: int| 0u8) + listing(
        game_paths,
    )
}

/// The bytes that start a TinFoil install.
pub fn initiate_transfer(paths_with_newlines_string_length: u32, game_paths: &Vec<String>) -> (out:
    Vec<u8>)
    ensures
        out@ == list_announcement(paths_with_newlines_string_length, game_paths.deep_view()),
{
    let mut out: Vec<u8> = Vec::new();
    out.push(0x54u8);
    out.push(0x55u8);
    out.push(0x4cu8);
    out.push(0x30u8);
    push_le32(&mut out, paths_with_newlines_string_length);
    push_le64(&mut out, 0);
    assert(le64(0) =~= Seq::new(8, |i: int| 0u8));
    let names = paths_listing(game_paths);
    push_bytes(&mut out, names.as_slice());
    out
}


/// A request that names, byte for byte, a path that the host announced is
/// accepted: the bytes are UTF-8, they decode to that path, and the path is
/// among the announced ones. So `resolve_requested_path` answers it with the path.
pub proof fn lemma_announced_path_is_accepted(game_paths: Seq<Seq<char>>, k: int)
    requires
        0 <= k < game_paths.len(),
    ensures
        valid_utf8(encode_utf8(game_paths[k])),
        decode_utf8(encode_utf8(game_paths[k])) == game_paths[k],
        is_announced(decode_utf8(encode_utf8(game_paths[k])), game_paths),
{
    vstd::utf8::encode_utf8_valid_utf8(game_paths[k]);
    vstd::utf8::encode_utf8_decode_utf8(game_paths[k]);
    assert(path_matches(game_paths[k], game_paths[k]));
}


/// The TinFoil announcement is `"TUL0"`, the announced length as a
/// little-endian `u32`, eight zero bytes, and then the whole listing of the
/// game paths: every path, in order, each followed by a newline.
pub proof fn lemma_list_announcement_layout(
    paths_with_newlines_string_length: u32,
    game_paths: Seq<Seq<char>>,
)
    ensures
        ({
            let a = list_announcement(paths_with_newlines_string_length, game_paths);
            &&& a.len() == 16 + listing(game_paths).len()
            &&& a.subrange(0, 4) == seq![0x54u8, 0x55u8, 0x4cu8, 0x30u8]
            &&& le32_at(a, 4) == paths_with_newlines_string_length
            &&& forall|i: int| 8 <= i < 16 ==> a[i] == 0u8
            &&& a.subrange(16, a.len() as int) == listing(game_paths)
        }),
{
    let a = list_announcement(paths_with_newlines_string_length, game_paths);
    crate::codec::lemma_le32_roundtrip(paths_with_newlines_string_length);
    let l = le32(paths_with_newlines_string_length);
    assert(a.subrange(0, 4) =~= seq![0x54u8, 0x55u8, 0x4cu8, 0x30u8]);
    assert(a.subrange(16, a.len() as int) =~= listing(game_paths));
    assert(a.subrange(4, 8) =~= l);
    assert(a[4] == l[0] && a[5] == l[1] && a[6] == l[2] && a[7] == l[3]);
}

} // verus!
