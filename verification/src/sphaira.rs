//! The Sphaira USB install protocol.
//!
//! Every control packet, in either direction, is 24 bytes: six little-endian
//! `u32` words `[magic, arg2, arg3, arg4, 0, crc32c]`, where the last word is
//! the CRC-32C of the first twenty bytes.

use vstd::prelude::*;

use crate::checksum::{crc32c, crc32c_of};
use crate::codec::{le32, le32_at, push_bytes, push_le32};
use crate::listing::{listing, paths_listing};

verus! {

/// `u32::from_be_bytes(*b"SPH0")`.
pub const EXPECTED_MAGIC: u32 = 0x5350_4830;

/// Length in bytes of every control packet.
pub const PACKET_SIZE: usize = 24;

pub const RESULT_OK: u32 = 0;
pub const RESULT_ERROR: u32 = 1;

pub const COMMAND_QUIT: u32 = 0;
pub const COMMAND_OPEN: u32 = 1;

pub const FLAG_NONE: u32 = 0;
pub const FLAG_STREAM: u32 = 1;

/// The arguments of a packet sent by the Sphaira client.
#[derive(Clone, Copy, Debug, PartialEq, Eq, Structural)]
pub struct SendHeader {
    pub arg2: u32,
    pub arg3: u32,
    pub arg4: u32,
}

impl SendHeader {
    /// The 64-bit file offset carried in `arg2` (high half) and `arg3` (low half).
    pub fn get_offset(&self) -> (offset: u64)
        ensures
            offset == self.arg2 as int * 0x1_0000_0000 + self.arg3 as int,
    {
        let hi = self.arg2 as u64;
        let lo = self.arg3 as u64;
        assert(((hi << 32u64) | lo) == hi * 0x1_0000_0000 + lo) by (bit_vector)
            requires
                hi < 0x1_0000_0000,
                lo < 0x1_0000_0000,
        ;
        (hi << 32u64) | lo
    }

    /// The number of bytes requested, carried in `arg4`.
    pub fn get_size(&self) -> (size: usize)
        ensures
            size == self.arg4,
    {
        self.arg4 as usize
    }
}

/// Why a packet from the Sphaira client was not accepted.
#[derive(Clone, Copy, Debug, PartialEq, Eq, Structural)]
pub enum SendHeaderError {
    /// The first word is not `EXPECTED_MAGIC`.
    InvalidMagic,
    /// The last word is not the CRC-32C of the first twenty bytes.
    InvalidCrc32c,
    /// The console went away; Sphaira does this on successful install completion.
    Disconnected,
    /// Reading the packet failed otherwise.
    OtherIo,
}

/// How reading a packet from the USB endpoint failed.
#[derive(Clone, Copy, Debug, PartialEq, Eq, Structural)]
pub enum ReadFailure {
    ConnectionAborted,
    TimedOut,
    Other,
}

/// The error that a failed read of a packet stands for: an aborted connection or
/// a time-out means that the console disconnected.
pub fn read_failure_error(failure: ReadFailure) -> (err: SendHeaderError)
    ensures
        err == (match failure {
            ReadFailure::ConnectionAborted | ReadFailure::TimedOut => SendHeaderError::Disconnected,
            ReadFailure::Other => SendHeaderError::OtherIo,
        }),
{
    match failure {
        ReadFailure::ConnectionAborted | ReadFailure::TimedOut => SendHeaderError::Disconnected,
        ReadFailure::Other => SendHeaderError::OtherIo,
    }
}

/// What a 24-byte packet means, given the CRC-32C computed over its first twenty bytes.
pub open spec fn send_header_spec(packet: Seq<u8>, computed_crc32c: u32) -> Result<
    SendHeader,
    SendHeaderError,
> {
    if le32_at(packet, 0) != EXPECTED_MAGIC {
        Err(SendHeaderError::InvalidMagic)
    } else if le32_at(packet, 20) != computed_crc32c {
        Err(SendHeaderError::InvalidCrc32c)
    } else {
        Ok(
            SendHeader {
                arg2: le32_at(packet, 4) as u32,
                arg3: le32_at(packet, 8) as u32,
                arg4: le32_at(packet, 12) as u32,
            },
        )
    }
}

/// Checks the magic, then the checksum, of a packet whose first twenty bytes
/// have the CRC-32C `computed_crc32c`, and takes out its arguments.
pub fn check_send_header(packet: &[u8], computed_crc32c: u32) -> (res: Result<
    SendHeader,
    SendHeaderError,
>)
    requires
        packet@.len() == PACKET_SIZE,
    ensures
        res == send_header_spec(packet@, computed_crc32c),
{
    let magic = crate::codec::read_le32(packet, 0);
    if magic != EXPECTED_MAGIC {
        return Err(SendHeaderError::InvalidMagic);
    }
    let given_crc32c = crate::codec::read_le32(packet, 20);
    if given_crc32c != computed_crc32c {
        return Err(SendHeaderError::InvalidCrc32c);
    }
    Ok(
        SendHeader {
            arg2: crate::codec::read_le32(packet, 4),
            arg3: crate::codec::read_le32(packet, 8),
            arg4: crate::codec::read_le32(packet, 12),
        },
    )
}

/// Reads a packet sent by the Sphaira client: checks its magic, then its checksum.
pub fn get_send_header(packet: &[u8]) -> (res: Result<SendHeader, SendHeaderError>)
    requires
        packet@.len() == PACKET_SIZE,
    ensures
        res == send_header_spec(packet@, crc32c_of(packet@.subrange(0, 20))),
{
    let computed = crc32c(&packet[0..20]);
    check_send_header(packet, computed)
}

/// The first twenty bytes of a packet from the host.
pub open spec fn result_body(result: u32, arg3: u32, arg4: u32) -> Seq<u8> {
    le32(EXPECTED_MAGIC) + le32(result) + le32(arg3) + le32(arg4) + le32(0)
}

/// The packet that the host sends: the body and its CRC-32C.
pub open spec fn result_packet(result: u32, arg3: u32, arg4: u32) -> Seq<u8> {
    result_body(result, arg3, arg4) + le32(crc32c_of(result_body(result, arg3, arg4)))
}

/// Appends the packet that answers the client with `result` and two optional
/// arguments (an absent argument is sent as 0).
pub fn send_result(usb_writer: &mut Vec<u8>, result: u32, arg3: Option<u32>, arg4: Option<u32>)
    ensures
        final(usb_writer)@ == old(usb_writer)@ + result_packet(
            result,
            arg3.unwrap_or(0),
            arg4.unwrap_or(0),
        ),
{
    let arg3 = match arg3 {
        Some(a) => a,
        None => 0,
    };
    let arg4 = match arg4 {
        Some(a) => a,
        None => 0,
    };
    let mut body: Vec<u8> = Vec::new();
    push_le32(&mut body, EXPECTED_MAGIC);
    push_le32(&mut body, result);
    push_le32(&mut body, arg3);
    push_le32(&mut body, arg4);
    push_le32(&mut body, 0);
    assert(body@ =~= result_body(result, arg3, arg4));
    let crc = crc32c(body.as_slice());
    push_bytes(usb_writer, body.as_slice());
    push_le32(usb_writer, crc);
}

/// A packet that the host sends reads back, on the client's side, as a header
/// with the same arguments.
pub proof fn lemma_result_packet_reads_back(result: u32, arg3: u32, arg4: u32)
    ensures
        result_packet(result, arg3, arg4).len() == PACKET_SIZE,
        send_header_spec(
            result_packet(result, arg3, arg4),
            crc32c_of(result_packet(result, arg3, arg4).subrange(0, 20)),
        ) == Ok::<SendHeader, SendHeaderError>(SendHeader { arg2: result, arg3, arg4 }),
{
    let p = result_packet(result, arg3, arg4);
    let body = result_body(result, arg3, arg4);
    assert(p.subrange(0, 20) =~= body);
    assert(p.subrange(0, 4) =~= le32(EXPECTED_MAGIC));
    assert(p.subrange(4, 8) =~= le32(result));
    assert(p.subrange(8, 12) =~= le32(arg3));
    assert(p.subrange(12, 16) =~= le32(arg4));
    assert(p.subrange(20, 24) =~= le32(crc32c_of(body)));
    crate::codec::lemma_le32_roundtrip(EXPECTED_MAGIC);
    crate::codec::lemma_le32_roundtrip(result);
    crate::codec::lemma_le32_roundtrip(arg3);
    crate::codec::lemma_le32_roundtrip(arg4);
    crate::codec::lemma_le32_roundtrip(crc32c_of(body));
    assert(le32_at(p, 0) == le32_at(p.subrange(0, 4), 0));
    assert(le32_at(p, 4) == le32_at(p.subrange(4, 8), 0));
    assert(le32_at(p, 8) == le32_at(p.subrange(8, 12), 0));
    assert(le32_at(p, 12) == le32_at(p.subrange(12, 16), 0));
    assert(le32_at(p, 20) == le32_at(p.subrange(20, 24), 0));
}

/// The two arguments that announce a file of `file_size` bytes: `arg3` holds
/// bits 32..48 of the size in its low half and `flags` in its high half, `arg4`
/// holds the low 32 bits of the size.
pub open spec fn file_size_args(file_size: u64, flags: u32) -> (u32, u32) {
    (
        ((file_size / 0x1_0000_0000) % 0x1_0000 + (flags % 0x1_0000) * 0x1_0000) as u32,
        (file_size % 0x1_0000_0000) as u32,
    )
}

/// Appends the packet that answers an open request for a file of `file_size` bytes.
pub fn send_file_size(usb_writer: &mut Vec<u8>, file_size: u64, flags: u32)
    ensures
        final(usb_writer)@ == old(usb_writer)@ + result_packet(
            RESULT_OK,
            file_size_args(file_size, flags).0,
            file_size_args(file_size, flags).1,
        ),
{
    let size_low_bits = file_size as u32;
    let size_high_bits = ((file_size >> 32u64) as u16) as u32 | (flags << 16u32);
    assert(size_low_bits == file_size % 0x1_0000_0000) by (bit_vector)
        requires
            size_low_bits == file_size as u32,
    ;
    assert(size_high_bits == (file_size / 0x1_0000_0000) % 0x1_0000 + (flags % 0x1_0000)
        * 0x1_0000) by (bit_vector)
        requires
            size_high_bits == ((file_size >> 32u64) as u16) as u32 | (flags << 16u32),
    ;
    send_result(usb_writer, RESULT_OK, Some(size_high_bits), Some(size_low_bits));
}

/// The client recovers the low 48 bits of the file size from the two arguments
/// that announce it.
pub proof fn lemma_file_size_args_recover_size(file_size: u64, flags: u32)
    ensures
        (file_size_args(file_size, flags).0 % 0x1_0000) as int * 0x1_0000_0000
            + file_size_args(file_size, flags).1 as int == file_size as int % 0x1_0000_0000_0000,
{
    let hi = (file_size / 0x1_0000_0000) % 0x1_0000;
    let f = (flags % 0x1_0000) * 0x1_0000;
    assert((hi + f) % 0x1_0000 == hi) by (nonlinear_arith)
        requires
            0 <= hi < 0x1_0000,
            f == (flags % 0x1_0000) * 0x1_0000,
    ;
    assert(hi * 0x1_0000_0000 + file_size % 0x1_0000_0000 == file_size % 0x1_0000_0000_0000)
        by (nonlinear_arith)
        requires
            hi == (file_size / 0x1_0000_0000) % 0x1_0000,
    ;
}

/// What the host does on reading a command from the client.
#[derive(Clone, Copy, Debug, PartialEq, Eq, Structural)]
pub enum WorkloopAction {
    /// The console disconnected: the install is over.
    Stop,
    /// Answer a quit command with `RESULT_OK`, then wait for the next command.
    AcknowledgeQuit,
    /// Send the game at this index of the announced list.
    Open { game_index: usize },
}

/// Why the host gives up on the client.
#[derive(Clone, Copy, Debug, PartialEq, Eq, Structural)]
pub enum WorkloopError {
    /// Reading the command failed.
    ReadHeader(SendHeaderError),
    /// The client asked for a game past the end of the announced list.
    GameIndexOutOfRange { game_index: u32, game_count: usize },
    /// The command is neither quit nor open.
    InvalidCommand(u32),
}

/// The host's answer to a command header: the command sits in `arg2`, the
/// index of the requested game in `arg3`.
pub open spec fn workloop_action_spec(
    header: Result<SendHeader, SendHeaderError>,
    game_count: usize,
) -> Result<WorkloopAction, WorkloopError> {
    match header {
        Err(SendHeaderError::Disconnected) => Ok(WorkloopAction::Stop),
        Err(e) => Err(WorkloopError::ReadHeader(e)),
        Ok(h) => if h.arg2 == COMMAND_QUIT {
            Ok(WorkloopAction::AcknowledgeQuit)
        } else if h.arg2 == COMMAND_OPEN {
            if (h.arg3 as int) < game_count as int {
                Ok(WorkloopAction::Open { game_index: h.arg3 as usize })
            } else {
                Err(WorkloopError::GameIndexOutOfRange { game_index: h.arg3, game_count })
            }
        } else {
            Err(WorkloopError::InvalidCommand(h.arg2))
        },
    }
}

/// Decides what to do with a command header read from the client, given the
/// number of games announced.
pub fn next_workloop_action(header: Result<SendHeader, SendHeaderError>, game_count: usize) -> (res:
    Result<WorkloopAction, WorkloopError>)
    ensures
        res == workloop_action_spec(header, game_count),
{
    match header {
        Err(SendHeaderError::Disconnected) => Ok(WorkloopAction::Stop),
        Err(e) => Err(WorkloopError::ReadHeader(e)),
        Ok(h) => {
            if h.arg2 == COMMAND_QUIT {
                Ok(WorkloopAction::AcknowledgeQuit)
            } else if h.arg2 == COMMAND_OPEN {
                let index = h.arg3 as usize;
                if index < game_count {
                    Ok(WorkloopAction::Open { game_index: index })
                } else {
                    Err(WorkloopError::GameIndexOutOfRange { game_index: h.arg3, game_count })
                }
            } else {
                Err(WorkloopError::InvalidCommand(h.arg2))
            }
        },
    }
}

/// What the host does on reading a request while a file is open.
#[derive(Clone, Copy, Debug, PartialEq, Eq, Structural)]
pub enum TransferStep {
    /// The console disconnected; wait for the next request.
    Retry,
    /// Offset and size are both 0: the file is done; answer with `RESULT_OK`.
    Complete,
    /// Send `size` bytes of the file from `offset`.
    Chunk { offset: u64, size: usize },
}

/// The host's answer to a request read while a file is open.
pub open spec fn transfer_step_spec(header: Result<SendHeader, SendHeaderError>) -> Result<
    TransferStep,
    SendHeaderError,
> {
    match header {
        Err(SendHeaderError::Disconnected) => Ok(TransferStep::Retry),
        Err(e) => Err(e),
        Ok(h) => if h.arg2 == 0 && h.arg3 == 0 && h.arg4 == 0 {
            Ok(TransferStep::Complete)
        } else {
            Ok(
                TransferStep::Chunk {
                    offset: (h.arg2 as int * 0x1_0000_0000 + h.arg3 as int) as u64,
                    size: h.arg4 as usize,
                },
            )
        },
    }
}

/// Decides what to do with a request read while a file is open.
pub fn next_transfer_step(header: Result<SendHeader, SendHeaderError>) -> (res: Result<
    TransferStep,
    SendHeaderError,
>)
    ensures
        res == transfer_step_spec(header),
{
    match header {
        Err(SendHeaderError::Disconnected) => Ok(TransferStep::Retry),
        Err(e) => Err(e),
        Ok(h) => {
            let offset = h.get_offset();
            let size = h.get_size();
            if offset == 0 && size == 0 {
                Ok(TransferStep::Complete)
            } else {
                Ok(TransferStep::Chunk { offset, size })
            }
        },
    }
}

/// Appends the answer to a chunk request: a packet with `RESULT_OK`, the number
/// of bytes read (as a `u32`) and the CRC-32C of `data`, then `data` itself.
pub fn send_chunk(usb_writer: &mut Vec<u8>, bytes_read: usize, data: &[u8])
    ensures
        final(usb_writer)@ == old(usb_writer)@ + result_packet(
            RESULT_OK,
            bytes_read as u32,
            crc32c_of(data@),
        ) + data@,
{
    let crc = crc32c(data);
    send_result(usb_writer, RESULT_OK, Some(bytes_read as u32), Some(crc));
    push_bytes(usb_writer, data);
}

/// The bytes that start a Sphaira install, once the client's first packet has
/// been read: `RESULT_OK` with the announced length, then the list of paths.
/// A failed first packet is passed on as the error.
pub fn initiate_transfer(
    handshake: Result<SendHeader, SendHeaderError>,
    paths_with_newlines_string_length: u32,
    game_paths: &Vec<String>,
) -> (res: Result<Vec<u8>, SendHeaderError>)
    ensures
        match handshake {
            Err(e) => res == Err::<Vec<u8>, SendHeaderError>(e),
            Ok(_) => res matches Ok(bytes) && bytes@ == result_packet(
                RESULT_OK,
                paths_with_newlines_string_length,
                0,
            ) + listing(game_paths.deep_view()),
        },
{
    match handshake {
        Err(e) => Err(e),
        Ok(_) => {
            let mut out: Vec<u8> = Vec::new();
            send_result(&mut out, RESULT_OK, Some(paths_with_newlines_string_length), None);
            let names = paths_listing(game_paths);
            push_bytes(&mut out, names.as_slice());
            Ok(out)
        },
    }
}


/// How the host answers each command header: a disconnect ends the install;
/// another failed read is an error; quit is acknowledged; open serves the game
/// at any index below the number of announced games, and is an error at any
/// other index; every other command is refused.
pub proof fn lemma_workloop_action_cases(h: SendHeader, e: SendHeaderError, game_count: usize)
    ensures
        workloop_action_spec(Err(SendHeaderError::Disconnected), game_count) == Ok::<
            WorkloopAction,
            WorkloopError,
        >(WorkloopAction::Stop),
        e != SendHeaderError::Disconnected ==> workloop_action_spec(Err(e), game_count) == Err::<
            WorkloopAction,
            WorkloopError,
        >(WorkloopError::ReadHeader(e)),
        h.arg2 == COMMAND_QUIT ==> workloop_action_spec(Ok(h), game_count) == Ok::<
            WorkloopAction,
            WorkloopError,
        >(WorkloopAction::AcknowledgeQuit),
        h.arg2 == COMMAND_OPEN && h.arg3 < game_count ==> workloop_action_spec(Ok(h), game_count)
            == Ok::<WorkloopAction, WorkloopError>(
            WorkloopAction::Open { game_index: h.arg3 as usize },
        ),
        h.arg2 == COMMAND_OPEN && h.arg3 >= game_count ==> workloop_action_spec(Ok(h), game_count)
            == Err::<WorkloopAction, WorkloopError>(
            WorkloopError::GameIndexOutOfRange { game_index: h.arg3, game_count },
        ),
        h.arg2 != COMMAND_QUIT && h.arg2 != COMMAND_OPEN ==> workloop_action_spec(
            Ok(h),
            game_count,
        ) == Err::<WorkloopAction, WorkloopError>(WorkloopError::InvalidCommand(h.arg2)),
{
}

} // verus!
