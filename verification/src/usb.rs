//! Finding the console on the USB bus, and what a USB install announces first.

use vstd::prelude::*;

use crate::paths::{file_name_of, path_file_name};
use crate::sphaira::{result_packet, send_result, RESULT_ERROR};
use crate::{InstallProgressEvent, UsbProtocol};

verus! {

/// USB vendor id of Nintendo.
pub const NINTENDO_VENDOR_ID: u16 = 0x057e;

/// USB product id of a Nintendo Switch running a title installer.
pub const SWITCH_PRODUCT_ID: u16 = 0x3000;

/// Whether a USB device is a Nintendo Switch running a title installer.
pub fn is_switch_device(vendor_id: u16, product_id: u16) -> (res: bool)
    ensures
        res == (vendor_id == NINTENDO_VENDOR_ID && product_id == SWITCH_PRODUCT_ID),
{
    vendor_id == NINTENDO_VENDOR_ID && product_id == SWITCH_PRODUCT_ID
}

/// The sum of `sizes`.
pub open spec fn sum_sizes(sizes: Seq<u64>) -> nat
    decreases sizes.len(),
{
    if sizes.len() == 0 {
        0
    } else {
        sum_sizes(sizes.drop_last()) + sizes.last() as nat
    }
}

proof fn lemma_sum_sizes_prefix(sizes: Seq<u64>, i: int)
    requires
        0 <= i <= sizes.len(),
    ensures
        sum_sizes(sizes.take(i)) <= sum_sizes(sizes),
    decreases sizes.len() - i,
{
    if i < sizes.len() {
        lemma_sum_sizes_prefix(sizes, i + 1);
        assert(sizes.take(i + 1).drop_last() =~= sizes.take(i));
    } else {
        assert(sizes.take(i) =~= sizes);
    }
}

/// The total size of all files to install, reported before the install starts;
/// `None` when it does not fit in a `u64`.
pub fn all_files_length_bytes(sizes: &[u64]) -> (total: Option<u64>)
    ensures
        total matches Some(t) ==> t == sum_sizes(sizes@),
        total is None <==> sum_sizes(sizes@) > u64::MAX,
{
    let mut total: u64 = 0;
    let mut i: usize = 0;
    while i < sizes.len()
        invariant
            i <= sizes@.len(),
            total == sum_sizes(sizes@.take(i as int)),
        decreases sizes@.len() - i,
    {
        assert(sizes@.take(i + 1).drop_last() =~= sizes@.take(i as int));
        if total > u64::MAX - sizes[i] {
            proof {
                lemma_sum_sizes_prefix(sizes@, i + 1);
            }
            return None;
        }
        total = total + sizes[i];
        i = i + 1;
    }
    assert(sizes@.take(sizes@.len() as int) =~= sizes@);
    Some(total)
}


/// The event that names the game being sent: the file name of its path.
/// `None` for a path without one (such as a path ending in `..`).
pub fn current_file_name_event(game_path: &str) -> (event: Option<InstallProgressEvent>)
    ensures
        match file_name_of(game_path@) {
            Some(n) => event matches Some(InstallProgressEvent::CurrentFileName(s)) && s@ == n,
            None => event is None,
        },
{
    match path_file_name(game_path) {
        Some(name) => Some(InstallProgressEvent::CurrentFileName(name)),
        None => None,
    }
}

/// What a USB transfer loop does before it waits for the console's next request.
pub enum CancelCheck {
    /// Go on: wait for the next request.
    Continue,
    /// The install was cancelled: send `reply`, if any, and stop.
    Stop { reply: Option<Vec<u8>> },
}

/// What a USB transfer loop does before it waits for the console's next
/// request: go on unless the install was cancelled. On cancelling, TinFoil is
/// sent nothing; Sphaira, in the middle of a file, is answered `RESULT_ERROR`.
pub fn cancel_check(protocol: UsbProtocol, cancelled: bool) -> (check: CancelCheck)
    ensures
        !cancelled ==> check is Continue,
        cancelled ==> (check matches CancelCheck::Stop { reply } && match protocol {
            UsbProtocol::TinFoil => reply is None,
            UsbProtocol::Sphaira => reply matches Some(r) && r@ == result_packet(RESULT_ERROR, 0, 0),
        }),
{
    if !cancelled {
        return CancelCheck::Continue;
    }
    match protocol {
        UsbProtocol::TinFoil => CancelCheck::Stop { reply: None },
        UsbProtocol::Sphaira => {
            let mut reply: Vec<u8> = Vec::new();
            send_result(&mut reply, RESULT_ERROR, None, None);
            assert(reply@ =~= result_packet(RESULT_ERROR, 0, 0));
            CancelCheck::Stop { reply: Some(reply) }
        },
    }
}

} // verus!
