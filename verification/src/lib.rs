//! Host-side logic for transferring Nintendo Switch title backups to title
//! installers over USB (TinFoil and Sphaira protocols) and over the network,
//! and for building RCM payloads.

use vstd::prelude::*;

pub mod checksum;
pub mod codec;
pub mod decimal;
pub mod listing;
pub mod network;
pub mod paths;
pub mod progress;
pub mod rcm;
pub mod sphaira;
pub mod staging;
pub mod tinfoil;
pub mod usb;

verus! {

/// Progress reported by an ongoing installation.
#[derive(Debug)]
pub enum InstallProgressEvent {
    /// Request to show status message to user.
    CurrentFileName(String),
    /// Installation has ended, either successfully or by error.
    Ended,
    /// Total size of all requested files. Only sent once on install start.
    AllFilesLengthBytes(u64),
    /// How far we've gotten through all files, totally.
    AllFilesOffsetBytes(u64),
    /// The size of current file being installed. Only sent on start of this file.
    CurrentFileLengthBytes(u64),
    /// How far we've gotten through current file.
    CurrentFileOffsetBytes(u64),
}

/// Which USB protocol the title installer on the console speaks.
#[derive(Clone, Copy, Debug, PartialEq, Eq, Structural)]
pub enum UsbProtocol {
    TinFoil,
    Sphaira,
}

impl Default for UsbProtocol {
    fn default() -> (protocol: Self)
        ensures
            protocol == UsbProtocol::TinFoil,
    {
        UsbProtocol::TinFoil
    }
}

} // verus!
