//! CRC-32C checksums, computed by the `crc32c` crate.

use vstd::prelude::*;

verus! {

/// One step of the bitwise CRC-32C register: shift right by one bit, and fold
/// in the reflected Castagnoli polynomial `0x82F63B78` when the bit shifted out
/// was set.
pub open spec fn crc32c_shift(reg: u32) -> u32 {
    if reg & 1u32 == 1u32 {
        (reg >> 1u32) ^ 0x82F6_3B78u32
    } else {
        reg >> 1u32
    }
}

/// The register after taking in one byte: the byte goes into the low bits,
/// then eight steps follow.
pub open spec fn crc32c_byte(reg: u32, byte: u8) -> u32 {
    let r = reg ^ (byte as u32);
    crc32c_shift(
        crc32c_shift(
            crc32c_shift(crc32c_shift(crc32c_shift(crc32c_shift(crc32c_shift(crc32c_shift(r)))))),
        ),
    )
}

/// The register after taking in `data`, byte by byte, from all ones.
pub open spec fn crc32c_register(data: Seq<u8>) -> u32
    decreases data.len(),
{
    if data.len() == 0 {
        0xFFFF_FFFFu32
    } else {
        crc32c_byte(crc32c_register(data.drop_last()), data.last())
    }
}

/// The CRC-32C (Castagnoli) checksum of `data`: the final register with every
/// bit inverted.
pub open spec fn crc32c_of(data: Seq<u8>) -> u32 {
    crc32c_register(data) ^ 0xFFFF_FFFFu32
}

/// Calls `crc32c::crc32c`, which computes the CRC-32C of `data` (reflected
/// polynomial `0x82F63B78`, initial register and final XOR all ones), with
/// hardware instructions where the machine has them and with tables otherwise.
#[verifier::external_body]
pub(crate) fn crc32c(data: &[u8]) -> (crc: u32)
    ensures
        crc == crc32c_of(data@),
{
    ::crc32c::crc32c(data)
}

} // verus!
