use vstd::prelude::*;
use vstd::string::StringSliceAdditionalSpecFns;

verus! {

/// The CRC-32 (IEEE 802.3) value of a byte string.
pub uninterp spec fn crc32(bytes: Seq<u8>) -> u32;

/// `crc32fast::hash` returns the CRC-32 of the whole slice; the value depends
/// on the bytes alone.
pub assume_specification[ crc32fast::hash ](buf: &[u8]) -> (crc: u32)
    ensures
        crc == crc32(buf@),
;

/// The signed 32-bit integer with the same two's-complement bit pattern.
pub open spec fn reinterpret_signed(x: u32) -> i32 {
    if x < 0x8000_0000 {
        x as i32
    } else {
        (x - 0x1_0000_0000) as i32
    }
}

/// The checksum of a byte string: its CRC-32, read as a signed 32-bit
/// integer with the same bits.
pub open spec fn checksum_of(bytes: Seq<u8>) -> i32 {
    reinterpret_signed(crc32(bytes))
}

/// Computes the checksum of a byte string.
pub fn checksum_bytes(bytes: &[u8]) -> (sum: i32)
    ensures
        sum == checksum_of(bytes@),
{
    let crc: u32 = crc32fast::hash(bytes);
    if crc < 0x8000_0000 {
        crc as i32
    } else {
        let low: u32 = crc - 0x8000_0000;
        (low as i32) + i32::MIN
    }
}

/// Computes the checksum of a text: the CRC-32 of its UTF-8 bytes, read as
/// a signed 32-bit integer with the same bits.
pub fn calculate_checksum(source: &str) -> (checksum: i32)
    ensures
        checksum == checksum_of(source.spec_bytes()),
{
    checksum_bytes(source.as_bytes())
}

} // verus!
