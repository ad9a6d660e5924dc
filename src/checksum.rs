use vstd::prelude::*;

verus! {

/// The CRC-32/ISO-HDLC checksum of a byte sequence (width 32, polynomial
/// 0x04C11DB7, initial value and final xor 0xFFFFFFFF, reflected), the one
/// that PNG uses.
pub uninterp spec fn crc32_iso_hdlc(b: Seq<u8>) -> u32;

/// Relies on crc's `Crc::<u32>::checksum` over the catalog's
/// `CRC_32_ISO_HDLC` parameters: the checksum depends on the bytes alone.
#[verifier::external_body]
pub(crate) fn crc32(bytes: &[u8]) -> (r: u32)
    ensures
        r == crc32_iso_hdlc(bytes@),
{
    crc::Crc::<u32>::new(&crc::CRC_32_ISO_HDLC).checksum(bytes)
}

} // verus!
