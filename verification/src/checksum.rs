use vstd::prelude::*;
use crate::block::all_zero;

verus! {

/// The CRC-64/ECMA-182 checksum of a byte sequence, exactly as the `crc`
/// crate computes it. A deterministic function of the bytes alone.
pub uninterp spec fn crc64_of(data: Seq<u8>) -> u64;

/// A block whose checksum is the reserved zero sentinel. Such a block is
/// treated as a hole: it is never indexed and never matched, because a run
/// into a hole could claim unallocated space as a duplicate.
pub open spec fn is_hole(data: Seq<u8>) -> bool {
    crc64_of(data) == 0
}

/// Relies on `crc::Crc::<u64>::checksum` with `crc::CRC_64_ECMA_182`: the
/// checksum is a pure function of the buffer contents. That algorithm's
/// `init` and `xorout` parameters are both zero and it is unreflected, so an
/// all-zero buffer leaves the register at zero and checksums to zero.
#[verifier::external_body]
pub(crate) fn crc64(data: &Vec<u8>) -> (r: u64)
    ensures
        r == crc64_of(data@),
        all_zero(data@) ==> r == 0,
{
    let c = crc::Crc::<u64>::new(&crc::CRC_64_ECMA_182);
    c.checksum(data.as_slice())
}

} // verus!
