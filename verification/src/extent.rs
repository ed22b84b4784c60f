use vstd::prelude::*;
use crate::block::BLOCK_SIZE;
use crate::matching::SharedExtentRequest;

verus! {

/// The control code of the platform's file-range-dedup operation, issued on
/// the source file descriptor with one `dedup` record as its argument.
pub const FIDEDUPERANGE: u64 = 0xC0189436;

/// One destination entry of the kernel's dedup-range request. `dest_fd` and
/// `dest_offset` name the byte range whose storage is to become a shared
/// reference to the source range; `bytes_deduped` and `status` are filled in
/// by the kernel on return.
#[allow(non_camel_case_types)]
#[derive(Clone, Copy, Debug, PartialEq, Eq, Structural)]
pub struct file_dedupe_range_info {
    pub dest_fd: i64,
    pub dest_offset: u64,
    pub bytes_deduped: u64,
    pub status: i32,
    pub reserved: u32,
}

/// Header of the kernel's dedup-range request: the source byte range on the
/// file the operation is invoked on, and the count of destination entries
/// that follow (always one here). The reserved fields must be zero.
#[allow(non_camel_case_types)]
#[derive(Clone, Copy, Debug, PartialEq, Eq, Structural)]
pub struct file_dedupe_range {
    pub src_offset: u64,
    pub src_length: u64,
    pub dest_count: u16,
    pub reserved1: u16,
    pub reserved2: u16,
}

/// The combined request record: the header and its single destination entry,
/// laid out back to back exactly as the control operation expects them.
#[allow(non_camel_case_types)]
#[derive(Clone, Copy, Debug, PartialEq, Eq, Structural)]
pub struct dedup {
    pub args: file_dedupe_range,
    pub info: file_dedupe_range_info,
}

/// Build the bit-exact kernel request for one eligible confirmed run: byte
/// offsets and length are the block values scaled by the block size, exactly
/// one destination entry, reserved fields zero, and the out-fields cleared.
/// Nothing is built when a byte offset or the byte length would not fit the
/// kernel's 64-bit fields.
pub fn build_dedup_request(req: &SharedExtentRequest, dest_fd: i64) -> (d: Option<dedup>)
    ensures
        (d is Some) <==> ({
            &&& req.src_block * BLOCK_SIZE <= u64::MAX
            &&& req.dest_block * BLOCK_SIZE <= u64::MAX
            &&& req.block_count * BLOCK_SIZE <= u64::MAX
        }),
        d matches Some(k) ==> {
            &&& k.args.src_offset == req.src_block * BLOCK_SIZE
            &&& k.args.src_length == req.block_count * BLOCK_SIZE
            &&& k.args.dest_count == 1
            &&& k.args.reserved1 == 0
            &&& k.args.reserved2 == 0
            &&& k.info.dest_fd == dest_fd
            &&& k.info.dest_offset == req.dest_block * BLOCK_SIZE
            &&& k.info.bytes_deduped == 0
            &&& k.info.status == 0
            &&& k.info.reserved == 0
        },
{
    let block_size = BLOCK_SIZE as u64;
    let limit = u64::MAX / block_size;
    let src_block = req.src_block as u64;
    let dest_block = req.dest_block as u64;
    let block_count = req.block_count as u64;
    if src_block <= limit && dest_block <= limit && block_count <= limit {
        Some(
            dedup {
                args: file_dedupe_range {
                    src_offset: src_block * block_size,
                    src_length: block_count * block_size,
                    dest_count: 1,
                    reserved1: 0,
                    reserved2: 0,
                },
                info: file_dedupe_range_info {
                    dest_fd,
                    dest_offset: dest_block * block_size,
                    bytes_deduped: 0,
                    status: 0,
                    reserved: 0,
                },
            },
        )
    } else {
        None
    }
}

/// What the kernel's reply to a dedup-range request amounts to. Anything but
/// a fully honoured request must be surfaced, never treated as success.
#[derive(Clone, Copy, Debug, PartialEq, Eq, Structural)]
pub enum DedupReplyCheck {
    /// Zero status and exactly the requested byte count shared.
    FullyShared,
    /// Zero status, but fewer bytes were shared than were requested.
    ShortShare,
    /// A non-zero status: the ranges differed, or the operation failed.
    DifferingStatus,
}

/// Judge the out-fields of one destination entry of a completed request
/// against the byte length that was asked for.
pub fn check_dedup_reply(requested_length: u64, bytes_deduped: u64, status: i32) -> (r:
    DedupReplyCheck)
    ensures
        r == (if status != 0 {
            DedupReplyCheck::DifferingStatus
        } else if bytes_deduped < requested_length {
            DedupReplyCheck::ShortShare
        } else {
            DedupReplyCheck::FullyShared
        }),
{
    if status != 0 {
        DedupReplyCheck::DifferingStatus
    } else if bytes_deduped < requested_length {
        DedupReplyCheck::ShortShare
    } else {
        DedupReplyCheck::FullyShared
    }
}

} // verus!
