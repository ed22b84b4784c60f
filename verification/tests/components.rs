use blockdedup::block::{BlockAddress, blocks_equal, whole_blocks};
use blockdedup::extent::{DedupReplyCheck, build_dedup_request, check_dedup_reply};
use blockdedup::index::HashIndex;
use blockdedup::matching::SharedExtentRequest;

#[test]
fn whole_blocks_excludes_trailing_partial_block() {
    assert_eq!(whole_blocks(0), 0);
    assert_eq!(whole_blocks(4095), 0);
    assert_eq!(whole_blocks(4096), 1);
    assert_eq!(whole_blocks(8191), 1);
    assert_eq!(whole_blocks(8192), 2);
}

#[test]
fn blocks_equal_compares_bytes() {
    let a = vec![1u8, 2, 3];
    let b = vec![1u8, 2, 3];
    let c = vec![1u8, 2, 4];
    let d = vec![1u8, 2];
    assert!(blocks_equal(&a, &b));
    assert!(!blocks_equal(&a, &c));
    assert!(!blocks_equal(&a, &d));
}

#[test]
fn index_records_and_overwrites_one_slot() {
    let a = BlockAddress { file_index: 0, block_offset: 3 };
    let b = BlockAddress { file_index: 1, block_offset: 5 };
    let mut index = HashIndex::new(4);
    assert_eq!(index.lookup(5), None);
    index.insert(5, a);
    assert_eq!(index.lookup(5), Some(a));
    // 9 maps to the same slot as 5: the colliding record overwrites it, and a
    // lookup of the older checksum is a genuine miss, not a chained hit.
    index.insert(9, b);
    assert_eq!(index.lookup(5), None);
    assert_eq!(index.lookup(9), Some(b));
}

#[test]
fn index_of_empty_input_has_one_slot() {
    let a = BlockAddress { file_index: 0, block_offset: 0 };
    let mut index = HashIndex::new(0);
    index.insert(7, a);
    assert_eq!(index.lookup(7), Some(a));
    index.insert(3, a);
    assert_eq!(index.lookup(7), None);
    assert_eq!(index.lookup(3), Some(a));
}

#[test]
fn kernel_request_is_bit_exact() {
    let req = SharedExtentRequest {
        src_file: 0,
        src_block: 3,
        dest_file: 1,
        dest_block: 5,
        block_count: 16,
    };
    let d = build_dedup_request(&req, 9).unwrap();
    assert_eq!(d.args.src_offset, 3 * 4096);
    assert_eq!(d.args.src_length, 16 * 4096);
    assert_eq!(d.args.dest_count, 1);
    assert_eq!(d.args.reserved1, 0);
    assert_eq!(d.args.reserved2, 0);
    assert_eq!(d.info.dest_fd, 9);
    assert_eq!(d.info.dest_offset, 5 * 4096);
    assert_eq!(d.info.bytes_deduped, 0);
    assert_eq!(d.info.status, 0);
    assert_eq!(d.info.reserved, 0);
}

#[test]
fn kernel_request_refuses_unrepresentable_offsets() {
    let req = SharedExtentRequest {
        src_file: 0,
        src_block: usize::MAX,
        dest_file: 1,
        dest_block: 0,
        block_count: 16,
    };
    assert_eq!(build_dedup_request(&req, 9), None);
}

#[test]
fn dedup_reply_full_success() {
    assert_eq!(check_dedup_reply(65536, 65536, 0), DedupReplyCheck::FullyShared);
}

#[test]
fn dedup_reply_short_share_is_surfaced() {
    assert_eq!(check_dedup_reply(65536, 4096, 0), DedupReplyCheck::ShortShare);
}

#[test]
fn dedup_reply_differing_status_is_surfaced() {
    assert_eq!(check_dedup_reply(65536, 65536, 1), DedupReplyCheck::DifferingStatus);
    assert_eq!(check_dedup_reply(65536, 65536, -22), DedupReplyCheck::DifferingStatus);
}
