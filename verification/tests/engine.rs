use blockdedup::block::{BlockAddress, FileData};
use blockdedup::matching::{SharedExtentRequest, try_dedupe_match};
use blockdedup::scan::scan;

fn block(byte: u8) -> Vec<u8> {
    vec![byte; 4096]
}

fn file_of(bytes: &[u8]) -> FileData {
    FileData { blocks: bytes.iter().map(|b| block(*b)).collect() }
}

#[test]
fn empty_input_reports_nothing() {
    let files: Vec<FileData> = Vec::new();
    let report = scan(&files, false);
    assert_eq!(report.match_count, 0);
    assert_eq!(report.total_matched_blocks, 0);
    assert!(report.match_list.is_empty());
    assert!(report.requests.is_empty());
}

#[test]
fn single_repeated_run_yields_adjacent_matches() {
    // one file: 20 identical non-zero blocks, then 20 identical blocks of
    // other content. Within one file the self-overlap rule caps every
    // adjacent-block match at a run of one block, so each run of 20 equal
    // blocks yields 19 one-block matches and nothing reaches the threshold.
    let mut bytes = [1u8; 40];
    for i in 20..40 {
        bytes[i] = 2;
    }
    let files = vec![file_of(&bytes)];
    let report = scan(&files, false);
    assert_eq!(report.match_count, 38);
    assert_eq!(report.total_matched_blocks, 38);
    assert!(report.requests.is_empty());
    for m in &report.match_list {
        assert_eq!(m.blocks_before, 0);
        assert_eq!(m.blocks_after, 0);
        assert_eq!(m.keep.file_index, 0);
        assert_eq!(m.new.file_index, 0);
        assert_eq!(m.keep.block_offset + 1, m.new.block_offset);
    }
}

#[test]
fn cross_file_sixteen_block_run_is_shared() {
    // two files with the same 16 distinct non-zero blocks: one confirmed run
    // of 16 blocks spanning both whole files, eligible for sharing.
    let contents: Vec<u8> = (1u8..=16).collect();
    let files = vec![file_of(&contents), file_of(&contents)];
    let report = scan(&files, false);
    assert_eq!(report.match_count, 1);
    assert_eq!(report.total_matched_blocks, 16);
    let m = &report.match_list[0];
    assert_eq!(m.keep.file_index, 0);
    assert_eq!(m.new.file_index, 1);
    assert_eq!(m.keep.block_offset, m.new.block_offset);
    assert_eq!(m.blocks_before + 1 + m.blocks_after, 16);
    assert_eq!(
        report.requests,
        vec![SharedExtentRequest {
            src_file: 0,
            src_block: 0,
            dest_file: 1,
            dest_block: 0,
            block_count: 16,
        }]
    );
}

#[test]
fn fifteen_block_run_is_not_shared() {
    // the same shape one block shorter: the run is confirmed and counted but
    // stays below the threshold, so no request is emitted.
    let contents: Vec<u8> = (1u8..=15).collect();
    let files = vec![file_of(&contents), file_of(&contents)];
    let report = scan(&files, false);
    assert_eq!(report.match_count, 1);
    assert_eq!(report.total_matched_blocks, 15);
    assert!(report.requests.is_empty());
}

#[test]
fn identical_block_files_match_one_block_at_a_time() {
    // two files, each the same non-zero block 16 times. The index holds only
    // the most recent occurrence of the checksum and the self-overlap rule
    // caps same-file extension, so every confirmed run has length one: 15
    // matches inside the first file, 16 while scanning the second.
    let files = vec![file_of(&[9u8; 16]), file_of(&[9u8; 16])];
    let report = scan(&files, false);
    assert_eq!(report.match_count, 31);
    assert_eq!(report.total_matched_blocks, 31);
    assert!(report.requests.is_empty());
}

#[test]
fn zero_blocks_never_match() {
    // an all-zero block followed by content repeated block-aligned later in
    // the file: the zero blocks are never indexed and never matched, even
    // though two all-zero blocks exist, and backward extension of the content
    // match stops at the hole.
    let zero = block(0);
    let content = block(7);
    let files = vec![FileData {
        blocks: vec![zero.clone(), content.clone(), zero.clone(), content.clone()],
    }];
    let report = scan(&files, false);
    assert_eq!(report.match_count, 1);
    assert_eq!(report.total_matched_blocks, 1);
    let m = &report.match_list[0];
    assert_eq!(m.keep, BlockAddress { file_index: 0, block_offset: 1 });
    assert_eq!(m.new, BlockAddress { file_index: 0, block_offset: 3 });
    assert_eq!(m.blocks_before, 0);
    assert_eq!(m.blocks_after, 0);
    for m in &report.match_list {
        let f = &files[m.keep.file_index];
        for d in 0..(m.blocks_before + 1 + m.blocks_after) {
            let b = m.keep.block_offset - m.blocks_before + d;
            assert!(f.blocks[b].iter().any(|x| *x != 0));
        }
    }
}

#[test]
fn simulate_mode_emits_no_requests() {
    let contents: Vec<u8> = (1u8..=16).collect();
    let files = vec![file_of(&contents), file_of(&contents)];
    let report = scan(&files, true);
    assert_eq!(report.match_count, 1);
    assert_eq!(report.total_matched_blocks, 16);
    assert!(report.requests.is_empty());
}

#[test]
fn simulate_mode_is_idempotent() {
    // the scan mutates nothing, so running it twice over the same data gives
    // the same report, match for match.
    let contents: Vec<u8> = (1u8..=16).collect();
    let files = vec![file_of(&contents), file_of(&contents)];
    let first = scan(&files, true);
    let second = scan(&files, true);
    assert_eq!(first, second);
}

#[test]
fn simulate_preserves_detection() {
    // the flag only disables the requests: the matches and totals of a
    // simulate pass equal those of a live pass over the same data.
    let contents: Vec<u8> = (1u8..=16).collect();
    let files = vec![file_of(&contents), file_of(&contents)];
    let sim = scan(&files, true);
    let live = scan(&files, false);
    assert_eq!(sim.match_list, live.match_list);
    assert_eq!(sim.match_count, live.match_count);
    assert_eq!(sim.total_matched_blocks, live.total_matched_blocks);
    assert!(sim.requests.is_empty());
    assert_eq!(live.requests.len(), 1);
}

#[test]
fn false_collision_reports_zero_blocks() {
    // a candidate pair whose bytes differ is a false collision: zero matched
    // blocks, no extension, no request.
    let files = vec![FileData { blocks: vec![block(1), block(2)] }];
    let keep = BlockAddress { file_index: 0, block_offset: 0 };
    let new = BlockAddress { file_index: 0, block_offset: 1 };
    let r = try_dedupe_match(&files, keep, new, false);
    assert_eq!(r, (0, 0, None));
}

#[test]
fn confirmed_match_extends_both_ways() {
    // anchors in the middle of a three-block shared span, with differing
    // blocks on both flanks: one backward and one forward block are matched.
    let f0 = file_of(&[1, 11, 12, 13, 2]);
    let f1 = file_of(&[3, 11, 12, 13, 4]);
    let files = vec![f0, f1];
    let keep = BlockAddress { file_index: 0, block_offset: 2 };
    let new = BlockAddress { file_index: 1, block_offset: 2 };
    let r = try_dedupe_match(&files, keep, new, false);
    assert_eq!(r, (3, 1, None));
}

#[test]
fn same_file_extension_keeps_ranges_disjoint() {
    // four identical blocks in one file, anchors two apart: forward extension
    // stops after one block so the two reported ranges stay disjoint.
    let files = vec![file_of(&[5, 5, 5, 5])];
    let keep = BlockAddress { file_index: 0, block_offset: 0 };
    let new = BlockAddress { file_index: 0, block_offset: 2 };
    let r = try_dedupe_match(&files, keep, new, false);
    assert_eq!(r, (2, 1, None));
}

#[test]
fn extension_stops_at_file_end() {
    // the keep-side file ends one block after the anchor: forward extension
    // stops at its end, even though the new-side file goes on.
    let f0 = file_of(&[21, 22]);
    let f1 = file_of(&[20, 21, 22, 23]);
    let files = vec![f0, f1];
    let keep = BlockAddress { file_index: 0, block_offset: 0 };
    let new = BlockAddress { file_index: 1, block_offset: 1 };
    let r = try_dedupe_match(&files, keep, new, false);
    assert_eq!(r, (2, 1, None));
}
