use vstd::prelude::*;
use crate::block::{BlockAddress, FileData, block_at, files_wf};
use crate::checksum::{crc64, crc64_of};
use crate::index::{BlockRecord, HashIndex, empty_table, index_ok, record_ok};
use crate::matching::{
    DEDUP_THRESHOLD_BLOCKS, MatchResult, SharedExtentRequest, confirmed_match_ok, request_of,
    run_length, spec_blocks_before, spec_blocks_behind, try_dedupe_match,
};

verus! {

/// The outcome of one whole scan pass: every confirmed match in scan order,
/// the shared-extent requests the eligible matches gave rise to, and the
/// running totals the report prints.
#[derive(Debug, Clone, PartialEq, Eq)]
pub struct ScanReport {
    pub match_count: u64,
    pub total_matched_blocks: u64,
    pub match_list: Vec<MatchResult>,
    pub requests: Vec<SharedExtentRequest>,
}

/// Number of whole blocks in the first `n` files of the list.
pub open spec fn total_block_count(files: Seq<FileData>, n: int) -> int
    decreases n,
{
    if n <= 0 {
        0
    } else {
        total_block_count(files, n - 1) + files[n - 1]@.len()
    }
}

proof fn lemma_total_block_count_monotonic(files: Seq<FileData>, n: int, m: int)
    requires
        0 <= n <= m,
    ensures
        total_block_count(files, n) <= total_block_count(files, m),
    decreases m,
{
    if n < m {
        lemma_total_block_count_monotonic(files, n, m - 1);
    }
}

/// Sum of the run lengths of all confirmed matches, in blocks.
pub open spec fn sum_run_lengths(list: Seq<MatchResult>) -> int
    decreases list.len(),
{
    if list.len() == 0 {
        0
    } else {
        sum_run_lengths(list.drop_last()) + run_length(list.last())
    }
}

proof fn lemma_sum_run_lengths_push(list: Seq<MatchResult>, m: MatchResult)
    ensures
        sum_run_lengths(list.push(m)) == sum_run_lengths(list) + run_length(m),
{
    assert(list.push(m).drop_last() =~= list);
    assert(list.push(m).last() == m);
}

/// A total clamped to what a 64-bit counter can hold.
pub open spec fn sat_u64(x: int) -> int {
    if x <= u64::MAX as int {
        x
    } else {
        u64::MAX as int
    }
}

/// The request stems from a confirmed match of the list whose run reaches the
/// sharing threshold.
pub open spec fn request_justified(list: Seq<MatchResult>, req: SharedExtentRequest) -> bool {
    exists|i: int|
        0 <= i < list.len() && run_length(#[trigger] list[i]) >= DEDUP_THRESHOLD_BLOCKS as int
            && req == request_of(list[i]) && req.block_count == run_length(list[i])
}

/// The match's request was emitted.
pub open spec fn match_requested(requests: Seq<SharedExtentRequest>, m: MatchResult) -> bool {
    exists|j: int| 0 <= j < requests.len() && #[trigger] requests[j] == request_of(m)
}

/// The scan's whole state between two blocks, used to state what `scan`
/// computes as a mathematical function of the file contents alone: the hash
/// table, the skip counter, and the two result lists so far.
#[verifier::ext_equal]
pub struct ScanState {
    pub slots: Seq<BlockRecord>,
    pub skip: int,
    pub match_list: Seq<MatchResult>,
    pub requests: Seq<SharedExtentRequest>,
}

/// How the scan's state changes at one block: a hole is passed over entirely;
/// during a skip the counter falls and the block is only recorded; otherwise
/// a candidate whose slot holds the same checksum is confirmed and extended,
/// the match recorded, its request emitted when eligible, and the skip
/// counter set to the forward blocks the run consumed. The block itself is
/// recorded in every non-hole case.
pub open spec fn scan_step(
    files: Seq<FileData>,
    simulate: bool,
    st: ScanState,
    fi: int,
    bo: int,
) -> ScanState {
    let cur = BlockAddress { file_index: fi as usize, block_offset: bo as usize };
    let content = block_at(files, fi, bo);
    let checksum = crc64_of(content);
    if checksum == 0 {
        st
    } else {
        let slot = checksum as int % st.slots.len() as int;
        let rec = st.slots[slot];
        let checked = if st.skip > 0 {
            ScanState { skip: st.skip - 1, ..st }
        } else if rec.location is Some && rec.checksum == checksum {
            scan_step_candidate(files, simulate, st, rec, cur)
        } else {
            st
        };
        ScanState {
            slots: checked.slots.update(
                slot,
                BlockRecord { checksum, location: Some(cur) },
            ),
            ..checked
        }
    }
}

/// The state change of a candidate hit: nothing but the recording when the
/// bytes differ (a false collision); else the confirmed, extended match.
pub open spec fn scan_step_candidate(
    files: Seq<FileData>,
    simulate: bool,
    st: ScanState,
    rec: BlockRecord,
    cur: BlockAddress,
) -> ScanState {
    match rec.location {
        None => st,
        Some(keep) => {
            if block_at(files, keep.file_index as int, keep.block_offset as int) != block_at(
                files,
                cur.file_index as int,
                cur.block_offset as int,
            ) {
                st
            } else {
                let before = spec_blocks_before(files, keep, cur);
                let after = spec_blocks_behind(files, keep, cur, before);
                let m = MatchResult {
                    keep,
                    new: cur,
                    blocks_before: before as usize,
                    blocks_after: after as usize,
                };
                ScanState {
                    slots: st.slots,
                    skip: after,
                    match_list: st.match_list.push(m),
                    requests: if run_length(m) >= DEDUP_THRESHOLD_BLOCKS as int && !simulate {
                        st.requests.push(request_of(m))
                    } else {
                        st.requests
                    },
                }
            }
        },
    }
}

/// The scan's state after the whole blocks `bo` and up of file `fi`.
pub open spec fn scan_file_model(
    files: Seq<FileData>,
    simulate: bool,
    st: ScanState,
    fi: int,
    bo: int,
) -> ScanState
    decreases files[fi]@.len() - bo,
{
    if bo >= files[fi]@.len() {
        st
    } else {
        scan_file_model(files, simulate, scan_step(files, simulate, st, fi, bo), fi, bo + 1)
    }
}

/// The scan's state after the files `fi` and up of the list. The skip counter
/// starts afresh with every file, and dies with the pass.
pub open spec fn scan_model(
    files: Seq<FileData>,
    simulate: bool,
    st: ScanState,
    fi: int,
) -> ScanState
    decreases files.len() - fi,
{
    if fi >= files.len() {
        ScanState { skip: 0, ..st }
    } else {
        scan_model(
            files,
            simulate,
            scan_file_model(files, simulate, ScanState { skip: 0, ..st }, fi, 0),
            fi + 1,
        )
    }
}

/// The state the scan starts from: one empty slot per whole block of the
/// input set (one slot when there is none), and nothing found yet.
pub open spec fn initial_scan_state(files: Seq<FileData>) -> ScanState {
    let total = total_block_count(files, files.len() as int);
    ScanState {
        slots: empty_table(if total == 0 { 1nat } else { total as nat }),
        skip: 0,
        match_list: Seq::empty(),
        requests: Seq::empty(),
    }
}

/// What the whole pass computes, as a function of the file contents and the
/// simulate flag alone.
pub open spec fn scan_result(files: Seq<FileData>, simulate: bool) -> ScanState {
    scan_model(files, simulate, initial_scan_state(files), 0)
}

/// Everything `scan` guarantees of its report: every listed match is a
/// confirmed, maximal, hole-free, byte-identical run; the totals agree with
/// the list; in simulate mode no request is emitted; every emitted request
/// stems from a listed match whose run reaches the threshold; and outside
/// simulate mode every listed match that reaches the threshold has its
/// request emitted.
pub open spec fn report_ok(files: Seq<FileData>, simulate: bool, r: ScanReport) -> bool {
    &&& forall|i: int|
        0 <= i < r.match_list@.len() ==> confirmed_match_ok(files, #[trigger] r.match_list@[i])
    &&& r.match_count == r.match_list@.len()
    &&& r.total_matched_blocks == sat_u64(sum_run_lengths(r.match_list@))
    &&& (simulate ==> r.requests@.len() == 0)
    &&& forall|j: int|
        0 <= j < r.requests@.len() ==> request_justified(r.match_list@, #[trigger] r.requests@[j])
    &&& (!simulate ==> forall|i: int|
        0 <= i < r.match_list@.len() && run_length(#[trigger] r.match_list@[i])
            >= DEDUP_THRESHOLD_BLOCKS as int ==> match_requested(r.requests@, r.match_list@[i]))
    &&& r.match_list@ == scan_result(files, simulate).match_list
    &&& r.requests@ == scan_result(files, simulate).requests
}

/// Law (simulate idempotence): the scan mutates nothing and its report is a
/// function of the file contents and the flag alone, so two simulate-mode
/// passes over the same data report the very same matches and totals, and
/// neither emits a shared-extent request.
pub proof fn lemma_simulate_idempotence(files: Seq<FileData>, r1: ScanReport, r2: ScanReport)
    requires
        report_ok(files, true, r1),
        report_ok(files, true, r2),
    ensures
        r1.match_list@ == r2.match_list@,
        r1.match_count == r2.match_count,
        r1.total_matched_blocks == r2.total_matched_blocks,
        r1.requests@.len() == 0,
        r2.requests@.len() == 0,
{
}

proof fn lemma_step_ignores_flag(
    files: Seq<FileData>,
    st1: ScanState,
    st2: ScanState,
    fi: int,
    bo: int,
)
    requires
        st1.slots == st2.slots,
        st1.skip == st2.skip,
        st1.match_list == st2.match_list,
    ensures
        scan_step(files, true, st1, fi, bo).slots == scan_step(files, false, st2, fi, bo).slots,
        scan_step(files, true, st1, fi, bo).skip == scan_step(files, false, st2, fi, bo).skip,
        scan_step(files, true, st1, fi, bo).match_list == scan_step(
            files,
            false,
            st2,
            fi,
            bo,
        ).match_list,
{
}

proof fn lemma_file_model_ignores_flag(
    files: Seq<FileData>,
    st1: ScanState,
    st2: ScanState,
    fi: int,
    bo: int,
)
    requires
        st1.slots == st2.slots,
        st1.skip == st2.skip,
        st1.match_list == st2.match_list,
    ensures
        scan_file_model(files, true, st1, fi, bo).slots == scan_file_model(
            files,
            false,
            st2,
            fi,
            bo,
        ).slots,
        scan_file_model(files, true, st1, fi, bo).skip == scan_file_model(
            files,
            false,
            st2,
            fi,
            bo,
        ).skip,
        scan_file_model(files, true, st1, fi, bo).match_list == scan_file_model(
            files,
            false,
            st2,
            fi,
            bo,
        ).match_list,
    decreases files[fi]@.len() - bo,
{
    if bo < files[fi]@.len() {
        lemma_step_ignores_flag(files, st1, st2, fi, bo);
        lemma_file_model_ignores_flag(
            files,
            scan_step(files, true, st1, fi, bo),
            scan_step(files, false, st2, fi, bo),
            fi,
            bo + 1,
        );
    }
}

proof fn lemma_model_ignores_flag(files: Seq<FileData>, st1: ScanState, st2: ScanState, fi: int)
    requires
        st1.slots == st2.slots,
        st1.match_list == st2.match_list,
    ensures
        scan_model(files, true, st1, fi).slots == scan_model(files, false, st2, fi).slots,
        scan_model(files, true, st1, fi).skip == scan_model(files, false, st2, fi).skip,
        scan_model(files, true, st1, fi).match_list == scan_model(
            files,
            false,
            st2,
            fi,
        ).match_list,
    decreases files.len() - fi,
{
    if fi < files.len() {
        lemma_file_model_ignores_flag(
            files,
            ScanState { skip: 0, ..st1 },
            ScanState { skip: 0, ..st2 },
            fi,
            0,
        );
        lemma_model_ignores_flag(
            files,
            scan_file_model(files, true, ScanState { skip: 0, ..st1 }, fi, 0),
            scan_file_model(files, false, ScanState { skip: 0, ..st2 }, fi, 0),
            fi + 1,
        );
    }
}

/// Law (simulate preserves detection): the simulate flag only disables the
/// shared-extent requests; the matches the pass detects, and therefore the
/// totals it reports, are exactly those of a live pass over the same data.
pub proof fn lemma_simulate_preserves_detection(
    files: Seq<FileData>,
    r_sim: ScanReport,
    r_live: ScanReport,
)
    requires
        report_ok(files, true, r_sim),
        report_ok(files, false, r_live),
    ensures
        r_sim.match_list@ == r_live.match_list@,
        r_sim.match_count == r_live.match_count,
        r_sim.total_matched_blocks == r_live.total_matched_blocks,
        r_sim.requests@.len() == 0,
{
    lemma_model_ignores_flag(files, initial_scan_state(files), initial_scan_state(files), 0);
}

/// Law (threshold gating): in a scan report, every emitted request covers at
/// least the threshold number of blocks — a shorter confirmed run never
/// triggers one — and, outside simulate mode, every confirmed run that
/// reaches the threshold has its request emitted.
pub proof fn lemma_threshold_gating(files: Seq<FileData>, simulate: bool, r: ScanReport)
    requires
        report_ok(files, simulate, r),
    ensures
        forall|j: int|
            0 <= j < r.requests@.len() ==> (#[trigger] r.requests@[j]).block_count
                >= DEDUP_THRESHOLD_BLOCKS,
        !simulate ==> forall|i: int|
            0 <= i < r.match_list@.len() && run_length(#[trigger] r.match_list@[i])
                >= DEDUP_THRESHOLD_BLOCKS as int ==> match_requested(r.requests@, r.match_list@[i]),
{
    assert forall|j: int|
        0 <= j < r.requests@.len() implies (#[trigger] r.requests@[j]).block_count
        >= DEDUP_THRESHOLD_BLOCKS by {
        assert(request_justified(r.match_list@, r.requests@[j]));
        let i = choose|i: int|
            0 <= i < r.match_list@.len() && run_length(#[trigger] r.match_list@[i])
                >= DEDUP_THRESHOLD_BLOCKS as int && r.requests@[j] == request_of(r.match_list@[i])
                && r.requests@[j].block_count == run_length(r.match_list@[i]);
    }
}

/// One whole forward pass over every whole block of every file, in catalog
/// order. Each non-hole block's checksum is looked up in the index and the
/// block is then recorded there, holes are passed over entirely, candidate
/// hits are confirmed and extended, and the blocks a confirmed run consumed
/// forward are not re-examined as fresh candidates (they are still recorded).
/// The report is exactly what the scan model computes of the file contents.
pub fn scan(files: &Vec<FileData>, simulate: bool) -> (r: ScanReport)
    requires
        files_wf(files@),
        total_block_count(files@, files@.len() as int) <= usize::MAX,
    ensures
        report_ok(files@, simulate, r),
{
    // one slot per whole block of the entire input set
    let mut total: usize = 0;
    let mut fi: usize = 0;
    while fi < files.len()
        invariant
            fi <= files@.len(),
            total as int == total_block_count(files@, fi as int),
            total_block_count(files@, files@.len() as int) <= usize::MAX,
        decreases files@.len() - fi,
    {
        proof {
            lemma_total_block_count_monotonic(files@, fi as int + 1, files@.len() as int);
        }
        total = total + files[fi].blocks.len();
        fi += 1;
    }

    let mut index = HashIndex::new(total);
    let mut match_list: Vec<MatchResult> = Vec::new();
    let mut requests: Vec<SharedExtentRequest> = Vec::new();
    let mut total_matched: u64 = 0;

    proof {
        let st0 = ScanState {
            slots: index.slots@,
            skip: 0,
            match_list: match_list@,
            requests: requests@,
        };
        assert(st0 =~= initial_scan_state(files@));
    }

    let mut file_index: usize = 0;
    while file_index < files.len()
        invariant
            files_wf(files@),
            file_index <= files@.len(),
            index.wf(),
            index_ok(files@, index.slots@, BlockAddress { file_index, block_offset: 0 }),
            forall|i: int|
                0 <= i < match_list@.len() ==> confirmed_match_ok(
                    files@,
                    #[trigger] match_list@[i],
                ),
            total_matched as int == sat_u64(sum_run_lengths(match_list@)),
            simulate ==> requests@.len() == 0,
            forall|j: int|
                0 <= j < requests@.len() ==> request_justified(
                    match_list@,
                    #[trigger] requests@[j],
                ),
            !simulate ==> forall|i: int|
                0 <= i < match_list@.len() && run_length(#[trigger] match_list@[i])
                    >= DEDUP_THRESHOLD_BLOCKS as int ==> match_requested(
                    requests@,
                    match_list@[i],
                ),
            scan_model(
                files@,
                simulate,
                ScanState {
                    slots: index.slots@,
                    skip: 0,
                    match_list: match_list@,
                    requests: requests@,
                },
                file_index as int,
            ) == scan_result(files@, simulate),
        decreases files@.len() - file_index,
    {
        let file_blocks = files[file_index].blocks.len();
        let mut block_offset: usize = 0;
        let mut skip_match_check: usize = 0;
        proof {
            let st0 = ScanState {
                slots: index.slots@,
                skip: 0,
                match_list: match_list@,
                requests: requests@,
            };
            assert(ScanState { skip: 0, ..st0 } =~= st0);
            assert(scan_model(files@, simulate, st0, file_index as int) == scan_model(
                files@,
                simulate,
                scan_file_model(files@, simulate, st0, file_index as int, 0),
                file_index as int + 1,
            ));
        }
        while block_offset < file_blocks
            invariant
                files_wf(files@),
                file_index < files@.len(),
                file_blocks == files@[file_index as int]@.len(),
                block_offset <= file_blocks,
                index.wf(),
                index_ok(files@, index.slots@, BlockAddress { file_index, block_offset }),
                forall|i: int|
                    0 <= i < match_list@.len() ==> confirmed_match_ok(
                        files@,
                        #[trigger] match_list@[i],
                    ),
                total_matched as int == sat_u64(sum_run_lengths(match_list@)),
                simulate ==> requests@.len() == 0,
                forall|j: int|
                    0 <= j < requests@.len() ==> request_justified(
                        match_list@,
                        #[trigger] requests@[j],
                    ),
                !simulate ==> forall|i: int|
                    0 <= i < match_list@.len() && run_length(#[trigger] match_list@[i])
                        >= DEDUP_THRESHOLD_BLOCKS as int ==> match_requested(
                        requests@,
                        match_list@[i],
                    ),
                scan_model(
                    files@,
                    simulate,
                    scan_file_model(
                        files@,
                        simulate,
                        ScanState {
                            slots: index.slots@,
                            skip: skip_match_check as int,
                            match_list: match_list@,
                            requests: requests@,
                        },
                        file_index as int,
                        block_offset as int,
                    ),
                    file_index as int + 1,
                ) == scan_result(files@, simulate),
            decreases file_blocks - block_offset,
        {
            let ghost st_entry = ScanState {
                slots: index.slots@,
                skip: skip_match_check as int,
                match_list: match_list@,
                requests: requests@,
            };
            let ghost st_after = scan_step(
                files@,
                simulate,
                st_entry,
                file_index as int,
                block_offset as int,
            );
            let cur = BlockAddress { file_index, block_offset };
            let block = &files[file_index].blocks[block_offset];
            proof {
                assert(block@ == block_at(files@, file_index as int, block_offset as int));
            }
            let checksum = crc64(block);
            if checksum != 0 {
                proof {
                    assert(st_after.slots == st_entry.slots.update(
                        checksum as int % st_entry.slots.len() as int,
                        BlockRecord { checksum, location: Some(cur) },
                    ));
                }
                if skip_match_check > 0 {
                    skip_match_check -= 1;
                    proof {
                        assert(st_after.skip == skip_match_check as int);
                        assert(st_after.match_list == match_list@);
                        assert(st_after.requests == requests@);
                    }
                } else {
                    let candidate = index.lookup(checksum);
                    proof {
                        let s = index.slot_of(checksum);
                        assert(record_ok(files@, index.slots@[s], cur));
                    }
                    match candidate {
                        Some(keep) => {
                            let (run, behind, request) = try_dedupe_match(
                                files,
                                keep,
                                cur,
                                simulate,
                            );
                            if run > 0 {
                                let m = MatchResult {
                                    keep,
                                    new: cur,
                                    blocks_before: run - 1 - behind,
                                    blocks_after: behind,
                                };
                                proof {
                                    lemma_sum_run_lengths_push(match_list@, m);
                                    assert forall|j: int|
                                        0 <= j < requests@.len() implies request_justified(
                                        match_list@.push(m),
                                        #[trigger] requests@[j],
                                    ) by {
                                        let i = choose|i: int|
                                            0 <= i < match_list@.len() && run_length(
                                                #[trigger] match_list@[i],
                                            ) >= DEDUP_THRESHOLD_BLOCKS as int && requests@[j]
                                                == request_of(match_list@[i])
                                                && requests@[j].block_count == run_length(
                                                match_list@[i],
                                            );
                                        assert(match_list@.push(m)[i] == match_list@[i]);
                                        assert(run_length(match_list@.push(m)[i])
                                            >= DEDUP_THRESHOLD_BLOCKS as int);
                                    }
                                }
                                match_list.push(m);
                                let run64 = run as u64;
                                total_matched = if total_matched <= u64::MAX - run64 {
                                    total_matched + run64
                                } else {
                                    u64::MAX
                                };
                                if let Some(q) = request {
                                    proof {
                                        assert forall|i: int|
                                            0 <= i < match_list@.len() && run_length(
                                                #[trigger] match_list@[i],
                                            ) >= DEDUP_THRESHOLD_BLOCKS as int
                                                && !simulate implies match_requested(
                                            requests@.push(q),
                                            match_list@[i],
                                        ) by {
                                            if i < match_list@.len() - 1 {
                                                if match_requested(requests@, match_list@[i]) {
                                                    let j = choose|j: int|
                                                        0 <= j < requests@.len()
                                                            && #[trigger] requests@[j]
                                                            == request_of(match_list@[i]);
                                                    assert(requests@.push(q)[j] == request_of(
                                                        match_list@[i],
                                                    ));
                                                }
                                            } else {
                                                assert(requests@.push(q)[requests@.len() as int]
                                                    == request_of(m));
                                            }
                                        }
                                    }
                                    requests.push(q);
                                }
                                skip_match_check = behind;
                                proof {
                                    assert(st_after.skip == skip_match_check as int);
                                    assert(st_after.match_list == match_list@);
                                    assert(st_after.requests == requests@);
                                }
                            } else {
                                proof {
                                    assert(st_after.skip == skip_match_check as int);
                                    assert(st_after.match_list == match_list@);
                                    assert(st_after.requests == requests@);
                                }
                            }
                        },
                        None => {
                            proof {
                                assert(st_after.skip == skip_match_check as int);
                                assert(st_after.match_list == match_list@);
                                assert(st_after.requests == requests@);
                            }
                        },
                    }
                }
                index.insert(checksum, cur);
            } else {
                proof {
                    assert(st_after =~= st_entry);
                }
            }
            proof {
                let st_now = ScanState {
                    slots: index.slots@,
                    skip: skip_match_check as int,
                    match_list: match_list@,
                    requests: requests@,
                };
                assert(st_now =~= st_after);
                assert(scan_file_model(
                    files@,
                    simulate,
                    st_entry,
                    file_index as int,
                    block_offset as int,
                ) == scan_file_model(
                    files@,
                    simulate,
                    st_now,
                    file_index as int,
                    block_offset as int + 1,
                ));
                let next = BlockAddress {
                    file_index,
                    block_offset: (block_offset + 1) as usize,
                };
                assert forall|s: int| 0 <= s < index.slots@.len() implies record_ok(
                    files@,
                    #[trigger] index.slots@[s],
                    next,
                ) by {}
            }
            block_offset += 1;
        }
        proof {
            let st_in = ScanState {
                slots: index.slots@,
                skip: skip_match_check as int,
                match_list: match_list@,
                requests: requests@,
            };
            let st_out = ScanState {
                slots: index.slots@,
                skip: 0,
                match_list: match_list@,
                requests: requests@,
            };
            assert(scan_file_model(
                files@,
                simulate,
                st_in,
                file_index as int,
                block_offset as int,
            ) == st_in);
            assert(ScanState { skip: 0, ..st_in } =~= ScanState { skip: 0, ..st_out });
            assert(scan_model(files@, simulate, st_in, file_index as int + 1) == scan_model(
                files@,
                simulate,
                st_out,
                file_index as int + 1,
            ));
            let next = BlockAddress { file_index: (file_index + 1) as usize, block_offset: 0 };
            assert forall|s: int| 0 <= s < index.slots@.len() implies record_ok(
                files@,
                #[trigger] index.slots@[s],
                next,
            ) by {}
        }
        file_index += 1;
    }
    proof {
        let st = ScanState {
            slots: index.slots@,
            skip: 0,
            match_list: match_list@,
            requests: requests@,
        };
        assert(scan_model(files@, simulate, st, file_index as int) == ScanState {
            skip: 0,
            ..st
        });
        assert(st =~= ScanState { skip: 0, ..st });
    }
    let match_count = match_list.len() as u64;
    ScanReport { match_count, total_matched_blocks: total_matched, match_list, requests }
}

} // verus!

