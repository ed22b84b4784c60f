use vstd::prelude::*;
use crate::block::{
    BLOCK_SIZE, BlockAddress, FileData, addr_ok, all_zero, block_at, blocks_equal, earlier,
    files_wf, min2,
};
use crate::checksum::{crc64, is_hole};

verus! {

/// The shortest confirmed run for which a shared-extent request is issued;
/// shorter runs are only counted in the statistics.
pub const DEDUP_THRESHOLD_BLOCKS: usize = 16;

/// One confirmed match: the anchor pair the hash index produced, plus how far
/// the run of identical blocks extends backward and forward from the anchors.
/// The full run covers blocks `keep.block_offset - blocks_before` up to
/// `keep.block_offset + blocks_after` against the same-shaped range at `new`.
#[derive(Clone, Copy, Debug, PartialEq, Eq, Structural)]
pub struct MatchResult {
    pub keep: BlockAddress,
    pub new: BlockAddress,
    pub blocks_before: usize,
    pub blocks_after: usize,
}

/// Total length of a confirmed run in blocks.
pub open spec fn run_length(m: MatchResult) -> int {
    m.blocks_before + 1 + m.blocks_after
}

/// A request that the storage of `block_count` blocks starting at block
/// `dest_block` of file `dest_file` become a shared reference to the range of
/// the same length starting at block `src_block` of file `src_file`.
#[derive(Clone, Copy, Debug, PartialEq, Eq, Structural)]
pub struct SharedExtentRequest {
    pub src_file: usize,
    pub src_block: usize,
    pub dest_file: usize,
    pub dest_block: usize,
    pub block_count: usize,
}

/// The request that a confirmed match gives rise to: the two full runs, with
/// the earlier location as the source whose storage is kept.
pub open spec fn request_of(m: MatchResult) -> SharedExtentRequest {
    SharedExtentRequest {
        src_file: m.keep.file_index,
        src_block: (m.keep.block_offset - m.blocks_before) as usize,
        dest_file: m.new.file_index,
        dest_block: (m.new.block_offset - m.blocks_before) as usize,
        block_count: (m.blocks_before + 1 + m.blocks_after) as usize,
    }
}

/// How far backward extension may reach at most: not before the start of
/// either file, and, when both anchors lie in one file, not so far that the
/// two ranges would cease to be disjoint.
pub open spec fn back_limit(keep: BlockAddress, new: BlockAddress) -> int {
    let base = min2(keep.block_offset as int, new.block_offset as int);
    if keep.file_index == new.file_index {
        min2(base, new.block_offset - keep.block_offset - 1)
    } else {
        base
    }
}

/// How far forward extension may reach at most: within the whole blocks of
/// both files, and, in the same-file case, keeping the two ranges disjoint
/// after `before` blocks were already consumed backward.
pub open spec fn fwd_limit(
    files: Seq<FileData>,
    keep: BlockAddress,
    new: BlockAddress,
    before: int,
) -> int {
    let base = min2(
        files[keep.file_index as int]@.len() - 1 - keep.block_offset,
        files[new.file_index as int]@.len() - 1 - new.block_offset,
    );
    if keep.file_index == new.file_index {
        min2(base, new.block_offset - keep.block_offset - 1 - before)
    } else {
        base
    }
}

/// The pair of blocks at signed distance `d` from the two anchors matches:
/// their bytes are identical and the keep-side block is not a hole.
pub open spec fn pair_matched(
    files: Seq<FileData>,
    keep: BlockAddress,
    new: BlockAddress,
    d: int,
) -> bool {
    &&& block_at(files, keep.file_index as int, keep.block_offset + d) == block_at(
        files,
        new.file_index as int,
        new.block_offset + d,
    )
    &&& !is_hole(block_at(files, keep.file_index as int, keep.block_offset + d))
}

/// The keep-side block at signed distance `d` from the keep anchor is not all
/// zero. (Wherever extension matched a pair, the scan also knows the block is
/// not an all-zero block, because its checksum was seen to be non-zero.)
pub open spec fn keep_side_not_zero(files: Seq<FileData>, keep: BlockAddress, d: int) -> bool {
    !all_zero(block_at(files, keep.file_index as int, keep.block_offset + d))
}

/// Everything the engine guarantees of a confirmed match: the anchors are
/// valid and ordered by scan, both extents stay inside their bounds, every
/// block pair across the whole run is byte-identical and hole-free, no block
/// of the run is all zero, and the run is maximal: wherever extension stopped
/// short of its bound, the next block pair is a hole or differs.
pub open spec fn confirmed_match_ok(files: Seq<FileData>, m: MatchResult) -> bool {
    &&& addr_ok(files, m.keep)
    &&& addr_ok(files, m.new)
    &&& earlier(m.keep, m.new)
    &&& m.blocks_before <= back_limit(m.keep, m.new)
    &&& m.blocks_after <= fwd_limit(files, m.keep, m.new, m.blocks_before as int)
    &&& forall|d: int|
        -(m.blocks_before as int) <= d <= m.blocks_after as int ==> #[trigger] pair_matched(
            files,
            m.keep,
            m.new,
            d,
        )
    &&& forall|d: int|
        -(m.blocks_before as int) <= d <= m.blocks_after as int
            ==> #[trigger] keep_side_not_zero(files, m.keep, d)
    &&& (m.blocks_before < back_limit(m.keep, m.new) ==> !pair_matched(
        files,
        m.keep,
        m.new,
        -(m.blocks_before as int) - 1,
    ))
    &&& (m.blocks_after < fwd_limit(files, m.keep, m.new, m.blocks_before as int)
        ==> !pair_matched(files, m.keep, m.new, m.blocks_after + 1))
}

/// Where backward extension stops when it already matched `b` blocks: at the
/// backward bound, or at the first greater distance whose block pair is a
/// hole or differs.
pub open spec fn spec_back_from(
    files: Seq<FileData>,
    keep: BlockAddress,
    new: BlockAddress,
    b: int,
) -> int
    decreases back_limit(keep, new) - b,
{
    if b >= back_limit(keep, new) {
        back_limit(keep, new)
    } else if !pair_matched(files, keep, new, -(b + 1)) {
        b
    } else {
        spec_back_from(files, keep, new, b + 1)
    }
}

/// The number of backward blocks extension matches, as a function of the data
/// alone.
pub open spec fn spec_blocks_before(
    files: Seq<FileData>,
    keep: BlockAddress,
    new: BlockAddress,
) -> int {
    spec_back_from(files, keep, new, 0)
}

/// Where forward extension stops when it already matched `a` blocks: at the
/// forward bound, or at the first greater distance whose block pair is a hole
/// or differs.
pub open spec fn spec_fwd_from(
    files: Seq<FileData>,
    keep: BlockAddress,
    new: BlockAddress,
    before: int,
    a: int,
) -> int
    decreases fwd_limit(files, keep, new, before) - a,
{
    if a >= fwd_limit(files, keep, new, before) {
        fwd_limit(files, keep, new, before)
    } else if !pair_matched(files, keep, new, a + 1) {
        a
    } else {
        spec_fwd_from(files, keep, new, before, a + 1)
    }
}

/// The number of forward blocks extension matches after `before` backward
/// ones, as a function of the data alone.
pub open spec fn spec_blocks_behind(
    files: Seq<FileData>,
    keep: BlockAddress,
    new: BlockAddress,
    before: int,
) -> int {
    spec_fwd_from(files, keep, new, before, 0)
}

/// Law (zero-block exclusion): no confirmed match's reported span contains an
/// all-zero block, on either side of the match.
pub proof fn lemma_zero_block_exclusion(files: Seq<FileData>, m: MatchResult, d: int)
    requires
        confirmed_match_ok(files, m),
        -(m.blocks_before as int) <= d <= m.blocks_after as int,
    ensures
        !all_zero(block_at(files, m.keep.file_index as int, m.keep.block_offset + d)),
        !all_zero(block_at(files, m.new.file_index as int, m.new.block_offset + d)),
{
    assert(keep_side_not_zero(files, m.keep, d));
    assert(pair_matched(files, m.keep, m.new, d));
}

/// Law (verification soundness): over the whole reported span of a confirmed
/// match, the bytes at `keep` equal the bytes at `new`, byte for byte.
pub proof fn lemma_verification_soundness(files: Seq<FileData>, m: MatchResult, d: int, i: int)
    requires
        confirmed_match_ok(files, m),
        -(m.blocks_before as int) <= d <= m.blocks_after as int,
        0 <= i < block_at(files, m.keep.file_index as int, m.keep.block_offset + d).len(),
    ensures
        block_at(files, m.keep.file_index as int, m.keep.block_offset + d)[i] == block_at(
            files,
            m.new.file_index as int,
            m.new.block_offset + d,
        )[i],
{
    assert(pair_matched(files, m.keep, m.new, d));
}

/// Law (maximality): extending a confirmed match's run by one more block in
/// either direction, inside the file bounds and the self-overlap bound, meets
/// a hole or a pair of blocks whose bytes differ.
pub proof fn lemma_maximality(files: Seq<FileData>, m: MatchResult)
    requires
        confirmed_match_ok(files, m),
    ensures
        m.blocks_before < back_limit(m.keep, m.new) ==> {
            let d = -(m.blocks_before as int) - 1;
            ||| is_hole(block_at(files, m.keep.file_index as int, m.keep.block_offset + d))
            ||| block_at(files, m.keep.file_index as int, m.keep.block_offset + d) != block_at(
                files,
                m.new.file_index as int,
                m.new.block_offset + d,
            )
        },
        m.blocks_after < fwd_limit(files, m.keep, m.new, m.blocks_before as int) ==> {
            let d = m.blocks_after as int + 1;
            ||| is_hole(block_at(files, m.keep.file_index as int, m.keep.block_offset + d))
            ||| block_at(files, m.keep.file_index as int, m.keep.block_offset + d) != block_at(
                files,
                m.new.file_index as int,
                m.new.block_offset + d,
            )
        },
{
}

/// Law (self-overlap safety): when both anchors lie in one file, the two
/// reported runs never overlap — the keep-side range of blocks, and hence of
/// bytes, ends strictly before the new-side range begins.
pub proof fn lemma_self_overlap_safety(files: Seq<FileData>, m: MatchResult)
    requires
        confirmed_match_ok(files, m),
        m.keep.file_index == m.new.file_index,
    ensures
        m.keep.block_offset + m.blocks_after < m.new.block_offset - m.blocks_before,
        (m.keep.block_offset + m.blocks_after + 1) * BLOCK_SIZE <= (m.new.block_offset
            - m.blocks_before) * BLOCK_SIZE,
{
    vstd::arithmetic::mul::lemma_mul_inequality(
        m.keep.block_offset + m.blocks_after + 1,
        m.new.block_offset - m.blocks_before,
        BLOCK_SIZE as int,
    );
}

/// Search backward from the two anchors: for increasing distance, the blocks
/// `keep - d` and `new - d` are compared until a bound is reached, the
/// keep-side block is a hole, or the bytes differ. Returns the count of
/// matched backward blocks.
pub fn find_matching_blocks_before(
    files: &Vec<FileData>,
    keep: BlockAddress,
    new: BlockAddress,
) -> (before: usize)
    requires
        files_wf(files@),
        addr_ok(files@, keep),
        addr_ok(files@, new),
        earlier(keep, new),
    ensures
        before <= back_limit(keep, new),
        forall|d: int|
            -(before as int) <= d <= -1 ==> #[trigger] pair_matched(files@, keep, new, d),
        forall|d: int|
            -(before as int) <= d <= -1 ==> #[trigger] keep_side_not_zero(files@, keep, d),
        before < back_limit(keep, new) ==> !pair_matched(files@, keep, new, -(before as int) - 1),
        before as int == spec_blocks_before(files@, keep, new),
{
    let mut max_before: usize = if keep.block_offset < new.block_offset {
        keep.block_offset
    } else {
        new.block_offset
    };
    if keep.file_index == new.file_index {
        let gap = new.block_offset - keep.block_offset - 1;
        if gap < max_before {
            max_before = gap;
        }
    }
    let mut before: usize = 0;
    while before < max_before
        invariant
            files_wf(files@),
            addr_ok(files@, keep),
            addr_ok(files@, new),
            earlier(keep, new),
            max_before as int == back_limit(keep, new),
            before <= max_before,
            forall|d: int|
                -(before as int) <= d <= -1 ==> #[trigger] pair_matched(files@, keep, new, d),
            forall|d: int|
                -(before as int) <= d <= -1 ==> #[trigger] keep_side_not_zero(files@, keep, d),
            spec_blocks_before(files@, keep, new) == spec_back_from(
                files@,
                keep,
                new,
                before as int,
            ),
        decreases max_before - before,
    {
        let d = before + 1;
        let keep_block = &files[keep.file_index].blocks[keep.block_offset - d];
        proof {
            assert(keep_block@ == block_at(
                files@,
                keep.file_index as int,
                keep.block_offset + (-(d as int)),
            ));
        }
        let checksum = crc64(keep_block);
        if checksum == 0 {
            return before;
        }
        let new_block = &files[new.file_index].blocks[new.block_offset - d];
        proof {
            assert(new_block@ == block_at(
                files@,
                new.file_index as int,
                new.block_offset + (-(d as int)),
            ));
        }
        if !blocks_equal(keep_block, new_block) {
            return before;
        }
        proof {
            assert(pair_matched(files@, keep, new, -(d as int)));
            assert(keep_side_not_zero(files@, keep, -(d as int)));
        }
        before = d;
    }
    before
}

/// Search forward from the two anchors: for increasing distance, the blocks
/// `keep + d` and `new + d` are compared until a bound is reached, the
/// keep-side block is a hole, or the bytes differ. Returns the count of
/// matched forward blocks.
pub fn find_matching_blocks_behind(
    files: &Vec<FileData>,
    keep: BlockAddress,
    new: BlockAddress,
    matching_before: usize,
) -> (behind: usize)
    requires
        files_wf(files@),
        addr_ok(files@, keep),
        addr_ok(files@, new),
        earlier(keep, new),
        matching_before <= back_limit(keep, new),
    ensures
        behind <= fwd_limit(files@, keep, new, matching_before as int),
        forall|d: int| 1 <= d <= behind ==> #[trigger] pair_matched(files@, keep, new, d),
        forall|d: int| 1 <= d <= behind ==> #[trigger] keep_side_not_zero(files@, keep, d),
        behind < fwd_limit(files@, keep, new, matching_before as int) ==> !pair_matched(
            files@,
            keep,
            new,
            behind as int + 1,
        ),
        behind as int == spec_blocks_behind(files@, keep, new, matching_before as int),
{
    let keep_len = files[keep.file_index].blocks.len();
    let new_len = files[new.file_index].blocks.len();
    let keep_remaining = keep_len - 1 - keep.block_offset;
    let new_remaining = new_len - 1 - new.block_offset;
    let mut max_behind: usize = if keep_remaining < new_remaining {
        keep_remaining
    } else {
        new_remaining
    };
    if keep.file_index == new.file_index {
        let gap = new.block_offset - keep.block_offset - 1 - matching_before;
        if gap < max_behind {
            max_behind = gap;
        }
    }
    let mut behind: usize = 0;
    while behind < max_behind
        invariant
            files_wf(files@),
            addr_ok(files@, keep),
            addr_ok(files@, new),
            earlier(keep, new),
            max_behind as int == fwd_limit(files@, keep, new, matching_before as int),
            keep_len == files@[keep.file_index as int]@.len(),
            new_len == files@[new.file_index as int]@.len(),
            keep.block_offset + max_behind < keep_len,
            new.block_offset + max_behind < new_len,
            behind <= max_behind,
            forall|d: int| 1 <= d <= behind ==> #[trigger] pair_matched(files@, keep, new, d),
            forall|d: int| 1 <= d <= behind ==> #[trigger] keep_side_not_zero(files@, keep, d),
            spec_blocks_behind(files@, keep, new, matching_before as int) == spec_fwd_from(
                files@,
                keep,
                new,
                matching_before as int,
                behind as int,
            ),
        decreases max_behind - behind,
    {
        let d = behind + 1;
        let keep_block = &files[keep.file_index].blocks[keep.block_offset + d];
        proof {
            assert(keep_block@ == block_at(
                files@,
                keep.file_index as int,
                keep.block_offset + d as int,
            ));
        }
        let checksum = crc64(keep_block);
        if checksum == 0 {
            return behind;
        }
        let new_block = &files[new.file_index].blocks[new.block_offset + d];
        proof {
            assert(new_block@ == block_at(
                files@,
                new.file_index as int,
                new.block_offset + d as int,
            ));
        }
        if !blocks_equal(keep_block, new_block) {
            return behind;
        }
        proof {
            assert(pair_matched(files@, keep, new, d as int));
            assert(keep_side_not_zero(files@, keep, d as int));
        }
        behind = d;
    }
    behind
}

/// Confirm a candidate hit and extend it. The anchor blocks are read and
/// compared byte for byte; differing bytes are a false collision and report
/// zero matched blocks. Equal anchors are extended backward and forward to
/// the maximal contiguous run, and a shared-extent request is produced
/// exactly when the run reaches the threshold and simulate mode is off.
///
/// Returns `(run, behind, request)`: the total run length in blocks, the
/// count of forward blocks the run consumed, and the request, if any.
pub fn try_dedupe_match(
    files: &Vec<FileData>,
    keep: BlockAddress,
    new: BlockAddress,
    simulate: bool,
) -> (r: (usize, usize, Option<SharedExtentRequest>))
    requires
        files_wf(files@),
        addr_ok(files@, keep),
        addr_ok(files@, new),
        earlier(keep, new),
        !is_hole(block_at(files@, keep.file_index as int, keep.block_offset as int)),
        !is_hole(block_at(files@, new.file_index as int, new.block_offset as int)),
        !all_zero(block_at(files@, keep.file_index as int, keep.block_offset as int)),
    ensures
        ({
            let anchors_equal = block_at(files@, keep.file_index as int, keep.block_offset as int)
                == block_at(files@, new.file_index as int, new.block_offset as int);
            &&& (!anchors_equal ==> r == (0usize, 0usize, None::<SharedExtentRequest>))
            &&& (anchors_equal ==> {
                let m = MatchResult {
                    keep,
                    new,
                    blocks_before: (r.0 - 1 - r.1) as usize,
                    blocks_after: r.1,
                };
                &&& r.0 >= 1
                &&& r.1 < r.0
                &&& r.1 == spec_blocks_behind(
                    files@,
                    keep,
                    new,
                    spec_blocks_before(files@, keep, new),
                )
                &&& r.0 == spec_blocks_before(files@, keep, new) + 1 + r.1
                &&& confirmed_match_ok(files@, m)
                &&& run_length(m) == r.0
                &&& r.2 == if r.0 >= DEDUP_THRESHOLD_BLOCKS && !simulate {
                    Some(request_of(m))
                } else {
                    None::<SharedExtentRequest>
                }
            })
        }),
{
    let keep_anchor = &files[keep.file_index].blocks[keep.block_offset];
    let new_anchor = &files[new.file_index].blocks[new.block_offset];
    proof {
        assert(keep_anchor@ == block_at(files@, keep.file_index as int, keep.block_offset as int));
        assert(new_anchor@ == block_at(files@, new.file_index as int, new.block_offset as int));
    }
    if !blocks_equal(keep_anchor, new_anchor) {
        return (0, 0, None);
    }
    let blocks_before = find_matching_blocks_before(files, keep, new);
    let blocks_behind = find_matching_blocks_behind(files, keep, new, blocks_before);
    let keep_len = files[keep.file_index].blocks.len();
    proof {
        assert(blocks_before <= keep.block_offset);
        assert(blocks_behind as int <= keep_len - 1 - keep.block_offset);
    }
    let run = blocks_before + 1 + blocks_behind;
    proof {
        let m = MatchResult { keep, new, blocks_before, blocks_after: blocks_behind };
        assert(pair_matched(files@, keep, new, 0));
        assert(keep_side_not_zero(files@, keep, 0));
        assert forall|d: int|
            -(m.blocks_before as int) <= d <= m.blocks_after as int implies #[trigger] pair_matched(
            files@,
            m.keep,
            m.new,
            d,
        ) by {}
        assert forall|d: int|
            -(m.blocks_before as int) <= d
                <= m.blocks_after as int implies #[trigger] keep_side_not_zero(
            files@,
            m.keep,
            d,
        ) by {}
        assert(confirmed_match_ok(files@, m));
    }
    let request = if run >= DEDUP_THRESHOLD_BLOCKS && !simulate {
        Some(
            SharedExtentRequest {
                src_file: keep.file_index,
                src_block: keep.block_offset - blocks_before,
                dest_file: new.file_index,
                dest_block: new.block_offset - blocks_before,
                block_count: run,
            },
        )
    } else {
        None
    };
    (run, blocks_behind, request)
}

} // verus!
