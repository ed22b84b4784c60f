use vstd::prelude::*;
use crate::block::{BlockAddress, FileData, addr_ok, all_zero, block_at, earlier};
use crate::checksum::crc64_of;

verus! {

/// One slot of the hash index. `location == None` means the slot has never
/// been written. A filled slot holds the checksum that was computed for the
/// block at `location` when it was written; a later colliding block simply
/// overwrites the slot, so a hit is only ever a candidate and must be
/// confirmed against real bytes.
#[derive(Clone, Copy, Debug)]
pub struct BlockRecord {
    pub checksum: u64,
    pub location: Option<BlockAddress>,
}

/// A table of the given size whose every slot has never been written.
pub open spec fn empty_table(size: nat) -> Seq<BlockRecord> {
    Seq::new(size, |i: int| BlockRecord { checksum: 0, location: None })
}

/// The fixed-size hash table: one slot per whole block of the entire input
/// set, keyed by `checksum mod table_size`. Collisions overwrite; the table
/// never chains, so lookups are only candidate generators.
pub struct HashIndex {
    pub slots: Vec<BlockRecord>,
}

impl HashIndex {
    pub open spec fn table_size(&self) -> nat {
        self.slots@.len()
    }

    pub open spec fn wf(&self) -> bool {
        self.table_size() >= 1
    }

    /// The slot that the given checksum maps to.
    pub open spec fn slot_of(&self, checksum: u64) -> int {
        checksum as int % self.table_size() as int
    }

    /// A table with one slot per block of the whole input set, all empty; a
    /// single slot when the input holds no whole block at all.
    pub fn new(total_blocks: usize) -> (r: HashIndex)
        ensures
            r.wf(),
            r.table_size() == if total_blocks == 0 { 1nat } else { total_blocks as nat },
            r.slots@ == empty_table(r.table_size()),
    {
        let size = if total_blocks == 0 { 1 } else { total_blocks };
        let mut slots: Vec<BlockRecord> = Vec::new();
        proof {
            assert(slots@ =~= empty_table(0));
        }
        let mut i: usize = 0;
        while i < size
            invariant
                i <= size,
                slots@ == empty_table(i as nat),
            decreases size - i,
        {
            slots.push(BlockRecord { checksum: 0, location: None });
            proof {
                assert(slots@ =~= empty_table(i as nat + 1));
            }
            i += 1;
        }
        HashIndex { slots }
    }

    /// The location recorded at the checksum's slot, or nothing when the slot
    /// is empty or holds a different checksum. A differing stored checksum is
    /// a genuine absence of a recorded candidate, not a miss due to chaining.
    pub fn lookup(&self, checksum: u64) -> (r: Option<BlockAddress>)
        requires
            self.wf(),
            checksum != 0,
        ensures
            r == ({
                let rec = self.slots@[self.slot_of(checksum)];
                if rec.location is Some && rec.checksum == checksum {
                    rec.location
                } else {
                    None::<BlockAddress>
                }
            }),
    {
        let slot = (checksum % (self.slots.len() as u64)) as usize;
        let rec = &self.slots[slot];
        match rec.location {
            Some(a) => {
                if rec.checksum == checksum {
                    Some(a)
                } else {
                    None
                }
            },
            None => None,
        }
    }

    /// Unconditionally overwrite the checksum's slot with the given location.
    pub fn insert(&mut self, checksum: u64, location: BlockAddress)
        requires
            old(self).wf(),
            checksum != 0,
        ensures
            final(self).wf(),
            final(self).table_size() == old(self).table_size(),
            final(self).slots@ == old(self).slots@.update(
                old(self).slot_of(checksum),
                BlockRecord { checksum, location: Some(location) },
            ),
    {
        let slot = (checksum % (self.slots.len() as u64)) as usize;
        self.slots[slot] = BlockRecord { checksum, location: Some(location) };
    }
}

/// What the scan maintains of every filled slot while its cursor stands at
/// `cur`: the recorded location lies strictly earlier in scan order, and the
/// recorded checksum is the (non-zero) checksum of the block that is actually
/// stored there, of a block that is not all zero.
pub open spec fn record_ok(files: Seq<FileData>, rec: BlockRecord, cur: BlockAddress) -> bool {
    match rec.location {
        None => true,
        Some(a) => {
            &&& addr_ok(files, a)
            &&& earlier(a, cur)
            &&& rec.checksum == crc64_of(block_at(files, a.file_index as int, a.block_offset as int))
            &&& rec.checksum != 0
            &&& !all_zero(block_at(files, a.file_index as int, a.block_offset as int))
        },
    }
}

/// `record_ok` over the whole table.
pub open spec fn index_ok(files: Seq<FileData>, slots: Seq<BlockRecord>, cur: BlockAddress) -> bool {
    forall|s: int| 0 <= s < slots.len() ==> record_ok(files, #[trigger] slots[s], cur)
}

} // verus!
