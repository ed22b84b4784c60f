use vstd::prelude::*;

verus! {

/// Size in bytes of one block, the atomic unit of hashing, comparison and
/// extent sharing.
pub const BLOCK_SIZE: usize = 4096;

/// Identifies one whole block: which file in the scan list it belongs to, and
/// its zero-based block number inside that file.
#[derive(Clone, Copy, Debug, PartialEq, Eq, Structural)]
pub struct BlockAddress {
    pub file_index: usize,
    pub block_offset: usize,
}

/// The whole blocks of one file, in scan order. A trailing partial block is
/// excluded before the data reaches the engine: it is never hashed, never
/// compared and never shared.
pub struct FileData {
    pub blocks: Vec<Vec<u8>>,
}

impl View for FileData {
    type V = Seq<Seq<u8>>;

    open spec fn view(&self) -> Seq<Seq<u8>> {
        Seq::new(self.blocks@.len(), |i: int| self.blocks@[i]@)
    }
}

impl FileData {
    /// Every block holds exactly `BLOCK_SIZE` bytes.
    pub open spec fn wf(&self) -> bool {
        forall|i: int| 0 <= i < self@.len() ==> (#[trigger] self@[i]).len() == BLOCK_SIZE
    }
}

/// Every file in the scan list is made of whole blocks.
pub open spec fn files_wf(files: Seq<FileData>) -> bool {
    forall|i: int| 0 <= i < files.len() ==> (#[trigger] files[i]).wf()
}

/// The address names an existing whole block of an existing file.
pub open spec fn addr_ok(files: Seq<FileData>, a: BlockAddress) -> bool {
    a.file_index < files.len() && a.block_offset < files[a.file_index as int]@.len()
}

/// The content of block `b` of file `f`.
pub open spec fn block_at(files: Seq<FileData>, f: int, b: int) -> Seq<u8> {
    files[f]@[b]
}

/// `a` is visited strictly before `b` in scan order: files in list order,
/// blocks in offset order, and no block stream ever crosses a file boundary.
pub open spec fn earlier(a: BlockAddress, b: BlockAddress) -> bool {
    ||| a.file_index < b.file_index
    ||| (a.file_index == b.file_index && a.block_offset < b.block_offset)
}

/// Every byte of the data is zero.
pub open spec fn all_zero(data: Seq<u8>) -> bool {
    forall|i: int| 0 <= i < data.len() ==> data[i] == 0
}

/// The smaller of two integers.
pub open spec fn min2(a: int, b: int) -> int {
    if a <= b {
        a
    } else {
        b
    }
}

/// Compare two blocks byte for byte.
pub fn blocks_equal(a: &Vec<u8>, b: &Vec<u8>) -> (r: bool)
    ensures
        r <==> a@ == b@,
{
    if a.len() != b.len() {
        return false;
    }
    let mut i: usize = 0;
    while i < a.len()
        invariant
            i <= a@.len(),
            a@.len() == b@.len(),
            forall|j: int| 0 <= j < i ==> a@[j] == b@[j],
        decreases a@.len() - i,
    {
        if a[i] != b[i] {
            return false;
        }
        i += 1;
    }
    proof {
        assert(a@ =~= b@);
    }
    true
}

/// Whole-block count of a file of the given byte size; the trailing partial
/// block, if any, is excluded.
pub fn whole_blocks(file_size_bytes: u64) -> (r: u64)
    ensures
        r == file_size_bytes / (BLOCK_SIZE as u64),
{
    file_size_bytes / (BLOCK_SIZE as u64)
}

} // verus!
