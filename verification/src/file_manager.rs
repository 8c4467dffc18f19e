//! Block-addressed file store.
//!
//! Maps each file name to a sequence of fixed-size blocks and serves
//! block-granular reads, writes, appends and length queries. This is the
//! authoritative model of the database's on-disk state: every durable byte
//! the engine reasons about lives here. Writing a block past the current end
//! of a file extends the file with zero-filled blocks up to it; reading a
//! block past the end leaves the destination page untouched rather than
//! failing, so callers must pre-initialize pages that may receive a short
//! read.

use crate::block_id::str_eq;
use crate::block_id::BlockId;
use crate::page::Page;
use vstd::prelude::*;
use vstd::slice::*;

verus! {

/// A zero-filled block of `bsize` bytes.
pub open spec fn zero_block(bsize: int) -> Seq<u8> {
    Seq::new(bsize as nat, |i: int| 0u8)
}

/// The file after storing `block` as block `num`: an in-place update when
/// `num` exists, otherwise an extension with zero blocks up to `num`.
pub open spec fn spec_store_block(
    file: Seq<Seq<u8>>,
    num: int,
    block: Seq<u8>,
    bsize: int,
) -> Seq<Seq<u8>> {
    if num < file.len() {
        file.update(num, block)
    } else {
        Seq::new(
            (num + 1) as nat,
            |i: int|
                if i < file.len() {
                    file[i]
                } else if i == num {
                    block
                } else {
                    zero_block(bsize)
                },
        )
    }
}

/// Storing one block leaves every other existing block in place and never
/// shrinks the file below the stored block's number.
pub proof fn lemma_store_block_frame(file: Seq<Seq<u8>>, num: int, block: Seq<u8>, bsize: int)
    requires
        0 <= num,
    ensures
        spec_store_block(file, num, block, bsize).len() > num,
        spec_store_block(file, num, block, bsize).len() >= file.len(),
        spec_store_block(file, num, block, bsize)[num] == block,
        forall|k: int|
            0 <= k < file.len() && k != num ==> spec_store_block(file, num, block, bsize)[k]
                == file[k],
{
}

struct FileEntry {
    name: String,
    blocks: Vec<Vec<u8>>,
}

/// The byte sequences held by a vector of blocks.
spec fn blocks_view(blocks: Seq<Vec<u8>>) -> Seq<Seq<u8>> {
    Seq::new(blocks.len(), |k: int| blocks[k]@)
}

impl FileEntry {
    /// Every stored block has exactly `bsize` bytes.
    spec fn wf(&self, bsize: int) -> bool {
        forall|k: int| 0 <= k < self.blocks@.len() ==> (#[trigger] self.blocks@[k])@.len() == bsize
    }
}

/// Maps block identities to block contents, one block sequence per file.
pub struct FileManager {
    block_size: usize,
    files: Vec<FileEntry>,
}

impl FileManager {
    /// The fixed block size every block of every file has.
    pub closed spec fn spec_block_size(&self) -> int {
        self.block_size as int
    }

    /// Whether a file of this name exists in the store.
    pub closed spec fn has_file(&self, name: Seq<char>) -> bool {
        exists|i: int| 0 <= i < self.files@.len() && (#[trigger] self.files@[i]).name@ == name
    }

    /// The index of the file of this name.
    spec fn idx_of(&self, name: Seq<char>) -> int {
        choose|i: int| 0 <= i < self.files@.len() && (#[trigger] self.files@[i]).name@ == name
    }

    /// The blocks of the named file; a file that does not exist is empty.
    pub closed spec fn file(&self, name: Seq<char>) -> Seq<Seq<u8>> {
        if self.has_file(name) {
            blocks_view(self.files@[self.idx_of(name)].blocks@)
        } else {
            Seq::empty()
        }
    }

    /// Well-formed store: a positive block size that fits the 4-byte
    /// boundary encoding, distinct file names, full-size blocks.
    pub closed spec fn wf(&self) -> bool {
        &&& 1 <= self.block_size <= u32::MAX
        &&& forall|i: int, j: int|
            0 <= i < j < self.files@.len() ==> (#[trigger] self.files@[i]).name@ != (
            #[trigger] self.files@[j]).name@
        &&& forall|i: int|
            0 <= i < self.files@.len() ==> (#[trigger] self.files@[i]).wf(self.block_size as int)
    }

    /// A well-formed store's block size fits in an unsigned 32-bit value.
    pub proof fn lemma_block_size_bounds(&self)
        requires
            self.wf(),
        ensures
            1 <= self.spec_block_size() <= u32::MAX,
    {
    }

    /// The named file's block count fits in a machine word.
    pub proof fn lemma_file_len_bound(&self, name: Seq<char>)
        requires
            self.wf(),
        ensures
            self.file(name).len() <= usize::MAX,
    {
        broadcast use vstd::std_specs::vec::axiom_spec_len;

        if self.has_file(name) {
            let i = self.idx_of(name);
            assert(vstd::std_specs::vec::spec_vec_len(&self.files@[i].blocks)
                == self.files@[i].blocks@.len());
        }
    }

    /// Every block of every file in a well-formed store has exactly the
    /// store's block size.
    pub proof fn lemma_file_block_sizes(&self, name: Seq<char>)
        requires
            self.wf(),
        ensures
            forall|k: int|
                0 <= k < self.file(name).len() ==> (#[trigger] self.file(name)[k]).len()
                    == self.spec_block_size(),
    {
    }

    /// Names an index as the file with its name.
    proof fn lemma_file_at(&self, i: int)
        requires
            self.wf(),
            0 <= i < self.files@.len(),
        ensures
            self.has_file(self.files@[i].name@),
            self.idx_of(self.files@[i].name@) == i,
            self.file(self.files@[i].name@) == blocks_view(self.files@[i].blocks@),
    {
        let name = self.files@[i].name@;
        assert(self.has_file(name));
        let j = self.idx_of(name);
        if i < j {
            assert(self.files@[i].name@ != self.files@[j].name@);
        } else if j < i {
            assert(self.files@[j].name@ != self.files@[i].name@);
        }
    }

    /// An empty store that will serve blocks of `block_size` bytes.
    pub fn new(block_size: usize) -> (res: Self)
        requires
            1 <= block_size <= u32::MAX,
        ensures
            res.wf(),
            res.spec_block_size() == block_size,
            forall|name: Seq<char>| !res.has_file(name) && res.file(name) == Seq::<Seq<u8>>::empty(),
    {
        FileManager { block_size, files: Vec::new() }
    }

    /// The block size.
    pub fn block_size(&self) -> (r: usize)
        ensures
            r == self.spec_block_size(),
    {
        self.block_size
    }

    /// The index of the named file, if it exists.
    fn find_file(&self, filename: &str) -> (r: Option<usize>)
        ensures
            r matches Some(i) ==> 0 <= i < self.files@.len() && self.files@[i as int].name@
                == filename@,
            r is None ==> !self.has_file(filename@),
    {
        let n = self.files.len();
        let mut i: usize = 0;
        while i < n
            invariant
                i <= n,
                n == self.files@.len(),
                forall|j: int| 0 <= j < i ==> (#[trigger] self.files@[j]).name@ != filename@,
            decreases n - i,
        {
            if str_eq(self.files[i].name.as_str(), filename) {
                return Some(i);
            }
            i = i + 1;
        }
        None
    }

    /// Number of blocks in the named file (0 when it does not exist).
    pub fn length(&self, filename: &str) -> (r: u64)
        requires
            self.wf(),
        ensures
            r == self.file(filename@).len(),
    {
        match self.find_file(filename) {
            Some(i) => {
                proof {
                    self.lemma_file_at(i as int);
                }
                self.files[i].blocks.len() as u64
            },
            None => 0,
        }
    }

    /// Copies block `blk` into `page`. A read past the end of the file (or
    /// of a file that does not exist) leaves `page` unmodified.
    pub fn read(&self, blk: &BlockId, page: &mut Page)
        requires
            self.wf(),
        ensures
            blk@.1 < self.file(blk@.0).len() ==> final(page)@ == self.file(blk@.0)[blk@.1 as int],
            blk@.1 >= self.file(blk@.0).len() ==> final(page)@ == old(page)@,
    {
        match self.find_file(blk.filename()) {
            Some(i) => {
                proof {
                    self.lemma_file_at(i as int);
                }
                let num = blk.number();
                if num < self.files[i].blocks.len() as u64 {
                    let bytes = &self.files[i].blocks[num as usize];
                    *page = Page::from_bytes(bytes.as_slice());
                }
            },
            None => {},
        }
    }

    /// Stores `page` as block `blk`, creating the file and any missing
    /// blocks (zero-filled) below `blk` first. Files other than `blk`'s are
    /// untouched.
    pub fn write(&mut self, blk: &BlockId, page: &Page)
        requires
            old(self).wf(),
            page@.len() == old(self).spec_block_size(),
            blk@.1 <= usize::MAX,
        ensures
            final(self).wf(),
            final(self).spec_block_size() == old(self).spec_block_size(),
            final(self).has_file(blk@.0),
            final(self).file(blk@.0) == spec_store_block(
                old(self).file(blk@.0),
                blk@.1 as int,
                page@,
                old(self).spec_block_size(),
            ),
            forall|other: Seq<char>|
                other != blk@.0 ==> final(self).has_file(other) == old(self).has_file(other)
                    && final(self).file(other) == old(self).file(other),
    {
        let bsize = self.block_size;
        let idx: usize = match self.find_file(blk.filename()) {
            Some(i) => i,
            None => {
                let entry = FileEntry { name: blk.filename().to_owned(), blocks: Vec::new() };
                self.files.push(entry);
                proof {
                    assert forall|name: Seq<char>|
                        name != blk@.0 && old(self).has_file(name) implies self.has_file(
                        name,
                    ) by {
                        let w = old(self).idx_of(name);
                        assert(self.files@[w].name@ == name);
                    }
                    assert forall|name: Seq<char>|
                        name != blk@.0 && self.has_file(name) implies old(self).has_file(
                        name,
                    ) by {
                        let w = self.idx_of(name);
                        assert(old(self).files@[w].name@ == name);
                    }
                    assert forall|name: Seq<char>| name != blk@.0 && self.has_file(name) implies old(
                        self,
                    ).file(name) == self.file(name) by {
                        let w = self.idx_of(name);
                        old(self).lemma_file_at(w);
                        self.lemma_file_at(w);
                    }
                }
                self.files.len() - 1
            },
        };
        proof {
            self.lemma_file_at(idx as int);
        }
        let ghost mid = *self;
        let num = blk.number() as usize;
        store_block_into(&mut self.files[idx], num, slice_to_vec(page.contents()), bsize);
        proof {
            assert(self.files@.len() == mid.files@.len());
            assert forall|j: int|
                0 <= j < self.files@.len() && j != idx implies self.files@[j] == mid.files@[j] by {}
            self.lemma_file_at(idx as int);
            assert forall|name: Seq<char>|
                name != blk@.0 implies self.has_file(name) == mid.has_file(name) && self.file(name)
                == mid.file(name) by {
                if mid.has_file(name) {
                    let w = mid.idx_of(name);
                    assert(mid.files@[w].name@ == name);
                    assert(w != idx);
                    assert(self.files@[w].name@ == name);
                    mid.lemma_file_at(w);
                    self.lemma_file_at(w);
                    assert(self.file(name) == mid.file(name));
                } else {
                    if self.has_file(name) {
                        let w = self.idx_of(name);
                        assert(w != idx);
                        assert(mid.files@[w].name@ == name);
                    }
                }
            }
        }
    }

    /// Adds a zero-filled block at the end of the named file (creating the
    /// file if needed) and returns its identity.
    pub fn append(&mut self, filename: &str) -> (blk: BlockId)
        requires
            old(self).wf(),
        ensures
            final(self).wf(),
            final(self).spec_block_size() == old(self).spec_block_size(),
            blk@ == (filename@, old(self).file(filename@).len() as u64),
            final(self).has_file(filename@),
            final(self).file(filename@) == old(self).file(filename@).push(
                zero_block(old(self).spec_block_size()),
            ),
            forall|other: Seq<char>|
                other != filename@ ==> final(self).has_file(other) == old(self).has_file(other)
                    && final(self).file(other) == old(self).file(other),
    {
        proof {
            self.lemma_file_len_bound(filename@);
        }
        let num = self.length(filename);
        let blk = BlockId::new(filename, num);
        let zeros: Vec<u8> = vec![0u8; self.block_size];
        proof {
            assert(zeros@ =~= zero_block(self.spec_block_size()));
        }
        let page = Page::from_bytes(zeros.as_slice());
        self.write(&blk, &page);
        proof {
            assert(self.file(filename@) =~= old(self).file(filename@).push(
                zero_block(old(self).spec_block_size()),
            ));
        }
        blk
    }
}

/// Stores `bytes` as block `num` of `entry`, zero-padding up to `num` first.
fn store_block_into(entry: &mut FileEntry, num: usize, bytes: Vec<u8>, bsize: usize)
    requires
        old(entry).wf(bsize as int),
        bytes@.len() == bsize,
    ensures
        final(entry).wf(bsize as int),
        final(entry).name == old(entry).name,
        blocks_view(final(entry).blocks@) == spec_store_block(
            blocks_view(old(entry).blocks@),
            num as int,
            bytes@,
            bsize as int,
        ),
{
    while entry.blocks.len() <= num
        invariant
            entry.name == old(entry).name,
            entry.wf(bsize as int),
            entry.blocks@.len() >= old(entry).blocks@.len(),
            forall|k: int|
                0 <= k < old(entry).blocks@.len() ==> entry.blocks@[k] == old(entry).blocks@[k],
            forall|k: int|
                old(entry).blocks@.len() <= k < entry.blocks@.len() ==> (
                #[trigger] entry.blocks@[k])@ == zero_block(bsize as int),
            entry.blocks@.len() > old(entry).blocks@.len() ==> entry.blocks@.len() <= num + 1,
        decreases num + 1 - entry.blocks@.len(),
    {
        let zeros: Vec<u8> = vec![0u8; bsize];
        proof {
            assert(zeros@ =~= zero_block(bsize as int));
        }
        entry.blocks.push(zeros);
    }
    entry.blocks[num] = bytes;
    proof {
        assert(blocks_view(entry.blocks@) =~= spec_store_block(
            blocks_view(old(entry).blocks@),
            num as int,
            bytes@,
            bsize as int,
        ));
    }
}

} // verus!
