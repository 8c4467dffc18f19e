//! Write-ahead log over a dedicated log file.
//!
//! Records are packed right-to-left inside fixed-size blocks: offset 0 of
//! every log block holds a 4-byte little-endian "boundary", the start offset
//! of the most recently appended record in that block; records follow one
//! another from the boundary to the end of the block, each length-prefixed,
//! so that parsing from the boundary yields the block's records newest
//! first. Appends go to an in-memory tail page and do not force durability;
//! `flush` writes the tail page out and advances the durable counter.

use crate::block_id::BlockId;
use crate::file_manager::FileManager;
use crate::log_iterator::LogIterator;
use crate::page::spec_load_int;
use crate::page::spec_store_blob;
use crate::page::spec_store_int;
use crate::page::Page;
use vstd::prelude::*;

verus! {

/// The boundary of a log block: the offset of its newest record (or the
/// block length if the block is empty).
pub open spec fn spec_boundary(block: Seq<u8>) -> int {
    spec_load_int(block, 0) as int
}

/// A chain of length-prefixed records fills `[pos, block.len())` exactly.
pub open spec fn valid_suffix(block: Seq<u8>, pos: int) -> bool
    decreases block.len() - pos
    when 0 <= pos <= block.len()
{
    if pos == block.len() {
        true
    } else if pos + 4 > block.len() {
        false
    } else {
        let l = spec_load_int(block, pos) as int;
        &&& pos + 4 + l <= block.len()
        &&& valid_suffix(block, pos + 4 + l)
    }
}

/// The records laid out from `pos` to the end of the block, in the order
/// they are parsed — most recently appended first.
pub open spec fn records_from(block: Seq<u8>, pos: int) -> Seq<Seq<u8>>
    decreases block.len() - pos
    when 0 <= pos <= block.len()
{
    if pos + 4 > block.len() {
        Seq::empty()
    } else {
        let l = spec_load_int(block, pos) as int;
        if pos + 4 + l <= block.len() {
            seq![block.subrange(pos + 4, pos + 4 + l)] + records_from(block, pos + 4 + l)
        } else {
            Seq::empty()
        }
    }
}

/// A well-formed log block of size `bsize`: boundary in range, records
/// filling the space from the boundary to the end.
pub open spec fn wf_log_block(block: Seq<u8>, bsize: int) -> bool {
    &&& block.len() == bsize
    &&& 4 <= spec_boundary(block) <= bsize
    &&& valid_suffix(block, spec_boundary(block))
}

/// The records of one log block, newest first.
pub open spec fn block_records(block: Seq<u8>) -> Seq<Seq<u8>> {
    records_from(block, spec_boundary(block))
}

/// The records of blocks `0 .. upto` of a log file, newest first: higher
/// block numbers hold newer records, and each block is read newest first.
pub open spec fn chain_records(file: Seq<Seq<u8>>, upto: int) -> Seq<Seq<u8>>
    decreases upto,
{
    if upto <= 0 {
        Seq::empty()
    } else {
        block_records(file[upto - 1]) + chain_records(file, upto - 1)
    }
}

/// A well-formed log file prefix: every block up to `upto` is a well-formed
/// log block and every block strictly below `upto - 1` is non-empty.
pub open spec fn wf_log_file(file: Seq<Seq<u8>>, upto: int, bsize: int) -> bool {
    &&& upto <= file.len()
    &&& forall|k: int| 0 <= k < upto ==> wf_log_block(#[trigger] file[k], bsize)
    &&& forall|k: int| 0 <= k < upto - 1 ==> block_records(#[trigger] file[k]).len() > 0
}

/// Parsing depends only on the bytes from `pos` onward: two equally long
/// blocks that agree there parse alike.
pub proof fn lemma_records_from_frame(b1: Seq<u8>, b2: Seq<u8>, pos: int)
    requires
        b1.len() == b2.len(),
        0 <= pos <= b1.len(),
        forall|i: int| pos <= i < b1.len() ==> b1[i] == b2[i],
    ensures
        valid_suffix(b1, pos) == valid_suffix(b2, pos),
        records_from(b1, pos) == records_from(b2, pos),
    decreases b1.len() - pos,
{
    if pos + 4 <= b1.len() {
        assert(b1.subrange(pos, pos + 4) =~= b2.subrange(pos, pos + 4));
        let l = spec_load_int(b1, pos) as int;
        if pos + 4 + l <= b1.len() {
            assert(b1.subrange(pos + 4, pos + 4 + l) =~= b2.subrange(pos + 4, pos + 4 + l));
            lemma_records_from_frame(b1, b2, pos + 4 + l);
        }
    }
}

/// The chain of records up to `upto` depends only on blocks `0 .. upto`.
pub proof fn lemma_chain_records_frame(f1: Seq<Seq<u8>>, f2: Seq<Seq<u8>>, upto: int)
    requires
        forall|k: int| 0 <= k < upto ==> f1[k] == f2[k],
    ensures
        chain_records(f1, upto) == chain_records(f2, upto),
    decreases upto,
{
    if upto > 0 {
        lemma_chain_records_frame(f1, f2, upto - 1);
    }
}

/// Append-only WAL state: the resident tail page, the identity of the tail
/// block, and the in-memory / durable LSN counters.
pub struct LogManager {
    log_file: String,
    log_page: Page,
    current_block: BlockId,
    latest_lsn: u32,
    latest_saved_lsn: u32,
}

impl LogManager {
    /// The name of the log file.
    pub closed spec fn spec_log_file(&self) -> Seq<char> {
        self.log_file@
    }

    /// LSN of the most recently appended record (0 before any append).
    pub closed spec fn lsn(&self) -> u32 {
        self.latest_lsn
    }

    /// LSN through which the log is known durable.
    pub closed spec fn saved_lsn(&self) -> u32 {
        self.latest_saved_lsn
    }

    /// Number of the tail block.
    pub closed spec fn spec_current_block(&self) -> int {
        self.current_block@.1 as int
    }

    /// Boundary of the resident tail page: the offset of its newest
    /// record, or the block size while the tail block is empty. The free
    /// space of the tail block is this boundary minus the 4-byte boundary
    /// word itself.
    pub closed spec fn spec_tail_boundary(&self) -> int {
        spec_boundary(self.log_page@)
    }

    /// All records in the log, newest first: the resident tail page's
    /// records, then those of the stored blocks below the tail.
    pub closed spec fn records(&self, fm: &FileManager) -> Seq<Seq<u8>> {
        block_records(self.log_page@) + chain_records(
            fm.file(self.log_file@),
            self.current_block@.1 as int,
        )
    }

    /// The records durable in the file store's copy of the log, newest
    /// first.
    pub open spec fn durable_records(fm: &FileManager, log_file: Seq<char>) -> Seq<Seq<u8>> {
        chain_records(fm.file(log_file), fm.file(log_file).len() as int)
    }

    /// Well-formed log state over the given file store.
    ///
    /// The tail block is the file's last; every stored block is a
    /// well-formed log block and blocks below the tail are non-empty; the
    /// saved counter trails the append counter; and the durable records are
    /// exactly the log's records with the unsaved newest ones removed.
    pub closed spec fn wf(&self, fm: &FileManager) -> bool {
        let file = fm.file(self.log_file@);
        let cur = self.current_block@.1 as int;
        &&& fm.wf()
        &&& fm.spec_block_size() >= 8
        &&& self.current_block@.0 == self.log_file@
        &&& file.len() == cur + 1
        &&& wf_log_block(self.log_page@, fm.spec_block_size())
        &&& wf_log_file(file, cur + 1, fm.spec_block_size())
        &&& self.latest_saved_lsn <= self.latest_lsn
        &&& self.latest_lsn <= self.records(fm).len()
        &&& Self::durable_records(fm, self.log_file@) == self.records(fm).skip(
            self.latest_lsn - self.latest_saved_lsn,
        )
    }

    /// Opens the log named `log_file`: resumes on the file's last block, or
    /// starts the file with one empty block when it does not exist yet. The
    /// LSN counters restart at 0.
    pub fn new(fm: &mut FileManager, log_file: &str) -> (res: Self)
        requires
            old(fm).wf(),
            old(fm).spec_block_size() >= 8,
            wf_log_file(
                old(fm).file(log_file@),
                old(fm).file(log_file@).len() as int,
                old(fm).spec_block_size(),
            ),
        ensures
            final(fm).wf(),
            final(fm).spec_block_size() == old(fm).spec_block_size(),
            res.wf(final(fm)),
            res.spec_log_file() == log_file@,
            res.lsn() == 0,
            res.saved_lsn() == 0,
            res.records(final(fm)) == Self::durable_records(old(fm), log_file@),
            res.spec_current_block() == final(fm).file(log_file@).len() - 1,
            res.spec_tail_boundary() == spec_boundary(
                final(fm).file(log_file@)[res.spec_current_block()],
            ),
            old(fm).file(log_file@).len() > 0 ==> *final(fm) == *old(fm),
            old(fm).file(log_file@).len() == 0 ==> final(fm).file(log_file@).len() == 1
                && spec_boundary(final(fm).file(log_file@)[0]) == old(fm).spec_block_size()
                && block_records(final(fm).file(log_file@)[0]) == Seq::<Seq<u8>>::empty(),
            forall|other: Seq<char>|
                other != log_file@ ==> final(fm).has_file(other) == old(fm).has_file(other)
                    && final(fm).file(other) == old(fm).file(other),
    {
        let bsize = fm.block_size();
        let mut log_page = Page::new(bsize);
        let log_size = fm.length(log_file);
        let current_block: BlockId;
        if log_size == 0 {
            current_block = append_new_block_raw(fm, log_file, &mut log_page);
            proof {
                let file = fm.file(log_file@);
                assert(file[0] == log_page@);
                assert(chain_records(file, 0) =~= Seq::<Seq<u8>>::empty());
                assert(block_records(log_page@) =~= Seq::<Seq<u8>>::empty());
            }
        } else {
            current_block = BlockId::new(log_file, log_size - 1);
            fm.read(&current_block, &mut log_page);
            proof {
                let file = fm.file(log_file@);
                assert(log_page@ == file[file.len() - 1]);
            }
        }
        let res = LogManager {
            log_file: log_file.to_owned(),
            log_page,
            current_block,
            latest_lsn: 0,
            latest_saved_lsn: 0,
        };
        proof {
            let file = fm.file(log_file@);
            let cur = res.current_block@.1 as int;
            assert(res.records(fm) =~= chain_records(file, cur + 1));
            assert(res.records(fm).skip(0) =~= res.records(fm));
        }
        res
    }

    /// Writes the tail page out and marks everything appended so far as
    /// durable.
    fn flush_internal(&mut self, fm: &mut FileManager)
        requires
            old(self).wf(old(fm)),
        ensures
            final(self).wf(final(fm)),
            final(fm).spec_block_size() == old(fm).spec_block_size(),
            final(self).spec_log_file() == old(self).spec_log_file(),
            final(self).spec_current_block() == old(self).spec_current_block(),
            final(self).lsn() == old(self).lsn(),
            final(self).saved_lsn() == old(self).lsn(),
            final(self).records(final(fm)) == old(self).records(old(fm)),
            Self::durable_records(final(fm), final(self).spec_log_file()) == final(self).records(final(fm)),
            final(self).log_page == old(self).log_page,
            final(self).current_block == old(self).current_block,
            final(self).log_file == old(self).log_file,
            final(fm).file(final(self).spec_log_file()).len() == old(fm).file(
                old(self).spec_log_file(),
            ).len(),
            final(fm).file(final(self).spec_log_file())[final(self).spec_current_block()]
                == final(self).log_page@,
            forall|other: Seq<char>|
                other != old(self).spec_log_file() ==> final(fm).has_file(other)
                    == old(fm).has_file(other) && final(fm).file(other) == old(fm).file(other),
    {
        let ghost old_file = fm.file(self.log_file@);
        let ghost cur = self.current_block@.1 as int;
        proof {
            fm.lemma_file_len_bound(self.log_file@);
        }
        fm.write(&self.current_block, &self.log_page);
        self.latest_saved_lsn = self.latest_lsn;
        proof {
            let file = fm.file(self.log_file@);
            assert(file =~= old_file.update(cur, self.log_page@));
            lemma_chain_records_frame(file, old_file, cur);
            assert(self.records(fm) == old(self).records(old(fm)));
            assert(Self::durable_records(fm, self.log_file@) =~= self.records(fm));
            assert(self.records(fm).skip(0) =~= self.records(fm));
        }
    }

    /// Flushes the log if `lsn` is not already durable, guaranteeing
    /// afterwards that every record with LSN at most `lsn` is durable.
    pub fn flush(&mut self, fm: &mut FileManager, lsn: u32)
        requires
            old(self).wf(old(fm)),
        ensures
            final(self).wf(final(fm)),
            final(fm).spec_block_size() == old(fm).spec_block_size(),
            final(self).spec_log_file() == old(self).spec_log_file(),
            final(self).lsn() == old(self).lsn(),
            final(self).spec_current_block() == old(self).spec_current_block(),
            final(self).spec_tail_boundary() == old(self).spec_tail_boundary(),
            final(self).records(final(fm)) == old(self).records(old(fm)),
            final(self).saved_lsn() >= old(self).saved_lsn(),
            lsn <= old(self).lsn() ==> final(self).saved_lsn() >= lsn,
            lsn >= old(self).saved_lsn() ==> final(self).saved_lsn() == old(self).lsn()
                && Self::durable_records(final(fm), final(self).spec_log_file())
                == final(self).records(final(fm)),
            lsn < old(self).saved_lsn() ==> *final(self) == *old(self) && *final(fm) == *old(fm),
            forall|other: Seq<char>|
                other != old(self).spec_log_file() ==> final(fm).has_file(other)
                    == old(fm).has_file(other) && final(fm).file(other) == old(fm).file(other),
    {
        if lsn >= self.latest_saved_lsn {
            self.flush_internal(fm);
        }
    }

    /// Appends a record and returns its LSN: the previous LSN plus one,
    /// starting from 1. Appending alone does not force durability; the new
    /// record goes to the resident tail page. When the record does not fit
    /// between the tail block's boundary and offset 4, the tail is flushed
    /// and a fresh block is started first.
    #[verifier::rlimit(60)]
    pub fn append(&mut self, fm: &mut FileManager, log_record: &Vec<u8>) -> (lsn: u32)
        requires
            old(self).wf(old(fm)),
            log_record@.len() + 8 <= old(fm).spec_block_size(),
            old(self).lsn() < u32::MAX,
        ensures
            final(self).wf(final(fm)),
            final(fm).spec_block_size() == old(fm).spec_block_size(),
            final(self).spec_log_file() == old(self).spec_log_file(),
            lsn == old(self).lsn() + 1,
            final(self).lsn() == lsn,
            final(self).saved_lsn() >= old(self).saved_lsn(),
            final(self).records(final(fm)) == seq![log_record@] + old(self).records(old(fm)),
            final(self).spec_current_block() == old(self).spec_current_block() || final(self).spec_current_block() == old(self).spec_current_block() + 1,
            // the record fits before the tail block's boundary word: it
            // goes to the resident page only — nothing is written out and
            // nothing becomes durable, since append alone does not flush
            old(self).spec_tail_boundary() >= log_record@.len() + 8 ==> final(self).spec_current_block() == old(self).spec_current_block() && final(self).spec_tail_boundary() == old(self).spec_tail_boundary() - (log_record@.len() + 4),
            final(self).spec_current_block() == old(self).spec_current_block() ==> *final(fm)
                == *old(fm) && final(self).saved_lsn() == old(self).saved_lsn(),
            // the record does not fit: the old tail is flushed (the saved
            // counter catches up to the old latest LSN) and a fresh block
            // is started, holding just this record
            old(self).spec_tail_boundary() < log_record@.len() + 8 ==> final(self).spec_current_block() == old(self).spec_current_block() + 1 && final(self).spec_tail_boundary() == old(fm).spec_block_size() - (log_record@.len() + 4),
            final(self).spec_current_block() == old(self).spec_current_block() + 1 ==> final(self).saved_lsn() == old(self).lsn(),
            forall|other: Seq<char>|
                other != old(self).spec_log_file() ==> final(fm).has_file(other)
                    == old(fm).has_file(other) && final(fm).file(other) == old(fm).file(other),
    {
        proof {
            fm.lemma_block_size_bounds();
        }
        let bsize = fm.block_size();
        let mut boundary: usize = self.log_page.get_int(0) as usize;
        let bytes_needed: usize = log_record.len() + 4;
        if boundary < bytes_needed + 4 {
            // It does not fit in the tail block: flush it and start a new
            // one. The tail is non-empty here, since an empty tail (with
            // its boundary at the block size) has room for any record this
            // function accepts.
            proof {
                assert(spec_boundary(self.log_page@) < fm.spec_block_size());
                assert(block_records(self.log_page@).len() > 0);
            }
            self.flush_internal(fm);
            let ghost s1 = *self;
            let ghost f1 = *fm;
            let name = self.log_file.clone();
            proof {
                fm.lemma_file_len_bound(name@);
            }
            let blk = append_new_block_raw(fm, name.as_str(), &mut self.log_page);
            self.current_block = blk;
            boundary = self.log_page.get_int(0) as usize;
            proof {
                let file = fm.file(self.log_file@);
                let cur = self.current_block@.1 as int;
                assert(cur == f1.file(self.log_file@).len() as int);
                assert(file =~= f1.file(self.log_file@).push(self.log_page@));
                assert(file.len() == cur + 1);
                lemma_chain_records_frame(file, f1.file(self.log_file@), cur);
                assert(chain_records(file, cur) == block_records(file[cur - 1])
                    + chain_records(file, cur - 1)) by {
                    assert(cur > 0);
                }
                assert(file[cur - 1] == s1.log_page@);
                assert(self.records(fm) =~= s1.records(&f1));
                assert(Self::durable_records(fm, self.log_file@) =~= self.records(fm));
                assert(self.records(fm).skip(0) =~= self.records(fm));
                assert(self.wf(fm));
            }
        }
        let ghost pre = *self;
        let ghost pre_fm = *fm;
        proof {
            assert(boundary == spec_boundary(pre.log_page@));
            assert(boundary >= bytes_needed + 4);
        }
        let rec_offset = boundary - bytes_needed;
        self.log_page.set_bytes(rec_offset, log_record.as_slice());
        self.log_page.set_int(0, rec_offset as u32);
        self.latest_lsn = self.latest_lsn + 1;
        proof {
            let p0 = pre.log_page@;
            let b0 = spec_boundary(p0);
            let l = log_record@.len() as int;
            let ro = rec_offset as int;
            let mid = spec_store_blob(p0, ro, log_record@);
            let p1 = self.log_page@;
            vstd::bytes::lemma_auto_spec_u32_to_from_le_bytes();
            assert(p1 == spec_store_int(mid, 0, rec_offset as u32));
            crate::page::lemma_int_round_trip(mid, 0, rec_offset as u32);
            assert(spec_boundary(p1) == ro);
            crate::page::lemma_blob_round_trip(p0, ro, log_record@);
            // bytes from the new boundary on: the record just stored, then
            // the bytes the old parse saw
            assert(forall|i: int| ro <= i < p1.len() ==> p1[i] == mid[i]);
            assert(forall|i: int| b0 <= i < p1.len() ==> mid[i] == p0[i]);
            assert(p1.subrange(ro, ro + 4) =~= mid.subrange(ro, ro + 4));
            assert(spec_load_int(p1, ro) == log_record@.len());
            assert(p1.subrange(ro + 4, ro + 4 + l) =~= mid.subrange(ro + 4, ro + 4 + l));
            assert(p1.subrange(ro + 4, ro + 4 + l) == log_record@);
            lemma_records_from_frame(p1, p0, b0);
            assert(valid_suffix(p1, ro));
            assert(records_from(p1, ro) =~= seq![log_record@] + records_from(p0, b0));
            assert(wf_log_block(p1, fm.spec_block_size()));
            let file = fm.file(self.log_file@);
            let cur = self.current_block@.1 as int;
            assert(self.records(fm) =~= seq![log_record@] + pre.records(&pre_fm));
            // durability bookkeeping: one more unsaved record in front
            let d = pre.latest_lsn - pre.latest_saved_lsn;
            assert(Self::durable_records(fm, self.log_file@) == pre.records(&pre_fm).skip(d));
            assert((seq![log_record@] + pre.records(&pre_fm)).skip(d + 1) =~= pre.records(
                &pre_fm,
            ).skip(d));
            assert(self.wf(fm));
            assert(self.records(fm) =~= seq![log_record@] + old(self).records(old(fm)));
        }
        self.latest_lsn
    }

    /// Flushes the log, then returns an iterator that yields all its
    /// records in strict reverse-chronological order, most recent first.
    pub fn iterator(&mut self, fm: &mut FileManager) -> (it: LogIterator)
        requires
            old(self).wf(old(fm)),
        ensures
            final(self).wf(final(fm)),
            final(fm).spec_block_size() == old(fm).spec_block_size(),
            final(self).spec_log_file() == old(self).spec_log_file(),
            final(self).lsn() == old(self).lsn(),
            final(self).saved_lsn() == old(self).lsn(),
            final(self).spec_current_block() == old(self).spec_current_block(),
            final(self).spec_tail_boundary() == old(self).spec_tail_boundary(),
            final(self).records(final(fm)) == old(self).records(old(fm)),
            it.wf(final(fm)),
            it.remaining(final(fm)) == old(self).records(old(fm)),
            forall|other: Seq<char>|
                other != old(self).spec_log_file() ==> final(fm).has_file(other)
                    == old(fm).has_file(other) && final(fm).file(other) == old(fm).file(other),
    {
        self.flush_internal(fm);
        let it = LogIterator::new(fm, &self.current_block);
        proof {
            let file = fm.file(self.log_file@);
            let cur = self.current_block@.1 as int;
            assert(it.remaining(fm) == chain_records(file, cur + 1));
            assert(Self::durable_records(fm, self.log_file@) == chain_records(file, cur + 1));
        }
        it
    }

    /// The LSN through which the log is durable, without flushing.
    #[allow(non_snake_case)]
    pub fn getLastSavedLSN(&self) -> (r: u32)
        ensures
            r == self.saved_lsn(),
    {
        self.latest_saved_lsn
    }
}

/// Scans one block image for a valid record chain from `start` to the
/// block's end, the shape `valid_suffix` describes.
fn check_suffix(page: &Page, start: usize, bsize: usize) -> (r: bool)
    requires
        page@.len() == bsize,
        start <= bsize,
        bsize >= 8,
    ensures
        r == valid_suffix(page@, start as int),
{
    let mut pos = start;
    while pos < bsize
        invariant
            start <= pos <= bsize,
            page@.len() == bsize,
            bsize >= 8,
            valid_suffix(page@, start as int) == valid_suffix(page@, pos as int),
        decreases bsize - pos,
    {
        if pos > bsize - 4 {
            return false;
        }
        let len = page.get_int(pos) as usize;
        if len > bsize - 4 - pos {
            return false;
        }
        pos = pos + 4 + len;
    }
    true
}

/// Checks that the file store's copy of `log_file` is a well-formed log
/// file — exactly what `LogManager::new` demands before resuming on an
/// existing log. A caller that loaded bytes from elsewhere runs this first
/// and treats a refusal as corruption.
pub fn check_log_file(fm: &FileManager, log_file: &str) -> (r: bool)
    requires
        fm.wf(),
        fm.spec_block_size() >= 8,
    ensures
        r == wf_log_file(
            fm.file(log_file@),
            fm.file(log_file@).len() as int,
            fm.spec_block_size(),
        ),
{
    proof {
        fm.lemma_block_size_bounds();
        fm.lemma_file_len_bound(log_file@);
        fm.lemma_file_block_sizes(log_file@);
    }
    let bsize = fm.block_size();
    let n = fm.length(log_file);
    let ghost file = fm.file(log_file@);
    let mut k: u64 = 0;
    while k < n
        invariant
            k <= n,
            n == file.len(),
            file == fm.file(log_file@),
            fm.wf(),
            bsize == fm.spec_block_size(),
            bsize >= 8,
            forall|j: int| 0 <= j < n ==> (#[trigger] file[j]).len() == bsize,
            forall|j: int| 0 <= j < k ==> wf_log_block(#[trigger] file[j], bsize as int),
            forall|j: int|
                0 <= j < k && j < n - 1 ==> block_records(#[trigger] file[j]).len() > 0,
        decreases n - k,
    {
        let mut page = Page::new(bsize);
        fm.read(&BlockId::new(log_file, k), &mut page);
        let boundary = page.get_int(0) as usize;
        if boundary < 4 || boundary > bsize {
            return false;
        }
        if !check_suffix(&page, boundary, bsize) {
            return false;
        }
        if k + 1 < n && boundary == bsize {
            // an empty block below the tail would strand the read-back
            proof {
                assert(records_from(file[k as int], boundary as int) =~= Seq::<Seq<u8>>::empty());
            }
            return false;
        }
        proof {
            if boundary < bsize {
                assert(block_records(file[k as int]).len() > 0);
            }
        }
        k = k + 1;
    }
    true
}

/// A well-formed log stands over a well-formed file store whose blocks
/// have room for the boundary word and at least one small record.
pub proof fn lemma_log_wf_file_store(lm: &LogManager, fm: &FileManager)
    requires
        lm.wf(fm),
    ensures
        fm.wf(),
        fm.spec_block_size() >= 8,
{
}

/// A change to the file store that leaves the log file itself untouched —
/// a data-block write, for instance — preserves the log's well-formedness
/// and its records.
pub proof fn lemma_log_unaffected_by_other_files(lm: &LogManager, fm1: &FileManager, fm2: &FileManager)
    requires
        lm.wf(fm1),
        fm2.wf(),
        fm2.spec_block_size() == fm1.spec_block_size(),
        fm2.file(lm.spec_log_file()) == fm1.file(lm.spec_log_file()),
    ensures
        lm.wf(fm2),
        lm.records(fm2) == lm.records(fm1),
{
}

/// Law (durability ordering): every record whose LSN is at most the saved
/// counter is durable — it stands in the file store's copy of the log at
/// the position matching its age. Combined with `flush`'s contract (after
/// `flush(lsn)` with `lsn <= lsn()`, `saved_lsn() >= lsn`), flushing an LSN
/// makes that record and all older ones durable.
pub proof fn lemma_saved_records_durable(lm: &LogManager, fm: &FileManager, k: int)
    requires
        lm.wf(fm),
        1 <= k <= lm.saved_lsn(),
    ensures
        0 <= lm.lsn() - k < lm.records(fm).len(),
        0 <= lm.saved_lsn() - k < LogManager::durable_records(fm, lm.spec_log_file()).len(),
        LogManager::durable_records(fm, lm.spec_log_file())[lm.saved_lsn() - k] == lm.records(
            fm,
        )[lm.lsn() - k],
{
    let d = lm.lsn() - lm.saved_lsn();
    assert(LogManager::durable_records(fm, lm.spec_log_file()) == lm.records(fm).skip(d));
}

/// Starts a fresh block at the end of the log file: appends a zero block,
/// resets the page's boundary to the block size (an empty record area) and
/// stores the page as that new block.
fn append_new_block_raw(fm: &mut FileManager, log_file: &str, log_page: &mut Page) -> (blk:
    BlockId)
    requires
        old(fm).wf(),
        old(fm).spec_block_size() >= 8,
        old(log_page)@.len() == old(fm).spec_block_size(),
    ensures
        final(fm).wf(),
        final(fm).spec_block_size() == old(fm).spec_block_size(),
        blk@ == (log_file@, old(fm).file(log_file@).len() as u64),
        final(log_page)@ == spec_store_int(old(log_page)@, 0, old(fm).spec_block_size() as u32),
        wf_log_block(final(log_page)@, old(fm).spec_block_size()),
        spec_boundary(final(log_page)@) == old(fm).spec_block_size(),
        block_records(final(log_page)@) == Seq::<Seq<u8>>::empty(),
        final(fm).file(log_file@) == old(fm).file(log_file@).push(final(log_page)@),
        forall|other: Seq<char>|
            other != log_file@ ==> final(fm).has_file(other) == old(fm).has_file(other)
                && final(fm).file(other) == old(fm).file(other),
{
    proof {
        old(fm).lemma_block_size_bounds();
    }
    let blk = fm.append(log_file);
    proof {
        fm.lemma_file_len_bound(log_file@);
    }
    let bsize = fm.block_size();
    log_page.set_int(0, bsize as u32);
    proof {
        crate::page::lemma_int_round_trip(old(log_page)@, 0, bsize as u32);
        assert(records_from(log_page@, bsize as int) =~= Seq::<Seq<u8>>::empty());
    }
    fm.write(&blk, log_page);
    proof {
        assert(fm.file(log_file@) =~= old(fm).file(log_file@).push(log_page@));
    }
    blk
}

} // verus!
