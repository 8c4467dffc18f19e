//! Reverse-chronological lazy read-back of the log.
//!
//! Starting from the log's tail block, the iterator yields raw record bytes
//! most recent first: it walks each block from its boundary toward the end
//! (newest to oldest within the block), then steps to the next lower block,
//! down to block 0.

use crate::block_id::BlockId;
use crate::file_manager::FileManager;
use crate::log_manager::block_records;
use crate::log_manager::chain_records;
use crate::log_manager::records_from;
use crate::log_manager::spec_boundary;
use crate::log_manager::valid_suffix;
use crate::log_manager::wf_log_file;
use crate::page::Page;
use vstd::prelude::*;

verus! {

/// Finite, non-restartable cursor over the log's records, newest first.
pub struct LogIterator {
    block_id: BlockId,
    page: Page,
    current_pos: u32,
    boundary: u32,
    block_size: usize,
}

impl LogIterator {
    /// The records not yet yielded, newest first: the rest of the current
    /// block, then all blocks below it.
    pub closed spec fn remaining(&self, fm: &FileManager) -> Seq<Seq<u8>> {
        records_from(self.page@, self.current_pos as int) + chain_records(
            fm.file(self.block_id@.0),
            self.block_id@.1 as int,
        )
    }

    /// Well-formed cursor over the given file store: the current block
    /// exists and matches the resident page, the position starts a valid
    /// record chain, and every block at or below the current one is a
    /// well-formed log block, non-empty below the current one.
    pub closed spec fn wf(&self, fm: &FileManager) -> bool {
        let file = fm.file(self.block_id@.0);
        let bn = self.block_id@.1 as int;
        &&& fm.wf()
        &&& fm.spec_block_size() >= 8
        &&& self.block_size == fm.spec_block_size()
        &&& bn < file.len()
        &&& wf_log_file(file, bn + 1, fm.spec_block_size())
        &&& self.page@ == file[bn]
        &&& self.boundary == spec_boundary(self.page@)
        &&& self.boundary <= self.current_pos <= self.block_size
        &&& valid_suffix(self.page@, self.current_pos as int)
    }

    /// A cursor positioned at the newest record of `current_block`, which
    /// must be the last block of a well-formed log file.
    pub fn new(fm: &FileManager, current_block: &BlockId) -> (res: Self)
        requires
            fm.wf(),
            fm.spec_block_size() >= 8,
            current_block@.1 < fm.file(current_block@.0).len(),
            wf_log_file(fm.file(current_block@.0), current_block@.1 + 1, fm.spec_block_size()),
        ensures
            res.wf(fm),
            res.remaining(fm) == chain_records(fm.file(current_block@.0), current_block@.1 + 1),
    {
        let block_size = fm.block_size();
        let mut page = Page::new(block_size);
        fm.read(current_block, &mut page);
        let boundary = page.get_int(0);
        let res = LogIterator {
            block_id: current_block.clone(),
            page,
            current_pos: boundary,
            boundary,
            block_size,
        };
        proof {
            let file = fm.file(current_block@.0);
            let bn = current_block@.1 as int;
            assert(res.remaining(fm) =~= chain_records(file, bn + 1));
        }
        res
    }

    /// Whether any record is left to yield.
    pub fn has_next(&self, fm: &FileManager) -> (r: bool)
        requires
            self.wf(fm),
        ensures
            r == (self.remaining(fm).len() > 0),
    {
        let r = (self.current_pos as usize) < self.block_size || self.block_id.number() > 0;
        proof {
            let file = fm.file(self.block_id@.0);
            let bn = self.block_id@.1 as int;
            let pos = self.current_pos as int;
            if pos < self.block_size {
                assert(records_from(self.page@, pos).len() > 0);
            } else {
                assert(records_from(self.page@, pos) =~= Seq::<Seq<u8>>::empty());
                if bn > 0 {
                    assert(chain_records(file, bn) == block_records(file[bn - 1])
                        + chain_records(file, bn - 1));
                    assert(block_records(file[bn - 1]).len() > 0);
                } else {
                    assert(chain_records(file, bn) =~= Seq::<Seq<u8>>::empty());
                }
            }
        }
        r
    }

    /// Reloads the resident page with the current block and repositions at
    /// its boundary.
    fn move_to_block(&mut self, fm: &FileManager)
        requires
            fm.wf(),
            fm.spec_block_size() >= 8,
            old(self).block_size == fm.spec_block_size(),
            old(self).block_id@.1 < fm.file(old(self).block_id@.0).len(),
            wf_log_file(
                fm.file(old(self).block_id@.0),
                old(self).block_id@.1 + 1,
                fm.spec_block_size(),
            ),
        ensures
            final(self).wf(fm),
            final(self).block_id == old(self).block_id,
            final(self).current_pos == spec_boundary(final(self).page@),
            final(self).remaining(fm) == chain_records(
                fm.file(old(self).block_id@.0),
                old(self).block_id@.1 + 1,
            ),
    {
        fm.read(&self.block_id, &mut self.page);
        self.boundary = self.page.get_int(0);
        self.current_pos = self.boundary;
        proof {
            let file = fm.file(self.block_id@.0);
            let bn = self.block_id@.1 as int;
            assert(self.remaining(fm) =~= chain_records(file, bn + 1));
        }
    }

    /// Yields the next record — the newest not yet returned — or `None`
    /// once block 0's oldest record has been returned.
    pub fn next(&mut self, fm: &FileManager) -> (r: Option<Vec<u8>>)
        requires
            old(self).wf(fm),
        ensures
            final(self).wf(fm),
            old(self).remaining(fm).len() == 0 ==> r is None && final(self).remaining(fm).len()
                == 0,
            old(self).remaining(fm).len() > 0 ==> ({
                &&& r matches Some(v) && v@ == old(self).remaining(fm)[0]
                &&& final(self).remaining(fm) == old(self).remaining(fm).drop_first()
            }),
    {
        proof {
            fm.lemma_block_size_bounds();
        }
        if !self.has_next(fm) {
            return None;
        }
        if self.current_pos as usize == self.block_size {
            proof {
                assert(records_from(self.page@, self.current_pos as int) =~= Seq::<
                    Seq<u8>,
                >::empty());
                assert(self.block_id@.1 > 0);
            }
            let prev = BlockId::new(self.block_id.filename(), self.block_id.number() - 1);
            let ghost before = *self;
            self.block_id = prev;
            self.move_to_block(fm);
            proof {
                let file = fm.file(before.block_id@.0);
                let bn = before.block_id@.1 as int;
                assert(before.remaining(fm) =~= chain_records(file, bn));
                assert(self.remaining(fm) == chain_records(file, bn));
            }
        }
        let ghost pre = *self;
        proof {
            // the position stands on a record: the block below the old one
            // is non-empty, so a freshly loaded page starts before its end
            if pre.current_pos == pre.block_size {
                assert(records_from(pre.page@, pre.current_pos as int) =~= Seq::<
                    Seq<u8>,
                >::empty());
                assert(pre.remaining(fm).len() > 0 ==> false);
            }
        }
        let rec = self.page.get_bytes(self.current_pos as usize);
        let new_pos = self.current_pos as usize + 4 + rec.len();
        self.current_pos = new_pos as u32;
        proof {
            let p = pre.page@;
            let pos = pre.current_pos as int;
            let l = rec@.len() as int;
            assert(records_from(p, pos) == seq![p.subrange(pos + 4, pos + 4 + l)] + records_from(
                p,
                pos + 4 + l,
            ));
            assert(rec@ == records_from(p, pos)[0]);
            assert(pre.remaining(fm) =~= seq![rec@] + self.remaining(fm));
            assert(self.remaining(fm) =~= pre.remaining(fm).drop_first());
        }
        Some(rec)
    }
}

} // verus!
