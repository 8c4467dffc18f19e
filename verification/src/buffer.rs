//! One slot of the buffer pool.
//!
//! A `Buffer` permanently owns one page and is reassigned from block to
//! block over the database's lifetime. It tracks a pin count, the block it
//! currently holds, and — when a transaction modified the page — that
//! transaction's number and the LSN of the corresponding log record.
//! Flushing obeys the flush-ahead rule: the write-ahead log is flushed
//! through the recorded LSN before the page itself is written.

use crate::block_id::BlockId;
use crate::file_manager::spec_store_block;
use crate::file_manager::FileManager;
use crate::log_manager::lemma_log_unaffected_by_other_files;
use crate::log_manager::LogManager;
use crate::page::Page;
use vstd::prelude::*;

verus! {

/// Fixed pool slot: one page, the block it mirrors, a pin count and the
/// modifying transaction's bookkeeping.
pub struct Buffer {
    contents: Page,
    block_id: Option<BlockId>,
    pins: u32,
    tx_num: Option<u32>,
    lsn: Option<u32>,
}

impl Buffer {
    /// The bytes of the resident page.
    pub closed spec fn spec_contents(&self) -> Seq<u8> {
        self.contents@
    }

    /// The identity of the block this slot holds, if any.
    pub closed spec fn spec_block(&self) -> Option<(Seq<char>, u64)> {
        match self.block_id {
            Some(b) => Some(b@),
            None => None,
        }
    }

    /// The pin count.
    pub closed spec fn spec_pins(&self) -> u32 {
        self.pins
    }

    /// The transaction recorded as having modified the page, if any.
    pub closed spec fn spec_tx_num(&self) -> Option<u32> {
        self.tx_num
    }

    /// The LSN recorded for the modification, if any.
    pub closed spec fn spec_lsn(&self) -> Option<u32> {
        self.lsn
    }

    /// Well-formed slot for a pool of `bsize`-byte blocks: the page has
    /// exactly the block size, and an assigned block number fits a machine
    /// word.
    pub open spec fn wf(&self, bsize: int) -> bool {
        &&& self.spec_contents().len() == bsize
        &&& match self.spec_block() {
            Some(b) => b.1 <= usize::MAX,
            None => true,
        }
    }

    /// A fresh, unassigned, unpinned slot with a zero-filled page.
    pub fn new(block_size: usize) -> (res: Self)
        ensures
            res.wf(block_size as int),
            res.spec_block() is None,
            res.spec_pins() == 0,
            res.spec_tx_num() is None,
            res.spec_lsn() is None,
            res.spec_contents() == Seq::new(block_size as nat, |i: int| 0u8),
    {
        Buffer {
            contents: Page::new(block_size),
            block_id: None,
            pins: 0,
            tx_num: None,
            lsn: None,
        }
    }

    /// Direct access to the resident page. The caller sees exactly the
    /// current page and every change made through the borrow.
    pub fn contents(&mut self) -> (p: &mut Page)
        ensures
            p@ == old(self).spec_contents(),
            final(self).spec_contents() == final(p)@,
            final(self).spec_block() == old(self).spec_block(),
            final(self).spec_pins() == old(self).spec_pins(),
            final(self).spec_tx_num() == old(self).spec_tx_num(),
            final(self).spec_lsn() == old(self).spec_lsn(),
            p@ == old(self).spec_contents(),
    {
        &mut self.contents
    }

    /// The block this slot holds.
    pub fn block(&self) -> (r: Option<&BlockId>)
        ensures
            r is Some <==> self.spec_block() is Some,
            r matches Some(b) ==> self.spec_block() == Some(b@),
    {
        self.block_id.as_ref()
    }

    /// Whether any caller still holds a pin on this slot.
    pub fn is_pinned(&self) -> (r: bool)
        ensures
            r == (self.spec_pins() > 0),
    {
        self.pins > 0
    }

    /// Records that `txnum` modified the page; an `lsn` of 0 means the
    /// change has no log record and leaves the recorded LSN alone.
    pub fn set_modified(&mut self, txnum: u32, lsn: u32)
        ensures
            final(self).spec_tx_num() == Some(txnum),
            final(self).spec_lsn() == if lsn > 0 {
                Some(lsn)
            } else {
                old(self).spec_lsn()
            },
            final(self).spec_contents() == old(self).spec_contents(),
            final(self).spec_block() == old(self).spec_block(),
            final(self).spec_pins() == old(self).spec_pins(),
    {
        self.tx_num = Some(txnum);
        if lsn > 0 {
            self.lsn = Some(lsn);
        }
    }

    /// The transaction recorded as having modified the page, if any.
    pub fn modifing_tx_num(&self) -> (r: Option<u32>)
        ensures
            r == self.spec_tx_num(),
    {
        self.tx_num
    }

    /// Takes one more pin on this slot.
    pub fn pin(&mut self)
        requires
            old(self).spec_pins() < u32::MAX,
        ensures
            final(self).spec_pins() == old(self).spec_pins() + 1,
            final(self).spec_contents() == old(self).spec_contents(),
            final(self).spec_block() == old(self).spec_block(),
            final(self).spec_tx_num() == old(self).spec_tx_num(),
            final(self).spec_lsn() == old(self).spec_lsn(),
    {
        self.pins = self.pins + 1;
    }

    /// Releases one pin on this slot.
    pub fn unpin(&mut self)
        requires
            old(self).spec_pins() > 0,
        ensures
            final(self).spec_pins() == old(self).spec_pins() - 1,
            final(self).spec_contents() == old(self).spec_contents(),
            final(self).spec_block() == old(self).spec_block(),
            final(self).spec_tx_num() == old(self).spec_tx_num(),
            final(self).spec_lsn() == old(self).spec_lsn(),
    {
        self.pins = self.pins - 1;
    }

    /// Law (flush-ahead): flushing a slot that a transaction modified
    /// first makes the write-ahead log durable through the recorded LSN,
    /// and only then writes the page; afterwards the modification marker is
    /// clear. A slot with no recorded modification is left alone, as are
    /// the file store and the log.
    pub fn flush(&mut self, fm: &mut FileManager, lm: &mut LogManager)
        requires
            old(self).wf(old(fm).spec_block_size()),
            old(lm).wf(old(fm)),
            match old(self).spec_block() {
                Some(b) => b.0 != old(lm).spec_log_file(),
                None => true,
            },
        ensures
            final(self).wf(final(fm).spec_block_size()),
            final(lm).wf(final(fm)),
            final(fm).spec_block_size() == old(fm).spec_block_size(),
            final(lm).spec_log_file() == old(lm).spec_log_file(),
            final(lm).lsn() == old(lm).lsn(),
            final(lm).saved_lsn() >= old(lm).saved_lsn(),
            final(lm).records(final(fm)) == old(lm).records(old(fm)),
            final(self).spec_contents() == old(self).spec_contents(),
            final(self).spec_block() == old(self).spec_block(),
            final(self).spec_pins() == old(self).spec_pins(),
            final(self).spec_lsn() == old(self).spec_lsn(),
            old(self).spec_tx_num() is None ==> *final(self) == *old(self) && *final(fm) == *old(fm) && *final(lm) == *old(lm),
            old(self).spec_tx_num() is Some ==> final(self).spec_tx_num() is None,
            // flush-ahead: when the page is written, the WAL is already
            // durable through the recorded LSN
            (match old(self).spec_lsn() {
                Some(l) => old(self).spec_tx_num() is Some && l <= old(lm).lsn() ==> final(lm).saved_lsn() >= l,
                None => true,
            }),
            // the page write itself
            (match old(self).spec_block() {
                Some(b) => old(self).spec_tx_num() is Some ==> final(fm).file(b.0)
                    == spec_store_block(
                    old(fm).file(b.0),
                    b.1 as int,
                    old(self).spec_contents(),
                    old(fm).spec_block_size(),
                ),
                None => true,
            }),
            // every file but the log's and the written block's is untouched
            forall|other: Seq<char>|
                other != old(lm).spec_log_file() && (match old(self).spec_block() {
                    Some(b) => other != b.0,
                    None => true,
                }) ==> final(fm).has_file(other) == old(fm).has_file(other) && final(fm).file(
                    other,
                ) == old(fm).file(other),
    {
        if self.tx_num.is_some() {
            if let Some(l) = self.lsn {
                lm.flush(fm, l);
            }
            let ghost mid_fm = *fm;
            let ghost mid_lm = *lm;
            proof {
                crate::log_manager::lemma_log_wf_file_store(lm, fm);
            }
            if let Some(blk) = &self.block_id {
                fm.write(blk, &self.contents);
                proof {
                    lemma_log_unaffected_by_other_files(&mid_lm, &mid_fm, fm);
                }
            }
            self.tx_num = None;
        }
    }

    /// Flushes any prior dirty content, then loads `block_id`'s current
    /// bytes into the page (a block past the end of its file leaves the
    /// page as flushed) and resets the pin count.
    pub fn assign_to_block(
        &mut self,
        fm: &mut FileManager,
        lm: &mut LogManager,
        block_id: BlockId,
    )
        requires
            old(self).wf(old(fm).spec_block_size()),
            old(lm).wf(old(fm)),
            match old(self).spec_block() {
                Some(b) => b.0 != old(lm).spec_log_file(),
                None => true,
            },
            block_id@.1 <= usize::MAX,
        ensures
            final(self).wf(final(fm).spec_block_size()),
            final(lm).wf(final(fm)),
            final(fm).spec_block_size() == old(fm).spec_block_size(),
            final(lm).spec_log_file() == old(lm).spec_log_file(),
            final(lm).lsn() == old(lm).lsn(),
            final(lm).saved_lsn() >= old(lm).saved_lsn(),
            final(lm).records(final(fm)) == old(lm).records(old(fm)),
            final(self).spec_block() == Some(block_id@),
            final(self).spec_pins() == 0,
            final(self).spec_tx_num() is None,
            final(self).spec_contents() == if block_id@.1 < final(fm).file(block_id@.0).len() {
                final(fm).file(block_id@.0)[block_id@.1 as int]
            } else {
                old(self).spec_contents()
            },
            // the flush of the prior content, if one happened
            (match old(self).spec_block() {
                Some(b) => old(self).spec_tx_num() is Some ==> final(fm).file(b.0)
                    == spec_store_block(
                    old(fm).file(b.0),
                    b.1 as int,
                    old(self).spec_contents(),
                    old(fm).spec_block_size(),
                ),
                None => true,
            }),
            forall|other: Seq<char>|
                other != old(lm).spec_log_file() && (match old(self).spec_block() {
                    Some(b) => other != b.0,
                    None => true,
                }) ==> final(fm).has_file(other) == old(fm).has_file(other) && final(fm).file(
                    other,
                ) == old(fm).file(other),
    {
        self.flush(fm, lm);
        proof {
            crate::log_manager::lemma_log_wf_file_store(lm, fm);
        }
        self.block_id = Some(block_id);
        if let Some(blk) = &self.block_id {
            proof {
                fm.lemma_file_block_sizes(blk@.0);
            }
            fm.read(blk, &mut self.contents);
        }
        self.pins = 0;
    }
}

} // verus!
