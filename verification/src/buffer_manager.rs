//! Fixed pool of buffer slots with pin-based eviction.
//!
//! `pin` serves a block from the slot already holding it if resident, and
//! otherwise loads it into the first unpinned slot (flushing that slot's
//! dirty content first); a pinned slot is never eligible for reassignment.
//! When every slot is pinned the request aborts rather than waits: the
//! caller owns the blocking policy, retrying on unpin events and giving up
//! once `waiting_too_long` says the wait bound (default 10 seconds) has
//! passed.

use crate::block_id::BlockId;
use crate::buffer::Buffer;
use crate::file_manager::spec_store_block;
use crate::file_manager::FileManager;
use crate::log_manager::LogManager;
use vstd::prelude::*;

verus! {

/// Error for a pin request that timed out, failed on I/O, or found no slot.
#[derive(Clone, Copy, PartialEq, Eq, Structural, Debug)]
pub enum BufferAbortError {
    Time,
    IO,
    General,
}

/// How many slots of the pool are unpinned.
pub open spec fn count_unpinned(pool: Seq<Buffer>) -> int
    decreases pool.len(),
{
    if pool.len() == 0 {
        0
    } else {
        count_unpinned(pool.drop_last()) + if pool.last().spec_pins() == 0 {
            1int
        } else {
            0int
        }
    }
}

/// Replacing one slot changes the unpinned count by the difference the
/// replacement makes.
proof fn lemma_count_unpinned_update(pool: Seq<Buffer>, i: int, b: Buffer)
    requires
        0 <= i < pool.len(),
    ensures
        count_unpinned(pool.update(i, b)) == count_unpinned(pool) + (if b.spec_pins() == 0 {
            1int
        } else {
            0int
        }) - (if pool[i].spec_pins() == 0 {
            1int
        } else {
            0int
        }),
    decreases pool.len(),
{
    let p2 = pool.update(i, b);
    if i == pool.len() - 1 {
        assert(p2.drop_last() =~= pool.drop_last());
        assert(p2.last() == b);
    } else {
        assert(p2.drop_last() =~= pool.drop_last().update(i, b));
        lemma_count_unpinned_update(pool.drop_last(), i, b);
        assert(p2.last() == pool.last());
    }
}

/// The unpinned count lies between 0 and the pool size.
proof fn lemma_count_unpinned_le_len(pool: Seq<Buffer>)
    ensures
        0 <= count_unpinned(pool) <= pool.len(),
    decreases pool.len(),
{
    if pool.len() > 0 {
        lemma_count_unpinned_le_len(pool.drop_last());
    }
}

/// An unpinned slot witnesses a positive unpinned count.
proof fn lemma_count_unpinned_at(pool: Seq<Buffer>, i: int)
    requires
        0 <= i < pool.len(),
        pool[i].spec_pins() == 0,
    ensures
        count_unpinned(pool) >= 1,
    decreases pool.len(),
{
    lemma_count_unpinned_le_len(pool.drop_last());
    if i < pool.len() - 1 {
        lemma_count_unpinned_at(pool.drop_last(), i);
    }
}

/// Pools with the same pin counts slot for slot have the same unpinned
/// count.
proof fn lemma_count_unpinned_pointwise(p1: Seq<Buffer>, p2: Seq<Buffer>)
    requires
        p1.len() == p2.len(),
        forall|k: int| 0 <= k < p1.len() ==> p1[k].spec_pins() == (#[trigger] p2[k]).spec_pins(),
    ensures
        count_unpinned(p1) == count_unpinned(p2),
    decreases p1.len(),
{
    if p1.len() > 0 {
        lemma_count_unpinned_pointwise(p1.drop_last(), p2.drop_last());
    }
}

/// Pool of N fixed slots sharing one file store and one write-ahead log.
pub struct BufferManager {
    buffer_pool: Vec<Buffer>,
    num_available: u16,
    max_time: u128,
}

impl BufferManager {
    /// The slots of the pool.
    pub closed spec fn pool(&self) -> Seq<Buffer> {
        self.buffer_pool@
    }

    /// The available-slot counter.
    pub closed spec fn spec_available(&self) -> u16 {
        self.num_available
    }

    /// The wait bound, in milliseconds, for blocked pin requests.
    pub closed spec fn spec_max_time(&self) -> int {
        self.max_time as int
    }

    /// Well-formed pool over its file store and log: every slot sized to
    /// the block size, no slot holding a log block, no block held twice, a
    /// pool small enough for its 16-bit counter — which equals the number
    /// of unpinned slots — and a well-formed log beneath.
    pub open spec fn wf(&self, fm: &FileManager, lm: &LogManager) -> bool {
        &&& lm.wf(fm)
        &&& forall|i: int|
            0 <= i < self.pool().len() ==> (#[trigger] self.pool()[i]).wf(fm.spec_block_size())
        &&& forall|i: int|
            0 <= i < self.pool().len() ==> match (#[trigger] self.pool()[i]).spec_block() {
                Some(b) => b.0 != lm.spec_log_file(),
                None => true,
            }
        &&& forall|i: int, j: int|
            0 <= i < j < self.pool().len() && (#[trigger] self.pool()[i]).spec_block() is Some && (
            #[trigger] self.pool()[j]).spec_block() is Some ==> self.pool()[i].spec_block()
                != self.pool()[j].spec_block()
        &&& self.pool().len() <= u16::MAX
        &&& self.spec_available() == count_unpinned(self.pool())
    }

    /// A pool of `num_buffers` fresh slots, all unpinned and unassigned.
    pub fn new(fm: &FileManager, lm: &LogManager, num_buffers: u16) -> (res: Self)
        requires
            lm.wf(fm),
        ensures
            res.wf(fm, lm),
            res.pool().len() == num_buffers,
            res.spec_available() == num_buffers,
            res.spec_max_time() == 10000,
            forall|i: int|
                0 <= i < num_buffers ==> (#[trigger] res.pool()[i]).spec_block() is None && res.pool()[i].spec_pins() == 0 && res.pool()[i].spec_tx_num() is None,
    {
        let bsize = fm.block_size();
        let mut buffer_pool: Vec<Buffer> = Vec::new();
        let mut i: u16 = 0;
        while i < num_buffers
            invariant
                i <= num_buffers,
                buffer_pool@.len() == i,
                forall|k: int|
                    0 <= k < i ==> (#[trigger] buffer_pool@[k]).wf(fm.spec_block_size())
                        && buffer_pool@[k].spec_block() is None && buffer_pool@[k].spec_pins() == 0
                        && buffer_pool@[k].spec_tx_num() is None,
                count_unpinned(buffer_pool@) == i,
                bsize == fm.spec_block_size(),
            decreases num_buffers - i,
        {
            let ghost before = buffer_pool@;
            buffer_pool.push(Buffer::new(bsize));
            proof {
                assert(buffer_pool@.drop_last() =~= before);
            }
            i = i + 1;
        }
        BufferManager { buffer_pool, num_available: num_buffers, max_time: 10 * 1000 }
    }

    /// The number of unpinned slots.
    pub fn available(&self) -> (r: u16)
        ensures
            r == self.spec_available(),
    {
        self.num_available
    }

    /// Adjusts the wait bound for blocked pin requests (milliseconds).
    pub fn set_max_time(&mut self, max_time: u128)
        ensures
            final(self).pool() == old(self).pool(),
            final(self).spec_available() == old(self).spec_available(),
            final(self).spec_max_time() == max_time,
    {
        self.max_time = max_time;
    }

    /// Whether a wait that started at `start_time` has exceeded the wait
    /// bound by `now` (both in milliseconds).
    pub fn waiting_too_long(&self, start_time: u128, now: u128) -> (r: bool)
        requires
            start_time <= now,
        ensures
            r == (now - start_time > self.spec_max_time()),
    {
        now - start_time > self.max_time
    }

    /// The first slot already holding `blk`, if any.
    pub fn find_existing_buffer(&self, blk: &BlockId) -> (r: Option<usize>)
        ensures
            r matches Some(i) ==> 0 <= i < self.pool().len() && self.pool()[i as int].spec_block()
                == Some(blk@),
            r is None ==> forall|j: int|
                0 <= j < self.pool().len() ==> (#[trigger] self.pool()[j]).spec_block() != Some(
                    blk@,
                ),
    {
        let n = self.buffer_pool.len();
        let mut i: usize = 0;
        while i < n
            invariant
                i <= n,
                n == self.pool().len(),
                forall|j: int|
                    0 <= j < i ==> (#[trigger] self.pool()[j]).spec_block() != Some(blk@),
            decreases n - i,
        {
            match self.buffer_pool[i].block() {
                Some(b) => {
                    if *b == *blk {
                        return Some(i);
                    }
                },
                None => {},
            }
            i = i + 1;
        }
        None
    }

    /// The first unpinned slot, if any — a plain linear scan, no
    /// replacement policy.
    pub fn choose_unpinned_buffer(&self) -> (r: Option<usize>)
        ensures
            r matches Some(i) ==> 0 <= i < self.pool().len() && self.pool()[i as int].spec_pins()
                == 0 && (forall|j: int|
                0 <= j < i ==> (#[trigger] self.pool()[j]).spec_pins() > 0),
            r is None ==> forall|j: int|
                0 <= j < self.pool().len() ==> (#[trigger] self.pool()[j]).spec_pins() > 0,
    {
        let n = self.buffer_pool.len();
        let mut i: usize = 0;
        while i < n
            invariant
                i <= n,
                n == self.pool().len(),
                forall|j: int| 0 <= j < i ==> (#[trigger] self.pool()[j]).spec_pins() > 0,
            decreases n - i,
        {
            if !self.buffer_pool[i].is_pinned() {
                return Some(i);
            }
            i = i + 1;
        }
        None
    }

    /// One pin attempt, never blocking. Reuses the slot already holding
    /// `blk` if resident; otherwise loads `blk` into the first unpinned
    /// slot, flushing that slot's dirty content first; yields `None`, with
    /// nothing changed, when `blk` is not resident and every slot is
    /// pinned.
    pub fn try_to_pin(&mut self, fm: &mut FileManager, lm: &mut LogManager, blk: &BlockId) -> (r:
        Option<usize>)
        requires
            old(self).wf(old(fm), old(lm)),
            blk@.0 != old(lm).spec_log_file(),
            blk@.1 <= usize::MAX,
            forall|i: int|
                0 <= i < old(self).pool().len() ==> (#[trigger] old(self).pool()[i]).spec_pins()
                    < u32::MAX,
        ensures
            final(self).wf(final(fm), final(lm)),
            final(fm).spec_block_size() == old(fm).spec_block_size(),
            final(lm).spec_log_file() == old(lm).spec_log_file(),
            final(lm).lsn() == old(lm).lsn(),
            final(lm).saved_lsn() >= old(lm).saved_lsn(),
            final(lm).records(final(fm)) == old(lm).records(old(fm)),
            final(self).spec_max_time() == old(self).spec_max_time(),
            final(self).pool().len() == old(self).pool().len(),
            r is None ==> *final(self) == *old(self) && *final(fm) == *old(fm) && *final(lm)
                == *old(lm) && (forall|j: int|
                0 <= j < old(self).pool().len() ==> (#[trigger] old(self).pool()[j]).spec_block() != Some(blk@) && old(self).pool()[j].spec_pins() > 0),
            r matches Some(i) ==> {
                &&& 0 <= i < old(self).pool().len()
                &&& final(self).pool()[i as int].spec_block() == Some(blk@)
                &&& final(self).pool()[i as int].spec_pins() >= 1
                &&& forall|j: int|
                    0 <= j < old(self).pool().len() && j != i ==> final(self).pool()[j] == old(self).pool()[j]
                &&& final(self).spec_available() as int == old(self).spec_available() as int - (
                if old(self).pool()[i as int].spec_pins() == 0 {
                    1int
                } else {
                    0int
                })
                &&& (old(self).pool()[i as int].spec_block() == Some(blk@) ==> {
                    &&& final(self).pool()[i as int].spec_pins() == old(self).pool()[i as int].spec_pins() + 1
                    &&& final(self).pool()[i as int].spec_contents() == old(self).pool()[i as int].spec_contents()
                    &&& final(self).pool()[i as int].spec_tx_num() == old(self).pool()[i as int].spec_tx_num()
                    &&& final(self).pool()[i as int].spec_lsn() == old(self).pool()[i as int].spec_lsn()
                    &&& *final(fm) == *old(fm)
                    &&& *final(lm) == *old(lm)
                })
                &&& (old(self).pool()[i as int].spec_block() != Some(blk@) ==> {
                    &&& old(self).pool()[i as int].spec_pins() == 0
                    &&& (forall|j: int|
                        0 <= j < i ==> (#[trigger] old(self).pool()[j]).spec_pins() > 0)
                    &&& (forall|j: int|
                        0 <= j < old(self).pool().len() ==> (#[trigger] old(self).pool()[j]).spec_block() != Some(blk@))
                    &&& final(self).pool()[i as int].spec_pins() == 1
                    &&& final(self).pool()[i as int].spec_tx_num() is None
                    &&& final(self).pool()[i as int].spec_contents() == (if blk@.1 < final(fm).file(blk@.0).len() {
                        final(fm).file(blk@.0)[blk@.1 as int]
                    } else {
                        old(self).pool()[i as int].spec_contents()
                    })
                    &&& (match old(self).pool()[i as int].spec_block() {
                        Some(b) => old(self).pool()[i as int].spec_tx_num() is Some ==> final(fm).file(b.0) == spec_store_block(
                            old(fm).file(b.0),
                            b.1 as int,
                            old(self).pool()[i as int].spec_contents(),
                            old(fm).spec_block_size(),
                        ),
                        None => true,
                    })
                    &&& (forall|other: Seq<char>|
                        other != old(lm).spec_log_file() && (match old(self).pool()[i as int].spec_block() {
                            Some(b) => other != b.0,
                            None => true,
                        }) ==> #[trigger] final(fm).file(other) == old(fm).file(other))
                })
            },
    {
        let ghost pre = *self;
        let mut idx = self.find_existing_buffer(blk);
        if idx.is_none() {
            idx = self.choose_unpinned_buffer();
            match idx {
                Some(i) => {
                    let ghost chosen = self.buffer_pool@[i as int];
                    self.buffer_pool[i].assign_to_block(fm, lm, blk.clone());
                    proof {
                        lemma_count_unpinned_update(
                            pre.pool(),
                            i as int,
                            self.buffer_pool@[i as int],
                        );
                        assert(self.pool() =~= pre.pool().update(
                            i as int,
                            self.pool()[i as int],
                        ));
                    }
                },
                None => {
                    return None;
                },
            }
        }
        match idx {
            Some(i) => {
                let ghost mid = *self;
                let pinned = self.buffer_pool[i].is_pinned();
                if !pinned {
                    proof {
                        lemma_count_unpinned_at(self.pool(), i as int);
                    }
                    self.num_available = self.num_available - 1;
                }
                self.buffer_pool[i].pin();
                proof {
                    lemma_count_unpinned_update(mid.pool(), i as int, self.buffer_pool@[i as int]);
                    assert(self.pool() =~= mid.pool().update(i as int, self.pool()[i as int]));
                }
                Some(i)
            },
            None => None,
        }
    }

    /// One non-blocking pin request: `Ok` with the slot index exactly when
    /// `blk` is resident or some slot is unpinned, `Err` otherwise with
    /// nothing changed. The caller owns the waiting: it retries on unpin
    /// events and aborts once `waiting_too_long` says so.
    pub fn pin(&mut self, fm: &mut FileManager, lm: &mut LogManager, blk: &BlockId) -> (r: Result<
        usize,
        BufferAbortError,
    >)
        requires
            old(self).wf(old(fm), old(lm)),
            blk@.0 != old(lm).spec_log_file(),
            blk@.1 <= usize::MAX,
            forall|i: int|
                0 <= i < old(self).pool().len() ==> (#[trigger] old(self).pool()[i]).spec_pins()
                    < u32::MAX,
        ensures
            final(self).wf(final(fm), final(lm)),
            final(fm).spec_block_size() == old(fm).spec_block_size(),
            final(lm).spec_log_file() == old(lm).spec_log_file(),
            final(lm).lsn() == old(lm).lsn(),
            final(lm).saved_lsn() >= old(lm).saved_lsn(),
            final(lm).records(final(fm)) == old(lm).records(old(fm)),
            final(self).spec_max_time() == old(self).spec_max_time(),
            final(self).pool().len() == old(self).pool().len(),
            r is Err ==> *final(self) == *old(self) && *final(fm) == *old(fm) && *final(lm) == *old(lm) && r == Err::<usize, BufferAbortError>(BufferAbortError::General) && (forall|j: int|
                0 <= j < old(self).pool().len() ==> (#[trigger] old(self).pool()[j]).spec_block() != Some(blk@) && old(self).pool()[j].spec_pins() > 0),
            (forall|j: int|
                0 <= j < old(self).pool().len() ==> (#[trigger] old(self).pool()[j]).spec_block()
                    != Some(blk@) && old(self).pool()[j].spec_pins() > 0) ==> r is Err,
            r matches Ok(i) ==> {
                &&& 0 <= i < old(self).pool().len()
                &&& final(self).pool()[i as int].spec_block() == Some(blk@)
                &&& final(self).pool()[i as int].spec_pins() >= 1
                &&& forall|j: int|
                    0 <= j < old(self).pool().len() && j != i ==> final(self).pool()[j] == old(self).pool()[j]
                &&& final(self).spec_available() as int == old(self).spec_available() as int - (
                if old(self).pool()[i as int].spec_pins() == 0 {
                    1int
                } else {
                    0int
                })
                &&& (old(self).pool()[i as int].spec_block() == Some(blk@) ==> {
                    &&& final(self).pool()[i as int].spec_pins() == old(self).pool()[i as int].spec_pins() + 1
                    &&& final(self).pool()[i as int].spec_contents() == old(self).pool()[i as int].spec_contents()
                    &&& final(self).pool()[i as int].spec_tx_num() == old(self).pool()[i as int].spec_tx_num()
                    &&& final(self).pool()[i as int].spec_lsn() == old(self).pool()[i as int].spec_lsn()
                    &&& *final(fm) == *old(fm)
                    &&& *final(lm) == *old(lm)
                })
                &&& (old(self).pool()[i as int].spec_block() != Some(blk@) ==> {
                    &&& old(self).pool()[i as int].spec_pins() == 0
                    &&& (forall|j: int|
                        0 <= j < i ==> (#[trigger] old(self).pool()[j]).spec_pins() > 0)
                    &&& (forall|j: int|
                        0 <= j < old(self).pool().len() ==> (#[trigger] old(self).pool()[j]).spec_block() != Some(blk@))
                    &&& final(self).pool()[i as int].spec_pins() == 1
                    &&& final(self).pool()[i as int].spec_tx_num() is None
                    &&& final(self).pool()[i as int].spec_contents() == (if blk@.1 < final(fm).file(blk@.0).len() {
                        final(fm).file(blk@.0)[blk@.1 as int]
                    } else {
                        old(self).pool()[i as int].spec_contents()
                    })
                    &&& (match old(self).pool()[i as int].spec_block() {
                        Some(b) => old(self).pool()[i as int].spec_tx_num() is Some ==> final(fm).file(b.0) == spec_store_block(
                            old(fm).file(b.0),
                            b.1 as int,
                            old(self).pool()[i as int].spec_contents(),
                            old(fm).spec_block_size(),
                        ),
                        None => true,
                    })
                    &&& (forall|other: Seq<char>|
                        other != old(lm).spec_log_file() && (match old(self).pool()[i as int].spec_block() {
                            Some(b) => other != b.0,
                            None => true,
                        }) ==> #[trigger] final(fm).file(other) == old(fm).file(other))
                })
            },
    {
        match self.try_to_pin(fm, lm, blk) {
            Some(i) => Ok(i),
            None => Err(BufferAbortError::General),
        }
    }

    /// Releases one pin on slot `idx`; a slot whose pin count returns to
    /// zero becomes available again (and in a threaded setting this is the
    /// event blocked pinners wake on).
    pub fn unpin(&mut self, idx: usize)
        requires
            old(self).wf_pool_only(),
            idx < old(self).pool().len(),
            old(self).pool()[idx as int].spec_pins() > 0,
        ensures
            final(self).pool().len() == old(self).pool().len(),
            final(self).pool()[idx as int].spec_pins() == old(self).pool()[idx as int].spec_pins()
                - 1,
            final(self).pool()[idx as int].spec_block() == old(self).pool()[idx as int].spec_block(),
            final(self).pool()[idx as int].spec_contents() == old(self).pool()[idx as int].spec_contents(),
            final(self).pool()[idx as int].spec_tx_num() == old(self).pool()[idx as int].spec_tx_num(),
            final(self).pool()[idx as int].spec_lsn() == old(self).pool()[idx as int].spec_lsn(),
            forall|j: int|
                0 <= j < old(self).pool().len() && j != idx ==> final(self).pool()[j] == old(self).pool()[j],
            final(self).spec_available() as int == old(self).spec_available() as int + (if old(self).pool()[idx as int].spec_pins() == 1 {
                1int
            } else {
                0int
            }),
            final(self).spec_max_time() == old(self).spec_max_time(),
            final(self).wf_pool_only(),
    {
        let ghost pre = *self;
        self.buffer_pool[idx].unpin();
        proof {
            assert(self.pool() =~= pre.pool().update(idx as int, self.pool()[idx as int]));
            lemma_count_unpinned_update(pre.pool(), idx as int, self.pool()[idx as int]);
            lemma_count_unpinned_le_len(self.pool());
        }
        if !self.buffer_pool[idx].is_pinned() {
            self.num_available = self.num_available + 1;
        }
    }

    /// Flushes every slot whose recorded modifying transaction is `txnum`
    /// — used at commit time to force durability of everything that
    /// transaction touched. Each such slot's page ends up stored at its
    /// block, the write-ahead log having been flushed through the slot's
    /// recorded LSN first; other slots are untouched.
    pub fn flush_all(&mut self, fm: &mut FileManager, lm: &mut LogManager, txnum: u32)
        requires
            old(self).wf(old(fm), old(lm)),
        ensures
            final(self).wf(final(fm), final(lm)),
            final(fm).spec_block_size() == old(fm).spec_block_size(),
            final(lm).spec_log_file() == old(lm).spec_log_file(),
            final(lm).lsn() == old(lm).lsn(),
            final(lm).saved_lsn() >= old(lm).saved_lsn(),
            final(lm).records(final(fm)) == old(lm).records(old(fm)),
            final(self).spec_available() == old(self).spec_available(),
            final(self).spec_max_time() == old(self).spec_max_time(),
            final(self).pool().len() == old(self).pool().len(),
            forall|j: int|
                0 <= j < old(self).pool().len() && (#[trigger] old(self).pool()[j]).spec_tx_num()
                    != Some(txnum) ==> final(self).pool()[j] == old(self).pool()[j],
            forall|j: int|
                0 <= j < old(self).pool().len() && (#[trigger] old(self).pool()[j]).spec_tx_num()
                    == Some(txnum) ==> {
                    &&& final(self).pool()[j].spec_tx_num() is None
                    &&& final(self).pool()[j].spec_contents() == old(
                        self,
                    ).pool()[j].spec_contents()
                    &&& final(self).pool()[j].spec_block() == old(self).pool()[j].spec_block()
                    &&& final(self).pool()[j].spec_pins() == old(self).pool()[j].spec_pins()
                    &&& (match old(self).pool()[j].spec_block() {
                        Some(b) => final(fm).file(b.0).len() > b.1 && final(fm).file(b.0)[b.1 as int]
                            == old(self).pool()[j].spec_contents(),
                        None => true,
                    })
                    &&& (match old(self).pool()[j].spec_lsn() {
                        Some(l) => l <= old(lm).lsn() ==> final(lm).saved_lsn() >= l,
                        None => true,
                    })
                },
    {
        let ghost pre = *self;
        let ghost pre_fm = *fm;
        let ghost pre_lm = *lm;
        let n = self.buffer_pool.len();
        let mut i: usize = 0;
        while i < n
            invariant
                i <= n,
                n == self.pool().len(),
                self.wf(fm, lm),
                pre.pool().len() == n,
                fm.spec_block_size() == pre_fm.spec_block_size(),
                lm.spec_log_file() == pre_lm.spec_log_file(),
                lm.lsn() == pre_lm.lsn(),
                lm.saved_lsn() >= pre_lm.saved_lsn(),
                lm.records(fm) == pre_lm.records(&pre_fm),
                self.spec_available() == pre.spec_available(),
                self.spec_max_time() == pre.spec_max_time(),
                forall|j: int| i <= j < n ==> self.pool()[j] == pre.pool()[j],
                forall|j: int|
                    0 <= j < i && (#[trigger] pre.pool()[j]).spec_tx_num() != Some(txnum)
                        ==> self.pool()[j] == pre.pool()[j],
                forall|j: int|
                    0 <= j < i && (#[trigger] pre.pool()[j]).spec_tx_num() == Some(txnum) ==> {
                        &&& self.pool()[j].spec_tx_num() is None
                        &&& self.pool()[j].spec_contents() == pre.pool()[j].spec_contents()
                        &&& self.pool()[j].spec_block() == pre.pool()[j].spec_block()
                        &&& self.pool()[j].spec_pins() == pre.pool()[j].spec_pins()
                        &&& (match pre.pool()[j].spec_lsn() {
                            Some(l) => l <= pre_lm.lsn() ==> lm.saved_lsn() >= l,
                            None => true,
                        })
                    },
                forall|j: int|
                    0 <= j < i && (#[trigger] pre.pool()[j]).spec_tx_num() == Some(txnum)
                        ==> (match pre.pool()[j].spec_block() {
                        Some(b) => fm.file(b.0).len() > b.1 && fm.file(b.0)[b.1 as int]
                            == pre.pool()[j].spec_contents(),
                        None => true,
                    }),
            decreases n - i,
        {
            let ghost mid = *self;
            let ghost mid_fm = *fm;
            let ghost mid_lm = *lm;
            let flush_this = match self.buffer_pool[i].modifing_tx_num() {
                Some(t) => t == txnum,
                None => false,
            };
            if flush_this {
                self.buffer_pool[i].flush(fm, lm);
                proof {
                    assert(self.pool() =~= mid.pool().update(i as int, self.pool()[i as int]));
                    lemma_count_unpinned_pointwise(self.pool(), mid.pool());
                    assert forall|j: int|
                        0 <= j < i && (#[trigger] pre.pool()[j]).spec_tx_num() == Some(txnum)
                            implies (match pre.pool()[j].spec_block() {
                            Some(b) => fm.file(b.0).len() > b.1 && fm.file(b.0)[b.1 as int]
                                == pre.pool()[j].spec_contents(),
                            None => true,
                        }) by {
                        match pre.pool()[j].spec_block() {
                            Some(b) => {
                                match mid.pool()[i as int].spec_block() {
                                    Some(bi) => {
                                        assert(mid.pool()[j].spec_block() == Some(b));
                                        assert(bi != b);
                                        if bi.0 == b.0 {
                                            crate::file_manager::lemma_store_block_frame(
                                                mid_fm.file(b.0),
                                                bi.1 as int,
                                                mid.pool()[i as int].spec_contents(),
                                                mid_fm.spec_block_size(),
                                            );
                                        }
                                    },
                                    None => {},
                                }
                            },
                            None => {},
                        }
                    }
                }
            }
            i = i + 1;
        }
    }

    /// The pool-side part of well-formedness: what `unpin` needs and
    /// maintains without touching the file store or the log.
    pub open spec fn wf_pool_only(&self) -> bool {
        &&& self.pool().len() <= u16::MAX
        &&& self.spec_available() == count_unpinned(self.pool())
    }

    /// Direct access to slot `idx`. The caller sees exactly that slot and
    /// every change made through the borrow.
    pub fn get_buffer(&mut self, idx: usize) -> (r: &mut Buffer)
        requires
            idx < old(self).pool().len(),
        ensures
            *r == old(self).pool()[idx as int],
            final(self).pool() == old(self).pool().update(idx as int, *final(r)),
            final(self).spec_available() == old(self).spec_available(),
            final(self).spec_max_time() == old(self).spec_max_time(),
    {
        &mut self.buffer_pool[idx]
    }
}

} // verus!
