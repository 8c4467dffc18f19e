//! Block-granular shared/exclusive advisory locks.
//!
//! Each block maps to a signed count: a positive value is the number of
//! shared holders, −1 marks an exclusive holder, and an absent entry (value
//! 0) means unlocked. A request that cannot be granted returns an abort
//! error instead of changing state; the caller decides whether to retry
//! until its wait bound runs out (timeout is the sole deadlock-avoidance
//! mechanism — there is no cycle detection).

use crate::block_id::BlockId;
use vstd::prelude::*;

verus! {

/// Error for a lock request that timed out or could not read the clock.
#[derive(Clone, Copy, PartialEq, Eq, Structural, Debug)]
pub enum LockAbortError {
    Time,
    General,
}

/// A shared lock can be granted when no exclusive holder exists.
pub open spec fn s_lock_ok(v: int) -> bool {
    v >= 0
}

/// An exclusive lock can be granted when no *other* shared holder exists:
/// the block is unlocked, or the requester holds the sole shared lock and
/// escalates.
pub open spec fn x_lock_ok(v: int) -> bool {
    0 <= v <= 1
}

/// The count after granting a shared lock.
pub open spec fn after_s_lock(v: int) -> int {
    v + 1
}

/// The count after granting an exclusive lock.
pub open spec fn after_x_lock(v: int) -> int {
    -1
}

/// The count after a release: one fewer sharer, or fully unlocked.
pub open spec fn after_unlock(v: int) -> int {
    if v > 1 {
        v - 1
    } else {
        0
    }
}

struct LockEntry {
    blk: BlockId,
    value: i32,
}

/// Maps block identities to lock counts; absent blocks are unlocked.
pub struct LockTable {
    max_time: u128,
    locks: Vec<LockEntry>,
}

impl LockTable {
    /// The wait bound, in milliseconds, that callers should apply before
    /// aborting a blocked request.
    pub closed spec fn spec_max_time(&self) -> int {
        self.max_time as int
    }

    /// Whether the table holds an entry for this block.
    spec fn has_entry(&self, blk: (Seq<char>, u64)) -> bool {
        exists|i: int| 0 <= i < self.locks@.len() && (#[trigger] self.locks@[i]).blk@ == blk
    }

    /// The index of this block's entry.
    spec fn idx_of(&self, blk: (Seq<char>, u64)) -> int {
        choose|i: int| 0 <= i < self.locks@.len() && (#[trigger] self.locks@[i]).blk@ == blk
    }

    /// The lock count of a block: positive = shared holders, −1 =
    /// exclusive, 0 = unlocked.
    pub closed spec fn lock_value(&self, blk: (Seq<char>, u64)) -> int {
        if self.has_entry(blk) {
            self.locks@[self.idx_of(blk)].value as int
        } else {
            0
        }
    }

    /// Well-formed table: one entry per block, never a zero (those are
    /// removed) and never below −1 — a block is shared or exclusive, not
    /// both.
    pub closed spec fn wf(&self) -> bool {
        &&& forall|i: int, j: int|
            0 <= i < j < self.locks@.len() ==> (#[trigger] self.locks@[i]).blk@ != (
            #[trigger] self.locks@[j]).blk@
        &&& forall|i: int|
            0 <= i < self.locks@.len() ==> (#[trigger] self.locks@[i]).value == -1
                || self.locks@[i].value >= 1
    }

    /// Names an index as the entry for its block.
    proof fn lemma_entry_at(&self, i: int)
        requires
            self.wf(),
            0 <= i < self.locks@.len(),
        ensures
            self.has_entry(self.locks@[i].blk@),
            self.idx_of(self.locks@[i].blk@) == i,
            self.lock_value(self.locks@[i].blk@) == self.locks@[i].value,
    {
        let blk = self.locks@[i].blk@;
        assert(self.has_entry(blk));
        let j = self.idx_of(blk);
        if i < j {
            assert(self.locks@[i].blk@ != self.locks@[j].blk@);
        } else if j < i {
            assert(self.locks@[j].blk@ != self.locks@[i].blk@);
        }
    }

    /// An empty table with the default 10-second wait bound.
    pub fn new() -> (res: LockTable)
        ensures
            res.wf(),
            res.spec_max_time() == 10000,
            forall|blk: (Seq<char>, u64)| res.lock_value(blk) == 0,
    {
        LockTable { max_time: 10 * 1000, locks: Vec::new() }
    }

    /// The index of this block's entry, if present.
    fn find_entry(&self, blk: &BlockId) -> (r: Option<usize>)
        ensures
            r matches Some(i) ==> 0 <= i < self.locks@.len() && self.locks@[i as int].blk@ == blk@,
            r is None ==> !self.has_entry(blk@),
    {
        let n = self.locks.len();
        let mut i: usize = 0;
        while i < n
            invariant
                i <= n,
                n == self.locks@.len(),
                forall|j: int| 0 <= j < i ==> (#[trigger] self.locks@[j]).blk@ != blk@,
            decreases n - i,
        {
            if self.locks[i].blk == *blk {
                return Some(i);
            }
            i = i + 1;
        }
        None
    }

    /// The current lock count of `blk`.
    pub fn get_lock_value(&self, blk: &BlockId) -> (r: i32)
        requires
            self.wf(),
        ensures
            r == self.lock_value(blk@),
    {
        match self.find_entry(blk) {
            Some(i) => {
                proof {
                    self.lemma_entry_at(i as int);
                }
                self.locks[i].value
            },
            None => 0,
        }
    }

    /// Whether an exclusive holder exists.
    pub fn has_x_lock(&self, blk: &BlockId) -> (r: bool)
        requires
            self.wf(),
        ensures
            r == (self.lock_value(blk@) < 0),
    {
        self.get_lock_value(blk) < 0
    }

    /// Whether a shared holder other than a sole escalating one exists.
    pub fn has_other_s_lock(&self, blk: &BlockId) -> (r: bool)
        requires
            self.wf(),
        ensures
            r == (self.lock_value(blk@) > 1),
    {
        self.get_lock_value(blk) > 1
    }

    /// Whether a wait that started at `start_time` has exceeded the wait
    /// bound by `now` (both in milliseconds).
    pub fn waiting_too_long(&self, start_time: u128, now: u128) -> (r: bool)
        requires
            start_time <= now,
        ensures
            r == (now - start_time > self.spec_max_time()),
    {
        now - start_time > self.max_time
    }

    /// Sets `blk`'s entry to the non-zero count `v`, adding it if absent.
    fn set_value(&mut self, blk: &BlockId, v: i32)
        requires
            old(self).wf(),
            v == -1 || v >= 1,
        ensures
            final(self).wf(),
            final(self).spec_max_time() == old(self).spec_max_time(),
            final(self).lock_value(blk@) == v,
            forall|other: (Seq<char>, u64)|
                other != blk@ ==> final(self).lock_value(other) == old(self).lock_value(other),
    {
        let ghost pre = *self;
        match self.find_entry(blk) {
            Some(i) => {
                proof {
                    self.lemma_entry_at(i as int);
                }
                self.locks[i] = LockEntry { blk: blk.clone(), value: v };
                proof {
                    assert(forall|k: int|
                        0 <= k < self.locks@.len() ==> (#[trigger] self.locks@[k]).blk@
                            == pre.locks@[k].blk@);
                    assert(self.wf());
                    self.lemma_entry_at(i as int);
                    assert forall|other: (Seq<char>, u64)| other != blk@ implies self.lock_value(other) == pre.lock_value(other) by {
                        if pre.has_entry(other) {
                            let w = pre.idx_of(other);
                            assert(pre.locks@[w].blk@ == other);
                            assert(w != i);
                            pre.lemma_entry_at(w);
                            self.lemma_entry_at(w);
                        } else {
                            if self.has_entry(other) {
                                let w = self.idx_of(other);
                                assert(w != i);
                                assert(pre.locks@[w].blk@ == other);
                            }
                        }
                    }
                }
            },
            None => {
                self.locks.push(LockEntry { blk: blk.clone(), value: v });
                proof {
                    let n = self.locks@.len() - 1;
                    assert forall|a: int, b: int|
                        0 <= a < b < self.locks@.len() implies self.locks@[a].blk@
                        != self.locks@[b].blk@ by {
                        if b == n {
                            assert(self.locks@[a] == pre.locks@[a]);
                        } else {
                            assert(self.locks@[a] == pre.locks@[a]);
                            assert(self.locks@[b] == pre.locks@[b]);
                        }
                    }
                    assert(self.wf());
                    self.lemma_entry_at(n);
                    assert forall|other: (Seq<char>, u64)| other != blk@ implies self.lock_value(other) == pre.lock_value(other) by {
                        if pre.has_entry(other) {
                            let w = pre.idx_of(other);
                            assert(pre.locks@[w].blk@ == other);
                            pre.lemma_entry_at(w);
                            self.lemma_entry_at(w);
                        } else {
                            if self.has_entry(other) {
                                let w = self.idx_of(other);
                                assert(w != n);
                                assert(pre.locks@[w].blk@ == other);
                            }
                        }
                    }
                }
            },
        }
    }

    /// Removes `blk`'s entry, leaving the block unlocked.
    fn remove_entry(&mut self, blk: &BlockId)
        requires
            old(self).wf(),
        ensures
            final(self).wf(),
            final(self).spec_max_time() == old(self).spec_max_time(),
            final(self).lock_value(blk@) == 0,
            forall|other: (Seq<char>, u64)|
                other != blk@ ==> final(self).lock_value(other) == old(self).lock_value(other),
    {
        let ghost pre = *self;
        match self.find_entry(blk) {
            Some(i) => {
                self.locks.remove(i);
                proof {
                    let n = pre.locks@.len();
                    assert(self.locks@ == pre.locks@.remove(i as int));
                    assert(forall|k: int| 0 <= k < i ==> self.locks@[k] == pre.locks@[k]);
                    assert(forall|k: int|
                        i <= k < n - 1 ==> self.locks@[k] == pre.locks@[k + 1]);
                    assert forall|a: int, b: int|
                        0 <= a < b < self.locks@.len() implies self.locks@[a].blk@
                        != self.locks@[b].blk@ by {
                        let a0: int = if a < i {
                            a
                        } else {
                            a + 1
                        };
                        let b0: int = if b < i {
                            b
                        } else {
                            b + 1
                        };
                        assert(self.locks@[a] == pre.locks@[a0]);
                        assert(self.locks@[b] == pre.locks@[b0]);
                        assert(pre.locks@[a0].blk@ != pre.locks@[b0].blk@);
                    }
                    assert forall|k: int|
                        0 <= k < self.locks@.len() implies self.locks@[k].value == -1
                        || self.locks@[k].value >= 1 by {
                        let k0: int = if k < i {
                            k
                        } else {
                            k + 1
                        };
                        assert(self.locks@[k] == pre.locks@[k0]);
                    }
                    assert(self.wf());
                    if self.has_entry(blk@) {
                        let w = self.idx_of(blk@);
                        assert(self.locks@[w].blk@ == blk@);
                        let w0: int = if w < i {
                            w
                        } else {
                            w + 1
                        };
                        assert(pre.locks@[w0].blk@ == blk@);
                        assert(pre.locks@[i as int].blk@ == blk@);
                        if w0 < i {
                            assert(pre.locks@[w0].blk@ != pre.locks@[i as int].blk@);
                        } else {
                            assert(pre.locks@[i as int].blk@ != pre.locks@[w0].blk@);
                        }
                    }
                    assert forall|other: (Seq<char>, u64)| other != blk@ implies self.lock_value(
                        other,
                    ) == pre.lock_value(other) by {
                        if pre.has_entry(other) {
                            let w = pre.idx_of(other);
                            assert(pre.locks@[w].blk@ == other);
                            assert(pre.locks@[i as int].blk@ == blk@);
                            assert(w != i);
                            pre.lemma_entry_at(w);
                            let w2: int = if w < i {
                                w
                            } else {
                                w - 1
                            };
                            assert(self.locks@[w2] == pre.locks@[w]);
                            self.lemma_entry_at(w2);
                        } else {
                            if self.has_entry(other) {
                                let w = self.idx_of(other);
                                let w0: int = if w < i {
                                    w
                                } else {
                                    w + 1
                                };
                                assert(pre.locks@[w0].blk@ == other);
                            }
                        }
                    }
                }
            },
            None => {},
        }
    }

    /// Tries to take a shared lock on `blk`: granted exactly when no
    /// exclusive holder exists, incrementing the shared count. A refusal
    /// returns the abort error and changes nothing; the caller may retry
    /// under its wait bound.
    pub fn s_lock(&mut self, blk: &BlockId) -> (r: Result<(), LockAbortError>)
        requires
            old(self).wf(),
            old(self).lock_value(blk@) < i32::MAX,
        ensures
            final(self).wf(),
            final(self).spec_max_time() == old(self).spec_max_time(),
            r is Ok <==> s_lock_ok(old(self).lock_value(blk@)),
            r is Ok ==> final(self).lock_value(blk@) == after_s_lock(
                old(self).lock_value(blk@),
            ) && forall|other: (Seq<char>, u64)|
                other != blk@ ==> final(self).lock_value(other) == old(self).lock_value(other),
            r is Err ==> *final(self) == *old(self) && r == Err::<(), LockAbortError>(
                LockAbortError::General,
            ),
    {
        if self.has_x_lock(blk) {
            return Err(LockAbortError::General);
        }
        let v = self.get_lock_value(blk);
        self.set_value(blk, v + 1);
        Ok(())
    }

    /// Tries to take an exclusive lock on `blk`: granted exactly when no
    /// *other* shared holder exists — the block is unlocked, or the caller
    /// escalates its own sole shared lock — setting the count to −1. A
    /// refusal returns the abort error and changes nothing.
    pub fn x_lock(&mut self, blk: &BlockId) -> (r: Result<(), LockAbortError>)
        requires
            old(self).wf(),
        ensures
            final(self).wf(),
            final(self).spec_max_time() == old(self).spec_max_time(),
            r is Ok <==> x_lock_ok(old(self).lock_value(blk@)),
            r is Ok ==> final(self).lock_value(blk@) == after_x_lock(
                old(self).lock_value(blk@),
            ) && forall|other: (Seq<char>, u64)|
                other != blk@ ==> final(self).lock_value(other) == old(self).lock_value(other),
            r is Err ==> *final(self) == *old(self) && r == Err::<(), LockAbortError>(
                LockAbortError::General,
            ),
    {
        if self.has_other_s_lock(blk) || self.has_x_lock(blk) {
            return Err(LockAbortError::General);
        }
        self.set_value(blk, -1);
        Ok(())
    }

    /// Releases one hold on `blk`: decrements a shared count above one,
    /// otherwise removes the entry entirely — which covers both the last
    /// sharer and an exclusive holder.
    pub fn unlock(&mut self, blk: &BlockId)
        requires
            old(self).wf(),
        ensures
            final(self).wf(),
            final(self).spec_max_time() == old(self).spec_max_time(),
            final(self).lock_value(blk@) == after_unlock(old(self).lock_value(blk@)),
            forall|other: (Seq<char>, u64)|
                other != blk@ ==> final(self).lock_value(other) == old(self).lock_value(other),
    {
        let v = self.get_lock_value(blk);
        if v > 1 {
            self.set_value(blk, v - 1);
        } else {
            self.remove_entry(blk);
        }
    }
}

/// Law (lock exclusivity, shared side): with no exclusive holder, any
/// number of shared locks are granted in turn — each grant preserves the
/// absence of an exclusive holder — and once two or more sharers hold the
/// block, an exclusive request is refused until they release.
pub proof fn lemma_shared_locks_compatible(v: int)
    requires
        s_lock_ok(v),
    ensures
        s_lock_ok(after_s_lock(v)),
        after_s_lock(v) >= 1,
        v >= 1 ==> !x_lock_ok(after_s_lock(v)),
{
}

/// Law (lock exclusivity, escalation): a caller holding the sole shared
/// lock may take the exclusive lock.
pub proof fn lemma_sole_sharer_escalates()
    ensures
        x_lock_ok(1),
{
}

/// Law (lock exclusivity, exclusive side): while an exclusive holder
/// exists, both shared and exclusive requests are refused; after it
/// unlocks, the block is free and an exclusive request is granted.
pub proof fn lemma_exclusive_excludes()
    ensures
        !s_lock_ok(after_x_lock(0)),
        !x_lock_ok(after_x_lock(0)),
        after_unlock(after_x_lock(0)) == 0,
        s_lock_ok(0),
        x_lock_ok(0),
{
}

} // verus!
