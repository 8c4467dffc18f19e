//! Per-transaction concurrency bookkeeping shell.
//!
//! The core provides block-granular locks in `LockTable`; tracking which
//! transaction holds which lock belongs to the transaction layer outside
//! this core. This shell only pairs a lock table with a transaction number.

use crate::lock_table::LockTable;
use vstd::prelude::*;

verus! {

/// A transaction's handle on the lock table.
pub struct ConcurrencyManager {
    lock_table: LockTable,
    tx_num: usize,
}

impl ConcurrencyManager {
    /// The transaction number this manager serves.
    pub closed spec fn spec_tx_num(&self) -> usize {
        self.tx_num
    }

    /// Well-formed: the lock table underneath is.
    pub closed spec fn wf(&self) -> bool {
        self.lock_table.wf()
    }

    /// A fresh manager over an empty lock table.
    pub fn new() -> (res: Self)
        ensures
            res.wf(),
            res.spec_tx_num() == 0,
    {
        ConcurrencyManager { lock_table: LockTable::new(), tx_num: 0 }
    }
}

} // verus!
