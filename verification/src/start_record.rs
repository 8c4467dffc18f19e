//! A transaction's start marker in the log.

use crate::log_record::Op;
use crate::page::spec_load_int;
use crate::page::Page;
use vstd::prelude::*;

verus! {

/// Start marker: the kind tag, then the transaction number.
pub struct StartRecord {
    tx_num: u32,
}

impl StartRecord {
    /// The transaction this record belongs to.
    pub closed spec fn spec_tx_num(&self) -> u32 {
        self.tx_num
    }

    /// Decodes the transaction number stored right after the kind tag.
    pub fn new(page: Page) -> (res: Self)
        requires
            page@.len() >= 8,
        ensures
            res.spec_tx_num() == spec_load_int(page@, 4),
    {
        StartRecord { tx_num: page.get_int(4) }
    }

    /// Its kind.
    pub fn op(&self) -> (r: Op)
        ensures
            r == Op::Start,
    {
        Op::Start
    }

    /// The transaction this record belongs to.
    pub fn tx_number(&self) -> (r: Option<usize>)
        ensures
            r == Some(self.spec_tx_num() as usize),
    {
        Some(self.tx_num as usize)
    }
}

} // verus!
