//! Log-record kinds and the shared decoder.
//!
//! Every log record starts with a 4-byte little-endian kind tag —
//! 0 Checkpoint, 1 Start, 2 Commit, 3 Rollback, 4 SetInt, 5 SetString —
//! followed by kind-specific fields. The variants' undo/redo logic belongs
//! to the transaction layer outside this core; here each variant only
//! carries its decoded fields.

use crate::page::spec_load_blob;
use crate::page::spec_load_int;
use crate::page::DecodeError;
use crate::page::Page;
use crate::rollback_record::RollbackRecord;
use crate::setstring_record::setstring_bounds;
use crate::setstring_record::SetStringRecord;
use crate::start_record::StartRecord;
use vstd::prelude::*;
use vstd::utf8::valid_utf8;

verus! {

/// Error of the record decoder: malformed UTF-8 in a field, or anything
/// else the layer above must treat as fatal for the transaction.
#[derive(Clone, Copy, PartialEq, Eq, Structural, Debug)]
pub enum TransactionError {
    Decode,
    General,
}

/// Kind tag of a log record.
#[derive(Clone, Copy, PartialEq, Eq, Structural, Debug)]
pub enum Op {
    CheckPoint,
    Start,
    Commit,
    Rollback,
    SetInt,
    SetString,
}

impl Op {
    /// The wire value of each kind tag.
    pub open spec fn spec_code(self) -> u32 {
        match self {
            Op::CheckPoint => 0,
            Op::Start => 1,
            Op::Commit => 2,
            Op::Rollback => 3,
            Op::SetInt => 4,
            Op::SetString => 5,
        }
    }

    /// The kind for a wire value; values above 5 are no kind.
    pub fn try_from(value: u32) -> (r: Result<Op, ()>)
        ensures
            r matches Ok(op) ==> op.spec_code() == value,
            r is Err <==> value > 5,
    {
        match value {
            0 => Ok(Op::CheckPoint),
            1 => Ok(Op::Start),
            2 => Ok(Op::Commit),
            3 => Ok(Op::Rollback),
            4 => Ok(Op::SetInt),
            5 => Ok(Op::SetString),
            _ => Err(()),
        }
    }
}

/// A checkpoint marker; it has no fields.
pub struct CheckPointRecord {}

impl CheckPointRecord {
    pub fn new() -> (res: Self) {
        CheckPointRecord {  }
    }

    /// Its kind.
    pub fn op(&self) -> (r: Op)
        ensures
            r == Op::CheckPoint,
    {
        Op::CheckPoint
    }

    /// A checkpoint belongs to no transaction.
    pub fn tx_number(&self) -> (r: Option<usize>)
        ensures
            r is None,
    {
        None
    }
}

/// A transaction's commit marker: the kind tag, then the transaction
/// number.
pub struct CommitRecord {
    tx_num: u32,
}

impl CommitRecord {
    /// The transaction this record belongs to.
    pub closed spec fn spec_tx_num(&self) -> u32 {
        self.tx_num
    }

    /// Decodes the transaction number stored right after the kind tag.
    pub fn new(page: Page) -> (res: Self)
        requires
            page@.len() >= 8,
        ensures
            res.spec_tx_num() == spec_load_int(page@, 4),
    {
        CommitRecord { tx_num: page.get_int(4) }
    }

    /// Its kind.
    pub fn op(&self) -> (r: Op)
        ensures
            r == Op::Commit,
    {
        Op::Commit
    }

    /// The transaction this record belongs to.
    pub fn tx_number(&self) -> (r: Option<usize>)
        ensures
            r == Some(self.spec_tx_num() as usize),
    {
        Some(self.tx_num as usize)
    }
}

/// Whether raw bytes have room for an integer-update record: the kind tag,
/// the transaction number, the length-prefixed file name, then the block
/// number, the offset and the value, 4 bytes each.
pub open spec fn setint_bounds(data: Seq<u8>) -> bool {
    &&& data.len() >= 12
    &&& 24 + spec_load_int(data, 8) <= data.len()
}

/// A data-page integer update: the kind tag, the transaction number, the
/// block's file name and number, the offset, and the former value.
pub struct SetIntRecord {
    tx_num: u32,
    offset: u32,
    val: u32,
    filename: String,
    blk_num: u32,
}

impl SetIntRecord {
    /// The transaction this record belongs to.
    pub closed spec fn spec_tx_num(&self) -> u32 {
        self.tx_num
    }

    /// The record's decoded fields as plain values: transaction, file
    /// name, block number, offset, former value.
    pub closed spec fn spec_fields(&self) -> (u32, Seq<char>, u32, u32, u32) {
        (self.tx_num, self.filename@, self.blk_num, self.offset, self.val)
    }

    /// Decodes an integer-update record; the file name is the one field
    /// that can fail, on invalid UTF-8.
    pub fn new(page: Page) -> (res: Result<Self, DecodeError>)
        requires
            setint_bounds(page@),
        ensures
            res is Ok <==> vstd::utf8::valid_utf8(spec_load_blob(page@, 8)),
            res matches Ok(r) ==> ({
                let f_len = spec_load_int(page@, 8) as int;
                &&& r.spec_fields().0 == spec_load_int(page@, 4)
                &&& r.spec_fields().1 == vstd::utf8::decode_utf8(spec_load_blob(page@, 8))
                &&& r.spec_fields().2 == spec_load_int(page@, 12 + f_len)
                &&& r.spec_fields().3 == spec_load_int(page@, 16 + f_len)
                &&& r.spec_fields().4 == spec_load_int(page@, 20 + f_len)
            }),
    {
        let total = page.len();
        let tx_num = page.get_int(4);
        let f_len = page.get_int(8) as usize;
        let filename = match page.get_string(8) {
            Ok(s) => s,
            Err(e) => {
                return Err(e);
            },
        };
        let b_pos = 12 + f_len;
        let blk_num = page.get_int(b_pos);
        let offset = page.get_int(b_pos + 4);
        let val = page.get_int(b_pos + 8);
        Ok(SetIntRecord { tx_num, offset, val, filename, blk_num })
    }

    /// Its kind.
    pub fn op(&self) -> (r: Op)
        ensures
            r == Op::SetInt,
    {
        Op::SetInt
    }

    /// The transaction this record belongs to.
    pub fn tx_number(&self) -> (r: Option<usize>)
        ensures
            r == Some(self.spec_tx_num() as usize),
    {
        Some(self.tx_num as usize)
    }
}

/// One decoded log record.
pub enum LogRecord {
    CheckPoint(CheckPointRecord),
    Start(StartRecord),
    Commit(CommitRecord),
    Rollback(RollbackRecord),
    SetInt(SetIntRecord),
    SetString(SetStringRecord),
}

impl LogRecord {
    /// Its kind.
    pub open spec fn spec_op(self) -> Op {
        match self {
            LogRecord::CheckPoint(_) => Op::CheckPoint,
            LogRecord::Start(_) => Op::Start,
            LogRecord::Commit(_) => Op::Commit,
            LogRecord::Rollback(_) => Op::Rollback,
            LogRecord::SetInt(_) => Op::SetInt,
            LogRecord::SetString(_) => Op::SetString,
        }
    }
}

/// Whether raw record bytes carry a decodable kind tag and, for the kinds
/// with fields, room for those fields.
pub open spec fn record_decodable(data: Seq<u8>) -> bool {
    &&& data.len() >= 4
    &&& (spec_load_int(data, 0) == 1 || spec_load_int(data, 0) == 2 || spec_load_int(data, 0) == 3
        ==> data.len() >= 8)
    &&& (spec_load_int(data, 0) == 4 ==> setint_bounds(data))
    &&& (spec_load_int(data, 0) == 5 ==> setstring_bounds(data))
}

/// Decodes raw record bytes into the tagged union of record kinds. The
/// kind tag always decodes; a string field that is not valid UTF-8 is the
/// one recoverable failure.
pub fn create_log_record(rec: Vec<u8>) -> (r: Result<LogRecord, TransactionError>)
    requires
        record_decodable(rec@),
    ensures
        r matches Ok(lr) ==> lr.spec_op().spec_code() == spec_load_int(rec@, 0),
        spec_load_int(rec@, 0) > 5 ==> r == Err::<LogRecord, TransactionError>(
            TransactionError::General,
        ),
        spec_load_int(rec@, 0) <= 5 && spec_load_int(rec@, 0) != 5 && spec_load_int(rec@, 0) != 4
            ==> r is Ok,
        r matches Ok(LogRecord::Start(sr)) ==> sr.spec_tx_num() == spec_load_int(rec@, 4),
        r matches Ok(LogRecord::Commit(cr)) ==> cr.spec_tx_num() == spec_load_int(rec@, 4),
        r matches Ok(LogRecord::Rollback(rr)) ==> rr.spec_tx_num() == spec_load_int(rec@, 4),
        spec_load_int(rec@, 0) == 4 ==> (r is Ok <==> valid_utf8(spec_load_blob(rec@, 8))),
        r matches Ok(LogRecord::SetInt(ir)) ==> ({
            let f_len = spec_load_int(rec@, 8) as int;
            &&& ir.spec_fields().0 == spec_load_int(rec@, 4)
            &&& ir.spec_fields().1 == vstd::utf8::decode_utf8(spec_load_blob(rec@, 8))
            &&& ir.spec_fields().2 == spec_load_int(rec@, 12 + f_len)
            &&& ir.spec_fields().3 == spec_load_int(rec@, 16 + f_len)
            &&& ir.spec_fields().4 == spec_load_int(rec@, 20 + f_len)
        }),
        spec_load_int(rec@, 0) == 5 ==> (r is Ok <==> valid_utf8(spec_load_blob(rec@, 8))
            && valid_utf8(spec_load_blob(rec@, 20 + spec_load_int(rec@, 8)))),
        r matches Ok(LogRecord::SetString(sr)) ==> ({
            let f_len = spec_load_int(rec@, 8) as int;
            &&& sr.spec_tx_num() == spec_load_int(rec@, 4)
            &&& sr.spec_block() == (
                vstd::utf8::decode_utf8(spec_load_blob(rec@, 8)),
                spec_load_int(rec@, 12 + f_len) as u64,
            )
            &&& sr.spec_offset() == spec_load_int(rec@, 16 + f_len)
            &&& sr.spec_val() == vstd::utf8::decode_utf8(spec_load_blob(rec@, 20 + f_len))
        }),
        r is Err ==> spec_load_int(rec@, 0) > 5 || (spec_load_int(rec@, 0) == 4 && !valid_utf8(
            spec_load_blob(rec@, 8),
        )) || (spec_load_int(rec@, 0) == 5 && !(valid_utf8(spec_load_blob(rec@, 8)) && valid_utf8(
            spec_load_blob(rec@, 20 + spec_load_int(rec@, 8)),
        ))),
    {
    let page = Page::from_bytes(rec.as_slice());
    match Op::try_from(page.get_int(0)) {
        Ok(Op::CheckPoint) => Ok(LogRecord::CheckPoint(CheckPointRecord::new())),
        Ok(Op::Start) => Ok(LogRecord::Start(StartRecord::new(page))),
        Ok(Op::Commit) => Ok(LogRecord::Commit(CommitRecord::new(page))),
        Ok(Op::Rollback) => Ok(LogRecord::Rollback(RollbackRecord::new(page))),
        Ok(Op::SetInt) => {
            match SetIntRecord::new(page) {
                Ok(rec) => Ok(LogRecord::SetInt(rec)),
                Err(_) => Err(TransactionError::Decode),
            }
        },
        Ok(Op::SetString) => {
            match SetStringRecord::new(page) {
                Ok(rec) => Ok(LogRecord::SetString(rec)),
                Err(_) => Err(TransactionError::Decode),
            }
        },
        Err(_) => Err(TransactionError::General),
    }
}

} // verus!
