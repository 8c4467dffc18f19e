//! A data-page string update in the log.
//!
//! Wire layout after the kind tag (5): transaction number, the block's
//! file name (length-prefixed UTF-8), block number, offset, and the value
//! written (length-prefixed UTF-8) — each number 4 bytes little-endian.

use crate::block_id::BlockId;
use crate::file_manager::FileManager;
use crate::log_manager::LogManager;
use crate::log_record::Op;
use crate::page::lemma_write_bytes_frame;
use crate::page::spec_load_blob;
use crate::page::spec_load_int;
use crate::page::DecodeError;
use crate::page::Page;
use vstd::bytes::lemma_auto_spec_u32_to_from_le_bytes;
use vstd::prelude::*;
use vstd::string::StringSliceAdditionalSpecFns;
use vstd::utf8::decode_utf8;
use vstd::utf8::decode_utf8_encode_utf8;
use vstd::utf8::encode_utf8;
use vstd::utf8::encode_utf8_decode_utf8;
use vstd::utf8::encode_utf8_valid_utf8;
use vstd::utf8::valid_utf8;

verus! {

/// Whether raw bytes have room for a string-update record: the kind tag,
/// the transaction number, the length-prefixed file name, the block number
/// and offset, then the length-prefixed value.
pub open spec fn setstring_bounds(data: Seq<u8>) -> bool {
    &&& data.len() >= 12
    &&& 24 + spec_load_int(data, 8) <= data.len()
    &&& 24 + spec_load_int(data, 8) + spec_load_int(
        data,
        20 + spec_load_int(data, 8),
    ) <= data.len()
}

/// A data-page string update: which transaction wrote which value at which
/// offset of which block.
pub struct SetStringRecord {
    tx_num: usize,
    offset: usize,
    val: String,
    block_id: BlockId,
}

impl SetStringRecord {
    /// The transaction this record belongs to.
    pub closed spec fn spec_tx_num(&self) -> usize {
        self.tx_num
    }

    /// The offset the value was written at.
    pub closed spec fn spec_offset(&self) -> usize {
        self.offset
    }

    /// The value written.
    pub closed spec fn spec_val(&self) -> Seq<char> {
        self.val@
    }

    /// The block the value was written to.
    pub closed spec fn spec_block(&self) -> (Seq<char>, u64) {
        self.block_id@
    }

    /// Decodes a string-update record. The two string fields are the
    /// fields that can fail, on invalid UTF-8.
    pub fn new(page: Page) -> (res: Result<Self, DecodeError>)
        requires
            setstring_bounds(page@),
        ensures
            res is Ok <==> valid_utf8(spec_load_blob(page@, 8)) && valid_utf8(
                spec_load_blob(page@, 20 + spec_load_int(page@, 8)),
            ),
            res matches Ok(r) ==> ({
                let f_len = spec_load_int(page@, 8) as int;
                &&& r.spec_tx_num() == spec_load_int(page@, 4)
                &&& r.spec_block() == (
                    decode_utf8(spec_load_blob(page@, 8)),
                    spec_load_int(page@, 12 + f_len) as u64,
                )
                &&& r.spec_offset() == spec_load_int(page@, 16 + f_len)
                &&& r.spec_val() == decode_utf8(spec_load_blob(page@, 20 + f_len))
            }),
    {
        let total = page.len();
        let tx_num = page.get_int(4) as usize;
        let file_name = match page.get_string(8) {
            Ok(s) => s,
            Err(e) => {
                return Err(e);
            },
        };
        proof {
            decode_utf8_encode_utf8(spec_load_blob(page@, 8));
        }
        let b_pos = 8 + Page::max_length(file_name.as_str().len());
        let blk_num = page.get_int(b_pos);
        let block_id = BlockId::new(file_name.as_str(), blk_num as u64);
        let o_pos = b_pos + 4;
        let offset = page.get_int(o_pos) as usize;
        let v_pos = o_pos + 4;
        let val = match page.get_string(v_pos) {
            Ok(s) => s,
            Err(e) => {
                return Err(e);
            },
        };
        Ok(SetStringRecord { tx_num, offset, val, block_id })
    }

    /// Its kind.
    pub fn op(&self) -> (r: Op)
        ensures
            r == Op::SetString,
    {
        Op::SetString
    }

    /// The transaction this record belongs to.
    pub fn tx_number(&self) -> (r: Option<usize>)
        ensures
            r == Some(self.spec_tx_num()),
    {
        Some(self.tx_num)
    }

    /// Encodes a string update as a log record and appends it, returning
    /// its LSN. The appended bytes decode back to exactly the given
    /// fields.
    pub fn write_to_log(
        lm: &mut LogManager,
        fm: &mut FileManager,
        tx_num: usize,
        block_id: &BlockId,
        offset: usize,
        val: &str,
    ) -> (lsn: u32)
        requires
            old(lm).wf(old(fm)),
            old(lm).lsn() < u32::MAX,
            32 + encode_utf8(block_id@.0).len() + encode_utf8(val@).len() <= old(
                fm,
            ).spec_block_size(),
            tx_num <= u32::MAX,
            block_id@.1 <= u32::MAX,
            offset <= u32::MAX,
        ensures
            final(lm).wf(final(fm)),
            final(fm).spec_block_size() == old(fm).spec_block_size(),
            final(lm).spec_log_file() == old(lm).spec_log_file(),
            lsn == old(lm).lsn() + 1,
            final(lm).lsn() == lsn,
            final(lm).records(final(fm)).len() == old(lm).records(old(fm)).len() + 1,
            final(lm).records(final(fm)) == seq![final(lm).records(final(fm))[0]] + old(lm).records(
                old(fm),
            ),
            ({
                let r = final(lm).records(final(fm))[0];
                let f_len = encode_utf8(block_id@.0).len() as int;
                &&& setstring_bounds(r)
                &&& spec_load_int(r, 0) == 5
                &&& spec_load_int(r, 4) == tx_num
                &&& valid_utf8(spec_load_blob(r, 8))
                &&& decode_utf8(spec_load_blob(r, 8)) == block_id@.0
                &&& spec_load_int(r, 12 + f_len) == block_id@.1
                &&& spec_load_int(r, 16 + f_len) == offset
                &&& valid_utf8(spec_load_blob(r, 20 + f_len))
                &&& decode_utf8(spec_load_blob(r, 20 + f_len)) == val@
            }),
            forall|other: Seq<char>|
                other != old(lm).spec_log_file() ==> final(fm).has_file(other) == old(fm).has_file(
                    other,
                ) && final(fm).file(other) == old(fm).file(other),
    {
        proof {
            crate::log_manager::lemma_log_wf_file_store(lm, fm);
            fm.lemma_block_size_bounds();
            lemma_auto_spec_u32_to_from_le_bytes();
        }
        let f_len = block_id.filename().len();
        let b_pos = 8 + Page::max_length(f_len);
        let o_pos = b_pos + 4;
        let v_pos = o_pos + 4;
        let rec_len = v_pos + Page::max_length(val.len());
        let zeros: Vec<u8> = vec![0u8; rec_len];
        let mut page = Page::from_bytes(zeros.as_slice());
        let ghost p0 = page@;
        page.set_int(0, 5);
        let ghost p1 = page@;
        proof {
            crate::page::lemma_int_round_trip(p0, 0, 5);
        }
        page.set_int(4, tx_num as u32);
        let ghost p2 = page@;
        proof {
            crate::page::lemma_int_round_trip(p1, 4, tx_num as u32);
            lemma_write_bytes_frame(p1, 4, vstd::bytes::spec_u32_to_le_bytes(tx_num as u32), 0, 4);
        }
        page.set_string(8, block_id.filename());
        let ghost p3 = page@;
        proof {
            let payload = vstd::bytes::spec_u32_to_le_bytes(encode_utf8(block_id@.0).len() as u32)
                + encode_utf8(block_id@.0);
            crate::page::lemma_blob_round_trip(p2, 8, encode_utf8(block_id@.0));
            lemma_write_bytes_frame(p2, 8, payload, 0, 4);
            lemma_write_bytes_frame(p2, 8, payload, 4, 8);
            encode_utf8_valid_utf8(block_id@.0);
            encode_utf8_decode_utf8(block_id@.0);
        }
        page.set_int(b_pos, block_id.number() as u32);
        let ghost p4 = page@;
        proof {
            let payload = vstd::bytes::spec_u32_to_le_bytes(block_id@.1 as u32);
            crate::page::lemma_int_round_trip(p3, b_pos as int, block_id@.1 as u32);
            lemma_write_bytes_frame(p3, b_pos as int, payload, 0, 4);
            lemma_write_bytes_frame(p3, b_pos as int, payload, 4, 8);
            lemma_write_bytes_frame(p3, b_pos as int, payload, 8, b_pos as int);
        }
        page.set_int(o_pos, offset as u32);
        let ghost p5 = page@;
        proof {
            let payload = vstd::bytes::spec_u32_to_le_bytes(offset as u32);
            crate::page::lemma_int_round_trip(p4, o_pos as int, offset as u32);
            lemma_write_bytes_frame(p4, o_pos as int, payload, 0, 4);
            lemma_write_bytes_frame(p4, o_pos as int, payload, 4, 8);
            lemma_write_bytes_frame(p4, o_pos as int, payload, 8, b_pos as int);
            lemma_write_bytes_frame(p4, o_pos as int, payload, b_pos as int, o_pos as int);
        }
        page.set_string(v_pos, val);
        let ghost p6 = page@;
        proof {
            let payload = vstd::bytes::spec_u32_to_le_bytes(encode_utf8(val@).len() as u32)
                + encode_utf8(val@);
            crate::page::lemma_blob_round_trip(p5, v_pos as int, encode_utf8(val@));
            lemma_write_bytes_frame(p5, v_pos as int, payload, 0, 4);
            lemma_write_bytes_frame(p5, v_pos as int, payload, 4, 8);
            lemma_write_bytes_frame(p5, v_pos as int, payload, 8, b_pos as int);
            lemma_write_bytes_frame(p5, v_pos as int, payload, b_pos as int, o_pos as int);
            lemma_write_bytes_frame(p5, v_pos as int, payload, o_pos as int, v_pos as int);
            encode_utf8_valid_utf8(val@);
            encode_utf8_decode_utf8(val@);
            let f = encode_utf8(block_id@.0).len() as int;
            assert(forall|i: int| 8 <= i < 12 + f ==> p6[i] == p3[i]);
            assert(p6.subrange(8, 12) =~= p3.subrange(8, 12));
            assert(spec_load_int(p6, 8) == f);
            assert(p6.subrange(12, 12 + f) =~= p3.subrange(12, 12 + f));
            assert(spec_load_blob(p6, 8) == spec_load_blob(p3, 8));
            assert(p6.subrange(12 + f, 16 + f) =~= p4.subrange(12 + f, 16 + f));
            assert(spec_load_int(p6, 12 + f) == block_id@.1);
            assert(p6.subrange(16 + f, 20 + f) =~= p5.subrange(16 + f, 20 + f));
            assert(spec_load_int(p6, 16 + f) == offset);
            assert(spec_load_int(p6, 0) == 5);
            assert(spec_load_int(p6, 4) == tx_num);
            assert(setstring_bounds(p6));
        }
        let rec = slice_to_vec_bytes(page.contents());
        lm.append(fm, &rec)
    }
}

/// Copies a byte slice into a fresh vector.
fn slice_to_vec_bytes(b: &[u8]) -> (r: Vec<u8>)
    ensures
        r@ == b@,
{
    vstd::slice::slice_to_vec(b)
}

} // verus!
