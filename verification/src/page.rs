//! Fixed-size binary page with positional typed accessors.
//!
//! A `Page` is a byte buffer whose length is chosen at construction (the
//! block size). Integers are stored as 4-byte little-endian values; byte
//! blobs and strings are stored length-prefixed: a 4-byte little-endian
//! length followed by the raw payload (UTF-8 for strings). Layout is the
//! caller's responsibility: every accessor demands that the field it touches
//! lies inside the buffer.

use vstd::bytes::*;
use vstd::prelude::*;
use vstd::slice::*;
use vstd::string::StringSliceAdditionalSpecFns;
use vstd::utf8::*;

verus! {

/// Error returned when a length-prefixed field does not decode as UTF-8.
#[derive(Clone, Copy, PartialEq, Eq, Structural, Debug)]
pub enum DecodeError {
    InvalidUtf8,
}

/// The image of `data` after writing `bytes` at `offset`; bytes outside the
/// written range keep their old value.
pub open spec fn spec_write_bytes(data: Seq<u8>, offset: int, bytes: Seq<u8>) -> Seq<u8> {
    Seq::new(
        data.len(),
        |i: int|
            if offset <= i < offset + bytes.len() {
                bytes[i - offset]
            } else {
                data[i]
            },
    )
}

/// The 4-byte little-endian integer stored at `offset`.
pub open spec fn spec_load_int(data: Seq<u8>, offset: int) -> u32 {
    spec_u32_from_le_bytes(data.subrange(offset, offset + 4))
}

/// The image of `data` after storing `n` as 4 little-endian bytes at `offset`.
pub open spec fn spec_store_int(data: Seq<u8>, offset: int, n: u32) -> Seq<u8> {
    spec_write_bytes(data, offset, spec_u32_to_le_bytes(n))
}

/// The image of `data` after storing the length-prefixed blob `bytes` at
/// `offset`: 4 little-endian length bytes, then the payload.
pub open spec fn spec_store_blob(data: Seq<u8>, offset: int, bytes: Seq<u8>) -> Seq<u8> {
    spec_write_bytes(data, offset, spec_u32_to_le_bytes(bytes.len() as u32) + bytes)
}

/// The payload of the length-prefixed blob stored at `offset`.
pub open spec fn spec_load_blob(data: Seq<u8>, offset: int) -> Seq<u8> {
    data.subrange(offset + 4, offset + 4 + spec_load_int(data, offset))
}

/// The image of `data` after storing the UTF-8 encoding of `s` as a
/// length-prefixed blob at `offset`.
pub open spec fn spec_store_string(data: Seq<u8>, offset: int, s: Seq<char>) -> Seq<u8> {
    spec_store_blob(data, offset, encode_utf8(s))
}

/// In-memory staging buffer mirroring exactly one block's bytes.
pub struct Page {
    data: Vec<u8>,
}

impl View for Page {
    type V = Seq<u8>;

    closed spec fn view(&self) -> Seq<u8> {
        self.data@
    }
}

impl Clone for Page {
    fn clone(&self) -> (res: Self)
        ensures
            res@ == self@,
    {
        Page { data: self.data.clone() }
    }
}

impl Page {
    /// A zero-filled buffer of exactly `block_size` bytes.
    pub fn new(block_size: usize) -> (res: Self)
        ensures
            res@ == Seq::new(block_size as nat, |i: int| 0u8),
    {
        let data: Vec<u8> = vec![0u8; block_size];
        proof {
            assert(data@ =~= Seq::new(block_size as nat, |i: int| 0u8));
        }
        Page { data }
    }

    /// Wraps externally composed bytes, e.g. a staged log record.
    pub fn from_bytes(b: &[u8]) -> (res: Self)
        ensures
            res@ == b@,
    {
        Page { data: slice_to_vec(b) }
    }

    /// The buffer's length in bytes (the block size it was built for).
    pub fn len(&self) -> (r: usize)
        ensures
            r == self@.len(),
    {
        self.data.len()
    }

    /// The raw bytes of the page.
    pub fn contents(&self) -> (r: &[u8])
        ensures
            r@ == self@,
    {
        self.data.as_slice()
    }

    /// Overwrites `src.len()` bytes starting at `offset`.
    fn copy_into(&mut self, offset: usize, src: &[u8])
        requires
            offset + src@.len() <= old(self)@.len(),
        ensures
            final(self)@ == spec_write_bytes(old(self)@, offset as int, src@),
    {
        let total = self.data.len();
        let n = src.len();
        let mut i: usize = 0;
        while i < n
            invariant
                i <= n,
                n == src@.len(),
                offset + n <= self@.len(),
                self@.len() <= usize::MAX,
                self@.len() == old(self)@.len(),
                forall|j: int| 0 <= j < i ==> self@[offset + j] == src@[j],
                forall|j: int|
                    0 <= j < self@.len() && !(offset <= j < offset + i) ==> self@[j] == old(
                        self,
                    )@[j],
            decreases n - i,
        {
            let b = *slice_index_get(src, i);
            self.data[offset + i] = b;
            i = i + 1;
        }
        proof {
            assert(self@ =~= spec_write_bytes(old(self)@, offset as int, src@));
        }
    }

    /// The 4-byte little-endian integer at `offset`.
    pub fn get_int(&self, offset: usize) -> (r: u32)
        requires
            offset + 4 <= self@.len(),
        ensures
            r == spec_load_int(self@, offset as int),
    {
        let total = self.data.len();
        let s = slice_subrange(self.data.as_slice(), offset, offset + 4);
        u32_from_le_bytes(s)
    }

    /// Stores `n` as 4 little-endian bytes at `offset`.
    pub fn set_int(&mut self, offset: usize, n: u32)
        requires
            offset + 4 <= old(self)@.len(),
        ensures
            final(self)@ == spec_store_int(old(self)@, offset as int, n),
    {
        let bytes = u32_to_le_bytes(n);
        self.copy_into(offset, bytes.as_slice());
    }

    /// The payload of the length-prefixed blob at `offset`.
    pub fn get_bytes(&self, offset: usize) -> (r: Vec<u8>)
        requires
            offset + 4 <= self@.len(),
            offset + 4 + spec_load_int(self@, offset as int) <= self@.len(),
        ensures
            r@ == spec_load_blob(self@, offset as int),
    {
        let total = self.data.len();
        let len = self.get_int(offset);
        let s = slice_subrange(self.data.as_slice(), offset + 4, offset + 4 + len as usize);
        slice_to_vec(s)
    }

    /// Stores `b` as a length-prefixed blob at `offset`.
    pub fn set_bytes(&mut self, offset: usize, b: &[u8])
        requires
            offset + 4 + b@.len() <= old(self)@.len(),
            b@.len() <= u32::MAX,
        ensures
            final(self)@ == spec_store_blob(old(self)@, offset as int, b@),
    {
        proof {
            lemma_auto_spec_u32_to_from_le_bytes();
        }
        let total = self.data.len();
        let len = b.len();
        self.set_int(offset, len as u32);
        self.copy_into(offset + 4, b);
        proof {
            assert(self@ =~= spec_store_blob(old(self)@, offset as int, b@));
        }
    }

    /// Decodes the length-prefixed field at `offset` as a UTF-8 string.
    /// Invalid UTF-8 is a recoverable error, not a crash.
    pub fn get_string(&self, offset: usize) -> (r: Result<String, DecodeError>)
        requires
            offset + 4 <= self@.len(),
            offset + 4 + spec_load_int(self@, offset as int) <= self@.len(),
        ensures
            valid_utf8(spec_load_blob(self@, offset as int)) <==> r is Ok,
            r matches Ok(s) ==> s@ == decode_utf8(spec_load_blob(self@, offset as int)),
            r matches Err(e) ==> e == DecodeError::InvalidUtf8,
    {
        let bytes = self.get_bytes(offset);
        match string_from_utf8(bytes) {
            Some(s) => Ok(s),
            None => Err(DecodeError::InvalidUtf8),
        }
    }

    /// Stores the UTF-8 encoding of `s` as a length-prefixed blob at `offset`.
    pub fn set_string(&mut self, offset: usize, s: &str)
        requires
            offset + 4 + s.spec_bytes().len() <= old(self)@.len(),
            s.spec_bytes().len() <= u32::MAX,
        ensures
            final(self)@ == spec_store_string(old(self)@, offset as int, s@),
    {
        self.set_bytes(offset, s.as_bytes());
    }

    /// Bytes needed for a length-prefixed field whose payload is `byte_len`
    /// bytes long; lets callers compute non-overlapping field offsets.
    pub fn max_length(byte_len: usize) -> (r: usize)
        requires
            byte_len + 4 <= usize::MAX,
        ensures
            r == byte_len + 4,
    {
        4 + byte_len
    }
}

/// Law: an integer read back from the offset it was stored at is exactly the
/// integer written, for every page image, offset and value in bounds.
pub proof fn lemma_int_round_trip(data: Seq<u8>, offset: int, n: u32)
    requires
        0 <= offset,
        offset + 4 <= data.len(),
    ensures
        spec_load_int(spec_store_int(data, offset, n), offset) == n,
{
    lemma_auto_spec_u32_to_from_le_bytes();
    assert(spec_store_int(data, offset, n).subrange(offset, offset + 4)
        =~= spec_u32_to_le_bytes(n));
}

/// Law: a blob read back from the offset it was stored at is exactly the
/// byte sequence written, and its stored length prefix is its length.
pub proof fn lemma_blob_round_trip(data: Seq<u8>, offset: int, bytes: Seq<u8>)
    requires
        0 <= offset,
        offset + 4 + bytes.len() <= data.len(),
        bytes.len() <= u32::MAX,
    ensures
        spec_load_int(spec_store_blob(data, offset, bytes), offset) == bytes.len(),
        spec_load_blob(spec_store_blob(data, offset, bytes), offset) == bytes,
{
    lemma_auto_spec_u32_to_from_le_bytes();
    let stored = spec_store_blob(data, offset, bytes);
    assert(stored.subrange(offset, offset + 4) =~= spec_u32_to_le_bytes(bytes.len() as u32));
    assert(stored.subrange(offset + 4, offset + 4 + bytes.len()) =~= bytes);
}

/// Law: a string read back from the offset it was stored at decodes, and
/// decodes to exactly the characters written, for every string whose UTF-8
/// encoding fits at that offset.
pub proof fn lemma_string_round_trip(data: Seq<u8>, offset: int, s: Seq<char>)
    requires
        0 <= offset,
        offset + 4 + encode_utf8(s).len() <= data.len(),
        encode_utf8(s).len() <= u32::MAX,
    ensures
        valid_utf8(spec_load_blob(spec_store_string(data, offset, s), offset)),
        decode_utf8(spec_load_blob(spec_store_string(data, offset, s), offset)) == s,
{
    lemma_blob_round_trip(data, offset, encode_utf8(s));
    encode_utf8_valid_utf8(s);
    encode_utf8_decode_utf8(s);
}

/// Law: a store whose byte range lies entirely outside `[lo, hi)` leaves the
/// bytes in `[lo, hi)` unchanged, so non-overlapping fields are independent.
pub proof fn lemma_write_bytes_frame(data: Seq<u8>, woff: int, bytes: Seq<u8>, lo: int, hi: int)
    requires
        0 <= lo <= hi <= data.len(),
        0 <= woff,
        woff + bytes.len() <= data.len(),
        hi <= woff || woff + bytes.len() <= lo,
    ensures
        spec_write_bytes(data, woff, bytes).subrange(lo, hi) == data.subrange(lo, hi),
        forall|i: int| lo <= i < hi ==> spec_write_bytes(data, woff, bytes)[i] == data[i],
{
    assert(spec_write_bytes(data, woff, bytes).subrange(lo, hi) =~= data.subrange(lo, hi));
}

/// Relies on `String::from_utf8`: it returns `Ok` exactly when the bytes are
/// valid UTF-8, and then holds the characters those bytes encode.
#[verifier::external_body]
pub(crate) fn string_from_utf8(bytes: Vec<u8>) -> (r: Option<String>)
    ensures
        r is Some <==> valid_utf8(bytes@),
        r matches Some(s) ==> s@ == decode_utf8(bytes@),
{
    match String::from_utf8(bytes) {
        Ok(s) => Some(s),
        Err(_) => None,
    }
}

} // verus!
