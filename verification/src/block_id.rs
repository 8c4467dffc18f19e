//! Value identity of one block: a file name and a block number.

use vstd::bytes::*;
use vstd::prelude::*;
use vstd::slice::*;
use vstd::string::StringExecFns;
use vstd::string::StringSliceAdditionalSpecFns;
use vstd::utf8::*;
use vstd::wrapping::u64_specs;

verus! {

/// Compares two byte slices for equality.
fn bytes_eq(a: &[u8], b: &[u8]) -> (r: bool)
    ensures
        r == (a@ == b@),
{
    let n = a.len();
    if n != b.len() {
        return false;
    }
    let mut i: usize = 0;
    while i < n
        invariant
            i <= n,
            n == a@.len(),
            n == b@.len(),
            forall|j: int| 0 <= j < i ==> a@[j] == b@[j],
        decreases n - i,
    {
        if *slice_index_get(a, i) != *slice_index_get(b, i) {
            return false;
        }
        i = i + 1;
    }
    proof {
        assert(a@ =~= b@);
    }
    true
}

/// Compares two string slices for equality, as a statement about their
/// character sequences.
pub fn str_eq(a: &str, b: &str) -> (r: bool)
    ensures
        r == (a@ == b@),
{
    let r = bytes_eq(a.as_bytes(), b.as_bytes());
    proof {
        if a.spec_bytes() == b.spec_bytes() {
            encode_utf8_decode_utf8(a@);
            encode_utf8_decode_utf8(b@);
        }
    }
    r
}

/// One step of the FNV-1a fold: xor the byte in, multiply by the FNV prime
/// with wraparound.
pub open spec fn spec_fnv1a_step(h: u64, byte: u8) -> u64 {
    u64_specs::wrapping_mul(h ^ (byte as u64), 0x100000001b3)
}

/// FNV-1a hash of a byte sequence, folded left to right from the standard
/// offset basis.
pub open spec fn spec_fnv1a(bytes: Seq<u8>) -> u64
    decreases bytes.len(),
{
    if bytes.len() == 0 {
        0xcbf29ce484222325
    } else {
        spec_fnv1a_step(spec_fnv1a(bytes.drop_last()), bytes.last())
    }
}

/// The hash of a block identity: FNV-1a over the file name's UTF-8 bytes
/// followed by the block number's 8 little-endian bytes.
pub open spec fn spec_block_hash(v: (Seq<char>, u64)) -> u64 {
    spec_fnv1a(encode_utf8(v.0) + spec_u64_to_le_bytes(v.1))
}

/// Folds the bytes of `b` into a running FNV-1a hash.
fn fnv1a_extend(h0: u64, b: &[u8]) -> (h: u64)
    ensures
        h == spec_fnv1a_fold(h0, b@),
{
    let n = b.len();
    let mut h = h0;
    let mut i: usize = 0;
    while i < n
        invariant
            i <= n,
            n == b@.len(),
            h == spec_fnv1a_fold(h0, b@.take(i as int)),
        decreases n - i,
    {
        let byte = *slice_index_get(b, i);
        h = (h ^ (byte as u64)).wrapping_mul(0x100000001b3);
        proof {
            assert(b@.take(i + 1).drop_last() =~= b@.take(i as int));
        }
        i = i + 1;
    }
    proof {
        assert(b@.take(n as int) =~= b@);
    }
    h
}

/// FNV-1a fold of `bytes` starting from hash state `h0`.
pub open spec fn spec_fnv1a_fold(h0: u64, bytes: Seq<u8>) -> u64
    decreases bytes.len(),
{
    if bytes.len() == 0 {
        h0
    } else {
        spec_fnv1a_step(spec_fnv1a_fold(h0, bytes.drop_last()), bytes.last())
    }
}

/// FNV-1a folds compose over concatenation.
proof fn lemma_fnv1a_fold_concat(h0: u64, a: Seq<u8>, b: Seq<u8>)
    ensures
        spec_fnv1a_fold(h0, a + b) == spec_fnv1a_fold(spec_fnv1a_fold(h0, a), b),
    decreases b.len(),
{
    if b.len() == 0 {
        assert(a + b =~= a);
    } else {
        lemma_fnv1a_fold_concat(h0, a, b.drop_last());
        assert((a + b).drop_last() =~= a + b.drop_last());
        assert((a + b).last() == b.last());
    }
}

/// (filename, block number) pair identifying one fixed-size block of a file.
#[derive(Debug)]
pub struct BlockId {
    filename: String,
    blk_num: u64,
}

impl View for BlockId {
    type V = (Seq<char>, u64);

    closed spec fn view(&self) -> (Seq<char>, u64) {
        (self.filename@, self.blk_num)
    }
}

impl Clone for BlockId {
    fn clone(&self) -> (res: Self)
        ensures
            res@ == self@,
    {
        BlockId { filename: self.filename.clone(), blk_num: self.blk_num }
    }
}

impl PartialEq for BlockId {
    fn eq(&self, other: &Self) -> (r: bool) {
        self.blk_num == other.blk_num && str_eq(self.filename.as_str(), other.filename.as_str())
    }
}

impl Eq for BlockId {

}

impl vstd::std_specs::cmp::PartialEqSpecImpl for BlockId {
    open spec fn obeys_eq_spec() -> bool {
        true
    }

    open spec fn eq_spec(&self, other: &BlockId) -> bool {
        self@ == other@
    }
}

impl BlockId {
    pub fn new(filename: &str, blk_num: u64) -> (res: BlockId)
        ensures
            res@ == (filename@, blk_num),
    {
        BlockId { filename: filename.to_owned(), blk_num }
    }

    pub fn filename(&self) -> (r: &str)
        ensures
            r@ == self@.0,
    {
        self.filename.as_str()
    }

    pub fn number(&self) -> (r: u64)
        ensures
            r == self@.1,
    {
        self.blk_num
    }

    /// Hash of both fields, the same for equal block identities.
    pub fn hash_code(&self) -> (r: u64)
        ensures
            r == spec_block_hash(self@),
    {
        let h = fnv1a_extend(0xcbf29ce484222325, self.filename.as_str().as_bytes());
        let num_bytes = u64_to_le_bytes(self.blk_num);
        let r = fnv1a_extend(h, num_bytes.as_slice());
        proof {
            lemma_fnv1a_fold_concat(
                0xcbf29ce484222325,
                encode_utf8(self.filename@),
                spec_u64_to_le_bytes(self.blk_num),
            );
            lemma_fnv1a_fold_is_fnv1a(
                encode_utf8(self.filename@) + spec_u64_to_le_bytes(self.blk_num),
            );
        }
        r
    }

    /// A block identity with an empty file name stands for "no block".
    pub fn is_null(&self) -> (r: bool)
        ensures
            r == (self@.0.len() == 0),
    {
        self.filename.as_str().is_empty()
    }

    /// Human-readable rendering of both fields; stands in for `Display`.
    pub fn display_string(&self) -> (s: String)
        ensures
            s@ == "[file_name]: "@ + self@.0 + ", [block]: "@ + spec_u64_digits(self@.1 as nat),
    {
        let mut s = "[file_name]: ".to_owned();
        s.append(self.filename.as_str());
        s.append(", [block]: ");
        let digits = u64_to_string(self.blk_num);
        s.append(digits.as_str());
        s
    }
}

/// Folding the whole input from the offset basis is the plain FNV-1a hash.
proof fn lemma_fnv1a_fold_is_fnv1a(bytes: Seq<u8>)
    ensures
        spec_fnv1a_fold(0xcbf29ce484222325, bytes) == spec_fnv1a(bytes),
    decreases bytes.len(),
{
    if bytes.len() != 0 {
        lemma_fnv1a_fold_is_fnv1a(bytes.drop_last());
    }
}

/// The decimal digit characters of `n`, most significant first.
pub open spec fn spec_u64_digits(n: nat) -> Seq<char>
    decreases n,
{
    if n < 10 {
        seq![spec_digit_char(n)]
    } else {
        spec_u64_digits(n / 10).push(spec_digit_char(n % 10))
    }
}

/// The character for one decimal digit.
pub open spec fn spec_digit_char(d: nat) -> char
    recommends
        d < 10,
{
    ((48 + d) as u8) as char
}

/// Renders `n` in decimal.
pub fn u64_to_string(n: u64) -> (s: String)
    ensures
        s@ == spec_u64_digits(n as nat),
{
    let digits = u64_digit_bytes(n);
    proof {
        lemma_digit_bytes_ascii(n as nat);
        is_ascii_chars_encode_utf8(spec_u64_digits(n as nat));
        assert(encode_utf8(spec_u64_digits(n as nat)) =~= spec_u64_digit_bytes(n as nat));
        encode_utf8_valid_utf8(spec_u64_digits(n as nat));
        encode_utf8_decode_utf8(spec_u64_digits(n as nat));
    }
    match crate::page::string_from_utf8(digits) {
        Some(s) => s,
        None => {
            proof {
                assert(false);
            }
            String::new()
        },
    }
}

/// The ASCII bytes of `n`'s decimal digits, most significant first.
pub open spec fn spec_u64_digit_bytes(n: nat) -> Seq<u8>
    decreases n,
{
    if n < 10 {
        seq![(48 + n) as u8]
    } else {
        spec_u64_digit_bytes(n / 10).push((48 + n % 10) as u8)
    }
}

/// Digit characters are ASCII and encode byte-for-byte to the digit bytes.
proof fn lemma_digit_bytes_ascii(n: nat)
    ensures
        is_ascii_chars(spec_u64_digits(n)),
        spec_u64_digits(n).len() == spec_u64_digit_bytes(n).len(),
        forall|i: int|
            0 <= i < spec_u64_digits(n).len() ==> (#[trigger] spec_u64_digits(n)[i]) as u8
                == spec_u64_digit_bytes(n)[i],
    decreases n,
{
    if n < 10 {
        assert(((48 + n) as u8) as char <= '\u{7f}');
    } else {
        lemma_digit_bytes_ascii(n / 10);
        assert(((48 + n % 10) as u8) as char <= '\u{7f}');
    }
}

/// Builds the digit byte string of `n` by emitting the low digit first and
/// then reversing.
fn u64_digit_bytes(n: u64) -> (r: Vec<u8>)
    ensures
        r@ == spec_u64_digit_bytes(n as nat),
{
    let mut rev: Vec<u8> = Vec::new();
    let d0 = (n % 10) as u8;
    rev.push(48 + d0);
    let mut m = n / 10;
    proof {
        if m == 0 {
            assert(spec_u64_digit_bytes(n as nat) =~= Seq::<u8>::empty() + rev@.reverse());
        } else {
            assert(spec_u64_digit_bytes(n as nat) =~= spec_u64_digit_bytes(m as nat)
                + rev@.reverse());
        }
    }
    while m > 0
        invariant
            spec_u64_digit_bytes(n as nat) == (if m > 0 {
                spec_u64_digit_bytes(m as nat)
            } else {
                Seq::<u8>::empty()
            }) + rev@.reverse(),
        decreases m,
    {
        let ghost prev_rev = rev@;
        let ghost prev_m = m as nat;
        let d = (m % 10) as u8;
        rev.push(48 + d);
        m = m / 10;
        proof {
            assert(rev@.reverse() =~= seq![(48 + prev_m % 10) as u8] + prev_rev.reverse());
            if m == 0 {
                assert(spec_u64_digit_bytes(prev_m) =~= seq![(48 + prev_m % 10) as u8]);
                assert(spec_u64_digit_bytes(n as nat) =~= Seq::<u8>::empty() + rev@.reverse());
            } else {
                assert(spec_u64_digit_bytes(prev_m) =~= spec_u64_digit_bytes(m as nat).push(
                    (48 + prev_m % 10) as u8,
                ));
                assert(spec_u64_digit_bytes(n as nat) =~= spec_u64_digit_bytes(m as nat)
                    + rev@.reverse());
            }
        }
    }
    proof {
        assert(spec_u64_digit_bytes(n as nat) =~= Seq::<u8>::empty() + rev@.reverse());
    }
    let mut r: Vec<u8> = Vec::new();
    let mut i = rev.len();
    while i > 0
        invariant
            i <= rev@.len(),
            r@ == rev@.subrange(i as int, rev@.len() as int).reverse(),
        decreases i,
    {
        i = i - 1;
        r.push(rev[i]);
        proof {
            assert(rev@.subrange(i as int, rev@.len() as int).reverse() =~= rev@.subrange(
                i + 1,
                rev@.len() as int,
            ).reverse().push(rev@[i as int]));
        }
    }
    proof {
        assert(rev@.subrange(0, rev@.len() as int) =~= rev@);
    }
    r
}

} // verus!
