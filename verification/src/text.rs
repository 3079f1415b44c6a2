//! Byte-level reasoning about UTF-8 text.
//!
//! Offsets into a document are byte offsets into the UTF-8 encoding of its
//! text, so the contracts of this crate speak of a string through
//! [`text_bytes`], the encoding of its characters.

use vstd::prelude::*;
use vstd::string::*;
use vstd::utf8::*;

verus! {

/// The UTF-8 encoding of a sequence of characters.
pub open spec fn text_bytes(chars: Seq<char>) -> Seq<u8> {
    encode_utf8(chars)
}

/// The text of an optional string.
pub open spec fn option_text(s: Option<String>) -> Option<Seq<char>> {
    match s {
        Some(s) => Some(s@),
        None => None,
    }
}

/// The byte that ends a line.
pub const NEWLINE: u8 = 0x0A;

/// Encoding distributes over concatenation.
pub proof fn lemma_encode_concat(a: Seq<char>, b: Seq<char>)
    ensures
        encode_utf8(a + b) == encode_utf8(a) + encode_utf8(b),
    decreases a.len(),
{
    if a.len() == 0 {
        assert(a + b =~= b);
        assert(encode_utf8(a) =~= Seq::<u8>::empty());
        assert(encode_utf8(a) + encode_utf8(b) =~= encode_utf8(b));
    } else {
        lemma_encode_concat(a.drop_first(), b);
        assert((a + b).drop_first() =~= a.drop_first() + b);
        assert((a + b)[0] == a[0]);
        assert(encode_utf8(a + b) =~= encode_scalar(a[0] as u32) + (encode_utf8(a.drop_first())
            + encode_utf8(b)));
    }
}

/// Two texts with the same encoding are the same text.
pub proof fn lemma_encode_injective(a: Seq<char>, b: Seq<char>)
    requires
        encode_utf8(a) == encode_utf8(b),
    ensures
        a == b,
{
    encode_utf8_decode_utf8(a);
    encode_utf8_decode_utf8(b);
}

/// In valid UTF-8 the position right after a one-byte character starts a
/// character (or is the end of the text).
pub proof fn lemma_boundary_after_ascii(bytes: Seq<u8>, p: int)
    requires
        valid_utf8(bytes),
        0 < p <= bytes.len(),
        bytes[p - 1] <= 0x7f,
    ensures
        is_char_boundary(bytes, p),
{
    if p == bytes.len() {
        is_char_boundary_start_end_of_seq(bytes);
    } else {
        is_char_boundary_iff_is_leading_byte(bytes, p - 1);
        assert(is_leading_byte_width_1(bytes[p - 1]));
        assert(is_char_boundary(bytes, p - 1));
        valid_utf8_split(bytes, p - 1);
        let tail = bytes.subrange(p - 1, bytes.len() as int);
        assert(tail[0] == bytes[p - 1]);
        assert(length_of_first_scalar(tail) == 1);
        assert(pop_first_scalar(tail) =~= tail.subrange(1, tail.len() as int));
        assert(valid_utf8(pop_first_scalar(tail)));
        assert(is_char_boundary(pop_first_scalar(tail), 0));
        assert(is_char_boundary(tail, 1));
        is_char_boundary_iff_not_is_continuation_byte(tail, 1);
        assert(tail[1] == bytes[p]);
        is_char_boundary_iff_not_is_continuation_byte(bytes, p);
    }
}

/// A one-byte character starts at every position that holds one.
pub proof fn lemma_boundary_at_ascii(bytes: Seq<u8>, p: int)
    requires
        valid_utf8(bytes),
        0 <= p < bytes.len(),
        bytes[p] <= 0x7f,
    ensures
        is_char_boundary(bytes, p),
{
    is_char_boundary_iff_is_leading_byte(bytes, p);
    assert(is_leading_byte_width_1(bytes[p]));
}

/// A character boundary of a text is one of each prefix that reaches it,
/// provided the prefix itself ends on a boundary.
pub proof fn lemma_boundary_in_prefix(bytes: Seq<u8>, start: int, end: int)
    requires
        valid_utf8(bytes),
        0 <= start <= end <= bytes.len(),
        is_char_boundary(bytes, start),
        is_char_boundary(bytes, end),
    ensures
        valid_utf8(bytes.subrange(0, end)),
        is_char_boundary(bytes.subrange(0, end), start),
{
    valid_utf8_split(bytes, end);
    let prefix = bytes.subrange(0, end);
    if start == end {
        is_char_boundary_start_end_of_seq(prefix);
    } else {
        is_char_boundary_iff_not_is_continuation_byte(bytes, start);
        is_char_boundary_iff_not_is_continuation_byte(prefix, start);
        assert(prefix[start] == bytes[start]);
    }
}

/// The length of `s` in bytes.
pub fn byte_len(s: &str) -> (n: usize)
    ensures
        n == s.spec_bytes().len(),
{
    s.as_bytes().len()
}

/// The part of `s` between two character boundaries.
pub fn slice_str(s: &str, start: usize, end: usize) -> (r: &str)
    requires
        start <= end <= s.spec_bytes().len(),
        is_char_boundary(s.spec_bytes(), start as int),
        is_char_boundary(s.spec_bytes(), end as int),
    ensures
        r.spec_bytes() == s.spec_bytes().subrange(start as int, end as int),
{
    proof {
        encode_utf8_valid_utf8(s@);
        lemma_boundary_in_prefix(s.spec_bytes(), start as int, end as int);
    }
    let (prefix, _) = s.split_at(end);
    let (_, part) = prefix.split_at(start);
    assert(part.spec_bytes() =~= s.spec_bytes().subrange(start as int, end as int));
    part
}

/// `s` with the bytes between two character boundaries replaced by `text`.
pub fn splice_str(s: &str, start: usize, end: usize, text: &str) -> (r: String)
    requires
        start <= end <= s.spec_bytes().len(),
        is_char_boundary(s.spec_bytes(), start as int),
        is_char_boundary(s.spec_bytes(), end as int),
    ensures
        text_bytes(r@) == s.spec_bytes().subrange(0, start as int) + text.spec_bytes()
            + s.spec_bytes().subrange(end as int, s.spec_bytes().len() as int),
{
    let (head, _) = s.split_at(start);
    let (_, tail) = s.split_at(end);
    let mut out = head.to_owned();
    out.append(text);
    out.append(tail);
    proof {
        lemma_encode_concat(head@, text@);
        lemma_encode_concat(head@ + text@, tail@);
    }
    out
}

/// `a` followed by `b`.
pub fn concat_str(a: &str, b: &str) -> (r: String)
    ensures
        r@ == a@ + b@,
        text_bytes(r@) == a.spec_bytes() + b.spec_bytes(),
{
    let mut out = a.to_owned();
    out.append(b);
    proof {
        lemma_encode_concat(a@, b@);
    }
    out
}

/// Whether `part` stands in `whole` at offset `at`.
pub open spec fn occurs_at(whole: Seq<u8>, at: int, part: Seq<u8>) -> bool {
    &&& 0 <= at
    &&& at + part.len() <= whole.len()
    &&& whole.subrange(at, at + part.len()) == part
}

/// Whether `whole` begins with `part`.
pub open spec fn starts_with(whole: Seq<u8>, part: Seq<u8>) -> bool {
    occurs_at(whole, 0, part)
}

/// Whether `whole` ends with `part`.
pub open spec fn ends_with(whole: Seq<u8>, part: Seq<u8>) -> bool {
    occurs_at(whole, whole.len() - part.len(), part)
}

/// Whether `part` stands in `whole` at offset `at`.
pub fn bytes_occur_at(whole: &[u8], at: usize, part: &[u8]) -> (r: bool)
    ensures
        r == occurs_at(whole@, at as int, part@),
{
    let n = part.len();
    let total = whole.len();
    if at > total || n > total - at {
        return false;
    }
    let mut i: usize = 0;
    while i < n
        invariant
            i <= n,
            n == part@.len(),
            at + n <= total,
            total == whole@.len(),
            forall|j: int| 0 <= j < i ==> whole@[at + j] == part@[j],
        decreases n - i,
    {
        if whole[at + i] != part[i] {
            assert(whole@.subrange(at as int, at + n)[i as int] != part@[i as int]);
            return false;
        }
        i = i + 1;
    }
    assert(whole@.subrange(at as int, at + n) =~= part@);
    true
}

/// Whether two strings hold the same text.
pub fn str_eq(a: &str, b: &str) -> (r: bool)
    ensures
        r == (a@ == b@),
{
    let x = a.as_bytes();
    let y = b.as_bytes();
    let same = x.len() == y.len() && bytes_occur_at(x, 0, y);
    proof {
        if same {
            assert(x@.subrange(0, x@.len() as int) =~= x@);
            lemma_encode_injective(a@, b@);
        }
        if a@ == b@ {
            assert(x@.subrange(0, x@.len() as int) =~= x@);
        }
    }
    same
}

/// Whether the text of `s` ends with the text of `suffix`, byte for byte.
pub fn str_ends_with(s: &str, suffix: &str) -> (r: bool)
    ensures
        r == ends_with(s.spec_bytes(), suffix.spec_bytes()),
{
    let x = s.as_bytes();
    let y = suffix.as_bytes();
    if y.len() > x.len() {
        return false;
    }
    bytes_occur_at(x, x.len() - y.len(), y)
}

} // verus!
