//! Text primitives of the search: case-sensitive substring containment.
//!
//! One text contains another if it holds the other as a run of its
//! characters. That is so exactly if the UTF-8 encoding of the one holds the
//! encoding of the other as a run of its bytes, and so it is decided.

use vstd::prelude::*;
use vstd::utf8::{
    decode_utf8, encode_utf8, is_char_boundary, is_continuation_byte, length_of_first_scalar,
    pop_first_scalar, valid_utf8,
};

verus! {

/// The characters of `s`, in order.
pub fn chars_of(s: &str) -> (v: Vec<char>)
    ensures
        v@ == s@,
{
    let mut v: Vec<char> = Vec::new();
    for c in it: s.chars()
        invariant
            v@ == it.seq().take(it.index() as int),
            it.seq() == s@,
    {
        v.push(c);
    }
    v
}

/// `needle` occurs in `hay` at offset `at`.
pub open spec fn occurs_at(hay: Seq<u8>, needle: Seq<u8>, at: int) -> bool {
    &&& 0 <= at
    &&& at + needle.len() <= hay.len()
    &&& hay.subrange(at, at + needle.len()) == needle
}

/// `needle` is a contiguous part of `hay`. The empty sequence is a part of
/// every sequence.
pub open spec fn bytes_contain(hay: Seq<u8>, needle: Seq<u8>) -> bool {
    exists|at: int| occurs_at(hay, needle, at)
}

/// `needle` is a substring of `hay`: a run of its characters. The empty
/// text is a substring of every text.
pub open spec fn text_contains(hay: Seq<char>, needle: Seq<char>) -> bool {
    exists|at: int|
        0 <= at && at + needle.len() <= hay.len() && #[trigger] hay.subrange(
            at,
            at + needle.len(),
        ) == needle
}

/// The empty sequence occurs in every sequence.
pub proof fn lemma_empty_is_contained(hay: Seq<u8>)
    ensures
        bytes_contain(hay, Seq::<u8>::empty()),
{
    assert(hay.subrange(0, 0) == Seq::<u8>::empty());
    assert(occurs_at(hay, Seq::<u8>::empty(), 0));
}

/// The encoding of a text followed by another is the encoding of the one
/// followed by the encoding of the other.
pub proof fn lemma_encode_add(first: Seq<char>, second: Seq<char>)
    ensures
        encode_utf8(first + second) == encode_utf8(first) + encode_utf8(second),
    decreases first.len(),
{
    if first.len() == 0 {
        assert(first + second =~= second);
        assert(encode_utf8(first) + encode_utf8(second) =~= encode_utf8(second));
    } else {
        assert((first + second).drop_first() =~= first.drop_first() + second);
        lemma_encode_add(first.drop_first(), second);
        assert(encode_utf8(first + second) =~= encode_utf8(first) + encode_utf8(second));
    }
}

/// The encoding of a text holds the encoding of every run of its
/// characters.
proof fn lemma_part_is_contained(before: Seq<char>, part: Seq<char>, after: Seq<char>)
    ensures
        bytes_contain(encode_utf8(before + part + after), encode_utf8(part)),
{
    lemma_encode_add(before + part, after);
    lemma_encode_add(before, part);
    let hay = encode_utf8(before + part + after);
    let needle = encode_utf8(part);
    let at = encode_utf8(before).len() as int;
    assert(hay.subrange(at, at + needle.len()) =~= needle);
    assert(occurs_at(hay, needle, at));
}

/// Where well-formed bytes start with other well-formed bytes, these end
/// where a character ends.
proof fn lemma_prefix_ends_at_boundary(bytes: Seq<u8>, prefix: Seq<u8>)
    requires
        valid_utf8(bytes),
        valid_utf8(prefix),
        prefix.len() <= bytes.len(),
        bytes.subrange(0, prefix.len() as int) == prefix,
    ensures
        is_char_boundary(bytes, prefix.len() as int),
    decreases prefix.len(),
{
    if prefix.len() > 0 {
        let width = length_of_first_scalar(prefix);
        assert(bytes.subrange(0, prefix.len() as int)[0] == bytes[0]);
        assert(forall|k: int|
            0 <= k < prefix.len() ==> bytes.subrange(0, prefix.len() as int)[k] == bytes[k]);
        assert(length_of_first_scalar(bytes) == width);
        assert(width <= prefix.len());
        let rest = pop_first_scalar(bytes);
        let shorter = pop_first_scalar(prefix);
        assert(rest.subrange(0, shorter.len() as int) =~= shorter);
        lemma_prefix_ends_at_boundary(rest, shorter);
        assert(is_char_boundary(rest, prefix.len() - width));
    }
}

/// One text contains another exactly if its UTF-8 encoding holds the
/// encoding of the other as a run of its bytes.
pub proof fn lemma_text_contains_by_bytes(hay: Seq<char>, needle: Seq<char>)
    ensures
        text_contains(hay, needle) <==> bytes_contain(encode_utf8(hay), encode_utf8(needle)),
{
    let bytes = encode_utf8(hay);
    let part = encode_utf8(needle);
    vstd::utf8::encode_utf8_valid_utf8(hay);
    vstd::utf8::encode_utf8_valid_utf8(needle);
    vstd::utf8::encode_utf8_decode_utf8(hay);
    vstd::utf8::encode_utf8_decode_utf8(needle);
    if text_contains(hay, needle) {
        let at = choose|at: int|
            0 <= at && at + needle.len() <= hay.len() && #[trigger] hay.subrange(
                at,
                at + needle.len(),
            ) == needle;
        let before = hay.subrange(0, at);
        let after = hay.subrange(at + needle.len(), hay.len() as int);
        assert(hay =~= before + needle + after);
        lemma_part_is_contained(before, needle, after);
    }
    if bytes_contain(bytes, part) {
        if needle.len() == 0 {
            assert(hay.subrange(0int, 0int + needle.len()) =~= needle);
        } else {
            let at = choose|at: int| occurs_at(bytes, part, at);
            let end = at + part.len();
            assert(part.len() > 0) by {
                if part.len() == 0 {
                    assert(decode_utf8(part) =~= Seq::<char>::empty());
                }
            }
            assert(bytes.subrange(at, end)[0] == bytes[at]);
            vstd::utf8::is_char_boundary_iff_not_is_continuation_byte(part, 0);
            vstd::utf8::is_char_boundary_iff_not_is_continuation_byte(bytes, at);
            assert(is_char_boundary(bytes, at));
            vstd::utf8::valid_utf8_split(bytes, at);
            vstd::utf8::decode_utf8_split(bytes, at);
            let head = bytes.subrange(0, at);
            let tail = bytes.subrange(at, bytes.len() as int);
            assert(tail.subrange(0, part.len() as int) =~= part);
            lemma_prefix_ends_at_boundary(tail, part);
            vstd::utf8::decode_utf8_split(tail, part.len() as int);
            let rest = tail.subrange(part.len() as int, tail.len() as int);
            let before = decode_utf8(head);
            let after = decode_utf8(rest);
            assert(hay =~= before + needle + after);
            let start = before.len() as int;
            assert(hay.subrange(start, start + needle.len()) =~= needle);
        }
    }
}

fn slice_occurs_at(hay: &[u8], needle: &[u8], at: usize) -> (r: bool)
    requires
        at + needle@.len() <= hay@.len(),
    ensures
        r == occurs_at(hay@, needle@, at as int),
{
    let n: usize = needle.len();
    let h: usize = hay.len();
    let mut j: usize = 0;
    while j < n
        invariant
            n == needle@.len(),
            h == hay@.len(),
            at + n <= h,
            j <= n,
            forall|k: int| 0 <= k < j ==> hay@[at + k] == needle@[k],
        decreases n - j,
    {
        if hay[at + j] != needle[j] {
            assert(hay@.subrange(at as int, at + n)[j as int] == hay@[at + j]);
            return false;
        }
        j += 1;
    }
    assert(hay@.subrange(at as int, at + n) =~= needle@);
    true
}

/// Whether `needle` is a contiguous part of `hay`.
pub fn slice_contains(hay: &[u8], needle: &[u8]) -> (r: bool)
    ensures
        r == bytes_contain(hay@, needle@),
{
    let n: usize = needle.len();
    let h: usize = hay.len();
    if n > h {
        return false;
    }
    if n == 0 {
        proof {
            lemma_empty_is_contained(hay@);
            assert(needle@ =~= Seq::<u8>::empty());
        }
        return true;
    }
    let last: usize = h - n;
    let mut at: usize = 0;
    while at <= last
        invariant
            n == needle@.len(),
            h == hay@.len(),
            last == h - n,
            last < h,
            at <= last + 1,
            forall|k: int| 0 <= k < at ==> !occurs_at(hay@, needle@, k),
        decreases last + 1 - at,
    {
        if slice_occurs_at(hay, needle, at) {
            return true;
        }
        at += 1;
    }
    false
}

/// Whether `needle` is a substring of `hay`.
pub fn str_contains(hay: &str, needle: &str) -> (r: bool)
    ensures
        r == text_contains(hay@, needle@),
{
    proof {
        lemma_text_contains_by_bytes(hay@, needle@);
    }
    slice_contains(hay.as_bytes(), needle.as_bytes())
}

/// A well-formed payload holds the encoding of a text exactly if the text
/// that it encodes contains that text.
pub proof fn lemma_payload_contains(bytes: Seq<u8>, needle: Seq<char>)
    requires
        valid_utf8(bytes),
    ensures
        bytes_contain(bytes, encode_utf8(needle)) <==> text_contains(decode_utf8(bytes), needle),
{
    vstd::utf8::decode_utf8_encode_utf8(bytes);
    lemma_text_contains_by_bytes(decode_utf8(bytes), needle);
}

/// Whether `bytes` is well-formed UTF-8.
///
/// Calls `core::str::from_utf8` and reports whether it accepted the bytes:
/// it accepts exactly the byte sequences that are valid UTF-8.
#[verifier::external_body]
pub(crate) fn is_utf8(bytes: &[u8]) -> (r: bool)
    ensures
        r == valid_utf8(bytes@),
{
    core::str::from_utf8(bytes).is_ok()
}

/// The text that `bytes` encode, if they are well-formed UTF-8, and else
/// the words in which they are refused.
///
/// Calls `String::from_utf8`: it accepts exactly the byte sequences that
/// are valid UTF-8, and gives the text that they encode. Nothing is claimed
/// of the words of a refusal, which are those of its error.
#[verifier::external_body]
pub(crate) fn utf8_text(bytes: Vec<u8>) -> (r: Result<String, String>)
    ensures
        r is Ok <==> valid_utf8(bytes@),
        r matches Ok(text) ==> text@ == decode_utf8(bytes@),
{
    match String::from_utf8(bytes) {
        Ok(text) => Ok(text),
        Err(err) => Err(err.to_string()),
    }
}

} // verus!
