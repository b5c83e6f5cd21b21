//! How containment among texts shows in their UTF-8 bytes: one text occurs in
//! another exactly when its bytes occur in the other's bytes.

use vstd::prelude::*;
use vstd::utf8::*;
use crate::substring::{find, lemma_empty_occurs, lemma_middle_occurs, occurs_at, occurs_in};

verus! {

/// The bytes of two texts joined are the bytes of the first followed by those
/// of the second.
pub proof fn lemma_encode_joined(a: Seq<char>, b: Seq<char>)
    ensures
        encode_utf8(a + b) == encode_utf8(a) + encode_utf8(b),
    decreases a.len(),
{
    if a.len() == 0 {
        assert(a + b =~= b);
        assert(encode_utf8(a) + encode_utf8(b) =~= encode_utf8(b));
    } else {
        let head = encode_scalar(a[0] as u32);
        assert((a + b).drop_first() =~= a.drop_first() + b);
        lemma_encode_joined(a.drop_first(), b);
        assert(encode_utf8(a + b) == head + encode_utf8(a.drop_first() + b));
        assert(head + (encode_utf8(a.drop_first()) + encode_utf8(b)) =~= (head + encode_utf8(
            a.drop_first(),
        )) + encode_utf8(b));
    }
}

/// A text with at least one character has at least one byte, and its first
/// byte does not continue a character.
proof fn lemma_encoding_starts_a_character(text: Seq<char>)
    requires
        text.len() > 0,
    ensures
        encode_utf8(text).len() > 0,
        !is_continuation_byte(encode_utf8(text)[0]),
{
    encode_utf8_first_scalar(text);
}

/// Where well-formed bytes open a longer well-formed sequence, a character of
/// the longer one ends where they end.
proof fn lemma_prefix_ends_on_boundary(bytes: Seq<u8>, prefix: Seq<u8>)
    requires
        valid_utf8(bytes),
        valid_utf8(prefix),
        occurs_at(bytes, prefix, 0),
    ensures
        is_char_boundary(bytes, prefix.len() as int),
    decreases prefix.len(),
{
    if prefix.len() > 0 {
        let n = length_of_first_scalar(prefix);
        assert(bytes.subrange(0, prefix.len() as int)[0] == bytes[0]);
        assert(length_of_first_scalar(bytes) == n);
        let rest = pop_first_scalar(bytes);
        let prefix_rest = pop_first_scalar(prefix);
        assert(rest.subrange(0, prefix_rest.len() as int) =~= prefix_rest) by {
            assert forall|j: int| 0 <= j < prefix_rest.len() implies rest[j] == prefix_rest[j] by {
                assert(bytes.subrange(0, prefix.len() as int)[n + j] == bytes[n + j]);
            }
        }
        lemma_prefix_ends_on_boundary(rest, prefix_rest);
    }
}

/// Bytes of `needle` found among the bytes of `hay` are an occurrence of
/// `needle` in `hay`.
proof fn lemma_occurrence_of_bytes(hay: Seq<char>, needle: Seq<char>, at: int)
    requires
        occurs_at(encode_utf8(hay), encode_utf8(needle), at),
    ensures
        occurs_in(hay, needle),
{
    broadcast use {
        encode_utf8_valid_utf8,
        encode_utf8_decode_utf8,
        is_char_boundary_start_end_of_seq,
    };

    if needle.len() == 0 {
        lemma_empty_occurs(hay, needle);
    } else {
        let bytes = encode_utf8(hay);
        let part = encode_utf8(needle);
        lemma_encoding_starts_a_character(needle);
        assert(bytes.subrange(at, at + part.len())[0] == bytes[at]);
        is_char_boundary_iff_not_is_continuation_byte(bytes, at);
        valid_utf8_split(bytes, at);
        decode_utf8_split(bytes, at);
        let before = bytes.subrange(0, at);
        let tail = bytes.subrange(at, bytes.len() as int);
        assert(tail.subrange(0, part.len() as int) =~= part);
        lemma_prefix_ends_on_boundary(tail, part);
        valid_utf8_split(tail, part.len() as int);
        decode_utf8_split(tail, part.len() as int);
        let after = tail.subrange(part.len() as int, tail.len() as int);
        assert(hay == decode_utf8(before) + (needle + decode_utf8(after)));
        assert(hay =~= decode_utf8(before) + needle + decode_utf8(after));
        lemma_middle_occurs(decode_utf8(before), needle, decode_utf8(after));
    }
}

/// An occurrence of `needle` in `hay` shows as its bytes among the bytes of
/// `hay`.
proof fn lemma_bytes_of_occurrence(hay: Seq<char>, needle: Seq<char>, at: int)
    requires
        occurs_at(hay, needle, at),
    ensures
        occurs_in(encode_utf8(hay), encode_utf8(needle)),
{
    let before = hay.subrange(0, at);
    let after = hay.subrange(at + needle.len(), hay.len() as int);
    assert(hay =~= before + needle + after);
    lemma_encode_joined(before + needle, after);
    lemma_encode_joined(before, needle);
    lemma_middle_occurs(encode_utf8(before), encode_utf8(needle), encode_utf8(after));
}

/// One text occurs in another exactly when its UTF-8 bytes occur in the
/// other's.
pub proof fn lemma_occurs_in_bytes(hay: Seq<char>, needle: Seq<char>)
    ensures
        occurs_in(encode_utf8(hay), encode_utf8(needle)) <==> occurs_in(hay, needle),
{
    if occurs_in(hay, needle) {
        let at = choose|at: int| occurs_at(hay, needle, at);
        lemma_bytes_of_occurrence(hay, needle, at);
    }
    if occurs_in(encode_utf8(hay), encode_utf8(needle)) {
        let at = choose|at: int| occurs_at(encode_utf8(hay), encode_utf8(needle), at);
        lemma_occurrence_of_bytes(hay, needle, at);
    }
}

/// Whether `needle` occurs in `hay`.
pub fn text_contains(hay: &str, needle: &str) -> (r: bool)
    ensures
        r == occurs_in(hay@, needle@),
{
    proof {
        lemma_occurs_in_bytes(hay@, needle@);
    }
    find(hay.as_bytes(), needle.as_bytes())
}

} // verus!
