//! How a text and its UTF-8 bytes go together: what the searches, which read bytes, must know to
//! speak of characters.

use crate::text::{is_substring, occurs_at};
use vstd::prelude::*;
use vstd::utf8::*;

verus! {

/// Whether `c` is one of the 128 characters that UTF-8 encodes in a single byte.
pub(crate) open spec fn is_ascii_char(c: char) -> bool {
    '\0' <= c <= '\u{7f}'
}

/// The encoding of a concatenation is the concatenation of the encodings.
pub(crate) proof fn lemma_encode_concat(a: Seq<char>, b: Seq<char>)
    ensures
        encode_utf8(a + b) == encode_utf8(a) + encode_utf8(b),
    decreases a.len(),
{
    if a.len() > 0 {
        assert((a + b).drop_first() =~= a.drop_first() + b);
        lemma_encode_concat(a.drop_first(), b);
    }
}

/// Two character sequences with the same encoding are the same sequence.
pub(crate) proof fn lemma_encode_injective(a: Seq<char>, b: Seq<char>)
    requires
        encode_utf8(a) == encode_utf8(b),
    ensures
        a == b,
{
    encode_utf8_decode_utf8(a);
    encode_utf8_decode_utf8(b);
}

/// An ASCII character is encoded as the one byte that is its code.
pub(crate) proof fn lemma_encode_ascii_char(c: char)
    requires
        is_ascii_char(c),
    ensures
        encode_utf8(seq![c]) == seq![c as u8],
{
    is_ascii_chars_encode_utf8(seq![c]);
}

/// Only the empty sequence has an empty encoding.
pub(crate) proof fn lemma_encode_empty(s: Seq<char>)
    ensures
        encode_utf8(s).len() == 0 <==> s.len() == 0,
{
    if s.len() > 0 {
        encode_utf8_first_scalar(s);
    }
}

/// Where `whole` is encoded as the bytes of `left` followed by those of `right`, it is `left`
/// followed by `right`.
pub(crate) proof fn lemma_split_encoding(
    whole: Seq<char>,
    left: Seq<char>,
    right: Seq<char>,
    mid: int,
)
    requires
        0 <= mid <= encode_utf8(whole).len(),
        encode_utf8(left) == encode_utf8(whole).subrange(0, mid),
        encode_utf8(right) == encode_utf8(whole).subrange(mid, encode_utf8(whole).len() as int),
    ensures
        whole == left + right,
{
    lemma_encode_concat(left, right);
    assert(encode_utf8(left) + encode_utf8(right) =~= encode_utf8(whole));
    lemma_encode_injective(whole, left + right);
}

/// A sequence whose encoding is the single byte of an ASCII character holds that character and
/// nothing else.
pub(crate) proof fn lemma_single_ascii_byte(s: Seq<char>, c: char)
    requires
        is_ascii_char(c),
        encode_utf8(s) == seq![c as u8],
    ensures
        s == seq![c],
{
    lemma_encode_ascii_char(c);
    lemma_encode_injective(s, seq![c]);
}

/// An ASCII character at index `i` of `s` is encoded as its code, at the index that the
/// encoding of the characters before it ends at.
pub(crate) proof fn lemma_ascii_char_at(s: Seq<char>, i: int)
    requires
        0 <= i < s.len(),
        is_ascii_char(s[i]),
    ensures
        encode_utf8(s) == encode_utf8(s.take(i)) + seq![s[i] as u8] + encode_utf8(s.skip(i + 1)),
{
    let before = s.take(i);
    let after = s.skip(i + 1);
    assert(s =~= before + seq![s[i]] + after);
    lemma_encode_concat(before + seq![s[i]], after);
    lemma_encode_concat(before, seq![s[i]]);
    lemma_encode_ascii_char(s[i]);
}

/// The encoding of a sequence that holds the ASCII character `c` holds the byte `c`.
pub(crate) proof fn lemma_ascii_char_in_encoding(s: Seq<char>, c: char)
    requires
        is_ascii_char(c),
        s.contains(c),
    ensures
        encode_utf8(s).contains(c as u8),
{
    let i = choose|i: int| 0 <= i < s.len() && s[i] == c;
    lemma_ascii_char_at(s, i);
    let at = encode_utf8(s.take(i)).len() as int;
    assert(encode_utf8(s)[at] == c as u8);
}

/// The encoding of a sequence that ends with the ASCII character `c` ends with the byte `c`.
pub(crate) proof fn lemma_ascii_char_at_end(s: Seq<char>)
    requires
        s.len() > 0,
        is_ascii_char(s.last()),
    ensures
        encode_utf8(s).len() > 0,
        encode_utf8(s).last() == s.last() as u8,
{
    lemma_ascii_char_at(s, s.len() - 1);
}

/// Where one valid encoding starts another, it ends in the other between two characters.
proof fn lemma_prefix_ends_at_boundary(x: Seq<u8>, y: Seq<u8>)
    requires
        valid_utf8(x),
        valid_utf8(y),
        x.len() <= y.len(),
        y.subrange(0, x.len() as int) == x,
    ensures
        is_char_boundary(y, x.len() as int),
    decreases x.len(),
{
    if x.len() > 0 {
        let rest_of_x = pop_first_scalar(x);
        let rest_of_y = pop_first_scalar(y);
        assert(rest_of_y.subrange(0, rest_of_x.len() as int) =~= rest_of_x);
        lemma_prefix_ends_at_boundary(rest_of_x, rest_of_y);
    }
}

/// Where the bytes of `needle` stand in the bytes of `haystack`, `needle` stands in `haystack`:
/// a match of whole characters cannot begin or end inside a character.
pub(crate) proof fn lemma_occurrence_of_encoding(needle: Seq<char>, haystack: Seq<char>, at: int)
    requires
        occurs_at(encode_utf8(needle), encode_utf8(haystack), at),
    ensures
        is_substring(needle, haystack),
{
    let n = encode_utf8(needle);
    let h = encode_utf8(haystack);
    lemma_encode_empty(needle);
    if needle.len() == 0 {
        assert(haystack.subrange(0, 0) =~= needle);
        assert(occurs_at(needle, haystack, 0));
    } else {
        encode_utf8_valid_utf8(needle);
        encode_utf8_valid_utf8(haystack);
        assert(!is_continuation_byte(n[0])) by {
            is_char_boundary_start_end_of_seq(n);
            is_char_boundary_iff_not_is_continuation_byte(n, 0);
        }
        is_char_boundary_iff_not_is_continuation_byte(h, at);
        valid_utf8_split(h, at);
        let head = h.subrange(0, at);
        let tail = h.subrange(at, h.len() as int);
        assert(tail.subrange(0, n.len() as int) =~= n);
        lemma_prefix_ends_at_boundary(n, tail);
        valid_utf8_split(tail, n.len() as int);
        let rest = tail.subrange(n.len() as int, tail.len() as int);
        let before = decode_utf8(head);
        let after = decode_utf8(rest);
        decode_utf8_encode_utf8(head);
        decode_utf8_encode_utf8(rest);
        lemma_encode_concat(before, needle);
        lemma_encode_concat(before + needle, after);
        assert(head + n + rest =~= h);
        lemma_encode_injective(haystack, before + needle + after);
        let start = before.len() as int;
        assert(haystack.subrange(start, start + needle.len()) =~= needle);
        assert(occurs_at(needle, haystack, start));
    }
}

/// Where `needle` stands in `haystack`, its bytes stand in the bytes of `haystack`.
pub(crate) proof fn lemma_encoding_of_occurrence(needle: Seq<char>, haystack: Seq<char>, at: int)
    requires
        occurs_at(needle, haystack, at),
    ensures
        is_substring(encode_utf8(needle), encode_utf8(haystack)),
{
    let before = haystack.take(at);
    let after = haystack.skip(at + needle.len());
    assert(haystack =~= before + needle + after);
    lemma_encode_concat(before, needle);
    lemma_encode_concat(before + needle, after);
    let start = encode_utf8(before).len() as int;
    assert(encode_utf8(haystack).subrange(start, start + encode_utf8(needle).len())
        =~= encode_utf8(needle));
    assert(occurs_at(encode_utf8(needle), encode_utf8(haystack), start));
}

/// One character sequence occurs in another exactly when its bytes occur in the other's bytes.
pub(crate) proof fn lemma_substring_iff_encoded(needle: Seq<char>, haystack: Seq<char>)
    ensures
        is_substring(needle, haystack) <==> is_substring(
            encode_utf8(needle),
            encode_utf8(haystack),
        ),
{
    if is_substring(needle, haystack) {
        let at = choose|at: int| occurs_at(needle, haystack, at);
        lemma_encoding_of_occurrence(needle, haystack, at);
    }
    if is_substring(encode_utf8(needle), encode_utf8(haystack)) {
        let at = choose|at: int| occurs_at(encode_utf8(needle), encode_utf8(haystack), at);
        lemma_occurrence_of_encoding(needle, haystack, at);
    }
}

} // verus!
