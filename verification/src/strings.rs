//! The operations on strings that the searches are made of.

use crate::encoding::{
    lemma_ascii_char_at_end, lemma_ascii_char_in_encoding, lemma_encode_empty,
    lemma_single_ascii_byte, lemma_split_encoding, lemma_substring_iff_encoded,
};
use crate::text::{
    is_substring, lemma_lines_of_first, lemma_lines_of_last, lines_of, occurs_at,
    without_carriage_return,
};
use vstd::prelude::*;
use vstd::string::StringSliceAdditionalSpecFns;
use vstd::utf8::*;

verus! {

/// Whether `needle` stands in `haystack` at index `start`.
fn bytes_occur_at(needle: &[u8], haystack: &[u8], start: usize) -> (found: bool)
    requires
        start + needle@.len() <= haystack@.len(),
    ensures
        found == occurs_at(needle@, haystack@, start as int),
{
    let length: usize = needle.len();
    let limit: usize = haystack.len();
    let mut i: usize = 0;
    while i < length
        invariant
            i <= length == needle@.len(),
            start + length <= limit == haystack@.len(),
            forall|j: int| 0 <= j < i ==> haystack@[start + j] == needle@[j],
        decreases length - i,
    {
        if haystack[start + i] != needle[i] {
            return false;
        }
        i += 1;
    }
    assert(haystack@.subrange(start as int, start + needle@.len()) =~= needle@);
    true
}

/// Whether `needle` occurs in `haystack`.
fn bytes_contain(haystack: &[u8], needle: &[u8]) -> (found: bool)
    ensures
        found == is_substring(needle@, haystack@),
{
    if needle.len() > haystack.len() {
        return false;
    }
    let last: usize = haystack.len() - needle.len();
    let mut start: usize = 0;
    loop
        invariant
            start <= last,
            last + needle@.len() == haystack@.len(),
            forall|at: int| 0 <= at < start ==> !occurs_at(needle@, haystack@, at),
        decreases last - start,
    {
        if bytes_occur_at(needle, haystack, start) {
            return true;
        }
        if start == last {
            return false;
        }
        start += 1;
    }
}

/// Whether `needle` occurs in `haystack` as a run of characters. The empty string occurs in
/// every string.
pub fn contains(haystack: &str, needle: &str) -> (found: bool)
    ensures
        found == is_substring(needle@, haystack@),
{
    proof {
        lemma_substring_iff_encoded(needle@, haystack@);
    }
    bytes_contain(haystack.as_bytes(), needle.as_bytes())
}

/// The index of the first `byte` in `bytes`, where there is one.
fn find_byte(bytes: &[u8], byte: u8) -> (at: Option<usize>)
    ensures
        match at {
            Some(i) => {
                &&& i < bytes@.len()
                &&& bytes@[i as int] == byte
                &&& forall|j: int| 0 <= j < i ==> bytes@[j] != byte
            },
            None => !bytes@.contains(byte),
        },
{
    let length: usize = bytes.len();
    let mut i: usize = 0;
    while i < length
        invariant
            i <= length == bytes@.len(),
            forall|j: int| 0 <= j < i ==> bytes@[j] != byte,
        decreases length - i,
    {
        if bytes[i] == byte {
            return Some(i);
        }
        i += 1;
    }
    None
}

/// Parts `text` at its first line feed: what stands before it, and what follows it.
fn split_at_line_feed<'a>(text: &'a str) -> (parts: Option<(&'a str, &'a str)>)
    ensures
        match parts {
            Some((head, tail)) => {
                &&& text@ == head@ + seq!['\n'] + tail@
                &&& !head@.contains('\n')
            },
            None => !text@.contains('\n'),
        },
{
    let ghost bytes = text.spec_bytes();
    proof {
        encode_utf8_valid_utf8(text@);
    }
    match find_byte(text.as_bytes(), 0x0A) {
        None => {
            proof {
                if text@.contains('\n') {
                    lemma_ascii_char_in_encoding(text@, '\n');
                }
            }
            None
        },
        Some(end) => {
            proof {
                is_char_boundary_iff_not_is_continuation_byte(bytes, end as int);
            }
            let (head, rest) = text.split_at(end);
            proof {
                encode_utf8_valid_utf8(rest@);
                reveal_with_fuel(is_char_boundary, 2);
            }
            let (feed, tail) = rest.split_at(1);
            proof {
                lemma_split_encoding(text@, head@, rest@, end as int);
                lemma_split_encoding(rest@, feed@, tail@, 1);
                lemma_single_ascii_byte(feed@, '\n');
                if head@.contains('\n') {
                    lemma_ascii_char_in_encoding(head@, '\n');
                }
            }
            Some((head, tail))
        },
    }
}

/// `line` without the carriage return at its end, where it has one.
fn strip_carriage_return<'a>(line: &'a str) -> (stripped: &'a str)
    ensures
        stripped@ == without_carriage_return(line@),
{
    let bytes = line.as_bytes();
    let length: usize = bytes.len();
    proof {
        encode_utf8_valid_utf8(line@);
        lemma_encode_empty(line@);
    }
    if length > 0 && bytes[length - 1] == 0x0D {
        proof {
            is_char_boundary_iff_not_is_continuation_byte(bytes@, length - 1);
        }
        let (stripped, last) = line.split_at(length - 1);
        proof {
            lemma_split_encoding(line@, stripped@, last@, length - 1);
            assert(last.spec_bytes() =~= seq!['\r' as u8]);
            lemma_single_ascii_byte(last@, '\r');
        }
        stripped
    } else {
        proof {
            if line@.len() > 0 && line@.last() == '\r' {
                lemma_ascii_char_at_end(line@);
            }
        }
        line
    }
}

/// The lines of `text`, in order, each a slice of `text`.
///
/// A line ends at a line feed; the line feed, and a carriage return directly before it, are not
/// part of the line. What follows the last line feed is a line too, unless it is empty.
pub fn lines<'a>(text: &'a str) -> (found: Vec<&'a str>)
    ensures
        found.deep_view() == lines_of(text@),
{
    let mut found: Vec<&'a str> = Vec::new();
    let mut rest: &'a str = text;
    loop
        invariant_except_break
            lines_of(text@) == found.deep_view() + lines_of(rest@),
        ensures
            found.deep_view() == lines_of(text@),
        decreases rest@.len(),
    {
        match split_at_line_feed(rest) {
            None => {
                proof {
                    lemma_lines_of_last(rest@);
                }
                if !rest.is_empty() {
                    found.push(rest);
                }
                break ;
            },
            Some((head, tail)) => {
                proof {
                    lemma_lines_of_first(head@, tail@);
                }
                let line = strip_carriage_return(head);
                found.push(line);
                rest = tail;
            },
        }
    }
    found
}

/// The lowercase form of `text` that `str::to_lowercase` returns: each character replaced by
/// its lowercase equivalent under Unicode's rules, which may be more than one character and,
/// for the capital sigma, depends on what stands around it.
pub uninterp spec fn lowercase_of(text: Seq<char>) -> Seq<char>;

/// Calls `str::to_lowercase`. Nothing is proved of it: the result is taken to depend on the
/// characters of `text` alone, and to be empty for the empty text.
#[verifier::external_body]
pub(crate) fn to_lowercase(text: &str) -> (lowered: String)
    ensures
        lowered@ == lowercase_of(text@),
        text@.len() == 0 ==> lowered@.len() == 0,
{
    text.to_lowercase()
}

} // verus!
