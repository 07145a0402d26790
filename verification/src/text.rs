//! The model of a text: a sequence of characters, the lines it is made of, and what it means for
//! one sequence to occur in another.

use vstd::prelude::*;

verus! {

/// Whether `needle` stands in `haystack` at index `start`, element for element.
pub open spec fn occurs_at<T>(needle: Seq<T>, haystack: Seq<T>, start: int) -> bool {
    &&& 0 <= start
    &&& start + needle.len() <= haystack.len()
    &&& haystack.subrange(start, start + needle.len()) == needle
}

/// Whether `needle` occurs somewhere in `haystack` as a contiguous run.
pub open spec fn is_substring<T>(needle: Seq<T>, haystack: Seq<T>) -> bool {
    exists|start: int| occurs_at(needle, haystack, start)
}

/// The empty sequence occurs in every sequence.
pub proof fn lemma_empty_occurs_everywhere<T>(haystack: Seq<T>)
    ensures
        is_substring(Seq::<T>::empty(), haystack),
{
    assert(haystack.subrange(0, 0) =~= Seq::<T>::empty());
    assert(occurs_at(Seq::<T>::empty(), haystack, 0));
}

/// A line as it is handed out: without the carriage return that stood before its line feed.
pub open spec fn without_carriage_return(line: Seq<char>) -> Seq<char> {
    if line.len() > 0 && line.last() == '\r' {
        line.drop_last()
    } else {
        line
    }
}

/// The lines of `text`, in order.
///
/// A line ends at a line feed; the line feed, and a carriage return directly before it, are not
/// part of the line. What follows the last line feed is a line too, whole, unless it is empty.
pub open spec fn lines_of(text: Seq<char>) -> Seq<Seq<char>>
    decreases text.len(),
    via lines_of_terminates
{
    if text.len() == 0 {
        Seq::empty()
    } else {
        match text.index_of_first('\n') {
            None => seq![text],
            Some(end) => seq![without_carriage_return(text.take(end))] + lines_of(
                text.skip(end + 1),
            ),
        }
    }
}

#[via_fn]
proof fn lines_of_terminates(text: Seq<char>) {
    text.index_of_first_ensures('\n');
}

/// A text without a line feed is one line, unless it is empty.
pub proof fn lemma_lines_of_last(text: Seq<char>)
    requires
        !text.contains('\n'),
    ensures
        lines_of(text) == if text.len() == 0 {
            Seq::<Seq<char>>::empty()
        } else {
            seq![text]
        },
{
    text.index_of_first_ensures('\n');
}

/// The first line of a text is what stands before its first line feed, and its other lines are
/// the lines of what follows that line feed.
pub proof fn lemma_lines_of_first(head: Seq<char>, tail: Seq<char>)
    requires
        !head.contains('\n'),
    ensures
        lines_of(head + seq!['\n'] + tail) == seq![without_carriage_return(head)] + lines_of(tail),
{
    let text = head + seq!['\n'] + tail;
    text.index_of_first_ensures('\n');
    assert(text[head.len() as int] == '\n');
    let end = text.index_of_first('\n').unwrap();
    assert(text.take(end) =~= head);
    assert(text.skip(end + 1) =~= tail);
}

/// Every line of a text is a run of characters of the text.
pub proof fn lemma_lines_are_parts(text: Seq<char>, i: int)
    requires
        0 <= i < lines_of(text).len(),
    ensures
        is_substring(lines_of(text)[i], text),
    decreases text.len(),
{
    text.index_of_first_ensures('\n');
    match text.index_of_first('\n') {
        None => {
            assert(text.subrange(0, text.len() as int) =~= text);
            assert(occurs_at(text, text, 0));
        },
        Some(end) => {
            let first = without_carriage_return(text.take(end));
            let rest = text.skip(end + 1);
            if i == 0 {
                assert(text.subrange(0, first.len() as int) =~= first);
                assert(occurs_at(first, text, 0));
            } else {
                let line = lines_of(rest)[i - 1];
                lemma_lines_are_parts(rest, i - 1);
                let at = choose|at: int| occurs_at(line, rest, at);
                assert(text.subrange(end + 1 + at, end + 1 + at + line.len()) =~= rest.subrange(
                    at,
                    at + line.len(),
                ));
                assert(occurs_at(line, text, end + 1 + at));
            }
        },
    }
}

} // verus!
