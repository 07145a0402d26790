//! The two searches, what they return, and what holds of every search.

use crate::selection::{
    is_ascending, kept_positions, lemma_filter_keeps_all, lemma_filter_picks,
    lemma_filter_refines, picked,
};
use crate::strings::{contains, lines, lowercase_of, to_lowercase};
use crate::text::{
    is_substring, lemma_empty_occurs_everywhere, lemma_lines_are_parts, lines_of,
};
use vstd::prelude::*;

verus! {

/// Whether a search for `query` keeps `line`: whether `query` occurs in it, as they stand or,
/// where case is ignored, after both were brought to lowercase.
pub open spec fn is_match(query: Seq<char>, line: Seq<char>, ignore_case: bool) -> bool {
    if ignore_case {
        is_substring(lowercase_of(query), lowercase_of(line))
    } else {
        is_substring(query, line)
    }
}

/// The test that a search for `query` puts to each line.
pub open spec fn keeps(query: Seq<char>, ignore_case: bool) -> spec_fn(Seq<char>) -> bool {
    |line: Seq<char>| is_match(query, line, ignore_case)
}

/// The lines of `contents` that a search for `query` keeps, as they stand in `contents` and in
/// the order in which they stand there.
pub open spec fn matching_lines(
    query: Seq<char>,
    contents: Seq<char>,
    ignore_case: bool,
) -> Seq<Seq<char>> {
    lines_of(contents).filter(keeps(query, ignore_case))
}

/// The lines of `contents` in which `query` occurs, in order. Upper and lower case differ.
pub fn search_case_sensitive<'a>(query: &str, contents: &'a str) -> (found: Vec<&'a str>)
    ensures
        found.deep_view() == matching_lines(query@, contents@, false),
        query@.len() == 0 ==> found.deep_view() == lines_of(contents@),
{
    let all = lines(contents);
    let count: usize = all.len();
    let ghost keep = keeps(query@, false);
    let mut found: Vec<&'a str> = Vec::new();
    let mut i: usize = 0;
    while i < count
        invariant
            i <= count == all@.len(),
            keep == keeps(query@, false),
            found.deep_view() == all.deep_view().take(i as int).filter(keep),
        decreases count - i,
    {
        let line: &'a str = all[i];
        let ghost seen = all.deep_view().take(i as int);
        proof {
            assert(all.deep_view().take(i + 1) =~= seen.push(line@));
            seen.lemma_filter_push(line@, keep);
        }
        if contains(line, query) {
            found.push(line);
        }
        i += 1;
    }
    proof {
        assert(all.deep_view().take(count as int) =~= all.deep_view());
        if query@.len() == 0 {
            assert(query@ =~= Seq::<char>::empty());
            lemma_empty_query_keeps_every_line(contents@);
        }
    }
    found
}

/// The lines of `contents` in which `query` occurs when case is ignored, in order and as they
/// stand in `contents`. The query and each line are brought to lowercase before they are
/// compared.
pub fn search_case_insensitive<'a>(query: &str, contents: &'a str) -> (found: Vec<&'a str>)
    ensures
        found.deep_view() == matching_lines(query@, contents@, true),
        query@.len() == 0 ==> found.deep_view() == lines_of(contents@),
{
    let lowered_query = to_lowercase(query);
    let all = lines(contents);
    let count: usize = all.len();
    let ghost keep = keeps(query@, true);
    let mut found: Vec<&'a str> = Vec::new();
    let mut i: usize = 0;
    while i < count
        invariant
            i <= count == all@.len(),
            keep == keeps(query@, true),
            lowered_query@ == lowercase_of(query@),
            found.deep_view() == all.deep_view().take(i as int).filter(keep),
        decreases count - i,
    {
        let line: &'a str = all[i];
        let ghost seen = all.deep_view().take(i as int);
        proof {
            assert(all.deep_view().take(i + 1) =~= seen.push(line@));
            seen.lemma_filter_push(line@, keep);
        }
        let lowered_line = to_lowercase(line);
        if contains(lowered_line.as_str(), lowered_query.as_str()) {
            found.push(line);
        }
        i += 1;
    }
    proof {
        assert(all.deep_view().take(count as int) =~= all.deep_view());
        if query@.len() == 0 {
            assert(lowered_query@ =~= Seq::<char>::empty());
            assert forall|k: int| 0 <= k < lines_of(contents@).len() implies keep(
                #[trigger] lines_of(contents@)[k],
            ) by {
                lemma_empty_occurs_everywhere(lowercase_of(lines_of(contents@)[k]));
            }
            lemma_filter_keeps_all(lines_of(contents@), keep);
        }
    }
    found
}

/// A search for the empty query keeps every line, where case counts.
pub proof fn lemma_empty_query_keeps_every_line(contents: Seq<char>)
    ensures
        matching_lines(Seq::empty(), contents, false) == lines_of(contents),
{
    let all = lines_of(contents);
    assert forall|i: int| 0 <= i < all.len() implies keeps(Seq::empty(), false)(
        #[trigger] all[i],
    ) by {
        lemma_empty_occurs_everywhere(all[i]);
    }
    lemma_filter_keeps_all(all, keeps(Seq::empty(), false));
}

/// Whether bringing `query` and the lines of `contents` to lowercase loses no occurrence:
/// whether each line in which `query` occurs as it stands still holds it once both are in
/// lowercase.
pub open spec fn lowercase_keeps_occurrences(query: Seq<char>, contents: Seq<char>) -> bool {
    forall|i: int|
        0 <= i < lines_of(contents).len() && is_match(
            query,
            #[trigger] lines_of(contents)[i],
            false,
        ) ==> is_match(query, lines_of(contents)[i], true)
}

/// A search that ignores case finds every line that the search for the same query with case
/// finds, and finds them in the same order: the second result is picked from the first at
/// ascending positions. This holds where lowercasing loses no occurrence of the query. It can:
/// the lowercase form of a capital sigma depends on the letters around it, so a query of that
/// one letter occurs in a word that ends with it, and its lowercase form does not occur in the
/// lowercase form of the word.
pub proof fn lemma_ignoring_case_loses_no_line(
    query: Seq<char>,
    contents: Seq<char>,
) -> (positions: Seq<int>)
    requires
        lowercase_keeps_occurrences(query, contents),
    ensures
        is_ascending(positions, matching_lines(query, contents, true).len() as int),
        matching_lines(query, contents, false) == picked(
            matching_lines(query, contents, true),
            positions,
        ),
{
    let all = lines_of(contents);
    let wide = matching_lines(query, contents, true);
    lemma_filter_refines(all, keeps(query, false), keeps(query, true));
    lemma_filter_picks(wide, keeps(query, false));
    kept_positions(wide, keeps(query, false))
}

/// The lines that a search keeps stand in its result as they stand in the contents, and in the
/// same order: the result is picked from the lines of the contents at ascending positions,
/// which are the positions of exactly those lines that match the query.
pub proof fn lemma_matches_stand_in_order(
    query: Seq<char>,
    contents: Seq<char>,
    ignore_case: bool,
) -> (positions: Seq<int>)
    ensures
        is_ascending(positions, lines_of(contents).len() as int),
        matching_lines(query, contents, ignore_case) == picked(lines_of(contents), positions),
        forall|i: int|
            0 <= i < lines_of(contents).len() ==> (positions.contains(i) <==> is_match(
                query,
                lines_of(contents)[i],
                ignore_case,
            )),
{
    lemma_filter_picks(lines_of(contents), keeps(query, ignore_case));
    kept_positions(lines_of(contents), keeps(query, ignore_case))
}

/// Every line that a search finds is a run of characters of the contents.
pub proof fn lemma_found_lines_are_parts(
    query: Seq<char>,
    contents: Seq<char>,
    ignore_case: bool,
    k: int,
)
    requires
        0 <= k < matching_lines(query, contents, ignore_case).len(),
    ensures
        is_substring(matching_lines(query, contents, ignore_case)[k], contents),
{
    let positions = lemma_matches_stand_in_order(query, contents, ignore_case);
    lemma_lines_are_parts(contents, positions[k]);
}

/// A search finds nothing exactly when no line of the contents matches the query.
pub proof fn lemma_nothing_found_iff_no_line_matches(
    query: Seq<char>,
    contents: Seq<char>,
    ignore_case: bool,
)
    ensures
        matching_lines(query, contents, ignore_case).len() == 0 <==> forall|i: int|
            0 <= i < lines_of(contents).len() ==> !is_match(
                query,
                #[trigger] lines_of(contents)[i],
                ignore_case,
            ),
{
    let all = lines_of(contents);
    let positions = lemma_matches_stand_in_order(query, contents, ignore_case);
    if positions.len() > 0 {
        assert(positions.contains(positions[0]));
    }
    if exists|i: int| 0 <= i < all.len() && is_match(query, #[trigger] all[i], ignore_case) {
        let i = choose|i: int|
            0 <= i < all.len() && is_match(query, #[trigger] all[i], ignore_case);
        assert(positions.contains(i));
    }
}

/// Two searches with the same query, contents and treatment of case find the same lines in the
/// same order: what a search returns depends on nothing else.
pub proof fn lemma_search_is_repeatable(
    query: Seq<char>,
    contents: Seq<char>,
    ignore_case: bool,
    first: Seq<Seq<char>>,
    second: Seq<Seq<char>>,
)
    requires
        first == matching_lines(query, contents, ignore_case),
        second == matching_lines(query, contents, ignore_case),
    ensures
        first == second,
{
}

} // verus!
