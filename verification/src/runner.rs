//! What one run writes.

use crate::config::Config;
use crate::search::{matching_lines, search_case_insensitive, search_case_sensitive};
use vstd::prelude::*;
use vstd::string::StringExecFns;

verus! {

/// A line as it is written out: followed by a line feed.
pub open spec fn terminated(line: Seq<char>) -> Seq<char> {
    line.push('\n')
}

/// What is written out for `lines`: each of them in turn, followed by a line feed.
pub open spec fn printed(lines: Seq<Seq<char>>) -> Seq<char> {
    lines.map_values(|line: Seq<char>| terminated(line)).flatten()
}

/// The text that a search of `contents` under `config` writes to standard output: the lines
/// that hold the query, one per line and in the order in which they stand in `contents`.
pub fn run(config: &Config, contents: &str) -> (output: String)
    ensures
        output@ == printed(matching_lines(config.query@, contents@, config.ignore_case)),
{
    let found = if config.ignore_case {
        search_case_insensitive(config.query.as_str(), contents)
    } else {
        search_case_sensitive(config.query.as_str(), contents)
    };
    let count: usize = found.len();
    let mut output = String::new();
    let mut i: usize = 0;
    while i < count
        invariant
            i <= count == found@.len(),
            output@ == printed(found.deep_view().take(i as int)),
        decreases count - i,
    {
        let ghost seen = found.deep_view().take(i as int);
        let ghost line = found@[i as int]@;
        output.append(found[i]);
        output.append("\n");
        proof {
            reveal_strlit("\n");
            assert(found.deep_view().take(i + 1) =~= seen.push(line));
            let end = |line: Seq<char>| terminated(line);
            assert(seen.push(line).map_values(end) =~= seen.map_values(end).push(terminated(line)));
            seen.map_values(end).lemma_flatten_push(terminated(line));
        }
        i += 1;
    }
    proof {
        assert(found.deep_view().take(count as int) =~= found.deep_view());
    }
    output
}

} // verus!
