//! The search itself.

use crate::config::Args;
use crate::lines::lines_of;
use crate::matching::{
    folding_keeps_matches, insensitive_has_sensitive, keeps, kept_in_order,
    lemma_empty_needle_keeps_all, lemma_insensitive_keeps_sensitive, lemma_lost_match_is_missed,
    lemma_matches_are_lines, lemma_matches_kept_in_order, line_matches, matching_lines,
    occurs_in,
};
use crate::strings::{lowercase_of, next_line, pending_lines, str_contains};
use vstd::prelude::*;

verus! {

/// Whether `needle` occurs in `line`, or in its lowercase form where case
/// does not count.
fn keeps_line(needle: &str, line: &str, case_sensitive: bool) -> (kept: bool)
    ensures
        kept == keeps(needle@, case_sensitive)(line@),
{
    if case_sensitive {
        str_contains(line, needle)
    } else {
        let lower = line.to_lowercase();
        str_contains(lower.as_str(), needle)
    }
}

/// The lines of `contents` that pass `keeps(needle, case_sensitive)`.
fn kept_lines<'a>(needle: &str, contents: &'a str, case_sensitive: bool) -> (found: Vec<
    &'a str,
>)
    ensures
        found.deep_view() == lines_of(contents@).filter(keeps(needle@, case_sensitive)),
{
    let ghost all = lines_of(contents@);
    let ghost keep = keeps(needle@, case_sensitive);
    let ghost mut seen: int = 0;
    let mut found: Vec<&'a str> = Vec::new();
    let mut rest = contents.lines();
    proof {
        reveal(Seq::filter);
    }
    loop
        invariant
            all == lines_of(contents@),
            keep == keeps(needle@, case_sensitive),
            0 <= seen <= all.len(),
            pending_lines(rest) == all.skip(seen),
            found.deep_view() == all.take(seen).filter(keep),
        ensures
            seen == all.len(),
        decreases all.len() - seen,
    {
        match next_line(&mut rest) {
            None => {
                break ;
            },
            Some(line) => {
                if keeps_line(needle, line, case_sensitive) {
                    found.push(line);
                }
                proof {
                    // The lines seen so far, with this one, are a sequence
                    // whose last is this one and whose others were seen.
                    reveal(Seq::filter);
                    assert(all.take(seen + 1).drop_last() =~= all.take(seen));
                    seen = seen + 1;
                }
            },
        }
    }
    found
}

/// The lines of `contents` in which `query` occurs, in the order of the
/// text, each once. Each is a slice of `contents`. The empty query occurs
/// in every line.
pub fn search<'a>(query: &str, contents: &'a str) -> (found: Vec<&'a str>)
    ensures
        found.deep_view() == matching_lines(query@, contents@, true),
        exists|at: Seq<int>| kept_in_order(query@, contents@, true, found.deep_view(), at),
        forall|k: int|
            #![trigger found[k]]
            0 <= k < found.len() ==> lines_of(contents@).contains(found[k]@) && occurs_in(
                found[k]@,
                contents@,
            ),
        query@.len() == 0 ==> found.deep_view() == lines_of(contents@),
{
    proof {
        lemma_matches_kept_in_order(query@, contents@, true);
        lemma_matches_are_lines(query@, contents@, true);
        if query@.len() == 0 {
            lemma_empty_needle_keeps_all(query@, lines_of(contents@), true);
        }
    }
    let found = kept_lines(query, contents, true);
    assert forall|k: int| 0 <= k < found.len() implies found.deep_view()[k] == #[trigger] found[k]@ by {}
    found
}

/// The lines of `contents` whose lowercase form holds the lowercase form of
/// `query`, in the order of the text, each once. Each is a slice of
/// `contents` and reads as it does there: lowercase forms are compared and
/// never returned. The empty query selects every line.
pub fn search_case_insensitive<'a>(query: &str, contents: &'a str) -> (found: Vec<&'a str>)
    ensures
        found.deep_view() == matching_lines(query@, contents@, false),
        exists|at: Seq<int>| kept_in_order(query@, contents@, false, found.deep_view(), at),
        forall|k: int|
            #![trigger found[k]]
            0 <= k < found.len() ==> lines_of(contents@).contains(found[k]@) && occurs_in(
                found[k]@,
                contents@,
            ),
        query@.len() == 0 ==> found.deep_view() == lines_of(contents@),
{
    let folded = query.to_lowercase();
    proof {
        lemma_matches_kept_in_order(query@, contents@, false);
        lemma_matches_are_lines(query@, contents@, false);
        if query@.len() == 0 {
            lemma_empty_needle_keeps_all(folded@, lines_of(contents@), false);
        }
    }
    let found = kept_lines(folded.as_str(), contents, false);
    assert forall|k: int| 0 <= k < found.len() implies found.deep_view()[k] == #[trigger] found[k]@ by {}
    found
}

/// Whether folding loses no match of `query` in `contents`; that is,
/// whether `search_case_insensitive` returns for the two every line that
/// `search` returns for them.
pub fn matches_survive_folding(query: &str, contents: &str) -> (kept: bool)
    ensures
        kept == folding_keeps_matches(query@, contents@),
        kept == insensitive_has_sensitive(query@, contents@),
        kept ==> matching_lines(query@, contents@, true).len() <= matching_lines(
            query@,
            contents@,
            false,
        ).len(),
{
    let ghost all = lines_of(contents@);
    let ghost mut seen: int = 0;
    let folded = query.to_lowercase();
    let mut rest = contents.lines();
    loop
        invariant
            all == lines_of(contents@),
            folded@ == lowercase_of(query@),
            0 <= seen <= all.len(),
            pending_lines(rest) == all.skip(seen),
            forall|i: int|
                0 <= i < seen && line_matches(query@, #[trigger] all[i], true) ==> line_matches(
                    query@,
                    all[i],
                    false,
                ),
        ensures
            seen == all.len(),
            folding_keeps_matches(query@, contents@),
        decreases all.len() - seen,
    {
        match next_line(&mut rest) {
            None => {
                break ;
            },
            Some(line) => {
                if keeps_line(query, line, true) && !keeps_line(folded.as_str(), line, false) {
                    proof {
                        assert(line_matches(query@, all[seen], true));
                        assert(!line_matches(query@, all[seen], false));
                        if insensitive_has_sensitive(query@, contents@) {
                            lemma_lost_match_is_missed(query@, contents@);
                        }
                    }
                    return false;
                }
                proof {
                    seen = seen + 1;
                }
            },
        }
    }
    proof {
        lemma_insensitive_keeps_sensitive(query@, contents@);
    }
    true
}

/// Searches `contents` for `args.query`, with regard to case as
/// `args.case_sensitive` says.
pub fn run<'a>(args: Args, contents: &'a str) -> (found: Vec<&'a str>)
    ensures
        found.deep_view() == matching_lines(args.query@, contents@, args.case_sensitive),
{
    if args.case_sensitive {
        search(args.query.as_str(), contents)
    } else {
        search_case_insensitive(args.query.as_str(), contents)
    }
}

} // verus!
