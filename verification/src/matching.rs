//! Which lines of a text a query selects.

use crate::lines::{first_break, lemma_first_break, lemma_lines_of_parts, lines_of, without_cr};
use crate::strings::lowercase_of;
use vstd::prelude::*;

verus! {

/// Whether `needle` stands in `hay` at position `at`.
pub open spec fn occurs_at(needle: Seq<char>, hay: Seq<char>, at: int) -> bool {
    &&& 0 <= at
    &&& at + needle.len() <= hay.len()
    &&& hay.subrange(at, at + needle.len()) == needle
}

/// Whether `needle` occurs in `hay` as a contiguous run of characters.
pub open spec fn occurs_in(needle: Seq<char>, hay: Seq<char>) -> bool {
    exists|at: int| occurs_at(needle, hay, at)
}

/// What is compared in place of `s`: `s` itself where case counts, its
/// lowercase form where it does not.
pub open spec fn compared(s: Seq<char>, case_sensitive: bool) -> Seq<char> {
    if case_sensitive {
        s
    } else {
        lowercase_of(s)
    }
}

/// The test by which lines are kept: a line passes when `needle` occurs in
/// what is compared in the line's place.
pub open spec fn keeps(needle: Seq<char>, case_sensitive: bool) -> spec_fn(Seq<char>) -> bool {
    |line: Seq<char>| occurs_in(needle, compared(line, case_sensitive))
}

/// Whether `query` selects `line`: query and line are both taken as
/// `compared` gives them, and the one must occur in the other.
pub open spec fn line_matches(query: Seq<char>, line: Seq<char>, case_sensitive: bool) -> bool {
    keeps(compared(query, case_sensitive), case_sensitive)(line)
}

/// The lines of `text` that `query` selects, in the order of the text and
/// as they stand in it.
pub open spec fn matching_lines(query: Seq<char>, text: Seq<char>, case_sensitive: bool) -> Seq<
    Seq<char>,
> {
    lines_of(text).filter(keeps(compared(query, case_sensitive), case_sensitive))
}

/// Whether `found` is what a reader ends up with who goes through the lines
/// of `text` from top to bottom and keeps each one that `query` selects,
/// `at` giving for each line kept its place among the lines of the text.
/// The places rise, so no line is kept twice or out of order; what was kept
/// is the line at its place, as it stands there; and the places are those
/// of the lines that the query selects, none left out and no other let in.
pub open spec fn kept_in_order(
    query: Seq<char>,
    text: Seq<char>,
    case_sensitive: bool,
    found: Seq<Seq<char>>,
    at: Seq<int>,
) -> bool {
    let lines = lines_of(text);
    &&& at.len() == found.len()
    &&& forall|k: int|
        0 <= k < at.len() ==> 0 <= #[trigger] at[k] < lines.len() && found[k] == lines[at[k]]
    &&& forall|j: int, k: int| 0 <= j < k < at.len() ==> at[j] < at[k]
    &&& forall|i: int|
        0 <= i < lines.len() ==> (line_matches(query, #[trigger] lines[i], case_sensitive)
            <==> at.contains(i))
}

/// Whether folding loses no match of `query` in `text`: each line of `text`
/// in which `query` occurs as written is also selected when case does not
/// count.
///
/// Folding can lose a match, since the lowercase form of a character may
/// depend on what stands next to it. A capital sigma becomes a final sigma
/// at the end of a word and a medial sigma inside one: a query of a capital
/// alpha and a capital sigma occurs in a line that reads alpha, sigma,
/// alpha, all capital, but the folded query ends in the final sigma and
/// the folded line holds the medial one.
pub open spec fn folding_keeps_matches(query: Seq<char>, text: Seq<char>) -> bool {
    forall|i: int|
        0 <= i < lines_of(text).len() && line_matches(query, #[trigger] lines_of(text)[i], true)
            ==> line_matches(query, lines_of(text)[i], false)
}

/// Whether every line that the case-sensitive search returns is among the
/// lines that the case-insensitive search returns.
pub open spec fn insensitive_has_sensitive(query: Seq<char>, text: Seq<char>) -> bool {
    forall|k: int|
        0 <= k < matching_lines(query, text, true).len() ==> matching_lines(
            query,
            text,
            false,
        ).contains(#[trigger] matching_lines(query, text, true)[k])
}

/// The places of the lines that a filter keeps.
proof fn lemma_filter_places(lines: Seq<Seq<char>>, keep: spec_fn(Seq<char>) -> bool) -> (at: Seq<
    int,
>)
    ensures
        at.len() == lines.filter(keep).len(),
        forall|k: int|
            0 <= k < at.len() ==> 0 <= #[trigger] at[k] < lines.len() && lines.filter(keep)[k]
                == lines[at[k]],
        forall|j: int, k: int| 0 <= j < k < at.len() ==> at[j] < at[k],
        forall|i: int| 0 <= i < lines.len() ==> (keep(#[trigger] lines[i]) <==> at.contains(i)),
    decreases lines.len(),
{
    reveal(Seq::filter);
    if lines.len() == 0 {
        Seq::empty()
    } else {
        let front = lines.drop_last();
        let last = lines.len() - 1;
        let before = lemma_filter_places(front, keep);
        if keep(lines.last()) {
            let at = before.push(last);
            assert(at[before.len() as int] == last);
            assert forall|i: int| 0 <= i < lines.len() implies (keep(#[trigger] lines[i])
                <==> at.contains(i)) by {
                if i < last {
                    assert(front[i] == lines[i]);
                    if before.contains(i) {
                        let k = choose|k: int| 0 <= k < before.len() && before[k] == i;
                        assert(at[k] == i);
                    }
                    if at.contains(i) {
                        let k = choose|k: int| 0 <= k < at.len() && at[k] == i;
                        assert(before[k] == i);
                    }
                }
            }
            at
        } else {
            assert forall|i: int| 0 <= i < lines.len() implies (keep(#[trigger] lines[i])
                <==> before.contains(i)) by {
                if i < last {
                    assert(front[i] == lines[i]);
                } else if before.contains(i) {
                    let k = choose|k: int| 0 <= k < before.len() && before[k] == i;
                    assert(0 <= before[k] < front.len());
                }
            }
            before
        }
    }
}

/// A filter that every line passes keeps them all.
proof fn lemma_filter_keeps_all(lines: Seq<Seq<char>>, keep: spec_fn(Seq<char>) -> bool)
    requires
        forall|i: int| 0 <= i < lines.len() ==> keep(#[trigger] lines[i]),
    ensures
        lines.filter(keep) == lines,
    decreases lines.len(),
{
    reveal(Seq::filter);
    if lines.len() > 0 {
        lemma_filter_keeps_all(lines.drop_last(), keep);
    }
}

/// Filtering by a narrow test gives the same as filtering by a wider test
/// first and by the narrow one after.
proof fn lemma_filter_through_wider(
    lines: Seq<Seq<char>>,
    narrow: spec_fn(Seq<char>) -> bool,
    wide: spec_fn(Seq<char>) -> bool,
)
    requires
        forall|i: int| 0 <= i < lines.len() && narrow(#[trigger] lines[i]) ==> wide(lines[i]),
    ensures
        lines.filter(narrow) == lines.filter(wide).filter(narrow),
    decreases lines.len(),
{
    reveal(Seq::filter);
    if lines.len() > 0 {
        let front = lines.drop_last();
        lemma_filter_through_wider(front, narrow, wide);
        if wide(lines.last()) {
            // The wider filter keeps the last line, so the narrow one meets
            // it again as the last of what the wider one kept.
            assert(front.filter(wide).push(lines.last()).drop_last() =~= front.filter(wide));
        }
    }
}

/// An empty needle occurs in every line, so all lines pass the test that
/// `keeps` makes of it.
pub proof fn lemma_empty_needle_keeps_all(
    needle: Seq<char>,
    lines: Seq<Seq<char>>,
    case_sensitive: bool,
)
    requires
        needle.len() == 0,
    ensures
        lines.filter(keeps(needle, case_sensitive)) == lines,
{
    let keep = keeps(needle, case_sensitive);
    assert forall|i: int| 0 <= i < lines.len() implies keep(#[trigger] lines[i]) by {
        let hay = compared(lines[i], case_sensitive);
        assert(hay.subrange(0, 0) =~= needle);
        assert(occurs_at(needle, hay, 0));
    }
    lemma_filter_keeps_all(lines, keep);
}

/// A search returns the lines that the query selects and no others, each
/// once, in the order of the text and as it stands in the text: there are
/// places `at` with which `matching_lines` is `kept_in_order`.
pub proof fn lemma_matches_kept_in_order(query: Seq<char>, text: Seq<char>, case_sensitive: bool)
    ensures
        exists|at: Seq<int>|
            kept_in_order(
                query,
                text,
                case_sensitive,
                matching_lines(query, text, case_sensitive),
                at,
            ),
{
    let keep = keeps(compared(query, case_sensitive), case_sensitive);
    let at = lemma_filter_places(lines_of(text), keep);
    assert(kept_in_order(
        query,
        text,
        case_sensitive,
        matching_lines(query, text, case_sensitive),
        at,
    ));
}

/// Nothing but `matching_lines` is `kept_in_order`, whatever the places:
/// being kept in order leaves a search no choice.
pub proof fn lemma_kept_in_order_is_unique(
    query: Seq<char>,
    text: Seq<char>,
    case_sensitive: bool,
    found: Seq<Seq<char>>,
    at: Seq<int>,
)
    requires
        kept_in_order(query, text, case_sensitive, found, at),
    ensures
        found == matching_lines(query, text, case_sensitive),
{
    let keep = keeps(compared(query, case_sensitive), case_sensitive);
    lemma_kept_is_filter(lines_of(text), keep, found, at);
}

/// Lines kept at rising places, the places being those of the lines that
/// pass `keep`, are the filter by `keep`.
proof fn lemma_kept_is_filter(
    lines: Seq<Seq<char>>,
    keep: spec_fn(Seq<char>) -> bool,
    found: Seq<Seq<char>>,
    at: Seq<int>,
)
    requires
        at.len() == found.len(),
        forall|k: int|
            0 <= k < at.len() ==> 0 <= #[trigger] at[k] < lines.len() && found[k] == lines[at[k]],
        forall|j: int, k: int| 0 <= j < k < at.len() ==> at[j] < at[k],
        forall|i: int| 0 <= i < lines.len() ==> (keep(#[trigger] lines[i]) <==> at.contains(i)),
    ensures
        found == lines.filter(keep),
    decreases lines.len(),
{
    reveal(Seq::filter);
    if lines.len() == 0 {
        if at.len() > 0 {
            assert(0 <= at[0] < lines.len());
        }
    } else {
        let front = lines.drop_last();
        let last = lines.len() - 1;
        if keep(lines.last()) {
            // The last line is kept, and at the last place, since the places
            // rise: without it, what was kept of the lines before is left.
            assert(at.contains(last));
            let k = choose|k: int| 0 <= k < at.len() && at[k] == last;
            if k < at.len() - 1 {
                assert(at[k] < at[at.len() - 1]);
                assert(0 <= at[at.len() - 1] < lines.len());
            }
            let at0 = at.drop_last();
            let found0 = found.drop_last();
            assert forall|i: int| 0 <= i < front.len() implies (keep(#[trigger] front[i])
                <==> at0.contains(i)) by {
                assert(front[i] == lines[i]);
                if at.contains(i) {
                    let m = choose|m: int| 0 <= m < at.len() && at[m] == i;
                    assert(at0[m] == i);
                }
                if at0.contains(i) {
                    let m = choose|m: int| 0 <= m < at0.len() && at0[m] == i;
                    assert(at[m] == i);
                }
            }
            assert forall|m: int| 0 <= m < at0.len() implies 0 <= #[trigger] at0[m] < front.len()
                && found0[m] == front[at0[m]] by {
                assert(at0[m] == at[m]);
                assert(at[m] < at[at.len() - 1]);
            }
            lemma_kept_is_filter(front, keep, found0, at0);
            assert(found =~= found0.push(lines.last()));
        } else {
            // The last line is not kept, so every place lies before it.
            assert forall|m: int| 0 <= m < at.len() implies 0 <= #[trigger] at[m] < front.len()
                && found[m] == front[at[m]] by {
                assert(0 <= at[m] < lines.len());
                if at[m] == last {
                    assert(at.contains(last));
                }
            }
            assert forall|i: int| 0 <= i < front.len() implies (keep(#[trigger] front[i])
                <==> at.contains(i)) by {
                assert(front[i] == lines[i]);
            }
            lemma_kept_is_filter(front, keep, found, at);
        }
    }
}

/// Every line of a text is a contiguous part of it.
pub proof fn lemma_lines_occur_in_text(text: Seq<char>)
    ensures
        forall|i: int|
            0 <= i < lines_of(text).len() ==> occurs_in(#[trigger] lines_of(text)[i], text),
    decreases text.len(),
{
    if text.len() > 0 {
        lemma_first_break(text);
        let n = first_break(text) as int;
        if n >= text.len() {
            assert(text.subrange(0, text.len() as int) =~= text);
            assert(occurs_at(text, text, 0));
        } else {
            let head = without_cr(text.take(n));
            let rest = text.skip(n + 1);
            lemma_lines_occur_in_text(rest);
            assert forall|i: int| 0 <= i < lines_of(text).len() implies occurs_in(
                #[trigger] lines_of(text)[i],
                text,
            ) by {
                if i == 0 {
                    assert(text.subrange(0, head.len() as int) =~= head);
                    assert(occurs_at(head, text, 0));
                } else {
                    let line = lines_of(rest)[i - 1];
                    let at = choose|at: int| occurs_at(line, rest, at);
                    assert(text.subrange(n + 1 + at, n + 1 + at + line.len()) =~= rest.subrange(
                        at,
                        at + line.len(),
                    ));
                    assert(occurs_at(line, text, n + 1 + at));
                }
            }
        }
    }
}

/// Every line that a search returns is a line of the text, character for
/// character, and so a contiguous part of the text: folding decides which
/// lines are kept and never what is returned.
pub proof fn lemma_matches_are_lines(query: Seq<char>, text: Seq<char>, case_sensitive: bool)
    ensures
        forall|k: int|
            #![trigger matching_lines(query, text, case_sensitive)[k]]
            0 <= k < matching_lines(query, text, case_sensitive).len() ==> {
                &&& lines_of(text).contains(matching_lines(query, text, case_sensitive)[k])
                &&& occurs_in(matching_lines(query, text, case_sensitive)[k], text)
            },
{
    let keep = keeps(compared(query, case_sensitive), case_sensitive);
    let found = matching_lines(query, text, case_sensitive);
    let at = lemma_filter_places(lines_of(text), keep);
    lemma_lines_occur_in_text(text);
    assert forall|k: int| 0 <= k < found.len() implies lines_of(text).contains(#[trigger] found[k])
        && occurs_in(found[k], text) by {
        assert(lines_of(text)[at[k]] == found[k]);
    }
}

/// The empty query selects every line: a case-sensitive search for it
/// returns all the lines of the text.
pub proof fn lemma_empty_query_matches_all(text: Seq<char>)
    ensures
        matching_lines(Seq::empty(), text, true) == lines_of(text),
{
    lemma_empty_needle_keeps_all(Seq::empty(), lines_of(text), true);
}

/// Where folding loses no match of `query` in `text`, the case-insensitive
/// search returns every line that the case-sensitive search returns. What
/// the case-sensitive search returns is then what is left of the other's
/// result when only the lines in which `query` occurs as written are kept,
/// in the same order; so it is no longer than the other's result.
pub proof fn lemma_insensitive_keeps_sensitive(query: Seq<char>, text: Seq<char>)
    requires
        folding_keeps_matches(query, text),
    ensures
        insensitive_has_sensitive(query, text),
        matching_lines(query, text, true) == matching_lines(query, text, false).filter(
            keeps(query, true),
        ),
        matching_lines(query, text, true).len() <= matching_lines(query, text, false).len(),
{
    let lines = lines_of(text);
    let narrow = keeps(query, true);
    let wide = keeps(lowercase_of(query), false);
    let sensitive = matching_lines(query, text, true);
    let insensitive = matching_lines(query, text, false);
    assert forall|i: int| 0 <= i < lines.len() && narrow(#[trigger] lines[i]) implies wide(
        lines[i],
    ) by {
        assert(line_matches(query, lines[i], true));
    }
    lemma_filter_through_wider(lines, narrow, wide);
    insensitive.lemma_filter_len(narrow);
    assert forall|k: int| 0 <= k < sensitive.len() implies insensitive.contains(
        #[trigger] sensitive[k],
    ) by {
        insensitive.lemma_filter_contains_rev(narrow, sensitive[k]);
    }
}

/// On no other inputs does the case-insensitive search return every line
/// that the case-sensitive search returns: where it does, folding has lost
/// no match.
pub proof fn lemma_lost_match_is_missed(query: Seq<char>, text: Seq<char>)
    requires
        insensitive_has_sensitive(query, text),
    ensures
        folding_keeps_matches(query, text),
{
    let lines = lines_of(text);
    let narrow = keeps(query, true);
    let wide = keeps(lowercase_of(query), false);
    let sensitive = matching_lines(query, text, true);
    let insensitive = matching_lines(query, text, false);
    assert forall|i: int|
        0 <= i < lines.len() && line_matches(query, #[trigger] lines[i], true) implies line_matches(
        query,
        lines[i],
        false,
    ) by {
        // The line is among what the case-sensitive search returns, so among
        // what the other returns, and all of that passes the folded test.
        lines.lemma_filter_contains(narrow, i);
        let k = choose|k: int| 0 <= k < sensitive.len() && sensitive[k] == lines[i];
        assert(insensitive.contains(sensitive[k]));
        let m = choose|m: int| 0 <= m < insensitive.len() && insensitive[m] == lines[i];
        lines.lemma_filter_pred(wide, m);
    }
}

/// A text that is cut behind a line feed may be searched in two parts: the
/// matches of the first part followed by those of the second are the
/// matches of the whole.
pub proof fn lemma_matches_of_parts(
    query: Seq<char>,
    front: Seq<char>,
    back: Seq<char>,
    case_sensitive: bool,
)
    requires
        front.len() == 0 || front.last() == '\n',
    ensures
        matching_lines(query, front + back, case_sensitive) == matching_lines(
            query,
            front,
            case_sensitive,
        ) + matching_lines(query, back, case_sensitive),
{
    lemma_lines_of_parts(front, back);
    Seq::filter_distributes_over_add(
        lines_of(front),
        lines_of(back),
        keeps(compared(query, case_sensitive), case_sensitive),
    );
}

} // verus!
