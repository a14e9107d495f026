//! The lines of a text, as a function on sequences of characters.

use vstd::prelude::*;

verus! {

/// The number of characters that stand before the first line feed of `s`;
/// the length of `s` where it holds no line feed.
pub open spec fn first_break(s: Seq<char>) -> nat
    decreases s.len(),
{
    if s.len() == 0 || s[0] == '\n' {
        0
    } else {
        1 + first_break(s.drop_first())
    }
}

/// `line` without its last character where that is a carriage return.
pub open spec fn without_cr(line: Seq<char>) -> Seq<char> {
    if line.len() > 0 && line.last() == '\r' {
        line.drop_last()
    } else {
        line
    }
}

/// The lines of `text`, top to bottom.
///
/// A line ends at a line feed. The line feed is not part of the line, nor
/// is one carriage return that stands directly before it. What follows the
/// last line feed is a line of its own unless it is empty, and is kept as
/// it stands: a carriage return at its end stays. The empty text has no
/// lines.
pub open spec fn lines_of(text: Seq<char>) -> Seq<Seq<char>>
    decreases text.len(),
{
    if text.len() == 0 {
        Seq::empty()
    } else {
        let n = first_break(text) as int;
        if n >= text.len() {
            seq![text]
        } else {
            seq![without_cr(text.take(n))] + lines_of(text.skip(n + 1))
        }
    }
}

/// `first_break` is the position of the first line feed: it lies within the
/// text, no line feed stands before it, and one stands at it unless it is
/// the end of the text.
pub proof fn lemma_first_break(s: Seq<char>)
    ensures
        first_break(s) <= s.len(),
        forall|i: int| 0 <= i < first_break(s) ==> s[i] != '\n',
        first_break(s) < s.len() ==> s[first_break(s) as int] == '\n',
    decreases s.len(),
{
    if s.len() > 0 && s[0] != '\n' {
        let rest = s.drop_first();
        lemma_first_break(rest);
        assert forall|i: int| 0 <= i < first_break(s) implies s[i] != '\n' by {
            if i > 0 {
                assert(s[i] == rest[i - 1]);
            }
        }
    }
}

/// A position in `s` that no line feed precedes, and that holds a line feed
/// unless it is the end of `s`, is `first_break(s)`: there is no other.
pub proof fn lemma_first_break_is(s: Seq<char>, n: int)
    requires
        0 <= n <= s.len(),
        forall|i: int| 0 <= i < n ==> s[i] != '\n',
        n < s.len() ==> s[n] == '\n',
    ensures
        first_break(s) == n,
    decreases s.len(),
{
    if s.len() > 0 && s[0] != '\n' {
        lemma_first_break_is(s.drop_first(), n - 1);
    }
}

/// No line holds a line feed.
pub proof fn lemma_lines_hold_no_line_feed(text: Seq<char>)
    ensures
        forall|i: int, j: int|
            #![trigger lines_of(text)[i][j]]
            0 <= i < lines_of(text).len() && 0 <= j < lines_of(text)[i].len() ==> lines_of(
                text,
            )[i][j] != '\n',
    decreases text.len(),
{
    if text.len() > 0 {
        lemma_first_break(text);
        let n = first_break(text) as int;
        if n < text.len() {
            // The first line lies before the first line feed; the others are
            // the lines of what follows it.
            let rest = text.skip(n + 1);
            lemma_lines_hold_no_line_feed(rest);
            let lines = lines_of(text);
            assert forall|i: int, j: int|
                0 <= i < lines.len() && 0 <= j < lines[i].len() implies #[trigger] lines[i][j]
                != '\n' by {
                if i > 0 {
                    assert(lines[i] == lines_of(rest)[i - 1]);
                }
            }
        }
    }
}

/// A text that is cut behind a line feed has the lines of its first part
/// followed by the lines of its second part, so a text may be split there
/// and its parts searched apart.
pub proof fn lemma_lines_of_parts(front: Seq<char>, back: Seq<char>)
    requires
        front.len() == 0 || front.last() == '\n',
    ensures
        lines_of(front + back) == lines_of(front) + lines_of(back),
    decreases front.len(),
{
    if front.len() > 0 {
        // `front` holds a line feed, so the whole breaks first where `front`
        // does: both have the same first line, and what follows it in the
        // whole is what follows it in `front`, then `back`.
        let whole = front + back;
        lemma_first_break(front);
        let n = first_break(front) as int;
        lemma_first_break_is(whole, n);
        let rest = front.skip(n + 1);
        assert(whole.take(n) =~= front.take(n));
        assert(whole.skip(n + 1) =~= rest + back);
        lemma_lines_of_parts(rest, back);
    }
}

/// A line feed at the end of a text ends its last line and begins no new
/// one: where `body` is not empty and does not end in a line feed, the
/// lines of `body` with a line feed behind it are those of `body`, the last
/// of them without its carriage return.
pub proof fn lemma_final_line_feed(body: Seq<char>)
    requires
        body.len() > 0,
        body.last() != '\n',
    ensures
        lines_of(body).len() > 0,
        lines_of(body.push('\n')) == lines_of(body).drop_last().push(
            without_cr(lines_of(body).last()),
        ),
    decreases body.len(),
{
    let whole = body.push('\n');
    lemma_first_break(body);
    let n = first_break(body) as int;
    lemma_first_break_is(whole, n);
    if n == body.len() {
        // `body` is one line, and nothing follows the line feed.
        assert(whole.take(n) =~= body);
        reveal_with_fuel(lines_of, 2);
    } else {
        // The first line is the same, and the line feed ends what follows it.
        let rest = body.skip(n + 1);
        assert(whole.take(n) =~= body.take(n));
        assert(whole.skip(n + 1) =~= rest.push('\n'));
        lemma_final_line_feed(rest);
    }
}

} // verus!
