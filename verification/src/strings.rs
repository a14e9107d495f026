//! What this library takes on trust about `str`: how std splits a text into
//! lines, finds one string in another, and lowercases a string. Nothing
//! here is proved; each contract restates what std documents.

use crate::lines::lines_of;
use crate::matching::occurs_in;
use core::str::Lines;
use vstd::prelude::*;

verus! {

/// `core::str::Lines`, the iterator that `str::lines` returns. Its inside
/// is not visible to the verifier.
#[verifier::external_type_specification]
#[verifier::external_body]
pub struct ExLines<'a>(Lines<'a>);

/// The lines that `it` has yet to hand out, in the order in which it will.
pub uninterp spec fn pending_lines(it: Lines) -> Seq<Seq<char>>;

/// The result of `str::to_lowercase` on `s`: the lowercase form of `s` by
/// the Unicode rules that std implements. It may differ from `s` in length,
/// and what a character becomes may depend on its neighbours.
pub uninterp spec fn lowercase_of(s: Seq<char>) -> Seq<char>;

/// `str::lines`: the iterator starts out with all the lines of the text
/// before it, as `lines_of` describes them.
pub assume_specification<'a>[ str::lines ](text: &'a str) -> (it: Lines<'a>)
    ensures
        pending_lines(it) == lines_of(text@),
;

/// `str::to_lowercase`: the result is what `lowercase_of` names, and the
/// empty string stays empty.
pub assume_specification[ str::to_lowercase ](s: &str) -> (lower: String)
    ensures
        lower@ == lowercase_of(s@),
        s@.len() == 0 ==> lower@.len() == 0,
;

/// `Iterator::next` on `Lines`: hands out the first pending line and leaves
/// the others pending; with none pending it returns `None` and none is
/// pending afterwards.
#[verifier::external_body]
pub(crate) fn next_line<'a>(it: &mut Lines<'a>) -> (line: Option<&'a str>)
    ensures
        match line {
            Some(l) => {
                &&& pending_lines(*old(it)).len() > 0
                &&& l@ == pending_lines(*old(it)).first()
                &&& pending_lines(*final(it)) == pending_lines(*old(it)).drop_first()
            },
            None => pending_lines(*old(it)).len() == 0 && pending_lines(*final(it)).len() == 0,
        },
{
    it.next()
}

/// `str::contains` with a string as the pattern: whether `needle` occurs in
/// `hay`.
#[verifier::external_body]
pub(crate) fn str_contains(hay: &str, needle: &str) -> (found: bool)
    ensures
        found == occurs_in(needle@, hay@),
{
    hay.contains(needle)
}

} // verus!
