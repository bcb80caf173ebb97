//! Regular expressions over a text.

use regex::RegexBuilder;
use vstd::prelude::*;
use vstd::utf8::*;

use crate::bytes::boundary;

verus! {

/// Whether a character means something in a regular expression.
pub open spec fn meta(c: char) -> bool {
    c == '\\' || c == '.' || c == '+' || c == '*' || c == '?' || c == '(' || c == ')' || c == '|' || c
        == '[' || c == ']' || c == '{' || c == '}' || c == '^' || c == '$' || c == '#' || c == '&' || c
        == '-' || c == '~'
}

/// A text with a backslash before every character that means something in a regular
/// expression.
pub open spec fn quoted(text: Seq<char>) -> Seq<char>
    decreases text.len(),
{
    if text.len() == 0 {
        Seq::empty()
    } else {
        let head = quoted(text.drop_last());
        if meta(text.last()) {
            head.push('\\').push(text.last())
        } else {
            head.push(text.last())
        }
    }
}

/// `regex::escape` puts a backslash before every meta character of a text.
#[verifier::external_body]
pub(crate) fn escape(text: &str) -> (pattern: String)
    ensures
        pattern@ == quoted(text@),
{
    regex::escape(text)
}

/// The groups of the matches of a pattern in a text, in bytes, or what is wrong with the
/// pattern.
pub uninterp spec fn captured(pattern: Seq<char>, insensitive: bool, text: Seq<char>) -> Result<
    Seq<Seq<Option<(usize, usize)>>>,
    Seq<char>,
>;

/// The groups of matches.
pub open spec fn group_views(m: Seq<Vec<Option<(usize, usize)>>>) -> Seq<
    Seq<Option<(usize, usize)>>,
> {
    m.map_values(|g: Vec<Option<(usize, usize)>>| g@)
}

/// Whether a group lies in a text, with its ends between characters.
pub open spec fn group_fits(g: Option<(usize, usize)>, b: Seq<u8>) -> bool {
    match g {
        Some((s, e)) => s <= e <= b.len() && boundary(b, s as int) && boundary(b, e as int),
        None => true,
    }
}

/// Whether every match has a whole, all groups lie in the text, and the matches follow one
/// another without overlap.
pub open spec fn groups_fit(m: Seq<Seq<Option<(usize, usize)>>>, b: Seq<u8>) -> bool {
    &&& forall|i: int| 0 <= i < m.len() ==> (#[trigger] m[i]).len() > 0 && m[i][0] is Some
    &&& forall|i: int, g: int|
        0 <= i < m.len() && 0 <= g < m[i].len() ==> group_fits(#[trigger] m[i][g], b)
    &&& forall|i: int, j: int|
        0 <= i < j < m.len() ==> ((#[trigger] m[i])[0]->0).1 <= ((#[trigger] m[j])[0]->0).0
}

/// `RegexBuilder::build` and `Regex::captures_iter`: the groups of the successive,
/// non-overlapping matches of a pattern, each with the whole match first. Groups lie
/// between characters of the text. Which matches there are, and what is wrong with a
/// pattern, depends on the pattern, on whether case counts, and on the text.
#[verifier::external_body]
pub(crate) fn find_captures(pattern: &str, insensitive: bool, text: &str) -> (r: Result<
    Vec<Vec<Option<(usize, usize)>>>,
    String,
>)
    ensures
        match r {
            Ok(m) => captured(pattern@, insensitive, text@) == Ok::<
                Seq<Seq<Option<(usize, usize)>>>,
                Seq<char>,
            >(group_views(m@)),
            Err(e) => captured(pattern@, insensitive, text@) == Err::<
                Seq<Seq<Option<(usize, usize)>>>,
                Seq<char>,
            >(e@),
        },
        r is Ok ==> groups_fit(group_views((r->Ok_0)@), encode_utf8(text@)),
{
    let regex = RegexBuilder::new(pattern).case_insensitive(insensitive).build();
    regex.map_err(|e| e.to_string()).map(|re| re.captures_iter(text).map(|c| c.iter().map(
        |g| g.map(|g| (g.start(), g.end())),
    ).collect()).collect())
}

} // verus!
