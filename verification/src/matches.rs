//! Where a query matches in a text.
//!
//! Matching defaults to Unicode smart case: a query with an upper-case letter matches
//! exactly. Searches can also be case-sensitive, for whole words, by regular expression,
//! or within a range.

use vstd::prelude::*;
use vstd::utf8::*;

use crate::bytes::{boundary, lemma_boundary_ends, slice};
use crate::markdown::tokenizer::alphanumeric;
use crate::pattern::{captured, escape, find_captures, group_fits, group_views, groups_fit, quoted};
use crate::strings::{byte_length, to_chars};

verus! {

/// How a search matches.
#[derive(Clone, Copy, Debug, PartialEq, Eq, Structural)]
pub struct SearchOptions {
    pub case_sensitive: bool,
    pub whole_word: bool,
    pub regex: bool,
    pub selection_only: bool,
}

impl SearchOptions {
    /// The options of a plain search.
    pub open spec fn plain() -> SearchOptions {
        SearchOptions {
            case_sensitive: false,
            whole_word: false,
            regex: false,
            selection_only: false,
        }
    }
}

impl Default for SearchOptions {
    fn default() -> (options: SearchOptions)
        ensures
            options == SearchOptions::plain(),
    {
        SearchOptions {
            case_sensitive: false,
            whole_word: false,
            regex: false,
            selection_only: false,
        }
    }
}

/// A match: a range of bytes.
#[derive(Clone, Copy, Debug, PartialEq, Eq, Structural)]
pub struct SearchMatch {
    pub start: usize,
    pub end: usize,
}

/// What was searched for, and how.
pub struct SearchKey {
    pub query: Seq<char>,
    pub options: SearchOptions,
    pub scope: Option<(usize, usize)>,
}

/// Whether a character is an upper-case letter.
pub uninterp spec fn uppercase(c: char) -> bool;

/// `char::is_uppercase` depends on the character alone; what counts as upper case is for
/// Unicode to say.
pub assume_specification[ char::is_uppercase ](c: char) -> (yes: bool)
    ensures
        yes == uppercase(c),
;

/// Whether a character is part of a word.
pub open spec fn word_char(c: char) -> bool {
    alphanumeric(c) || c == '_'
}

pub fn is_word_char(c: char) -> (yes: bool)
    ensures
        yes == word_char(c),
{
    c.is_alphanumeric() || c == '_'
}

/// The character before a place.
pub open spec fn char_before(b: Seq<u8>, at: int) -> Option<char> {
    let head = decode_utf8(b.take(at));
    if at <= 0 || head.len() == 0 {
        None
    } else {
        Some(head.last())
    }
}

/// The character at a place.
pub open spec fn char_after(b: Seq<u8>, at: int) -> Option<char> {
    let tail = decode_utf8(b.skip(at));
    if at >= b.len() || tail.len() == 0 {
        None
    } else {
        Some(tail[0])
    }
}

/// Whether no word goes on at either end of a range.
pub open spec fn whole_word(b: Seq<u8>, start: int, end: int) -> bool {
    &&& match char_before(b, start) {
        Some(c) => !word_char(c),
        None => true,
    }
    &&& match char_after(b, end) {
        Some(c) => !word_char(c),
        None => true,
    }
}

/// Whether case counts: where it is to, or where a query that is no regular expression has
/// an upper-case letter.
pub open spec fn exact(query: Seq<char>, options: SearchOptions) -> bool {
    options.case_sensitive || (!options.regex && exists|i: int|
        0 <= i < query.len() && uppercase(#[trigger] query[i]))
}

/// The pattern that a query is searched by.
pub open spec fn pattern_of(query: Seq<char>, options: SearchOptions) -> Seq<char> {
    if options.regex {
        query
    } else {
        quoted(query)
    }
}

/// Whether a match counts: it is not empty, lies in the scope, and is a whole word where
/// that is asked.
pub open spec fn counts(b: Seq<u8>, m: SearchMatch, options: SearchOptions, scope: Option<(usize, usize)>) -> bool {
    &&& m.start < m.end
    &&& match scope {
        Some((from, to)) => from <= m.start && m.end <= to,
        None => true,
    }
    &&& !options.whole_word || whole_word(b, m.start as int, m.end as int)
}

/// The whole of a match.
pub open spec fn whole_of(groups: Seq<Option<(usize, usize)>>) -> SearchMatch {
    match groups[0] {
        Some((start, end)) => SearchMatch { start, end },
        None => SearchMatch { start: 0, end: 0 },
    }
}

/// Those of the first `n` matches that count.
pub open spec fn counted(
    b: Seq<u8>,
    m: Seq<Seq<Option<(usize, usize)>>>,
    options: SearchOptions,
    scope: Option<(usize, usize)>,
    n: int,
) -> Seq<SearchMatch>
    decreases n,
{
    if n <= 0 {
        Seq::empty()
    } else {
        let before = counted(b, m, options, scope, n - 1);
        if counts(b, whole_of(m[n - 1]), options, scope) {
            before.push(whole_of(m[n - 1]))
        } else {
            before
        }
    }
}

/// The matches of a query in a text; none of an empty query, or one that is no pattern.
pub open spec fn found(text: Seq<char>, key: SearchKey) -> Seq<SearchMatch> {
    match captured(
        pattern_of(key.query, key.options),
        !exact(key.query, key.options),
        text,
    ) {
        Ok(m) if key.query.len() > 0 => counted(
            encode_utf8(text),
            m,
            key.options,
            key.scope,
            m.len() as int,
        ),
        _ => Seq::empty(),
    }
}

/// What is wrong with a query.
pub open spec fn complaint(text: Seq<char>, key: SearchKey) -> Option<Seq<char>> {
    match captured(
        pattern_of(key.query, key.options),
        !exact(key.query, key.options),
        text,
    ) {
        Err(e) if key.query.len() > 0 => Some(e),
        _ => None,
    }
}

/// Whether matches lie in a text, between characters, and follow one another.
pub open spec fn matches_fit(m: Seq<SearchMatch>, b: Seq<u8>) -> bool {
    &&& forall|i: int|
        0 <= i < m.len() ==> (#[trigger] m[i]).start < m[i].end <= b.len() && boundary(
            b,
            m[i].start as int,
        ) && boundary(b, m[i].end as int)
    &&& forall|i: int, j: int|
        0 <= i < j < m.len() ==> (#[trigger] m[i]).end <= (#[trigger] m[j]).start
}

/// Whether no word goes on at either end of a range.
pub fn whole_word_match(text: &str, start: usize, end: usize) -> (yes: bool)
    requires
        boundary(encode_utf8(text@), start as int),
        boundary(encode_utf8(text@), end as int),
    ensures
        yes == whole_word(encode_utf8(text@), start as int, end as int),
{
    let ghost b = encode_utf8(text@);
    let len: usize = byte_length(text);
    proof {
        encode_utf8_valid_utf8(text@);
        lemma_boundary_ends(b);
        assert(b.subrange(0, start as int) =~= b.take(start as int));
        assert(b.subrange(end as int, len as int) =~= b.skip(end as int));
    }
    let head = to_chars(slice(text, 0, start));
    let tail = to_chars(slice(text, end, len));
    proof {
        lemma_decode_empty(b.take(start as int));
        lemma_decode_empty(b.skip(end as int));
    }
    let before = head.len() == 0 || !is_word_char(head[head.len() - 1]);
    let after = tail.len() == 0 || !is_word_char(tail[0]);
    before && after
}

proof fn lemma_decode_empty(b: Seq<u8>)
    ensures
        b.len() == 0 ==> decode_utf8(b).len() == 0,
{
    if b.len() == 0 {
        assert(b =~= Seq::<u8>::empty());
        assert(encode_utf8(Seq::<char>::empty()) =~= b);
        encode_utf8_decode_utf8(Seq::<char>::empty());
    }
}

fn has_uppercase(query: &str) -> (yes: bool)
    ensures
        yes == (exists|i: int| 0 <= i < query@.len() && uppercase(#[trigger] query@[i])),
{
    let chars = to_chars(query);
    let mut i: usize = 0;
    while i < chars.len()
        invariant
            i <= chars@.len(),
            chars@ == query@,
            forall|j: int| 0 <= j < i ==> !uppercase(#[trigger] query@[j]),
        decreases chars@.len() - i,
    {
        if chars[i].is_uppercase() {
            assert(uppercase(query@[i as int]));
            return true;
        }
        i += 1;
    }
    false
}

/// Search a text.
pub fn find_matches(
    text: &str,
    query: &str,
    options: SearchOptions,
    scope: Option<(usize, usize)>,
) -> (r: (Vec<SearchMatch>, Option<String>))
    requires
        query@.len() > 0,
    ensures
        r.0@ == found(text@, SearchKey { query: query@, options, scope }),
        crate::strings::opt_view(r.1) == complaint(
            text@,
            SearchKey { query: query@, options, scope },
        ),
        matches_fit(r.0@, encode_utf8(text@)),
{
    let ghost b = encode_utf8(text@);
    let exact = options.case_sensitive || (!options.regex && has_uppercase(query));
    let pattern = if options.regex {
        query.to_owned()
    } else {
        escape(query)
    };
    let mut out: Vec<SearchMatch> = Vec::new();
    match find_captures(pattern.as_str(), !exact, text) {
        Ok(all) => {
            let ghost m = group_views(all@);
            let mut i: usize = 0;
            while i < all.len()
                invariant
                    i <= all@.len(),
                    b == encode_utf8(text@),
                    m == group_views(all@),
                    groups_fit(m, b),
                    out@ == counted(b, m, options, scope, i as int),
                    matches_fit(out@, b),
                    forall|k: int|
                        0 <= k < out@.len() ==> exists|j: int|
                            0 <= j < i && whole_of(#[trigger] m[j]) == #[trigger] out@[k],
                decreases all@.len() - i,
            {
                assert(m[i as int] == all@[i as int]@);
                assert(m[i as int].len() > 0 && m[i as int][0] is Some);
                assert(group_fits(m[i as int][0], b));
                if let Some((start, end)) = all[i][0] {
                    let one = SearchMatch { start, end };
                    let inside = match scope {
                        Some((from, to)) => from <= start && end <= to,
                        None => true,
                    };
                    if start < end && inside && (!options.whole_word || whole_word_match(
                        text,
                        start,
                        end,
                    )) {
                        let ghost before = out@;
                        out.push(one);
                        proof {
                            assert forall|k: int| 0 <= k < before.len() implies before[k].end
                                <= start by {
                                let j = choose|j: int|
                                    0 <= j < i && whole_of(#[trigger] m[j]) == before[k];
                                assert((m[j][0]->0).1 <= (m[i as int][0]->0).0);
                            }
                            assert(whole_of(m[i as int]) == one);
                        }
                    }
                }
                i += 1;
            }
            (out, None)
        },
        Err(e) => (out, Some(e)),
    }
}

/// Whether a range may be what a search finds: it is not empty, lies in what is searched, and,
/// where whole words are asked for, no word goes on at either of its ends.
pub open spec fn may_count(b: Seq<u8>, s: int, e: int, key: SearchKey) -> bool {
    &&& s < e
    &&& key.scope matches Some(r) ==> r.0 <= s && e <= r.1
    &&& key.options.whole_word ==> !(s > 0 && decode_utf8(b.take(s)).len() > 0 && word_char(
        decode_utf8(b.take(s)).last(),
    )) && !(e < b.len() && decode_utf8(b.skip(e)).len() > 0 && word_char(decode_utf8(b.skip(e))[0]))
}

proof fn lemma_counted(
    b: Seq<u8>,
    m: Seq<Seq<Option<(usize, usize)>>>,
    key: SearchKey,
    n: int,
    x: SearchMatch,
)
    requires
        0 <= n <= m.len(),
        forall|i: int| 0 <= i < m.len() ==> (#[trigger] m[i]).len() > 0 && m[i][0] is Some,
    ensures
        counted(b, m, key.options, key.scope, n).contains(x) <==> (exists|i: int|
            0 <= i < n && (#[trigger] m[i])[0] == Some((x.start, x.end)) && may_count(
                b,
                x.start as int,
                x.end as int,
                key,
            )),
    decreases n,
{
    if n > 0 {
        lemma_counted(b, m, key, n - 1, x);
        let before = counted(b, m, key.options, key.scope, n - 1);
        let all = counted(b, m, key.options, key.scope, n);
        let one = whole_of(m[n - 1]);
        assert(m[n - 1][0] is Some);
        assert(counts(b, one, key.options, key.scope) == may_count(
            b,
            one.start as int,
            one.end as int,
            key,
        ));
        if before.contains(x) {
            let i = choose|i: int| 0 <= i < before.len() && before[i] == x;
            assert(all[i] == x);
        }
        if counts(b, one, key.options, key.scope) {
            assert(all[before.len() as int] == one);
            if all.contains(x) && x != one {
                let i = choose|i: int| 0 <= i < all.len() && all[i] == x;
                assert(before[i] == x);
            }
        }
        if x == one && may_count(b, x.start as int, x.end as int, key) {
            assert(m[n - 1][0] == Some((x.start, x.end)));
        }
        assert(forall|i: int|
            0 <= i < n && (#[trigger] m[i])[0] == Some((x.start, x.end)) ==> i < n - 1 || x == one);
    }
}

/// A search finds exactly the matches of what was typed that count: as a regular expression
/// where that is asked for, and else literally; with case where that is asked for, or where
/// what was typed literally has an upper-case letter, and else without.
pub proof fn lemma_search_finds_what_was_typed(
    text: Seq<char>,
    key: SearchKey,
    m: Seq<Seq<Option<(usize, usize)>>>,
    x: SearchMatch,
)
    requires
        key.query.len() > 0,
        ({
            let with_case = key.options.case_sensitive || !key.options.regex && exists|i: int|
                0 <= i < key.query.len() && uppercase(#[trigger] key.query[i]);
            captured(
                if key.options.regex {
                    key.query
                } else {
                    quoted(key.query)
                },
                !with_case,
                text,
            ) == Ok::<Seq<Seq<Option<(usize, usize)>>>, Seq<char>>(m)
        }),
        forall|i: int| 0 <= i < m.len() ==> (#[trigger] m[i]).len() > 0 && m[i][0] is Some,
    ensures
        found(text, key).contains(x) <==> (exists|i: int|
            0 <= i < m.len() && (#[trigger] m[i])[0] == Some((x.start, x.end)) && may_count(
                encode_utf8(text),
                x.start as int,
                x.end as int,
                key,
            )),
{
    lemma_counted(encode_utf8(text), m, key, m.len() as int, x);
}

} // verus!
