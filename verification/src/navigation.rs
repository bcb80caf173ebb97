//! Following the link or footnote at a place in a document.

use vstd::prelude::*;
use vstd::utf8::*;

use crate::bytes::{boundary, slice, text_between};
use crate::pattern::{captured, escape, find_captures, group_fits, group_views, groups_fit, quoted};
use crate::strings::{from_chars, joined, matches_at, occurs_at, to_chars};

verus! {

/// A footnote reference; its name is group 1.
pub const FOOTNOTE_REF: &'static str = "\\[\\^([^\\]]+)\\]";

/// An inline link; its target is group 1.
pub const INLINE_LINK: &'static str = "\\[[^\\]]+\\]\\(([^)\\s]+)";

/// A URL in angle brackets, which is group 1.
pub const ANGLE_URL: &'static str = "<(https?://[^>]+)>";

/// A URL on its own, which is group 1.
pub const BARE_URL: &'static str = "(https?://[^\\s<>)]+)";

/// A reference link; its text is group 1, its label group 2.
pub const REF_LINK: &'static str = "\\[([^\\]]+)\\]\\[([^\\]]*)\\]";

/// The definition of a footnote; its name is group 1.
pub const FOOTNOTE_DEF_AT: &'static str = "(?mi)^[ \\t]*\\[\\^([^\\]]+)\\]:";

/// What following a link leads to.
pub enum Follow {
    /// A place in the document.
    Jump(usize),
    /// A URL to open once the user agrees.
    External(String),
    /// Nothing to follow; something to say.
    Say(String),
}

/// What a [`Follow`] says.
pub enum FollowView {
    Jump(usize),
    External(Seq<char>),
    Say(Seq<char>),
}

impl View for Follow {
    type V = FollowView;

    open spec fn view(&self) -> FollowView {
        match self {
            Follow::Jump(byte) => FollowView::Jump(*byte),
            Follow::External(url) => FollowView::External(url@),
            Follow::Say(text) => FollowView::Say(text@),
        }
    }
}

/// The matches of a pattern; none of one that is wrong.
pub open spec fn matched(pattern: Seq<char>, text: Seq<char>) -> Seq<Seq<Option<(usize, usize)>>> {
    match captured(pattern, false, text) {
        Ok(m) => m,
        Err(_) => Seq::empty(),
    }
}

/// The text of a group of a match.
pub open spec fn group_text(
    b: Seq<u8>,
    groups: Seq<Option<(usize, usize)>>,
    group: int,
) -> Option<Seq<char>> {
    if 0 <= group < groups.len() {
        match groups[group] {
            Some((s, e)) => Some(text_between(b, s as int, e as int)),
            None => None,
        }
    } else {
        None
    }
}

/// Whether a match reaches a place.
pub open spec fn reaches(groups: Seq<Option<(usize, usize)>>, at: int) -> bool {
    match groups[0] {
        Some((s, e)) => s <= at <= e,
        None => false,
    }
}

/// The group of the first match from the `i`-th on that reaches a place and has it.
pub open spec fn group_at(
    b: Seq<u8>,
    m: Seq<Seq<Option<(usize, usize)>>>,
    at: int,
    group: int,
    i: int,
) -> Option<Seq<char>>
    decreases m.len() - i,
{
    if i < 0 || i >= m.len() {
        None
    } else if reaches(m[i], at) && group_text(b, m[i], group) is Some {
        group_text(b, m[i], group)
    } else {
        group_at(b, m, at, group, i + 1)
    }
}

/// The group of the first match of a pattern at a place.
pub open spec fn capture_at_place(text: Seq<char>, at: int, pattern: Seq<char>, group: int) -> Option<
    Seq<char>,
> {
    group_at(encode_utf8(text), matched(pattern, text), at, group, 0)
}

/// The pattern of a label's definition, its target in group 1.
pub open spec fn definition_pattern(id: Seq<char>) -> Seq<char> {
    "(?mi)^[ \\t]*\\["@ + quoted(id) + "\\]:[ \\t]*(\\S+)"@
}

/// The pattern of a footnote's definition.
pub open spec fn footnote_pattern(id: Seq<char>) -> Seq<char> {
    "(?mi)^[ \\t]*\\[\\^"@ + quoted(id) + "\\]:"@
}

/// The pattern of references to a footnote.
pub open spec fn footnote_ref_pattern(id: Seq<char>) -> Seq<char> {
    "(?i)\\[\\^"@ + quoted(id) + "\\]"@
}

/// `s` without the angle brackets at its beginning.
pub open spec fn angles_off_start(s: Seq<char>) -> Seq<char>
    decreases s.len(),
{
    if s.len() > 0 && (s[0] == '<' || s[0] == '>') {
        angles_off_start(s.skip(1))
    } else {
        s
    }
}

/// `s` without the angle brackets at its end.
pub open spec fn angles_off_end(s: Seq<char>) -> Seq<char>
    decreases s.len(),
{
    if s.len() > 0 && (s.last() == '<' || s.last() == '>') {
        angles_off_end(s.drop_last())
    } else {
        s
    }
}

/// The target of the first definition of a label.
pub open spec fn target_of(text: Seq<char>, id: Seq<char>) -> Option<Seq<char>> {
    let m = matched(definition_pattern(id), text);
    if m.len() == 0 {
        None
    } else {
        match group_text(encode_utf8(text), m[0], 1) {
            Some(target) => Some(angles_off_end(angles_off_start(target))),
            None => None,
        }
    }
}

/// Where the first definition of a footnote begins.
pub open spec fn footnote_at(text: Seq<char>, id: Seq<char>) -> Option<usize> {
    let m = matched(footnote_pattern(id), text);
    if m.len() == 0 {
        None
    } else {
        match m[0][0] {
            Some((s, e)) => Some(s),
            None => None,
        }
    }
}

/// Where the first of the matches from the `i`-th on that no colon follows begins.
pub open spec fn plain_reference(b: Seq<u8>, m: Seq<Seq<Option<(usize, usize)>>>, i: int) -> Option<
    usize,
>
    decreases m.len() - i,
{
    if i < 0 || i >= m.len() {
        None
    } else {
        match m[i][0] {
            Some((s, e)) => if e < b.len() && b[e as int] == 58 {
                plain_reference(b, m, i + 1)
            } else {
                Some(s)
            },
            None => plain_reference(b, m, i + 1),
        }
    }
}

/// Where the first reference to a footnote begins.
pub open spec fn reference_at(text: Seq<char>, id: Seq<char>) -> Option<usize> {
    plain_reference(encode_utf8(text), matched(footnote_ref_pattern(id), text), 0)
}

/// The target of the link at a place.
pub open spec fn link_at(text: Seq<char>, at: int) -> Option<Seq<char>> {
    match capture_at_place(text, at, INLINE_LINK@, 1) {
        Some(t) => Some(t),
        None => match capture_at_place(text, at, ANGLE_URL@, 1) {
            Some(t) => Some(t),
            None => match capture_at_place(text, at, BARE_URL@, 1) {
                Some(t) => Some(t),
                None => match capture_at_place(text, at, REF_LINK@, 2) {
                    Some(id) => if id.len() > 0 {
                        target_of(text, id)
                    } else {
                        match capture_at_place(text, at, REF_LINK@, 1) {
                            Some(label) => target_of(text, label),
                            None => None,
                        }
                    },
                    None => None,
                },
            },
        },
    }
}

/// Whether a target is a web address.
pub open spec fn external(target: Seq<char>) -> bool {
    occurs_at(target, "http://"@, 0) || occurs_at(target, "https://"@, 0)
}

/// What following the link or footnote at a place leads to: from the definition of a
/// footnote to a reference to it, from a reference to its definition, and from a link to
/// its target.
pub open spec fn followed(text: Seq<char>, at: int) -> FollowView {
    match capture_at_place(text, at, FOOTNOTE_DEF_AT@, 1) {
        Some(id) => match reference_at(text, id) {
            Some(byte) => FollowView::Jump(byte),
            None => FollowView::Say("No reference for footnote "@ + id),
        },
        None => match capture_at_place(text, at, FOOTNOTE_REF@, 1) {
            Some(id) => match footnote_at(text, id) {
                Some(byte) => FollowView::Jump(byte),
                None => FollowView::Say("Footnote "@ + id + " is unresolved"@),
            },
            None => match link_at(text, at) {
                Some(target) => if external(target) {
                    FollowView::External(target)
                } else {
                    FollowView::Say("Local link target: "@ + target)
                },
                None => FollowView::Say("No link or footnote under cursor"@),
            },
        },
    }
}

/// Whether no match of a pattern reaches a place, from its first byte to the one behind it.
pub open spec fn clear_of(pattern: Seq<char>, text: Seq<char>, at: int) -> bool {
    captured(pattern, false, text) matches Ok(m) ==> forall|i: int|
        0 <= i < m.len() && (#[trigger] m[i])[0] is Some ==> at < (m[i][0]->0).0 || (m[i][0]->0).1
            < at
}

/// Whether a match of a pattern, the first one that does, reaches a place, and says `found`
/// in one of its groups.
pub open spec fn found_at(
    pattern: Seq<char>,
    text: Seq<char>,
    at: int,
    group: int,
    found: Seq<char>,
) -> bool {
    captured(pattern, false, text) matches Ok(m) && exists|i: int|
        {
            &&& 0 <= i < m.len()
            &&& (#[trigger] m[i])[0] matches Some(whole) && whole.0 <= at <= whole.1
            &&& forall|j: int|
                0 <= j < i && (#[trigger] m[j])[0] is Some ==> at < (m[j][0]->0).0 || (
                m[j][0]->0).1 < at
            &&& 0 <= group < m[i].len()
            &&& m[i][group] matches Some(g) && found == text_between(
                encode_utf8(text),
                g.0 as int,
                g.1 as int,
            )
        }
}

proof fn lemma_none_reaches(
    b: Seq<u8>,
    m: Seq<Seq<Option<(usize, usize)>>>,
    at: int,
    group: int,
    i: int,
)
    requires
        0 <= i,
        forall|j: int|
            i <= j < m.len() && (#[trigger] m[j])[0] is Some ==> at < (m[j][0]->0).0 || (
            m[j][0]->0).1 < at,
    ensures
        group_at(b, m, at, group, i) is None,
    decreases m.len() - i,
{
    if i < m.len() {
        lemma_none_reaches(b, m, at, group, i + 1);
    }
}

proof fn lemma_first_reaches(
    b: Seq<u8>,
    m: Seq<Seq<Option<(usize, usize)>>>,
    at: int,
    group: int,
    i: int,
    to: int,
)
    requires
        0 <= i <= to < m.len(),
        forall|j: int|
            i <= j < to && (#[trigger] m[j])[0] is Some ==> at < (m[j][0]->0).0 || (m[j][0]->0).1
                < at,
        m[to][0] matches Some(whole) && whole.0 <= at <= whole.1,
        group_text(b, m[to], group) is Some,
    ensures
        group_at(b, m, at, group, i) == group_text(b, m[to], group),
    decreases to - i,
{
    if i < to {
        lemma_first_reaches(b, m, at, group, i + 1, to);
    }
}

proof fn lemma_clear_of(pattern: Seq<char>, text: Seq<char>, at: int, group: int)
    requires
        clear_of(pattern, text, at),
    ensures
        capture_at_place(text, at, pattern, group) is None,
{
    lemma_none_reaches(encode_utf8(text), matched(pattern, text), at, group, 0);
}

proof fn lemma_found_at(pattern: Seq<char>, text: Seq<char>, at: int, group: int, found: Seq<char>)
    requires
        found_at(pattern, text, at, group, found),
    ensures
        capture_at_place(text, at, pattern, group) == Some(found),
{
    let m = captured(pattern, false, text)->Ok_0;
    let b = encode_utf8(text);
    let i = choose|i: int|
        {
            &&& 0 <= i < m.len()
            &&& (#[trigger] m[i])[0] matches Some(whole) && whole.0 <= at <= whole.1
            &&& forall|j: int|
                0 <= j < i && (#[trigger] m[j])[0] is Some ==> at < (m[j][0]->0).0 || (
                m[j][0]->0).1 < at
            &&& 0 <= group < m[i].len()
            &&& m[i][group] matches Some(g) && found == text_between(b, g.0 as int, g.1 as int)
        };
    lemma_first_reaches(b, m, at, group, 0, i);
}

/// Whether a place is in no footnote: in no definition of one, and in no reference.
pub open spec fn off_footnotes(text: Seq<char>, at: int) -> bool {
    &&& clear_of("(?mi)^[ \\t]*\\[\\^([^\\]]+)\\]:"@, text, at)
    &&& clear_of("\\[\\^([^\\]]+)\\]"@, text, at)
}

/// Whether a text begins like a web address.
pub open spec fn web_address(s: Seq<char>) -> bool {
    "http://"@.is_prefix_of(s) || "https://"@.is_prefix_of(s)
}

proof fn lemma_web_addresses(s: Seq<char>)
    ensures
        external(s) == web_address(s),
{
    reveal_strlit("http://");
    reveal_strlit("https://");
    if occurs_at(s, "http://"@, 0) {
        assert("http://"@ =~= s.subrange(0, 7));
    }
    if occurs_at(s, "https://"@, 0) {
        assert("https://"@ =~= s.subrange(0, 8));
    }
    if "http://"@.is_prefix_of(s) {
        assert(occurs_at(s, "http://"@, 0));
    }
    if "https://"@.is_prefix_of(s) {
        assert(occurs_at(s, "https://"@, 0));
    }
}

/// Following a web address that stands in the text on its own, and in no footnote, no
/// inline link and no angle brackets, leads to it.
pub proof fn lemma_bare_addresses_are_followed(text: Seq<char>, at: int, url: Seq<char>)
    requires
        off_footnotes(text, at),
        clear_of("\\[[^\\]]+\\]\\(([^)\\s]+)"@, text, at),
        clear_of("<(https?://[^>]+)>"@, text, at),
        found_at("(https?://[^\\s<>)]+)"@, text, at, 1, url),
        web_address(url),
    ensures
        followed(text, at) == FollowView::External(url),
{
    lemma_clear_of(FOOTNOTE_DEF_AT@, text, at, 1);
    lemma_clear_of(FOOTNOTE_REF@, text, at, 1);
    lemma_clear_of(INLINE_LINK@, text, at, 1);
    lemma_clear_of(ANGLE_URL@, text, at, 1);
    lemma_found_at(BARE_URL@, text, at, 1, url);
    lemma_web_addresses(url);
}

/// Following a web address in angle brackets, in no footnote and no inline link, leads to
/// it.
pub proof fn lemma_bracketed_addresses_are_followed(text: Seq<char>, at: int, url: Seq<char>)
    requires
        off_footnotes(text, at),
        clear_of("\\[[^\\]]+\\]\\(([^)\\s]+)"@, text, at),
        found_at("<(https?://[^>]+)>"@, text, at, 1, url),
        web_address(url),
    ensures
        followed(text, at) == FollowView::External(url),
{
    lemma_clear_of(FOOTNOTE_DEF_AT@, text, at, 1);
    lemma_clear_of(FOOTNOTE_REF@, text, at, 1);
    lemma_clear_of(INLINE_LINK@, text, at, 1);
    lemma_found_at(ANGLE_URL@, text, at, 1, url);
    lemma_web_addresses(url);
}

/// Following an inline link that is in no footnote leads to its target if that is a web
/// address, and otherwise names the target.
pub proof fn lemma_inline_links_are_followed(text: Seq<char>, at: int, target: Seq<char>)
    requires
        off_footnotes(text, at),
        found_at("\\[[^\\]]+\\]\\(([^)\\s]+)"@, text, at, 1, target),
    ensures
        followed(text, at) == if web_address(target) {
            FollowView::External(target)
        } else {
            FollowView::Say("Local link target: "@ + target)
        },
{
    lemma_clear_of(FOOTNOTE_DEF_AT@, text, at, 1);
    lemma_clear_of(FOOTNOTE_REF@, text, at, 1);
    lemma_found_at(INLINE_LINK@, text, at, 1, target);
    lemma_web_addresses(target);
}

/// Following a reference link, one that is no other link and in no footnote, leads to what
/// the first definition of its label says, without angle brackets around it; the label is
/// its text where it names none. `target` stands for what lies between those brackets.
pub proof fn lemma_reference_links_are_followed(
    text: Seq<char>,
    at: int,
    label: Seq<char>,
    named: Seq<char>,
    lead: Seq<char>,
    target: Seq<char>,
    tail: Seq<char>,
)
    requires
        off_footnotes(text, at),
        clear_of("\\[[^\\]]+\\]\\(([^)\\s]+)"@, text, at),
        clear_of("<(https?://[^>]+)>"@, text, at),
        clear_of("(https?://[^\\s<>)]+)"@, text, at),
        found_at("\\[([^\\]]+)\\]\\[([^\\]]*)\\]"@, text, at, 2, label),
        label.len() == 0 ==> found_at("\\[([^\\]]+)\\]\\[([^\\]]*)\\]"@, text, at, 1, named),
        label.len() > 0 ==> named == label,
        ({
            let m = captured(
                "(?mi)^[ \\t]*\\["@ + quoted(named) + "\\]:[ \\t]*(\\S+)"@,
                false,
                text,
            );
            &&& m is Ok
            &&& (m->Ok_0).len() > 0
            &&& (m->Ok_0)[0].len() > 1
            &&& (m->Ok_0)[0][1] matches Some(g) && text_between(
                encode_utf8(text),
                g.0 as int,
                g.1 as int,
            ) == lead + target + tail
        }),
        forall|i: int| 0 <= i < lead.len() ==> #[trigger] lead[i] == '<' || lead[i] == '>',
        forall|i: int| 0 <= i < tail.len() ==> #[trigger] tail[i] == '<' || tail[i] == '>',
        target.len() > 0,
        target[0] != '<' && target[0] != '>',
        target.last() != '<' && target.last() != '>',
    ensures
        followed(text, at) == if web_address(target) {
            FollowView::External(target)
        } else {
            FollowView::Say("Local link target: "@ + target)
        },
{
    lemma_clear_of(FOOTNOTE_DEF_AT@, text, at, 1);
    lemma_clear_of(FOOTNOTE_REF@, text, at, 1);
    lemma_clear_of(INLINE_LINK@, text, at, 1);
    lemma_clear_of(ANGLE_URL@, text, at, 1);
    lemma_clear_of(BARE_URL@, text, at, 1);
    lemma_found_at(REF_LINK@, text, at, 2, label);
    if label.len() == 0 {
        lemma_found_at(REF_LINK@, text, at, 1, named);
    }
    lemma_angles_off_start(lead, target + tail);
    assert(lead + target + tail =~= lead + (target + tail));
    lemma_angles_off_end(target, tail);
    assert(target_of(text, named) == Some(target));
    lemma_web_addresses(target);
}

proof fn lemma_angles_off_start(lead: Seq<char>, rest: Seq<char>)
    requires
        forall|i: int| 0 <= i < lead.len() ==> #[trigger] lead[i] == '<' || lead[i] == '>',
        rest.len() > 0 && rest[0] != '<' && rest[0] != '>',
    ensures
        angles_off_start(lead + rest) == rest,
    decreases lead.len(),
{
    if lead.len() == 0 {
        assert(lead + rest =~= rest);
    } else {
        assert(lead[0] == '<' || lead[0] == '>');
        assert((lead + rest).skip(1) =~= lead.skip(1) + rest);
        assert forall|i: int| 0 <= i < lead.skip(1).len() implies #[trigger] lead.skip(1)[i] == '<'
            || lead.skip(1)[i] == '>' by {
            assert(lead.skip(1)[i] == lead[i + 1]);
        }
        lemma_angles_off_start(lead.skip(1), rest);
    }
}

proof fn lemma_angles_off_end(rest: Seq<char>, tail: Seq<char>)
    requires
        forall|i: int| 0 <= i < tail.len() ==> #[trigger] tail[i] == '<' || tail[i] == '>',
        rest.len() > 0 && rest.last() != '<' && rest.last() != '>',
    ensures
        angles_off_end(rest + tail) == rest,
    decreases tail.len(),
{
    if tail.len() == 0 {
        assert(rest + tail =~= rest);
    } else {
        assert(tail[tail.len() - 1] == '<' || tail[tail.len() - 1] == '>');
        assert((rest + tail).drop_last() =~= rest + tail.drop_last());
        assert forall|i: int| 0 <= i < tail.drop_last().len() implies #[trigger] tail.drop_last()[i]
            == '<' || tail.drop_last()[i] == '>' by {
            assert(tail.drop_last()[i] == tail[i]);
        }
        lemma_angles_off_end(rest, tail.drop_last());
    }
}

/// Following a footnote's reference, outside definitions, leads to where its first
/// definition begins; one that is not defined is named.
pub proof fn lemma_footnotes_lead_to_their_definition(text: Seq<char>, at: int, id: Seq<char>)
    requires
        clear_of("(?mi)^[ \\t]*\\[\\^([^\\]]+)\\]:"@, text, at),
        found_at("\\[\\^([^\\]]+)\\]"@, text, at, 1, id),
    ensures
        ({
            let m = captured("(?mi)^[ \\t]*\\[\\^"@ + quoted(id) + "\\]:"@, false, text);
            if m is Ok && (m->Ok_0).len() > 0 && (m->Ok_0)[0][0] is Some {
                followed(text, at) == FollowView::Jump(((m->Ok_0)[0][0]->0).0)
            } else {
                followed(text, at) == FollowView::Say("Footnote "@ + id + " is unresolved"@)
            }
        }),
{
    lemma_clear_of(FOOTNOTE_DEF_AT@, text, at, 1);
    lemma_found_at(FOOTNOTE_REF@, text, at, 1, id);
}

/// Following the definition of a footnote leads to where a reference to it begins: the
/// first match of its name in brackets that no colon follows.
pub proof fn lemma_definitions_lead_to_a_reference(
    text: Seq<char>,
    at: int,
    id: Seq<char>,
    m: Seq<Seq<Option<(usize, usize)>>>,
    i: int,
)
    requires
        found_at("(?mi)^[ \\t]*\\[\\^([^\\]]+)\\]:"@, text, at, 1, id),
        captured("(?i)\\[\\^"@ + quoted(id) + "\\]"@, false, text) == Ok::<
            Seq<Seq<Option<(usize, usize)>>>,
            Seq<char>,
        >(m),
        0 <= i < m.len(),
        m[i][0] matches Some(g) && !(g.1 < encode_utf8(text).len() && encode_utf8(text)[g.1 as int]
            == ':' as u8),
        forall|j: int|
            0 <= j < i ==> ((#[trigger] m[j])[0] matches Some(g) ==> g.1 < encode_utf8(text).len()
                && encode_utf8(text)[g.1 as int] == ':' as u8),
    ensures
        followed(text, at) == FollowView::Jump((m[i][0]->0).0),
{
    lemma_found_at(FOOTNOTE_DEF_AT@, text, at, 1, id);
    lemma_plain_reference(encode_utf8(text), m, 0, i);
}

proof fn lemma_plain_reference(b: Seq<u8>, m: Seq<Seq<Option<(usize, usize)>>>, i: int, to: int)
    requires
        0 <= i <= to < m.len(),
        m[to][0] matches Some(g) && !(g.1 < b.len() && b[g.1 as int] == 58),
        forall|j: int|
            i <= j < to ==> ((#[trigger] m[j])[0] matches Some(g) ==> g.1 < b.len()
                && b[g.1 as int] == 58),
    ensures
        plain_reference(b, m, i) == Some((m[to][0]->0).0),
    decreases to - i,
{
    if i < to {
        assert(m[i][0] matches Some(g) ==> g.1 < b.len() && b[g.1 as int] == 58);
        lemma_plain_reference(b, m, i + 1, to);
    }
}

/// Where there is no link and no footnote, following says so.
pub proof fn lemma_nothing_to_follow(text: Seq<char>, at: int)
    requires
        off_footnotes(text, at),
        clear_of("\\[[^\\]]+\\]\\(([^)\\s]+)"@, text, at),
        clear_of("<(https?://[^>]+)>"@, text, at),
        clear_of("(https?://[^\\s<>)]+)"@, text, at),
        clear_of("\\[([^\\]]+)\\]\\[([^\\]]*)\\]"@, text, at),
    ensures
        followed(text, at) == FollowView::Say("No link or footnote under cursor"@),
{
    lemma_clear_of(FOOTNOTE_DEF_AT@, text, at, 1);
    lemma_clear_of(FOOTNOTE_REF@, text, at, 1);
    lemma_clear_of(INLINE_LINK@, text, at, 1);
    lemma_clear_of(ANGLE_URL@, text, at, 1);
    lemma_clear_of(BARE_URL@, text, at, 1);
    lemma_clear_of(REF_LINK@, text, at, 2);
}

fn matches_of(pattern: &str, text: &str) -> (m: Vec<Vec<Option<(usize, usize)>>>)
    ensures
        group_views(m@) == matched(pattern@, text@),
        groups_fit(group_views(m@), encode_utf8(text@)),
        group_views(m@).len() == m@.len(),
{
    match find_captures(pattern, false, text) {
        Ok(m) => m,
        Err(_e) => {
            let none: Vec<Vec<Option<(usize, usize)>>> = Vec::new();
            assert(group_views(none@) =~= Seq::empty());
            none
        },
    }
}

fn text_of_group(text: &str, groups: &Vec<Option<(usize, usize)>>, group: usize) -> (t: Option<
    String,
>)
    requires
        forall|g: int| 0 <= g < groups@.len() ==> group_fits(#[trigger] groups@[g], encode_utf8(text@)),
    ensures
        crate::strings::opt_view(t) == group_text(encode_utf8(text@), groups@, group as int),
{
    if group < groups.len() {
        assert(group_fits(groups@[group as int], encode_utf8(text@)));
        if let Some((s, e)) = groups[group] {
            return Some(slice(text, s, e).to_owned());
        }
    }
    None
}

/// The group of the first match of a pattern at a place.
pub fn capture_at(text: &str, at: usize, pattern: &str, group: usize) -> (t: Option<String>)
    ensures
        crate::strings::opt_view(t) == capture_at_place(text@, at as int, pattern@, group as int),
{
    let m = matches_of(pattern, text);
    let ghost v = group_views(m@);
    let ghost b = encode_utf8(text@);
    let mut i: usize = 0;
    while i < m.len()
        invariant
            i <= m@.len(),
            v == group_views(m@),
            v.len() == m@.len(),
            b == encode_utf8(text@),
            v == matched(pattern@, text@),
            groups_fit(v, b),
            capture_at_place(text@, at as int, pattern@, group as int) == group_at(
                b,
                v,
                at as int,
                group as int,
                i as int,
            ),
        decreases m@.len() - i,
    {
        assert(v[i as int] == m@[i as int]@);
        assert(v[i as int].len() > 0 && v[i as int][0] is Some);
        assert forall|g: int| 0 <= g < m@[i as int]@.len() implies group_fits(
            #[trigger] m@[i as int]@[g],
            b,
        ) by {
            assert(group_fits(v[i as int][g], b));
        }
        if let Some((s, e)) = m[i][0] {
            if s <= at && at <= e {
                if let Some(t) = text_of_group(text, &m[i], group) {
                    return Some(t);
                }
            }
        }
        i += 1;
    }
    None
}

fn trim_angles(s: &str) -> (out: String)
    ensures
        out@ == angles_off_end(angles_off_start(s@)),
{
    let chars = to_chars(s);
    let mut a: usize = 0;
    assert(chars@.skip(0) =~= s@);
    while a < chars.len() && (chars[a] == '<' || chars[a] == '>')
        invariant
            a <= chars@.len(),
            chars@ == s@,
            angles_off_start(s@) == angles_off_start(chars@.skip(a as int)),
        decreases chars@.len() - a,
    {
        assert(chars@.skip(a as int).skip(1) =~= chars@.skip(a + 1));
        a += 1;
    }
    let ghost rest = chars@.skip(a as int);
    assert(angles_off_start(s@) == rest);
    let mut z: usize = chars.len();
    assert(rest.take(z - a) =~= rest);
    while z > a && (chars[z - 1] == '<' || chars[z - 1] == '>')
        invariant
            a <= z <= chars@.len(),
            rest == chars@.skip(a as int),
            angles_off_end(rest) == angles_off_end(rest.take(z - a)),
        decreases z,
    {
        assert(rest.take(z - a).drop_last() =~= rest.take(z - a - 1));
        assert(rest.take(z - a).last() == chars@[z - 1]);
        z -= 1;
    }
    proof {
        if z > a {
            assert(rest.take(z - a).last() == chars@[z - 1]);
        }
        assert(chars@.subrange(a as int, z as int) =~= rest.take(z - a));
    }
    from_chars(&chars, a, z)
}

/// The target of the first definition of a label.
pub fn reference_target(text: &str, id: &str) -> (t: Option<String>)
    ensures
        crate::strings::opt_view(t) == target_of(text@, id@),
{
    let name = escape(id);
    let head = joined("(?mi)^[ \\t]*\\[", name.as_str());
    let pattern = joined(head.as_str(), "\\]:[ \\t]*(\\S+)");
    let m = matches_of(pattern.as_str(), text);
    let ghost v = group_views(m@);
    if m.len() == 0 {
        return None;
    }
    assert(v[0] == m@[0]@);
    assert forall|g: int| 0 <= g < m@[0]@.len() implies group_fits(
        #[trigger] m@[0]@[g],
        encode_utf8(text@),
    ) by {
        assert(group_fits(v[0][g], encode_utf8(text@)));
    }
    match text_of_group(text, &m[0], 1) {
        Some(t) => Some(trim_angles(t.as_str())),
        None => None,
    }
}

/// Where the first definition of a footnote begins.
pub fn footnote_definition(text: &str, id: &str) -> (byte: Option<usize>)
    ensures
        byte == footnote_at(text@, id@),
        byte is Some ==> boundary(encode_utf8(text@), byte->0 as int),
{
    let name = escape(id);
    let head = joined("(?mi)^[ \\t]*\\[\\^", name.as_str());
    let pattern = joined(head.as_str(), "\\]:");
    let m = matches_of(pattern.as_str(), text);
    let ghost v = group_views(m@);
    if m.len() == 0 {
        return None;
    }
    assert(v[0] == m@[0]@);
    assert(v[0].len() > 0 && v[0][0] is Some);
    assert(group_fits(v[0][0], encode_utf8(text@)));
    match m[0][0] {
        Some((s, _e)) => Some(s),
        None => None,
    }
}

/// Where the first reference to a footnote begins.
pub fn footnote_reference(text: &str, id: &str) -> (byte: Option<usize>)
    ensures
        byte == reference_at(text@, id@),
        byte is Some ==> boundary(encode_utf8(text@), byte->0 as int),
{
    let name = escape(id);
    let head = joined("(?i)\\[\\^", name.as_str());
    let pattern = joined(head.as_str(), "\\]");
    let m = matches_of(pattern.as_str(), text);
    let ghost v = group_views(m@);
    let bytes = text.as_bytes();
    let ghost b = encode_utf8(text@);
    let mut i: usize = 0;
    while i < m.len()
        invariant
            i <= m@.len(),
            v == group_views(m@),
            v.len() == m@.len(),
            b == encode_utf8(text@),
            bytes@ == b,
            v == matched(footnote_ref_pattern(id@), text@),
            groups_fit(v, b),
            reference_at(text@, id@) == plain_reference(b, v, i as int),
        decreases m@.len() - i,
    {
        assert(v[i as int] == m@[i as int]@);
        assert(v[i as int].len() > 0 && v[i as int][0] is Some);
        assert(group_fits(v[i as int][0], b));
        if let Some((s, e)) = m[i][0] {
            if !(e < bytes.len() && bytes[e] == 58) {
                return Some(s);
            }
        }
        i += 1;
    }
    None
}

/// The name of the footnote whose definition reaches a place.
pub fn footnote_definition_at(text: &str, at: usize) -> (id: Option<String>)
    ensures
        crate::strings::opt_view(id) == capture_at_place(text@, at as int, FOOTNOTE_DEF_AT@, 1),
{
    capture_at(text, at, FOOTNOTE_DEF_AT, 1)
}

fn link_target(text: &str, at: usize) -> (t: Option<String>)
    ensures
        crate::strings::opt_view(t) == link_at(text@, at as int),
{
    if let Some(t) = capture_at(text, at, INLINE_LINK, 1) {
        return Some(t);
    }
    if let Some(t) = capture_at(text, at, ANGLE_URL, 1) {
        return Some(t);
    }
    if let Some(t) = capture_at(text, at, BARE_URL, 1) {
        return Some(t);
    }
    match capture_at(text, at, REF_LINK, 2) {
        Some(id) => if !id.as_str().is_empty() {
            reference_target(text, id.as_str())
        } else {
            match capture_at(text, at, REF_LINK, 1) {
                Some(label) => reference_target(text, label.as_str()),
                None => None,
            }
        },
        None => None,
    }
}

/// Whether a target is a web address.
pub fn is_external(target: &str) -> (yes: bool)
    ensures
        yes == external(target@),
{
    let t = to_chars(target);
    matches_at(&t, &to_chars("http://"), 0) || matches_at(&t, &to_chars("https://"), 0)
}

/// Follow the link or footnote at a place.
pub fn follow_link(text: &str, at: usize) -> (f: Follow)
    ensures
        f@ == followed(text@, at as int),
        f matches Follow::Jump(byte) ==> boundary(encode_utf8(text@), byte as int),
{
    if let Some(id) = footnote_definition_at(text, at) {
        return match footnote_reference(text, id.as_str()) {
            Some(byte) => Follow::Jump(byte),
            None => Follow::Say(joined("No reference for footnote ", id.as_str())),
        };
    }
    if let Some(id) = capture_at(text, at, FOOTNOTE_REF, 1) {
        return match footnote_definition(text, id.as_str()) {
            Some(byte) => Follow::Jump(byte),
            None => {
                let head = joined("Footnote ", id.as_str());
                Follow::Say(joined(head.as_str(), " is unresolved"))
            },
        };
    }
    match link_target(text, at) {
        Some(target) => if is_external(target.as_str()) {
            Follow::External(target)
        } else {
            Follow::Say(joined("Local link target: ", target.as_str()))
        },
        None => Follow::Say("No link or footnote under cursor".to_owned()),
    }
}

} // verus!
