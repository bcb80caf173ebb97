//! The marker that a list item begins with.

use vstd::prelude::*;

use crate::strings::{
    all_digits, byte_len, decimal, digits_value, from_chars, is_digit, lead_length,
    lemma_ascii_bytes, lemma_decimal_reads_back, push_number, to_chars, trim_bounds, trim_start, trimmed,
};

verus! {

/// What kind of item a marker begins.
#[derive(Clone, Copy, Debug, PartialEq, Eq, Structural)]
pub enum ListMarkerKind {
    Bullet(char),
    /// A GFM task item (`- [ ]` / `- [x]`); new items are always unchecked.
    Task(char),
    Ordered { number: u64, delimiter: char },
}

/// The marker that a list item begins with.
pub struct ListMarker {
    pub indent: String,
    pub kind: ListMarkerKind,
    pub spacing: String,
    /// Byte length of the full marker prefix (indent + marker + checkbox +
    /// spacing). The prefix is pure ASCII by construction, so slicing the line
    /// at this offset always lands on a char boundary.
    pub prefix_len: usize,
}

/// What a [`ListMarker`] says.
#[verifier::ext_equal]
pub struct MarkerView {
    pub indent: Seq<char>,
    pub kind: ListMarkerKind,
    pub spacing: Seq<char>,
    pub prefix_len: int,
}

impl View for ListMarker {
    type V = MarkerView;

    open spec fn view(&self) -> MarkerView {
        MarkerView {
            indent: self.indent@,
            kind: self.kind,
            spacing: self.spacing@,
            prefix_len: self.prefix_len as int,
        }
    }
}

impl MarkerView {
    /// Whether the marker is a number.
    pub open spec fn ordered(self) -> bool {
        self.kind is Ordered
    }

    /// The marker with another number.
    pub open spec fn numbered(self, number: u64) -> Seq<char> {
        (self.indent + decimal(number as nat)).push(self.kind->delimiter) + self.spacing
    }

    /// The marker of the item after this one.
    pub open spec fn continuation(self) -> Seq<char> {
        match self.kind {
            ListMarkerKind::Bullet(mark) => self.indent.push(mark) + self.spacing,
            ListMarkerKind::Task(mark) => self.indent.push(mark) + " [ ] "@,
            ListMarkerKind::Ordered { number, delimiter } => (self.indent + decimal(
                number.saturating_add(1) as nat,
            )).push(delimiter) + self.spacing,
        }
    }
}

/// Whether a character can stand between a marker and its item.
pub open spec fn list_space(c: char) -> bool {
    c == ' ' || c == '\t'
}

pub fn is_list_space(c: char) -> (yes: bool)
    ensures
        yes == list_space(c),
{
    c == ' ' || c == '\t'
}

/// The first place from `i` on that is neither a space nor a tab.
pub open spec fn spaces_end(s: Seq<char>, i: int) -> int
    decreases s.len() - i,
{
    if 0 <= i < s.len() && list_space(s[i]) {
        spaces_end(s, i + 1)
    } else {
        i
    }
}

/// The first place from `i` on that is no digit.
pub open spec fn digits_end(s: Seq<char>, i: int) -> int
    decreases s.len() - i,
{
    if 0 <= i < s.len() && is_digit(s[i]) {
        digits_end(s, i + 1)
    } else {
        i
    }
}

/// Where a GFM checkbox (`[ ]`, `[x]`, `[X]`) at `at`, followed by a space or the end of the
/// line, ends, with the spaces after it.
pub open spec fn checkbox_end(s: Seq<char>, at: int) -> Option<int> {
    if at + 2 < s.len() && s[at] == '[' && (s[at + 1] == ' ' || s[at + 1] == 'x' || s[at + 1] == 'X')
        && s[at + 2] == ']' && (at + 3 >= s.len() || list_space(s[at + 3])) {
        Some(spaces_end(s, at + 3))
    } else {
        None
    }
}

/// Whether a character is a bullet.
pub open spec fn bullet(c: char) -> bool {
    c == '-' || c == '*' || c == '+'
}

/// The list marker that a line begins with: after any indentation a bullet, or one to nine
/// digits with a period or a parenthesis, and then at least one space.
pub open spec fn marker_of(s: Seq<char>) -> Option<MarkerView> {
    let m = spaces_end(s, 0);
    let d = digits_end(s, m);
    if m + 1 < s.len() && bullet(s[m]) && list_space(s[m + 1]) {
        let e = spaces_end(s, m + 2);
        let view = MarkerView {
            indent: s.take(m),
            kind: ListMarkerKind::Bullet(s[m]),
            spacing: s.subrange(m + 1, e),
            prefix_len: e,
        };
        match checkbox_end(s, e) {
            Some(end) => Some(
                MarkerView { kind: ListMarkerKind::Task(s[m]), prefix_len: end, ..view },
            ),
            None => Some(view),
        }
    } else if m < d <= m + 9 && d + 1 < s.len() && (s[d] == '.' || s[d] == ')') && list_space(
        s[d + 1],
    ) {
        let e = spaces_end(s, d + 2);
        Some(
            MarkerView {
                indent: s.take(m),
                kind: ListMarkerKind::Ordered {
                    number: digits_value(s.subrange(m, d)) as u64,
                    delimiter: s[d],
                },
                spacing: s.subrange(d + 1, e),
                prefix_len: e,
            },
        )
    } else {
        None
    }
}

/// Whether a line is only a list or number stub (`-`, `*`, `+`, `2.`) without an item.
pub open spec fn bare_marker(s: Seq<char>) -> bool {
    let t = trimmed(s);
    let d = digits_end(t, 0);
    ||| t.len() == 1 && bullet(t[0])
    ||| d > 0 && d + 1 == t.len() && (t[d] == '.' || t[d] == ')')
}

pub proof fn lemma_spaces_end(s: Seq<char>, i: int)
    requires
        0 <= i <= s.len(),
    ensures
        i <= spaces_end(s, i) <= s.len(),
        forall|j: int| i <= j < spaces_end(s, i) ==> list_space(#[trigger] s[j]),
    decreases s.len() - i,
{
    if i < s.len() && list_space(s[i]) {
        lemma_spaces_end(s, i + 1);
    }
}

pub proof fn lemma_digits_end(s: Seq<char>, i: int)
    requires
        0 <= i <= s.len(),
    ensures
        i <= digits_end(s, i) <= s.len(),
        forall|j: int| i <= j < digits_end(s, i) ==> is_digit(#[trigger] s[j]),
    decreases s.len() - i,
{
    if i < s.len() && is_digit(s[i]) {
        lemma_digits_end(s, i + 1);
    }
}

/// A marker is pure ASCII: its prefix takes as many bytes as characters.
pub proof fn lemma_marker_is_ascii(s: Seq<char>)
    requires
        marker_of(s) is Some,
    ensures
        0 <= (marker_of(s)->0).prefix_len <= s.len(),
        byte_len(s.take((marker_of(s)->0).prefix_len)) == (marker_of(s)->0).prefix_len,
{
    let p = (marker_of(s)->0).prefix_len;
    let m = spaces_end(s, 0);
    let d = digits_end(s, m);
    lemma_spaces_end(s, 0);
    lemma_digits_end(s, m);
    if m + 1 < s.len() && bullet(s[m]) && list_space(s[m + 1]) {
        let e = spaces_end(s, m + 2);
        lemma_spaces_end(s, m + 2);
        if checkbox_end(s, e) is Some {
            lemma_spaces_end(s, e + 3);
        }
    } else {
        lemma_spaces_end(s, d + 2);
    }
    assert forall|i: int| 0 <= i < s.take(p).len() implies (#[trigger] s.take(p)[i] as u32)
        < 0x80 by {
        assert(s.take(p)[i] == s[i]);
    }
    lemma_ascii_bytes(s.take(p));
}

pub open spec fn pow10(n: nat) -> nat
    decreases n,
{
    if n == 0 {
        1
    } else {
        10 * pow10((n - 1) as nat)
    }
}

proof fn lemma_digits_bound(s: Seq<char>)
    requires
        all_digits(s),
    ensures
        digits_value(s) < pow10(s.len()),
    decreases s.len(),
{
    if s.len() > 0 {
        assert(all_digits(s.drop_last()));
        assert(is_digit(s[s.len() - 1]));
        lemma_digits_bound(s.drop_last());
    }
}

/// A number below a power of ten has at most that many digits.
proof fn lemma_decimal_length(n: nat, k: nat)
    requires
        n < pow10(k),
        k > 0,
    ensures
        decimal(n).len() <= k,
    decreases k,
{
    if n >= 10 {
        assert(pow10(k) == 10 * pow10((k - 1) as nat));
        assert(k > 1) by {
            assert(pow10(0) == 1);
        }
        lemma_decimal_length(n / 10, (k - 1) as nat);
    }
}

/// Spaces end at the first character that is none.
pub proof fn lemma_spaces_stop(s: Seq<char>, i: int, e: int)
    requires
        0 <= i <= e <= s.len(),
        forall|j: int| i <= j < e ==> list_space(#[trigger] s[j]),
        e == s.len() || !list_space(s[e]),
    ensures
        spaces_end(s, i) == e,
    decreases e - i,
{
    if i < e {
        lemma_spaces_stop(s, i + 1, e);
    }
}

/// Digits end at the first character that is none.
proof fn lemma_digits_stop(s: Seq<char>, i: int, e: int)
    requires
        0 <= i <= e <= s.len(),
        forall|j: int| i <= j < e ==> is_digit(#[trigger] s[j]),
        e == s.len() || !is_digit(s[e]),
    ensures
        digits_end(s, i) == e,
    decreases e - i,
{
    if i < e {
        lemma_digits_stop(s, i + 1, e);
    }
}

/// What spaces and tabs end at is neither.
proof fn lemma_spaces_end_at(s: Seq<char>, i: int)
    requires
        0 <= i <= s.len(),
    ensures
        spaces_end(s, i) < s.len() ==> !list_space(s[spaces_end(s, i)]),
    decreases s.len() - i,
{
    if i < s.len() && list_space(s[i]) {
        lemma_spaces_end_at(s, i + 1);
    }
}

/// A marker with another number of at most nine digits, before anything that does not
/// begin with a space, is read as that number.
proof fn lemma_number_is_read(s: Seq<char>, number: u64, rest: Seq<char>)
    requires
        marker_of(s) is Some,
        (marker_of(s)->0).ordered(),
        number < 1_000_000_000,
        rest.len() == 0 || !list_space(rest[0]),
    ensures
        ({
            let m = marker_of(s)->0;
            marker_of(m.numbered(number) + rest) == Some(
                MarkerView {
                    kind: ListMarkerKind::Ordered { number, delimiter: m.kind->delimiter },
                    prefix_len: m.numbered(number).len() as int,
                    ..m
                },
            )
        }),
{
    let v = marker_of(s)->0;
    let m = spaces_end(s, 0);
    let d = digits_end(s, m);
    lemma_spaces_end(s, 0);
    lemma_digits_end(s, m);
    lemma_spaces_end(s, d + 2);
    let digits = decimal(number as nat);
    lemma_decimal_reads_back(number as nat);
    assert(pow10(9) == 1_000_000_000) by {
        reveal_with_fuel(pow10, 10);
    }
    lemma_decimal_length(number as nat, 9);
    let prefix = v.numbered(number);
    let line = prefix + rest;
    let stop = m + digits.len();
    let end = stop + 1 + v.spacing.len();
    assert(prefix.len() == end);
    assert forall|j: int| 0 <= j < m implies list_space(#[trigger] line[j]) by {
        assert(line[j] == s[j]);
    }
    assert forall|j: int| m <= j < stop implies is_digit(#[trigger] line[j]) by {
        assert(line[j] == digits[j - m]);
    }
    assert(line[stop] == v.kind->delimiter);
    assert forall|j: int| stop < j < end implies list_space(#[trigger] line[j]) by {
        assert(line[j] == v.spacing[j - stop - 1]);
        assert(line[j] == s[d + 1 + (j - stop - 1)]);
    }
    assert(is_digit(line[m]));
    lemma_spaces_stop(line, 0, m);
    lemma_digits_stop(line, m, stop);
    if end < line.len() {
        assert(line[end] == rest[0]);
    }
    lemma_spaces_stop(line, stop + 2, end);
    assert(line.take(m) =~= v.indent);
    assert(line.subrange(m, stop) =~= digits);
    assert(line.subrange(stop + 1, end) =~= v.spacing);
}

/// An item that was given another number of at most nine digits has that number, the
/// indentation, the delimiter and the spacing that it had, and the same content.
pub proof fn lemma_number_reads_back(s: Seq<char>, number: u64)
    requires
        marker_of(s) is Some,
        (marker_of(s)->0).ordered(),
        number < 1_000_000_000,
    ensures
        ({
            let m = marker_of(s)->0;
            let line = m.numbered(number) + s.skip(m.prefix_len);
            &&& marker_of(line) == Some(
                MarkerView {
                    kind: ListMarkerKind::Ordered { number, delimiter: m.kind->delimiter },
                    prefix_len: m.numbered(number).len() as int,
                    ..m
                },
            )
            &&& line.skip(m.numbered(number).len() as int) == s.skip(m.prefix_len)
        }),
{
    let v = marker_of(s)->0;
    let d = digits_end(s, spaces_end(s, 0));
    lemma_spaces_end(s, 0);
    lemma_digits_end(s, spaces_end(s, 0));
    lemma_spaces_end(s, d + 2);
    lemma_spaces_end_at(s, d + 2);
    let rest = s.skip(v.prefix_len);
    lemma_number_is_read(s, number, rest);
    assert((v.numbered(number) + rest).skip(v.numbered(number).len() as int) =~= rest);
}

/// A bullet before anything that does not begin with a space is read as that bullet, or as
/// that of a task, where a checkbox follows.
pub(crate) proof fn lemma_bullet_is_read(indent: Seq<char>, mark: char, spacing: Seq<char>, rest: Seq<char>)
    requires
        forall|j: int| 0 <= j < indent.len() ==> list_space(#[trigger] indent[j]),
        bullet(mark),
        spacing.len() > 0,
        forall|j: int| 0 <= j < spacing.len() ==> list_space(#[trigger] spacing[j]),
        rest.len() == 0 || !list_space(rest[0]),
    ensures
        ({
            let prefix = indent.push(mark) + spacing;
            marker_of(prefix + rest) == Some(
                match checkbox_end(prefix + rest, prefix.len() as int) {
                    Some(end) => MarkerView {
                        indent,
                        kind: ListMarkerKind::Task(mark),
                        spacing,
                        prefix_len: end,
                    },
                    None => MarkerView {
                        indent,
                        kind: ListMarkerKind::Bullet(mark),
                        spacing,
                        prefix_len: prefix.len() as int,
                    },
                },
            )
        }),
{
    let prefix = indent.push(mark) + spacing;
    let line = prefix + rest;
    let m = indent.len() as int;
    let end = prefix.len() as int;
    assert forall|j: int| 0 <= j < m implies list_space(#[trigger] line[j]) by {
        assert(line[j] == indent[j]);
    }
    assert(line[m] == mark);
    assert forall|j: int| m < j < end implies list_space(#[trigger] line[j]) by {
        assert(line[j] == spacing[j - m - 1]);
    }
    if end < line.len() {
        assert(line[end] == rest[0]);
    }
    lemma_spaces_stop(line, 0, m);
    lemma_spaces_stop(line, m + 2, end);
    assert(line.take(m) =~= indent);
    assert(line.subrange(m + 1, end) =~= spacing);
}

/// Continuing a list makes an item of the same list: with the same indentation, and the
/// same bullet, an unchecked box, or the next number.
pub proof fn lemma_lists_continue(s: Seq<char>, rest: Seq<char>)
    requires
        marker_of(s) is Some,
        rest.len() == 0 || !list_space(rest[0]),
        match (marker_of(s)->0).kind {
            ListMarkerKind::Bullet(_) => checkbox_end(rest, 0) is None,
            ListMarkerKind::Task(_) => true,
            ListMarkerKind::Ordered { number, delimiter } => number < 999_999_999,
        },
    ensures
        ({
            let m = marker_of(s)->0;
            let next = marker_of(m.continuation() + rest);
            &&& next is Some
            &&& (next->0).indent == m.indent
            &&& (next->0).prefix_len == m.continuation().len()
            &&& (next->0).kind == match m.kind {
                ListMarkerKind::Ordered { number, delimiter } => ListMarkerKind::Ordered {
                    number: (number + 1) as u64,
                    delimiter,
                },
                kind => kind,
            }
        }),
{
    let v = marker_of(s)->0;
    let m = spaces_end(s, 0);
    lemma_spaces_end(s, 0);
    match v.kind {
        ListMarkerKind::Ordered { number, delimiter } => {
            lemma_number_is_read(s, (number + 1) as u64, rest);
            assert(v.continuation() =~= v.numbered((number + 1) as u64));
        },
        ListMarkerKind::Bullet(mark) => {
            lemma_spaces_end(s, m + 2);
            let prefix = v.indent.push(mark) + v.spacing;
            let line = prefix + rest;
            lemma_bullet_is_read(v.indent, mark, v.spacing, rest);
            assert(forall|j: int|
                0 <= j < rest.len() ==> #[trigger] line[prefix.len() + j] == rest[j]);
        },
        ListMarkerKind::Task(mark) => {
            reveal_strlit(" [ ] ");
            let tail = "[ ] "@;
            reveal_strlit("[ ] ");
            let line = v.continuation() + rest;
            let prefix = v.indent.push(mark) + seq![' '];
            assert(line =~= prefix + (tail + rest));
            lemma_bullet_is_read(v.indent, mark, seq![' '], tail + rest);
            let at = prefix.len() as int;
            if at + 4 < line.len() {
                assert(line[at + 4] == rest[0]);
            }
            lemma_spaces_stop(line, at + 3, at + 4);
        },
    }
}

pub fn skip_spaces(s: &Vec<char>, i: usize) -> (e: usize)
    requires
        i <= s@.len(),
    ensures
        e == spaces_end(s@, i as int),
        i <= e <= s@.len(),
{
    let mut e: usize = i;
    while e < s.len() && is_list_space(s[e])
        invariant
            i <= e <= s@.len(),
            spaces_end(s@, i as int) == spaces_end(s@, e as int),
        decreases s@.len() - e,
    {
        e += 1;
    }
    e
}

/// The first place from `i` on that is no digit.
pub fn skip_digits(s: &Vec<char>, i: usize) -> (e: usize)
    requires
        i <= s@.len(),
    ensures
        e == digits_end(s@, i as int),
        i <= e <= s@.len(),
{
    let mut e: usize = i;
    while e < s.len() && '0' <= s[e] && s[e] <= '9'
        invariant
            i <= e <= s@.len(),
            digits_end(s@, i as int) == digits_end(s@, e as int),
        decreases s@.len() - e,
    {
        e += 1;
    }
    e
}

fn number_between(s: &Vec<char>, from: usize, to: usize) -> (n: u64)
    requires
        from <= to <= s@.len(),
        to - from <= 9,
        all_digits(s@.subrange(from as int, to as int)),
    ensures
        n == digits_value(s@.subrange(from as int, to as int)),
{
    let ghost d = s@.subrange(from as int, to as int);
    let mut n: u64 = 0;
    let mut i: usize = from;
    assert(d.take(0) =~= Seq::<char>::empty());
    while i < to
        invariant
            from <= i <= to <= s@.len(),
            to - from <= 9,
            d == s@.subrange(from as int, to as int),
            all_digits(d),
            n == digits_value(d.take(i - from)),
        decreases to - i,
    {
        let ghost k = i - from;
        proof {
            assert(all_digits(d.take(k)));
            lemma_digits_bound(d.take(k));
            reveal_with_fuel(pow10, 10);
            assert(n < 1_000_000_000);
            assert(is_digit(d[k]) && d[k] == s@[i as int]);
            assert(d.take(k + 1).drop_last() =~= d.take(k));
            assert(d.take(k + 1).last() == d[k]);
        }
        n = n * 10 + (s[i] as u32 - 48) as u64;
        i += 1;
    }
    assert(d.take(d.len() as int) =~= d);
    n
}

/// If a GFM checkbox (`[ ]`, `[x]`, `[X]`) followed by a space or the end stands at `at`,
/// the place just past it (and any trailing spaces); otherwise `None`.
pub fn task_checkbox_end(s: &Vec<char>, at: usize) -> (end: Option<usize>)
    requires
        at <= s@.len(),
    ensures
        match end {
            Some(e) => checkbox_end(s@, at as int) == Some(e as int) && at < e <= s@.len(),
            None => checkbox_end(s@, at as int) is None,
        },
{
    let n: usize = s.len();
    if n - at > 2 && s[at] == '[' && (s[at + 1] == ' ' || s[at + 1] == 'x' || s[at + 1] == 'X')
        && s[at + 2] == ']' && (at + 3 >= n || is_list_space(s[at + 3])) {
        Some(skip_spaces(s, at + 3))
    } else {
        None
    }
}

/// The list marker that a line begins with.
pub fn parse_list_marker(line: &str) -> (marker: Option<ListMarker>)
    ensures
        match marker {
            Some(m) => marker_of(line@) == Some(m@),
            None => marker_of(line@) is None,
        },
{
    let s = to_chars(line);
    let n: usize = s.len();
    let m: usize = skip_spaces(&s, 0);
    assert(s@.subrange(0, m as int) =~= s@.take(m as int));
    if n - m > 1 && (s[m] == '-' || s[m] == '*' || s[m] == '+') && is_list_space(s[m + 1]) {
        let e: usize = skip_spaces(&s, m + 2);
        let (kind, prefix_len) = match task_checkbox_end(&s, e) {
            Some(end) => (ListMarkerKind::Task(s[m]), end),
            None => (ListMarkerKind::Bullet(s[m]), e),
        };
        return Some(
            ListMarker {
                indent: from_chars(&s, 0, m),
                kind,
                spacing: from_chars(&s, m + 1, e),
                prefix_len,
            },
        );
    }
    let d: usize = skip_digits(&s, m);
    if d == m || d - m > 9 || n - d <= 1 {
        return None;
    }
    if (s[d] != '.' && s[d] != ')') || !is_list_space(s[d + 1]) {
        return None;
    }
    let e: usize = skip_spaces(&s, d + 2);
    proof {
        lemma_digits_end(s@, m as int);
        assert(all_digits(s@.subrange(m as int, d as int)));
    }
    let number: u64 = number_between(&s, m, d);
    Some(
        ListMarker {
            indent: from_chars(&s, 0, m),
            kind: ListMarkerKind::Ordered { number, delimiter: s[d] },
            spacing: from_chars(&s, d + 1, e),
            prefix_len: e,
        },
    )
}

impl ListMarker {
    /// Whether the marker is a number.
    pub fn is_ordered(&self) -> (yes: bool)
        ensures
            yes == self@.ordered(),
    {
        match self.kind {
            ListMarkerKind::Ordered { number: _, delimiter: _ } => true,
            _ => false,
        }
    }

    /// The marker of the item after this one.
    pub fn continuation_prefix(&self) -> (text: String)
        ensures
            text@ == self@.continuation(),
    {
        let mut out = self.indent.clone();
        match self.kind {
            ListMarkerKind::Bullet(mark) => {
                out.push(mark);
                out.append(self.spacing.as_str());
            },
            ListMarkerKind::Task(mark) => {
                out.push(mark);
                out.append(" [ ] ");
            },
            ListMarkerKind::Ordered { number, delimiter } => {
                push_number(&mut out, number.saturating_add(1));
                out.push(delimiter);
                out.append(self.spacing.as_str());
            },
        }
        out
    }
}

/// Whether `line` is only a space-less list/number stub (`-`, `*`, `+`, `2.`)
/// the user never completed into an item.
pub fn is_bare_marker(line: &str) -> (yes: bool)
    ensures
        yes == bare_marker(line@),
{
    let all = to_chars(line);
    let (a, b) = trim_bounds(&all);
    let body = from_chars(&all, a, b);
    let t = to_chars(body.as_str());
    if t.len() == 1 && (t[0] == '-' || t[0] == '*' || t[0] == '+') {
        return true;
    }
    let d: usize = skip_digits(&t, 0);
    d > 0 && t.len() - d == 1 && (t[d] == '.' || t[d] == ')')
}

/// The white space that a line begins with.
pub open spec fn indentation(s: Seq<char>) -> Seq<char> {
    s.take(s.len() - trim_start(s).len())
}

/// The white space that a line begins with.
pub fn leading_indent(line: &str) -> (indent: String)
    ensures
        indent@ == indentation(line@),
{
    let chars = to_chars(line);
    let n: usize = lead_length(&chars);
    assert(chars@.subrange(0, n as int) =~= chars@.take(n as int));
    from_chars(&chars, 0, n)
}

} // verus!
