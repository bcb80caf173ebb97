//! What is wrong with a Markdown document: unmatched fences, broken references,
//! malformed tables and duplicate headings.

use vstd::prelude::*;
use vstd::utf8::*;

use crate::bytes::slice;
use crate::cells::{
    all_dashes, are_dashes, cells_of, inner_row, pipe_positions, pipes, raw_cells,
};
use crate::fence::{fence_after, fence_marker, fence_of, run_end, run_stop, step_fence};
use crate::navigation::{group_text, matched};
use crate::pattern::{find_captures, group_fits, group_views, groups_fit};
use crate::strings::{
    ascii_space, contains_char, decimal, from_chars, has_char, is_ascii_space, is_white_space,
    joined, lines_from, push_decimal, same, strip_back, strip_end, text_lines, to_chars, trim,
    trimmed, views, white_space,
};

verus! {

/// Something wrong, and the line it is on.
#[derive(Debug)]
pub struct Diagnostic {
    pub line: usize,
    pub message: String,
}

/// What a [`Diagnostic`] says.
#[verifier::ext_equal]
pub struct DiagnosticView {
    pub line: int,
    pub message: Seq<char>,
}

impl View for Diagnostic {
    type V = DiagnosticView;

    open spec fn view(&self) -> DiagnosticView {
        DiagnosticView { line: self.line as int, message: self.message@ }
    }
}

/// What diagnostics say.
pub open spec fn diagnostic_views(items: Seq<Diagnostic>) -> Seq<DiagnosticView> {
    items.map_values(|d: Diagnostic| d@)
}

/// The definition of a label, which is group 1.
pub const DEFINITION: &'static str = "^\\s*\\[([^]]+)\\]:";

/// A reference; its text is group 1, its label group 2.
pub const REFERENCE: &'static str = "\\[([^]]+)\\]\\[([^]]*)\\]";

/// A footnote reference; its name is group 1.
pub const FOOTNOTE: &'static str = "\\[\\^([^]]+)\\]";

/// A text in lower case.
pub uninterp spec fn lowered(text: Seq<char>) -> Seq<char>;

/// `str::to_lowercase` depends on the text alone; how letters are lowered is for Unicode
/// to say.
pub assume_specification[ str::to_lowercase ](s: &str) -> (out: String)
    ensures
        out@ == lowered(s@),
;

/// The first `n` characters with each run of white space between words as one space, and
/// whether white space came last.
pub open spec fn collapsed(s: Seq<char>, n: int) -> (Seq<char>, bool)
    decreases n,
{
    if n <= 0 {
        (Seq::empty(), false)
    } else {
        let (out, gap) = collapsed(s, n - 1);
        let c = s[n - 1];
        if white_space(c) {
            (out, true)
        } else if gap && out.len() > 0 {
            (out.push(' ').push(c), false)
        } else {
            (out.push(c), false)
        }
    }
}

/// A label as it is compared: in lower case, its words one space apart.
pub open spec fn normalized(label: Seq<char>) -> Seq<char> {
    lowered(collapsed(label, label.len() as int).0)
}

/// The fence that is open before a line.
pub open spec fn open_before(lines: Seq<Seq<char>>, i: int) -> Option<(char, usize)>
    decreases i,
{
    if i <= 0 {
        None
    } else {
        fence_after(open_before(lines, i - 1), lines[i - 1])
    }
}

/// Whether a line is part of a fenced block, its fences too.
pub open spec fn fenced(lines: Seq<Seq<char>>, i: int) -> bool {
    fence_of(lines[i]) is Some || open_before(lines, i) is Some
}

/// The line of the fence that is open after the first `n` lines.
pub open spec fn open_line(lines: Seq<Seq<char>>, n: int) -> int
    decreases n,
{
    if n <= 0 {
        0
    } else if open_before(lines, n - 1) is None && open_before(lines, n) is Some {
        n - 1
    } else {
        open_line(lines, n - 1)
    }
}

/// The fence that nothing closes.
pub open spec fn fence_items(lines: Seq<Seq<char>>) -> Seq<DiagnosticView> {
    if open_before(lines, lines.len() as int) is Some {
        seq![
            DiagnosticView {
                line: open_line(lines, lines.len() as int),
                message: "Unmatched code fence"@,
            },
        ]
    } else {
        Seq::empty()
    }
}

/// The label that a line defines.
pub open spec fn definition_of(line: Seq<char>) -> Option<Seq<char>> {
    let m = matched(DEFINITION@, line);
    if m.len() == 0 {
        None
    } else {
        match group_text(encode_utf8(line), m[0], 1) {
            Some(label) => Some(normalized(label)),
            None => None,
        }
    }
}

/// Whether a line outside fences defines a label.
pub open spec fn defines(lines: Seq<Seq<char>>, label: Seq<char>, i: int) -> bool {
    0 <= i < lines.len() && !fenced(lines, i) && definition_of(lines[i]) == Some(label)
}

/// Whether any line outside fences defines a label.
pub open spec fn defined(lines: Seq<Seq<char>>, label: Seq<char>) -> bool {
    exists|i: int| defines(lines, label, i)
}

/// The text of a group, or nothing.
pub open spec fn group_or_empty(
    b: Seq<u8>,
    groups: Seq<Option<(usize, usize)>>,
    group: int,
) -> Seq<char> {
    match group_text(b, groups, group) {
        Some(t) => t,
        None => Seq::empty(),
    }
}

/// What a reference refers to: its label, or its text where that is empty.
pub open spec fn referred(b: Seq<u8>, groups: Seq<Option<(usize, usize)>>) -> Seq<char> {
    let label = group_or_empty(b, groups, 2);
    if label.len() == 0 {
        group_or_empty(b, groups, 1)
    } else {
        label
    }
}

/// The broken ones of the first `n` references of a line.
pub open spec fn broken_references(lines: Seq<Seq<char>>, i: int, n: int) -> Seq<DiagnosticView>
    decreases n,
{
    if n <= 0 {
        Seq::empty()
    } else {
        let before = broken_references(lines, i, n - 1);
        let target = referred(encode_utf8(lines[i]), matched(REFERENCE@, lines[i])[n - 1]);
        if defined(lines, normalized(target)) {
            before
        } else {
            before.push(
                DiagnosticView { line: i, message: "Broken reference: ["@ + target + "]"@ },
            )
        }
    }
}

/// The broken ones of the first `n` footnotes of a line.
pub open spec fn broken_footnotes(lines: Seq<Seq<char>>, i: int, n: int) -> Seq<DiagnosticView>
    decreases n,
{
    if n <= 0 {
        Seq::empty()
    } else {
        let before = broken_footnotes(lines, i, n - 1);
        let name = group_or_empty(encode_utf8(lines[i]), matched(FOOTNOTE@, lines[i])[n - 1], 1);
        if defined(lines, normalized("^"@ + name)) {
            before
        } else {
            before.push(
                DiagnosticView { line: i, message: "Broken footnote: [^"@ + name + "]"@ },
            )
        }
    }
}

/// The broken references and footnotes of a line.
pub open spec fn line_references(lines: Seq<Seq<char>>, i: int) -> Seq<DiagnosticView> {
    if fenced(lines, i) || matched(DEFINITION@, lines[i]).len() > 0 {
        Seq::empty()
    } else {
        broken_references(lines, i, matched(REFERENCE@, lines[i]).len() as int) + broken_footnotes(
            lines,
            i,
            matched(FOOTNOTE@, lines[i]).len() as int,
        )
    }
}

/// The broken references and footnotes of the first `n` lines.
pub open spec fn reference_items(lines: Seq<Seq<char>>, n: int) -> Seq<DiagnosticView>
    decreases n,
{
    if n <= 0 {
        Seq::empty()
    } else {
        reference_items(lines, n - 1) + line_references(lines, n - 1)
    }
}

/// Whether a line has a pipe that is not escaped.
pub open spec fn piped(line: Seq<char>) -> bool {
    pipes(trimmed(line)).len() > 0
}

/// The cells of a line.
pub open spec fn line_cells(line: Seq<char>) -> Seq<Seq<char>> {
    cells_of(inner_row(trimmed(line)))
}

/// The last line of the table that goes on at line `i`.
pub open spec fn table_last(lines: Seq<Seq<char>>, i: int) -> int
    decreases lines.len() - i,
{
    if i + 1 < lines.len() && !fenced(lines, i + 1) && piped(lines[i + 1]) {
        table_last(lines, i + 1)
    } else {
        i
    }
}

/// The rows of a table from its separator on, before line `n`, that have another number of
/// cells than its header.
pub open spec fn uneven_rows(lines: Seq<Seq<char>>, start: int, n: int) -> Seq<DiagnosticView>
    decreases n - start,
{
    if n <= start + 1 {
        Seq::empty()
    } else {
        let before = uneven_rows(lines, start, n - 1);
        if line_cells(lines[n - 1]).len() != line_cells(lines[start]).len() {
            before.push(
                DiagnosticView {
                    line: n - 1,
                    message: "Malformed table: inconsistent column count"@,
                },
            )
        } else {
            before
        }
    }
}

/// What is wrong with the table on the lines `[start, last]`.
pub open spec fn one_table(lines: Seq<Seq<char>>, start: int, last: int) -> Seq<DiagnosticView> {
    if !all_dashes(line_cells(lines[start + 1]), 3) {
        seq![DiagnosticView { line: start + 1, message: "Malformed table separator"@ }]
    } else {
        uneven_rows(lines, start, last + 1)
    }
}

/// What is wrong with the tables from line `i` on.
pub open spec fn table_items(lines: Seq<Seq<char>>, i: int) -> Seq<DiagnosticView>
    decreases lines.len() - i,
{
    if i < 0 || i + 1 >= lines.len() {
        Seq::empty()
    } else if fenced(lines, i) || !piped(lines[i]) || !piped(lines[i + 1]) {
        table_items(lines, i + 1)
    } else {
        let last = table_last(lines, i + 1);
        if i < last < lines.len() {
            one_table(lines, i, last) + table_items(lines, last + 1)
        } else {
            Seq::empty()
        }
    }
}

/// Whether a line is a heading of its own, with its number of hashes.
pub open spec fn heading_hashes(line: Seq<char>) -> Option<int> {
    let n = run_end(line, 0, '#');
    if 1 <= n <= 6 && n < line.len() && ascii_space(line[n]) {
        Some(n)
    } else {
        None
    }
}

/// The title of a heading after its hashes.
pub open spec fn hashed_title(line: Seq<char>, n: int) -> Seq<char> {
    trimmed(strip_end(trimmed(line.skip(n)), '#'))
}

/// Whether a text is an underline of at least three characters.
pub open spec fn underline(s: Seq<char>) -> bool {
    s.len() >= 3 && (s[0] == '=' || s[0] == '-') && forall|i: int|
        0 <= i < s.len() ==> #[trigger] s[i] == s[0]
}

/// The title of the heading that a line is.
pub open spec fn title_of(lines: Seq<Seq<char>>, i: int) -> Option<Seq<char>> {
    let t = trimmed(lines[i]);
    match heading_hashes(t) {
        Some(n) => Some(hashed_title(t, n)),
        None => if i + 1 < lines.len() && !fenced(lines, i + 1) && t.len() > 0 && !has_char(t, '|')
            && underline(trimmed(lines[i + 1])) {
            Some(t)
        } else {
            None
        },
    }
}

/// The first of the first `n` lines that is a heading with the given title in lower case.
pub open spec fn first_heading(lines: Seq<Seq<char>>, key: Seq<char>, n: int) -> Option<int>
    decreases n,
{
    if n <= 0 {
        None
    } else {
        match first_heading(lines, key, n - 1) {
            Some(first) => Some(first),
            None => if heading_key(lines, n - 1) == Some(key) {
                Some(n - 1)
            } else {
                None
            },
        }
    }
}

/// The duplicate headings among the first `n` lines.
pub open spec fn heading_items(lines: Seq<Seq<char>>, n: int) -> Seq<DiagnosticView>
    decreases n,
{
    if n <= 0 {
        Seq::empty()
    } else {
        let before = heading_items(lines, n - 1);
        match title_of(lines, n - 1) {
            Some(title) if !fenced(lines, n - 1) => match first_heading(
                lines,
                lowered(title),
                n - 1,
            ) {
                Some(first) => before.push(
                    DiagnosticView {
                        line: n - 1,
                        message: "Duplicate heading (first at line "@ + decimal((first + 1) as nat)
                            + ")"@,
                    },
                ),
                None => before,
            },
            _ => before,
        }
    }
}

/// Where an item goes among items in order: after all on its line or before.
pub open spec fn slot(items: Seq<DiagnosticView>, line: int, k: int) -> int
    decreases k,
{
    if k <= 0 || items[k - 1].line <= line {
        k
    } else {
        slot(items, line, k - 1)
    }
}

/// The first `n` items in the order of their lines.
pub open spec fn in_line_order(items: Seq<DiagnosticView>, n: int) -> Seq<DiagnosticView>
    decreases n,
{
    if n <= 0 {
        Seq::empty()
    } else {
        let sorted = in_line_order(items, n - 1);
        sorted.insert(slot(sorted, items[n - 1].line, sorted.len() as int), items[n - 1])
    }
}

/// Everything that is wrong with a document, as it is found.
pub open spec fn all_items(lines: Seq<Seq<char>>) -> Seq<DiagnosticView> {
    let n = lines.len() as int;
    fence_items(lines) + reference_items(lines, n) + table_items(lines, 0) + heading_items(lines, n)
}

/// Everything that is wrong with a document, in the order of its lines.
pub open spec fn diagnosed(text: Seq<char>) -> Seq<DiagnosticView> {
    let items = all_items(lines_from(text, 0));
    in_line_order(items, items.len() as int)
}

proof fn lemma_slot(items: Seq<DiagnosticView>, line: int, k: int)
    requires
        0 <= k <= items.len(),
    ensures
        0 <= slot(items, line, k) <= k,
        forall|i: int| slot(items, line, k) <= i < k ==> line < (#[trigger] items[i]).line,
        slot(items, line, k) > 0 ==> items[slot(items, line, k) - 1].line <= line,
    decreases k,
{
    if k > 0 && items[k - 1].line > line {
        lemma_slot(items, line, k - 1);
    }
}

/// Diagnostics come in the order of their lines, and none is lost or made up.
pub proof fn lemma_diagnostics_are_ordered(items: Seq<DiagnosticView>, n: int)
    requires
        0 <= n <= items.len(),
    ensures
        in_line_order(items, n).len() == n,
        forall|i: int, j: int|
            0 <= i <= j < n ==> (#[trigger] in_line_order(items, n)[i]).line <= (
            #[trigger] in_line_order(items, n)[j]).line,
        in_line_order(items, n).to_multiset() =~= items.take(n).to_multiset(),
    decreases n,
{
    if n > 0 {
        lemma_diagnostics_are_ordered(items, n - 1);
        let sorted = in_line_order(items, n - 1);
        let x = items[n - 1];
        let at = slot(sorted, x.line, sorted.len() as int);
        lemma_slot(sorted, x.line, sorted.len() as int);
        let out = in_line_order(items, n);
        assert(out == sorted.insert(at, x));
        assert forall|i: int, j: int| 0 <= i <= j < n implies (#[trigger] out[i]).line <= (
        #[trigger] out[j]).line by {
            if i < at && at > 0 {
                assert(sorted[i].line <= sorted[at - 1].line);
            }
        }
        broadcast use vstd::seq_lib::group_to_multiset_ensures;

        assert(items.take(n) =~= items.take(n - 1).push(x));
        vstd::seq_lib::to_multiset_insert(sorted, at, x);
    } else {
        broadcast use vstd::seq_lib::group_to_multiset_ensures;

        assert(items.take(0) =~= Seq::<DiagnosticView>::empty());
        assert(in_line_order(items, 0) =~= Seq::<DiagnosticView>::empty());
    }
}

/// A label as it is compared.
pub fn normalize_label(label: &str) -> (out: String)
    ensures
        out@ == normalized(label@),
{
    let chars = to_chars(label);
    let mut out = String::new();
    let mut gap = false;
    let mut some = false;
    let mut i: usize = 0;
    assert(out@ =~= Seq::<char>::empty());
    while i < chars.len()
        invariant
            i <= chars@.len(),
            chars@ == label@,
            (out@, gap) == collapsed(label@, i as int),
            some == (out@.len() > 0),
        decreases chars@.len() - i,
    {
        let c = chars[i];
        if is_white_space(c) {
            gap = true;
        } else {
            if gap && some {
                out.push(' ');
            }
            gap = false;
            some = true;
            out.push(c);
        }
        i += 1;
    }
    out.as_str().to_lowercase()
}

fn line_views_index(lines: &Vec<String>, i: usize) -> (line: &str)
    requires
        i < lines@.len(),
    ensures
        line@ == views(lines@)[i as int],
{
    lines[i].as_str()
}

/// Which lines are part of fenced blocks.
pub fn fenced_lines(lines: &Vec<String>) -> (mask: Vec<bool>)
    ensures
        mask@.len() == lines@.len(),
        forall|i: int| 0 <= i < mask@.len() ==> #[trigger] mask@[i] == fenced(views(lines@), i),
{
    let ghost v = views(lines@);
    let mut mask: Vec<bool> = Vec::new();
    let mut open: Option<(char, usize)> = None;
    let mut i: usize = 0;
    while i < lines.len()
        invariant
            i <= lines@.len(),
            v == views(lines@),
            open == open_before(v, i as int),
            mask@.len() == i,
            forall|k: int| 0 <= k < i ==> #[trigger] mask@[k] == fenced(v, k),
        decreases lines@.len() - i,
    {
        let line = line_views_index(lines, i);
        mask.push(fence_marker(line).is_some() || open.is_some());
        open = step_fence(open, line);
        i += 1;
    }
    mask
}

/// The fence that nothing closes.
pub fn fence_diagnostics(lines: &Vec<String>) -> (items: Vec<Diagnostic>)
    ensures
        diagnostic_views(items@) == fence_items(views(lines@)),
{
    let ghost v = views(lines@);
    let mut open: Option<(char, usize)> = None;
    let mut at: usize = 0;
    let mut i: usize = 0;
    while i < lines.len()
        invariant
            i <= lines@.len(),
            v == views(lines@),
            open == open_before(v, i as int),
            at == open_line(v, i as int),
        decreases lines@.len() - i,
    {
        let line = line_views_index(lines, i);
        let next = step_fence(open, line);
        if open.is_none() && next.is_some() {
            at = i;
        }
        open = next;
        i += 1;
    }
    let mut items: Vec<Diagnostic> = Vec::new();
    if open.is_some() {
        items.push(Diagnostic { line: at, message: "Unmatched code fence".to_owned() });
    }
    assert(diagnostic_views(items@) =~= fence_items(v));
    items
}

fn captures_of(pattern: &str, text: &str) -> (m: Vec<Vec<Option<(usize, usize)>>>)
    ensures
        group_views(m@) == matched(pattern@, text@),
        groups_fit(group_views(m@), encode_utf8(text@)),
        group_views(m@).len() == m@.len(),
{
    match find_captures(pattern, false, text) {
        Ok(m) => m,
        Err(_e) => {
            let none: Vec<Vec<Option<(usize, usize)>>> = Vec::new();
            assert(group_views(none@) =~= Seq::empty());
            none
        },
    }
}

fn group_string(text: &str, m: &Vec<Vec<Option<(usize, usize)>>>, i: usize, group: usize) -> (t: String)
    requires
        i < m@.len(),
        groups_fit(group_views(m@), encode_utf8(text@)),
    ensures
        t@ == group_or_empty(encode_utf8(text@), group_views(m@)[i as int], group as int),
{
    let ghost v = group_views(m@);
    assert(v[i as int] == m@[i as int]@);
    if group < m[i].len() {
        assert(group_fits(v[i as int][group as int], encode_utf8(text@)));
        if let Some((s, e)) = m[i][group] {
            return slice(text, s, e).to_owned();
        }
    }
    let none = String::new();
    assert(none@ =~= Seq::<char>::empty());
    none
}

/// Whether one of the first `n` lines defines a label.
spec fn known(lines: Seq<Seq<char>>, label: Seq<char>, n: int) -> bool {
    exists|j: int| 0 <= j < n && defines(lines, label, j)
}

/// The labels that lines outside fences define.
fn definitions(lines: &Vec<String>, mask: &Vec<bool>) -> (labels: Vec<String>)
    requires
        mask@.len() == lines@.len(),
        forall|i: int| 0 <= i < mask@.len() ==> #[trigger] mask@[i] == fenced(views(lines@), i),
    ensures
        forall|label: Seq<char>|
            #![trigger defined(views(lines@), label)]
            defined(views(lines@), label) <==> views(labels@).contains(label),
{
    let ghost v = views(lines@);
    let mut labels: Vec<String> = Vec::new();
    let mut i: usize = 0;
    while i < lines.len()
        invariant
            i <= lines@.len(),
            v == views(lines@),
            v.len() == lines@.len(),
            mask@.len() == lines@.len(),
            forall|i: int| 0 <= i < mask@.len() ==> #[trigger] mask@[i] == fenced(v, i),
            forall|k: int| 0 <= k < labels@.len() ==> known(v, (#[trigger] labels@[k])@, i as int),
            forall|j: int, label: Seq<char>|
                0 <= j < i && #[trigger] defines(v, label, j) ==> exists|k: int|
                    0 <= k < labels@.len() && (#[trigger] labels@[k])@ == label,
        decreases lines@.len() - i,
    {
        let line = line_views_index(lines, i);
        let ghost before = labels@;
        if !mask[i] {
            let m = captures_of(DEFINITION, line);
            if m.len() > 0 {
                let ghost g = group_views(m@);
                assert(g[0] == m@[0]@);
                if m[0].len() > 1 && m[0][1].is_some() {
                    let label = normalize_label(group_string(line, &m, 0, 1).as_str());
                    assert(definition_of(v[i as int]) == Some(label@));
                    assert(defines(v, label@, i as int));
                    let ghost one = label@;
                    labels.push(label);
                    proof {
                        assert(labels@[before.len() as int]@ == one);
                        assert(known(v, one, i + 1));
                    }
                }
            }
        }
        proof {
            assert forall|k: int| 0 <= k < labels@.len() implies known(
                v,
                (#[trigger] labels@[k])@,
                i + 1,
            ) by {
                if k < before.len() {
                    assert(known(v, before[k]@, i as int));
                }
            }
            assert forall|j: int, label: Seq<char>|
                0 <= j < i + 1 && #[trigger] defines(v, label, j) implies exists|k: int|
                0 <= k < labels@.len() && (#[trigger] labels@[k])@ == label by {
                if j < i {
                    let k = choose|k: int|
                        0 <= k < before.len() && (#[trigger] before[k])@ == label;
                    assert(labels@[k]@ == label);
                } else {
                    assert(labels@.len() == before.len() + 1);
                    assert(labels@[before.len() as int]@ == label);
                }
            }
        }
        i += 1;
    }
    proof {
        assert forall|label: Seq<char>|
            #![trigger defined(v, label)]
            defined(v, label) <==> views(labels@).contains(label) by {
            if defined(v, label) {
                let j = choose|j: int| defines(v, label, j);
                let k = choose|k: int| 0 <= k < labels@.len() && (#[trigger] labels@[k])@ == label;
                assert(views(labels@)[k] == label);
            }
            if views(labels@).contains(label) {
                let k = choose|k: int| 0 <= k < views(labels@).len() && views(labels@)[k] == label;
                assert(labels@[k]@ == label);
                assert(known(v, labels@[k]@, i as int));
            }
        }
    }
    labels
}

fn has_label(labels: &Vec<String>, label: &str) -> (yes: bool)
    ensures
        yes == views(labels@).contains(label@),
{
    let mut i: usize = 0;
    while i < labels.len()
        invariant
            i <= labels@.len(),
            forall|k: int| 0 <= k < i ==> (#[trigger] labels@[k])@ != label@,
        decreases labels@.len() - i,
    {
        if same(labels[i].as_str(), label) {
            assert(views(labels@)[i as int] == label@);
            return true;
        }
        i += 1;
    }
    proof {
        if views(labels@).contains(label@) {
            let k = choose|k: int| 0 <= k < views(labels@).len() && views(labels@)[k] == label@;
            assert(labels@[k]@ == label@);
        }
    }
    false
}

/// The broken references and footnotes of one line, after those found before.
fn push_references(
    items: &mut Vec<Diagnostic>,
    lines: &Vec<String>,
    labels: &Vec<String>,
    i: usize,
)
    requires
        i < lines@.len(),
        forall|label: Seq<char>|
            #![trigger defined(views(lines@), label)]
            defined(views(lines@), label) <==> views(labels@).contains(label),
    ensures
        diagnostic_views(final(items)@) == diagnostic_views(old(items)@) + broken_references(
            views(lines@),
            i as int,
            matched(REFERENCE@, views(lines@)[i as int]).len() as int,
        ) + broken_footnotes(
            views(lines@),
            i as int,
            matched(FOOTNOTE@, views(lines@)[i as int]).len() as int,
        ),
{
    let ghost v = views(lines@);
    let ghost start = diagnostic_views(items@);
    let line = line_views_index(lines, i);
    let m = captures_of(REFERENCE, line);
    let mut k: usize = 0;
    assert(diagnostic_views(items@) =~= start + broken_references(v, i as int, 0));
    while k < m.len()
        invariant
            k <= m@.len(),
            v == views(lines@),
            line@ == v[i as int],
            group_views(m@) == matched(REFERENCE@, line@),
            groups_fit(group_views(m@), encode_utf8(line@)),
            forall|label: Seq<char>|
                #![trigger defined(v, label)]
                defined(v, label) <==> views(labels@).contains(label),
            diagnostic_views(items@) == start + broken_references(v, i as int, k as int),
        decreases m@.len() - k,
    {
        let label = group_string(line, &m, k, 2);
        let target = if label.as_str().is_empty() {
            group_string(line, &m, k, 1)
        } else {
            label
        };
        assert(target@ == referred(encode_utf8(line@), group_views(m@)[k as int]));
        let key = normalize_label(target.as_str());
        let ghost before = diagnostic_views(items@);
        if !has_label(labels, key.as_str()) {
            assert(!defined(v, key@));
            let head = joined("Broken reference: [", target.as_str());
            let message = joined(head.as_str(), "]");
            let item = Diagnostic { line: i, message };
            let ghost added = item@;
            items.push(item);
            assert(diagnostic_views(items@) =~= before.push(added));
            assert(diagnostic_views(items@) =~= start + broken_references(v, i as int, k + 1));
        } else {
            assert(defined(v, key@));
        }
        k += 1;
    }
    let ghost middle = diagnostic_views(items@);
    let f = captures_of(FOOTNOTE, line);
    let mut k: usize = 0;
    assert(group_views(m@).len() == m@.len());
    assert(diagnostic_views(items@) =~= middle + broken_footnotes(v, i as int, 0));
    while k < f.len()
        invariant
            k <= f@.len(),
            v == views(lines@),
            line@ == v[i as int],
            group_views(f@) == matched(FOOTNOTE@, line@),
            groups_fit(group_views(f@), encode_utf8(line@)),
            forall|label: Seq<char>|
                #![trigger defined(v, label)]
                defined(v, label) <==> views(labels@).contains(label),
            diagnostic_views(items@) == middle + broken_footnotes(v, i as int, k as int),
        decreases f@.len() - k,
    {
        let name = group_string(line, &f, k, 1);
        let marked = joined("^", name.as_str());
        let key = normalize_label(marked.as_str());
        let ghost before = diagnostic_views(items@);
        if !has_label(labels, key.as_str()) {
            assert(!defined(v, key@));
            let head = joined("Broken footnote: [^", name.as_str());
            let message = joined(head.as_str(), "]");
            let item = Diagnostic { line: i, message };
            let ghost added = item@;
            items.push(item);
            assert(diagnostic_views(items@) =~= before.push(added));
            assert(diagnostic_views(items@) =~= middle + broken_footnotes(v, i as int, k + 1));
        } else {
            assert(defined(v, key@));
        }
        k += 1;
    }
}

/// The broken references and footnotes of a document.
pub fn reference_diagnostics(lines: &Vec<String>, mask: &Vec<bool>) -> (items: Vec<Diagnostic>)
    requires
        mask@.len() == lines@.len(),
        forall|i: int| 0 <= i < mask@.len() ==> #[trigger] mask@[i] == fenced(views(lines@), i),
    ensures
        diagnostic_views(items@) == reference_items(views(lines@), lines@.len() as int),
{
    let ghost v = views(lines@);
    let labels = definitions(lines, mask);
    let mut items: Vec<Diagnostic> = Vec::new();
    let mut i: usize = 0;
    assert(diagnostic_views(items@) =~= reference_items(v, 0));
    while i < lines.len()
        invariant
            i <= lines@.len(),
            v == views(lines@),
            mask@.len() == lines@.len(),
            forall|i: int| 0 <= i < mask@.len() ==> #[trigger] mask@[i] == fenced(v, i),
            forall|label: Seq<char>|
                #![trigger defined(v, label)]
                defined(v, label) <==> views(labels@).contains(label),
            diagnostic_views(items@) == reference_items(v, i as int),
        decreases lines@.len() - i,
    {
        let ghost before = diagnostic_views(items@);
        let line = line_views_index(lines, i);
        if !mask[i] && captures_of(DEFINITION, line).len() == 0 {
            push_references(&mut items, lines, &labels, i);
            assert(diagnostic_views(items@) =~= before + line_references(v, i as int));
        } else {
            assert(before + line_references(v, i as int) =~= before);
        }
        i += 1;
    }
    items
}

/// Whether a line has a pipe that is not escaped.
pub fn pipe_line(line: &str) -> (yes: bool)
    ensures
        yes == piped(line@),
{
    let t = to_chars(trim(line).as_str());
    pipe_positions(&t).len() > 0
}

/// The cells of a line.
pub fn cells(line: &str) -> (out: Vec<String>)
    ensures
        views(out@) == line_cells(line@),
        out@.len() == line_cells(line@).len(),
        out@.len() >= 1,
{
    let t = trim(line);
    let out = raw_cells(t.as_str());
    assert(views(out@).len() == out@.len());
    out
}

/// Whether a line separates the header of a table from its rows.
pub fn separator_line(line: &str) -> (yes: bool)
    ensures
        yes == all_dashes(line_cells(line@), 3),
{
    are_dashes(&cells(line), 3)
}

fn push_table(items: &mut Vec<Diagnostic>, lines: &Vec<String>, start: usize, last: usize)
    requires
        start < last < lines@.len(),
    ensures
        diagnostic_views(final(items)@) == diagnostic_views(old(items)@) + one_table(
            views(lines@),
            start as int,
            last as int,
        ),
{
    let ghost v = views(lines@);
    let ghost first = diagnostic_views(items@);
    let count: usize = lines.len();
    if !separator_line(line_views_index(lines, start + 1)) {
        let item = Diagnostic {
            line: start + 1,
            message: "Malformed table separator".to_owned(),
        };
        let ghost added = item@;
        items.push(item);
        assert(diagnostic_views(items@) =~= first.push(added));
        assert(diagnostic_views(items@) =~= first + one_table(v, start as int, last as int));
        return;
    }
    let columns: usize = cells(line_views_index(lines, start)).len();
    let mut row: usize = start + 1;
    assert(diagnostic_views(items@) =~= first + uneven_rows(v, start as int, row as int));
    while row <= last
        invariant
            start + 1 <= row <= last + 1,
            last < count,
            count == lines@.len(),
            v == views(lines@),
            columns == line_cells(v[start as int]).len(),
            diagnostic_views(items@) == first + uneven_rows(v, start as int, row as int),
        decreases last + 1 - row,
    {
        let ghost before = diagnostic_views(items@);
        if cells(line_views_index(lines, row)).len() != columns {
            let item = Diagnostic {
                line: row,
                message: "Malformed table: inconsistent column count".to_owned(),
            };
            let ghost added = item@;
            items.push(item);
            assert(diagnostic_views(items@) =~= before.push(added));
            assert(diagnostic_views(items@) =~= first + uneven_rows(v, start as int, row + 1));
        }
        row += 1;
    }
}

/// What is wrong with the tables of a document.
pub fn table_diagnostics(lines: &Vec<String>, mask: &Vec<bool>) -> (items: Vec<Diagnostic>)
    requires
        mask@.len() == lines@.len(),
        forall|i: int| 0 <= i < mask@.len() ==> #[trigger] mask@[i] == fenced(views(lines@), i),
    ensures
        diagnostic_views(items@) == table_items(views(lines@), 0),
{
    let ghost v = views(lines@);
    let count: usize = lines.len();
    let mut items: Vec<Diagnostic> = Vec::new();
    let mut line: usize = 0;
    assert(diagnostic_views(items@) + table_items(v, 0) =~= table_items(v, 0));
    while line < count && count - line > 1
        invariant
            line <= count,
            count == lines@.len(),
            v == views(lines@),
            v.len() == count,
            mask@.len() == lines@.len(),
            forall|i: int| 0 <= i < mask@.len() ==> #[trigger] mask@[i] == fenced(v, i),
            diagnostic_views(items@) + table_items(v, line as int) == table_items(v, 0),
        decreases count - line,
    {
        if mask[line] || !pipe_line(line_views_index(lines, line)) || !pipe_line(
            line_views_index(lines, line + 1),
        ) {
            line += 1;
            continue ;
        }
        let mut last: usize = line + 1;
        while count - last > 1 && !mask[last + 1] && pipe_line(line_views_index(lines, last + 1))
            invariant
                line < last < count,
                count == lines@.len(),
                v == views(lines@),
                v.len() == count,
                mask@.len() == lines@.len(),
                forall|i: int| 0 <= i < mask@.len() ==> #[trigger] mask@[i] == fenced(v, i),
                table_last(v, line + 1) == table_last(v, last as int),
            decreases count - last,
        {
            last += 1;
        }
        let ghost before = diagnostic_views(items@);
        push_table(&mut items, lines, line, last);
        assert(table_items(v, line as int) == one_table(v, line as int, last as int) + table_items(
            v,
            last + 1,
        ));
        assert(diagnostic_views(items@) + table_items(v, last + 1) =~= before + table_items(
            v,
            line as int,
        ));
        line = last + 1;
    }
    assert(table_items(v, line as int) =~= Seq::<DiagnosticView>::empty());
    assert(diagnostic_views(items@) + table_items(v, line as int) =~= diagnostic_views(items@));
    items
}

/// Whether a line is a heading of its own, with its number of hashes.
pub fn hash_count(t: &Vec<char>) -> (n: Option<usize>)
    ensures
        match n {
            Some(n) => heading_hashes(t@) == Some(n as int) && n < t@.len(),
            None => heading_hashes(t@) is None,
        },
{
    let n: usize = run_stop(t, 0, '#');
    if 1 <= n && n <= 6 && n < t.len() && is_ascii_space(t[n]) {
        Some(n)
    } else {
        None
    }
}

/// The title of a heading after its hashes.
pub fn title_after(t: &Vec<char>, n: usize) -> (title: String)
    requires
        n <= t@.len(),
    ensures
        title@ == hashed_title(t@, n as int),
{
    let rest = from_chars(t, n, t.len());
    assert(rest@ =~= t@.skip(n as int));
    let inner = trim(rest.as_str());
    let bare = strip_back(inner.as_str(), '#');
    trim(bare.as_str())
}

fn is_underline(t: &Vec<char>) -> (yes: bool)
    ensures
        yes == underline(t@),
{
    if t.len() < 3 || (t[0] != '=' && t[0] != '-') {
        return false;
    }
    let stop: usize = run_stop(t, 0, t[0]);
    proof {
        if stop < t@.len() {
            lemma_run_stops(t@, 0, t@[0]);
            assert(t@[stop as int] != t@[0]);
        }
    }
    stop == t.len()
}

proof fn lemma_run_stops(s: Seq<char>, i: int, c: char)
    requires
        0 <= i <= s.len(),
    ensures
        i <= run_end(s, i, c) <= s.len(),
        run_end(s, i, c) < s.len() ==> s[run_end(s, i, c)] != c,
    decreases s.len() - i,
{
    if i < s.len() && s[i] == c {
        lemma_run_stops(s, i + 1, c);
    }
}

/// The title of the heading that a line is.
pub fn heading_title(lines: &Vec<String>, mask: &Vec<bool>, line: usize) -> (title: Option<String>)
    requires
        line < lines@.len(),
        mask@.len() == lines@.len(),
        forall|i: int| 0 <= i < mask@.len() ==> #[trigger] mask@[i] == fenced(views(lines@), i),
    ensures
        crate::strings::opt_view(title) == title_of(views(lines@), line as int),
{
    let ghost v = views(lines@);
    assert(v.len() == lines@.len());
    let t = trim(line_views_index(lines, line));
    let chars = to_chars(t.as_str());
    if let Some(n) = hash_count(&chars) {
        return Some(title_after(&chars, n));
    }
    if lines.len() - line <= 1 {
        return None;
    }
    let under = trim(line_views_index(lines, line + 1));
    if mask[line + 1] || chars.len() == 0 || contains_char(t.as_str(), '|') {
        return None;
    }
    if is_underline(&to_chars(under.as_str())) {
        Some(t)
    } else {
        None
    }
}

fn earliest_heading(titles: &Vec<Option<String>>, key: &str, n: usize) -> (at: Option<usize>)
    requires
        n <= titles@.len(),
    ensures
        match at {
            Some(k) => k < n && titles@[k as int] is Some && (titles@[k as int]->0)@ == key@
                && forall|j: int|
                0 <= j < k ==> !(titles@[j] is Some && (#[trigger] titles@[j]->0)@ == key@),
            None => forall|j: int|
                0 <= j < n ==> !(titles@[j] is Some && (#[trigger] titles@[j]->0)@ == key@),
        },
{
    let mut k: usize = 0;
    while k < n
        invariant
            k <= n <= titles@.len(),
            forall|j: int|
                0 <= j < k ==> !(titles@[j] is Some && (#[trigger] titles@[j]->0)@ == key@),
        decreases n - k,
    {
        if let Some(t) = &titles[k] {
            if same(t.as_str(), key) {
                return Some(k);
            }
        }
        k += 1;
    }
    None
}

/// The key of the heading that a line is, outside fences.
pub open spec fn heading_key(lines: Seq<Seq<char>>, i: int) -> Option<Seq<char>> {
    match title_of(lines, i) {
        Some(title) if !fenced(lines, i) => Some(lowered(title)),
        _ => None,
    }
}

/// The first heading is the one that no other of the same key comes before.
pub proof fn lemma_first_heading(lines: Seq<Seq<char>>, key: Seq<char>, n: int, k: int)
    requires
        0 <= k < n,
        heading_key(lines, k) == Some(key),
        forall|j: int| 0 <= j < k ==> #[trigger] heading_key(lines, j) != Some(key),
    ensures
        first_heading(lines, key, n) == Some(k),
    decreases n,
{
    if k < n - 1 {
        lemma_first_heading(lines, key, n - 1, k);
    } else {
        lemma_no_heading_before(lines, key, k);
    }
}

proof fn lemma_no_heading_before(lines: Seq<Seq<char>>, key: Seq<char>, n: int)
    requires
        forall|j: int| 0 <= j < n ==> #[trigger] heading_key(lines, j) != Some(key),
    ensures
        first_heading(lines, key, n) is None,
    decreases n,
{
    if n > 0 {
        assert(heading_key(lines, n - 1) != Some(key));
        lemma_no_heading_before(lines, key, n - 1);
    }
}

/// The duplicate headings of a document.
pub fn heading_diagnostics(lines: &Vec<String>, mask: &Vec<bool>) -> (items: Vec<Diagnostic>)
    requires
        mask@.len() == lines@.len(),
        forall|i: int| 0 <= i < mask@.len() ==> #[trigger] mask@[i] == fenced(views(lines@), i),
    ensures
        diagnostic_views(items@) == heading_items(views(lines@), lines@.len() as int),
{
    let ghost v = views(lines@);
    let count: usize = lines.len();
    let mut items: Vec<Diagnostic> = Vec::new();
    let mut keys: Vec<Option<String>> = Vec::new();
    let mut i: usize = 0;
    assert(diagnostic_views(items@) =~= heading_items(v, 0));
    while i < count
        invariant
            i <= count,
            count == lines@.len(),
            v == views(lines@),
            mask@.len() == lines@.len(),
            forall|i: int| 0 <= i < mask@.len() ==> #[trigger] mask@[i] == fenced(v, i),
            keys@.len() == i,
            forall|j: int|
                0 <= j < i ==> crate::strings::opt_view(#[trigger] keys@[j]) == heading_key(v, j),
            diagnostic_views(items@) == heading_items(v, i as int),
        decreases count - i,
    {
        let ghost before = diagnostic_views(items@);
        let ghost known = keys@;
        let mut key: Option<String> = None;
        if !mask[i] {
            if let Some(title) = heading_title(lines, mask, i) {
                let k = title.as_str().to_lowercase();
                let at = earliest_heading(&keys, k.as_str(), i);
                proof {
                    assert forall|j: int| 0 <= j < i implies (heading_key(v, j) == Some(k@) <==> (
                    keys@[j] is Some && (#[trigger] keys@[j]->0)@ == k@)) by {
                        assert(crate::strings::opt_view(keys@[j]) == heading_key(v, j));
                    }
                    match at {
                        Some(first) => {
                            lemma_first_heading(v, k@, i as int, first as int);
                        },
                        None => {
                            lemma_no_heading_before(v, k@, i as int);
                        },
                    }
                }
                if let Some(first) = at {
                    let mut message = "Duplicate heading (first at line ".to_owned();
                    push_decimal(&mut message, first + 1);
                    message.append(")");
                    let item = Diagnostic { line: i, message };
                    let ghost added = item@;
                    items.push(item);
                    assert(diagnostic_views(items@) =~= before.push(added));
                }
                key = Some(k);
            }
        }
        assert(crate::strings::opt_view(key) == heading_key(v, i as int));
        assert(diagnostic_views(items@) == heading_items(v, i + 1));
        keys.push(key);
        i += 1;
    }
    items
}

/// Put an item among items in order.
fn insert_item(items: &mut Vec<Diagnostic>, item: Diagnostic)
    ensures
        diagnostic_views(final(items)@) == diagnostic_views(old(items)@).insert(
            slot(
                diagnostic_views(old(items)@),
                item@.line,
                diagnostic_views(old(items)@).len() as int,
            ),
            item@,
        ),
{
    let ghost v = diagnostic_views(items@);
    let mut k: usize = items.len();
    assert(v.len() == items@.len());
    while k > 0 && items[k - 1].line > item.line
        invariant
            k <= items@.len(),
            v == diagnostic_views(items@),
            slot(v, item@.line, v.len() as int) == slot(v, item@.line, k as int),
        decreases k,
    {
        assert(v[k - 1] == items@[k - 1]@);
        k -= 1;
    }
    if k > 0 {
        assert(v[k - 1] == items@[k - 1]@);
    }
    let ghost added = item@;
    items.insert(k, item);
    assert(diagnostic_views(items@) =~= v.insert(k as int, added));
}

fn push_sorted(
    out: &mut Vec<Diagnostic>,
    from: Vec<Diagnostic>,
    all: Ghost<Seq<DiagnosticView>>,
    done: Ghost<int>,
)
    requires
        0 <= done@,
        done@ + from@.len() <= all@.len(),
        diagnostic_views(from@) == all@.subrange(done@, done@ + from@.len()),
        diagnostic_views(old(out)@) == in_line_order(all@, done@),
    ensures
        diagnostic_views(final(out)@) == in_line_order(all@, done@ + from@.len()),
{
    let ghost items = from@;
    let mut rest = from;
    let mut i: usize = 0;
    let count: usize = rest.len();
    while i < count
        invariant
            i <= count,
            count == items.len(),
            0 <= done@,
            done@ + count <= all@.len(),
            diagnostic_views(items) == all@.subrange(done@, done@ + count),
            rest@ == items.skip(i as int),
            diagnostic_views(out@) == in_line_order(all@, done@ + i),
        decreases count - i,
    {
        let item = rest.remove(0);
        proof {
            assert(item == items[i as int]);
            assert(diagnostic_views(items)[i as int] == item@);
            assert(all@[done@ + i] == item@);
            assert(items.skip(i as int).remove(0) =~= items.skip(i + 1));
        }
        insert_item(out, item);
        i += 1;
    }
}

/// Everything that is wrong with a document, in the order of its lines.
pub fn diagnose(source: &str) -> (items: Vec<Diagnostic>)
    ensures
        diagnostic_views(items@) == diagnosed(source@),
{
    let lines = text_lines(source);
    let mask = fenced_lines(&lines);
    let fences = fence_diagnostics(&lines);
    let references = reference_diagnostics(&lines, &mask);
    let tables = table_diagnostics(&lines, &mask);
    let headings = heading_diagnostics(&lines, &mask);
    let ghost v = views(lines@);
    let ghost all = all_items(v);
    let ghost a = fences@.len() as int;
    let ghost b = a + references@.len();
    let ghost c = b + tables@.len();
    let ghost d = c + headings@.len();
    proof {
        assert(diagnostic_views(fences@).len() == fences@.len());
        assert(diagnostic_views(references@).len() == references@.len());
        assert(diagnostic_views(tables@).len() == tables@.len());
        assert(diagnostic_views(headings@).len() == headings@.len());
        assert(v.len() == lines@.len());
        assert(all.len() == d);
        assert(all.subrange(0, a) =~= diagnostic_views(fences@));
        assert(all.subrange(a, b) =~= diagnostic_views(references@));
        assert(all.subrange(b, c) =~= diagnostic_views(tables@));
        assert(all.subrange(c, d) =~= diagnostic_views(headings@));
    }
    let mut out: Vec<Diagnostic> = Vec::new();
    assert(diagnostic_views(out@) =~= in_line_order(all, 0));
    push_sorted(&mut out, fences, Ghost(all), Ghost(0));
    push_sorted(&mut out, references, Ghost(all), Ghost(a));
    push_sorted(&mut out, tables, Ghost(all), Ghost(b));
    push_sorted(&mut out, headings, Ghost(all), Ghost(c));
    out
}

/// A heading is called a duplicate where a heading of the same title, in lower case, comes
/// before it, and only there.
#[verifier::spinoff_prover]
pub proof fn lemma_duplicate_headings_are_told(lines: Seq<Seq<char>>, n: int, i: int)
    requires
        0 <= i < n,
    ensures
        (exists|k: int|
            0 <= k < heading_items(lines, n).len() && (#[trigger] heading_items(lines, n)[k]).line
                == i) <==> heading_key(lines, i) is Some && (exists|j: int|
            0 <= j < i && #[trigger] heading_key(lines, j) == heading_key(lines, i)),
    decreases n,
{
    lemma_heading_lines(lines, n - 1);
    let before = heading_items(lines, n - 1);
    let all = heading_items(lines, n);
    assert(forall|k: int| 0 <= k < before.len() ==> #[trigger] all[k] == before[k]);
    if i < n - 1 {
        lemma_duplicate_headings_are_told(lines, n - 1, i);
        if exists|k: int| 0 <= k < before.len() && (#[trigger] before[k]).line == i {
            let k = choose|k: int| 0 <= k < before.len() && (#[trigger] before[k]).line == i;
            assert(all[k].line == i);
        }
    } else if heading_key(lines, i) is Some {
        let key = heading_key(lines, i)->0;
        if exists|j: int| 0 <= j < i && #[trigger] heading_key(lines, j) == heading_key(lines, i) {
            let j = choose|j: int|
                0 <= j < i && #[trigger] heading_key(lines, j) == heading_key(lines, i);
            lemma_some_heading_before(lines, key, i, j);
            assert(all[before.len() as int].line == i);
        } else {
            lemma_no_heading_before(lines, key, i);
            assert(all == before);
        }
    } else {
        assert(all == before);
    }
}

proof fn lemma_some_heading_before(lines: Seq<Seq<char>>, key: Seq<char>, n: int, j: int)
    requires
        0 <= j < n,
        heading_key(lines, j) == Some(key),
    ensures
        first_heading(lines, key, n) is Some,
    decreases n,
{
    if j < n - 1 {
        lemma_some_heading_before(lines, key, n - 1, j);
    }
}

proof fn lemma_heading_lines(lines: Seq<Seq<char>>, n: int)
    ensures
        forall|k: int|
            0 <= k < heading_items(lines, n).len() ==> (#[trigger] heading_items(lines, n)[k]).line
                < n,
    decreases n,
{
    if n > 0 {
        lemma_heading_lines(lines, n - 1);
        let before = heading_items(lines, n - 1);
        let all = heading_items(lines, n);
        assert forall|k: int| 0 <= k < all.len() implies (#[trigger] all[k]).line < n by {
            if k < before.len() {
                assert(all[k] == before[k]);
            }
        }
    }
}

/// A row of a table is called malformed where it has another number of cells than the header,
/// and only there.
pub proof fn lemma_uneven_rows_are_told(lines: Seq<Seq<char>>, start: int, n: int, i: int)
    requires
        start + 1 <= i < n,
    ensures
        (exists|k: int|
            0 <= k < uneven_rows(lines, start, n).len() && (#[trigger] uneven_rows(
                lines,
                start,
                n,
            )[k]).line == i) <==> line_cells(lines[i]).len() != line_cells(lines[start]).len(),
    decreases n - start,
{
    lemma_uneven_lines(lines, start, n - 1);
    let before = uneven_rows(lines, start, n - 1);
    let all = uneven_rows(lines, start, n);
    assert(forall|k: int| 0 <= k < before.len() ==> #[trigger] all[k] == before[k]);
    if i < n - 1 {
        lemma_uneven_rows_are_told(lines, start, n - 1, i);
        if exists|k: int| 0 <= k < before.len() && (#[trigger] before[k]).line == i {
            let k = choose|k: int| 0 <= k < before.len() && (#[trigger] before[k]).line == i;
            assert(all[k].line == i);
        }
    } else if all.len() > before.len() {
        assert(all[before.len() as int].line == i);
    }
}

proof fn lemma_uneven_lines(lines: Seq<Seq<char>>, start: int, n: int)
    ensures
        forall|k: int|
            0 <= k < uneven_rows(lines, start, n).len() ==> (#[trigger] uneven_rows(
                lines,
                start,
                n,
            )[k]).line < n,
    decreases n - start,
{
    if n > start + 1 {
        lemma_uneven_lines(lines, start, n - 1);
        let before = uneven_rows(lines, start, n - 1);
        let all = uneven_rows(lines, start, n);
        assert forall|k: int| 0 <= k < all.len() implies (#[trigger] all[k]).line < n by {
            if k < before.len() {
                assert(all[k] == before[k]);
            }
        }
    }
}

/// A fence is called unmatched where one is open at the end, and it is the one that nothing
/// closes: none is open before it, and one is open behind every line from it on.
pub proof fn lemma_the_unmatched_fence_is_told(lines: Seq<Seq<char>>, n: int)
    requires
        0 <= n,
        open_before(lines, n) is Some,
    ensures
        0 <= open_line(lines, n) < n,
        open_before(lines, open_line(lines, n)) is None,
        forall|i: int| open_line(lines, n) < i <= n ==> #[trigger] open_before(lines, i) is Some,
    decreases n,
{
    if open_before(lines, n - 1) is Some {
        lemma_the_unmatched_fence_is_told(lines, n - 1);
    }
}

/// A reference is called broken where nothing defines what it refers to, and only there.
pub proof fn lemma_broken_references_are_told(lines: Seq<Seq<char>>, i: int, n: int, x: DiagnosticView)
    requires
        0 <= n <= matched(REFERENCE@, lines[i]).len(),
    ensures
        broken_references(lines, i, n).contains(x) <==> (exists|k: int|
            0 <= k < n && !defined(
                lines,
                normalized(
                    referred(encode_utf8(lines[i]), #[trigger] matched(REFERENCE@, lines[i])[k]),
                ),
            ) && x == (DiagnosticView {
                line: i,
                message: "Broken reference: ["@ + referred(
                    encode_utf8(lines[i]),
                    matched(REFERENCE@, lines[i])[k],
                ) + "]"@,
            })),
    decreases n,
{
    if n > 0 {
        lemma_broken_references_are_told(lines, i, n - 1, x);
        let before = broken_references(lines, i, n - 1);
        let all = broken_references(lines, i, n);
        lemma_pushed(before, all, x);
        let target = referred(encode_utf8(lines[i]), matched(REFERENCE@, lines[i])[n - 1]);
        if !defined(lines, normalized(target)) {
            assert(all.last().line == i);
        }
    }
}

/// A footnote is called broken where nothing defines it, and only there.
pub proof fn lemma_broken_footnotes_are_told(lines: Seq<Seq<char>>, i: int, n: int, x: DiagnosticView)
    requires
        0 <= n <= matched(FOOTNOTE@, lines[i]).len(),
    ensures
        broken_footnotes(lines, i, n).contains(x) <==> (exists|k: int|
            0 <= k < n && !defined(
                lines,
                normalized(
                    "^"@ + group_or_empty(
                        encode_utf8(lines[i]),
                        #[trigger] matched(FOOTNOTE@, lines[i])[k],
                        1,
                    ),
                ),
            ) && x == (DiagnosticView {
                line: i,
                message: "Broken footnote: [^"@ + group_or_empty(
                    encode_utf8(lines[i]),
                    matched(FOOTNOTE@, lines[i])[k],
                    1,
                ) + "]"@,
            })),
    decreases n,
{
    if n > 0 {
        lemma_broken_footnotes_are_told(lines, i, n - 1, x);
        let before = broken_footnotes(lines, i, n - 1);
        let all = broken_footnotes(lines, i, n);
        lemma_pushed(before, all, x);
        let name = group_or_empty(encode_utf8(lines[i]), matched(FOOTNOTE@, lines[i])[n - 1], 1);
        if !defined(lines, normalized("^"@ + name)) {
            assert(all.last().line == i);
        }
    }
}

proof fn lemma_pushed(before: Seq<DiagnosticView>, all: Seq<DiagnosticView>, x: DiagnosticView)
    requires
        all == before || all.len() > 0 && all == before.push(all.last()),
    ensures
        all == before ==> (all.contains(x) <==> before.contains(x)),
        all != before ==> (all.contains(x) <==> before.contains(x) || x == all.last()),
{
    if all != before {
        let last = all.last();
        if before.contains(x) {
            let k = choose|k: int| 0 <= k < before.len() && before[k] == x;
            assert(all[k] == x);
        }
        assert(all[before.len() as int] == last);
        if all.contains(x) && x != last {
            let k = choose|k: int| 0 <= k < all.len() && all[k] == x;
            assert(before[k] == x);
        }
    }
}

} // verus!
