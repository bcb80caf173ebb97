//! The cells of a table row, cut at the pipes that no backslash escapes.

use vstd::prelude::*;

use crate::list_marker::{skip_spaces, spaces_end};
use crate::strings::{
    from_chars, lead_length, push_repeated, repeated, strip_back, strip_end, strip_front,
    strip_start, to_chars, trim, trim_bounds, trim_end, trim_start, trim_tail, trimmed, views,
};
use crate::text::{columns, width};

verus! {

/// The number of backslashes right before `i`.
pub open spec fn slashes_before(s: Seq<char>, i: int) -> int
    decreases i,
{
    if 0 < i <= s.len() && s[i - 1] == '\\' {
        1 + slashes_before(s, i - 1)
    } else {
        0
    }
}

/// Whether a pipe that is not escaped stands at `i`.
pub open spec fn pipe_at(s: Seq<char>, i: int) -> bool {
    0 <= i < s.len() && s[i] == '|' && slashes_before(s, i) % 2 == 0
}

/// The places of the pipes among the first `n` characters.
pub open spec fn pipes_upto(s: Seq<char>, n: int) -> Seq<int>
    decreases n,
{
    if n <= 0 {
        Seq::empty()
    } else if pipe_at(s, n - 1) {
        pipes_upto(s, n - 1).push(n - 1)
    } else {
        pipes_upto(s, n - 1)
    }
}

/// The places of the pipes of a text.
pub open spec fn pipes(s: Seq<char>) -> Seq<int> {
    pipes_upto(s, s.len() as int)
}

/// Where the `k`-th cell begins.
pub open spec fn cell_from(p: Seq<int>, k: int) -> int {
    if k == 0 {
        0
    } else {
        p[k - 1] + 1
    }
}

/// Where the `k`-th cell of a text of `len` characters ends.
pub open spec fn cell_to(p: Seq<int>, len: int, k: int) -> int {
    if k < p.len() {
        p[k]
    } else {
        len
    }
}

/// The texts between the pipes.
pub open spec fn cells_of(s: Seq<char>) -> Seq<Seq<char>> {
    let p = pipes(s);
    Seq::new(
        p.len() + 1,
        |k: int| s.subrange(cell_from(p, k), cell_to(p, s.len() as int, k)),
    )
}

/// Whether a row begins with a pipe.
pub open spec fn leads_with_pipe(s: Seq<char>) -> bool {
    pipe_at(s, 0)
}

/// Whether a row ends with a pipe that does not begin it too.
pub open spec fn trails_with_pipe(s: Seq<char>) -> bool {
    s.len() > 1 && pipe_at(s, s.len() - 1)
}

/// A row without its outer pipes.
pub open spec fn inner_row(s: Seq<char>) -> Seq<char> {
    s.subrange(
        if leads_with_pipe(s) {
            1
        } else {
            0
        },
        if trails_with_pipe(s) {
            s.len() - 1
        } else {
            s.len() as int
        },
    )
}

/// The cells of a row, without the white space around them.
pub open spec fn row_cells(s: Seq<char>) -> Seq<Seq<char>> {
    cells_of(inner_row(s)).map_values(|c: Seq<char>| trimmed(c))
}

/// Pipes follow one another inside the text.
pub proof fn lemma_pipes(s: Seq<char>, n: int)
    requires
        0 <= n <= s.len(),
    ensures
        forall|k: int| 0 <= k < pipes_upto(s, n).len() ==> 0 <= #[trigger] pipes_upto(s, n)[k] < n,
        forall|j: int, k: int|
            0 <= j < k < pipes_upto(s, n).len() ==> pipes_upto(s, n)[j] < pipes_upto(s, n)[k],
        forall|k: int| 0 <= k < pipes_upto(s, n).len() ==> pipe_at(s, #[trigger] pipes_upto(s, n)[k]),
        pipes_upto(s, n).len() <= n,
    decreases n,
{
    if n > 0 {
        lemma_pipes(s, n - 1);
    }
}

/// The places, as exact numbers.
pub open spec fn places(v: Seq<usize>) -> Seq<int> {
    v.map_values(|i: usize| i as int)
}

fn escaped(s: &Vec<char>, i: usize) -> (odd: bool)
    requires
        i <= s@.len(),
    ensures
        odd == (slashes_before(s@, i as int) % 2 == 1),
{
    let mut odd = false;
    let mut j: usize = i;
    let ghost total = slashes_before(s@, i as int);
    while j > 0 && s[j - 1] == '\\'
        invariant
            j <= i <= s@.len(),
            total == slashes_before(s@, i as int),
            total == (i - j) + slashes_before(s@, j as int),
            odd == ((i - j) % 2 == 1),
        decreases j,
    {
        j -= 1;
        odd = !odd;
    }
    odd
}

/// The places of the pipes of a text.
pub fn pipe_positions(s: &Vec<char>) -> (out: Vec<usize>)
    ensures
        places(out@) == pipes(s@),
        out@.len() == pipes(s@).len(),
        forall|k: int| 0 <= k < out@.len() ==> (#[trigger] out@[k]) < s@.len(),
        forall|k: int| 0 <= k < out@.len() ==> pipes(s@)[k] == #[trigger] out@[k],
        forall|j: int, k: int| 0 <= j < k < out@.len() ==> out@[j] < out@[k],
{
    let mut out: Vec<usize> = Vec::new();
    let mut i: usize = 0;
    assert(places(out@) =~= Seq::<int>::empty());
    while i < s.len()
        invariant
            i <= s@.len(),
            places(out@) == pipes_upto(s@, i as int),
        decreases s@.len() - i,
    {
        let ghost before = places(out@);
        if s[i] == '|' && !escaped(s, i) {
            assert(pipe_at(s@, i as int));
            out.push(i);
            assert(places(out@) =~= before.push(i as int));
        } else {
            assert(slashes_before(s@, i as int) % 2 == 0 || slashes_before(s@, i as int) % 2 == 1);
        }
        i += 1;
    }
    proof {
        lemma_pipes(s@, s@.len() as int);
        let p = pipes(s@);
        assert(places(out@).len() == out@.len());
        assert forall|k: int| 0 <= k < out@.len() implies (#[trigger] out@[k]) < s@.len() && p[k]
            == out@[k] by {
            assert(places(out@)[k] == out@[k] as int);
            assert(p[k] < s@.len());
        }
        assert forall|j: int, k: int| 0 <= j < k < out@.len() implies out@[j] < out@[k] by {
            assert(p[j] < p[k]);
        }
    }
    out
}

/// The texts between the pipes.
pub fn split_table_cells(text: &str) -> (cells: Vec<String>)
    ensures
        views(cells@) == cells_of(text@),
        cells@.len() >= 1,
{
    let s = to_chars(text);
    let p = pipe_positions(&s);
    let ghost q = pipes(s@);
    let mut cells: Vec<String> = Vec::new();
    let mut start: usize = 0;
    let mut k: usize = 0;
    let n: usize = s.len();
    while k < p.len()
        invariant
            k <= p@.len(),
            n == s@.len(),
            s@ == text@,
            q == pipes(s@),
            p@.len() == q.len(),
            forall|k: int| 0 <= k < p@.len() ==> (#[trigger] p@[k]) < s@.len(),
            forall|k: int| 0 <= k < p@.len() ==> q[k] == #[trigger] p@[k],
            forall|j: int, k: int| 0 <= j < k < p@.len() ==> p@[j] < p@[k],
            start == cell_from(q, k as int),
            start <= s@.len(),
            k < p@.len() ==> start <= p@[k as int],
            cells@.len() == k,
            forall|j: int| 0 <= j < k ==> (#[trigger] cells@[j])@ == cells_of(text@)[j],
        decreases p@.len() - k,
    {
        let to: usize = p[k];
        let cell = from_chars(&s, start, to);
        cells.push(cell);
        start = to + 1;
        k += 1;
    }
    let cell = from_chars(&s, start, s.len());
    cells.push(cell);
    assert(views(cells@) =~= cells_of(text@));
    cells
}

/// A row of a table, read from its source line.
pub struct ParsedRow {
    pub indent: String,
    pub cells: Vec<String>,
    pub leading_pipe: bool,
    pub trailing_pipe: bool,
    pub eol: String,
}

/// What a [`ParsedRow`] says.
#[verifier::ext_equal]
pub struct ParsedRowView {
    pub indent: Seq<char>,
    pub cells: Seq<Seq<char>>,
    pub leading_pipe: bool,
    pub trailing_pipe: bool,
    pub eol: Seq<char>,
}

impl View for ParsedRow {
    type V = ParsedRowView;

    open spec fn view(&self) -> ParsedRowView {
        ParsedRowView {
            indent: self.indent@,
            cells: views(self.cells@),
            leading_pipe: self.leading_pipe,
            trailing_pipe: self.trailing_pipe,
            eol: self.eol@,
        }
    }
}

/// The row that a line, with its line ending, is the source of.
pub open spec fn row_of(body: Seq<char>, eol: Seq<char>) -> ParsedRowView {
    let i = spaces_end(body, 0);
    let table = trim_end(body.skip(i));
    ParsedRowView {
        indent: body.take(i),
        cells: row_cells(table),
        leading_pipe: leads_with_pipe(table),
        trailing_pipe: trails_with_pipe(table),
        eol,
    }
}

/// A separator cell of the given width, with the colons of the old one.
pub open spec fn separator_text(source: Seq<char>, width: usize) -> Seq<char> {
    let t = trimmed(source);
    let left = t.len() > 0 && t[0] == ':';
    let right = t.len() > 0 && t.last() == ':';
    let colon = |yes: bool|
        if yes {
            seq![':']
        } else {
            Seq::<char>::empty()
        };
    let taken: usize = if left && right {
        2
    } else if left || right {
        1
    } else {
        0
    };
    colon(left) + repeated('-', width.saturating_sub(taken) as int) + colon(right)
}

impl ParsedRowView {
    /// The text of a cell; a row without it has an empty one.
    pub open spec fn cell(self, column: int) -> Seq<char> {
        if column < self.cells.len() {
            self.cells[column]
        } else {
            Seq::empty()
        }
    }

    /// A cell filled to a width.
    pub open spec fn filled(self, column: int, width: usize, separator: bool) -> Seq<char> {
        if separator {
            separator_text(self.cell(column), width)
        } else {
            self.cell(column) + repeated(
                ' ',
                width.saturating_sub(columns(self.cell(column))) as int,
            )
        }
    }

    /// The first `n` columns of the row, laid out at the given widths.
    pub open spec fn formatted_upto(self, widths: Seq<usize>, separator: bool, n: int) -> Seq<char>
        decreases n,
    {
        if n <= 0 {
            if self.leading_pipe {
                self.indent.push('|')
            } else {
                self.indent
            }
        } else {
            let c = n - 1;
            let before = self.formatted_upto(widths, separator, c);
            let gap = if self.leading_pipe || c > 0 {
                before.push(' ')
            } else {
                before
            };
            let text = gap + self.filled(c, widths[c], separator);
            if c + 1 < widths.len() || self.trailing_pipe {
                text.push(' ').push('|')
            } else {
                text
            }
        }
    }

    /// The row laid out at the given widths.
    pub open spec fn formatted(self, widths: Seq<usize>, separator: bool) -> Seq<char> {
        self.formatted_upto(widths, separator, widths.len() as int) + self.eol
    }
}

/// A separator cell of the given width, with the colons of the old one.
pub fn separator_cell(source: &str, width: usize) -> (out: String)
    ensures
        out@ == separator_text(source@, width),
{
    let t = to_chars(trim(source).as_str());
    let left = t.len() > 0 && t[0] == ':';
    let right = t.len() > 0 && t[t.len() - 1] == ':';
    let taken: usize = if left && right {
        2
    } else if left || right {
        1
    } else {
        0
    };
    let mut out = String::new();
    if left {
        out.push(':');
    }
    push_repeated(&mut out, '-', width.saturating_sub(taken));
    if right {
        out.push(':');
    }
    assert(out@ =~= separator_text(source@, width));
    out
}

fn trim_all(cells: &Vec<String>) -> (out: Vec<String>)
    ensures
        views(out@) == views(cells@).map_values(|c: Seq<char>| trimmed(c)),
{
    let mut out: Vec<String> = Vec::new();
    let mut i: usize = 0;
    while i < cells.len()
        invariant
            i <= cells@.len(),
            out@.len() == i,
            forall|k: int| 0 <= k < i ==> (#[trigger] out@[k])@ == trimmed(cells@[k]@),
        decreases cells@.len() - i,
    {
        out.push(trim(cells[i].as_str()));
        i += 1;
    }
    assert(views(out@) =~= views(cells@).map_values(|c: Seq<char>| trimmed(c)));
    out
}

fn is_pipe_at(s: &Vec<char>, i: usize) -> (yes: bool)
    requires
        i < s@.len(),
    ensures
        yes == pipe_at(s@, i as int),
{
    let odd = escaped(s, i);
    assert(slashes_before(s@, i as int) % 2 == 0 || slashes_before(s@, i as int) % 2 == 1);
    s[i] == '|' && !odd
}

/// The texts of the cells of a row, not trimmed.
pub fn raw_cells(row: &str) -> (cells: Vec<String>)
    ensures
        views(cells@) == cells_of(inner_row(row@)),
        cells@.len() >= 1,
{
    let t = to_chars(row);
    let n: usize = t.len();
    let leading = n > 0 && is_pipe_at(&t, 0);
    let trailing = n > 1 && is_pipe_at(&t, n - 1);
    let from: usize = if leading {
        1
    } else {
        0
    };
    let to: usize = if trailing {
        n - 1
    } else {
        n
    };
    let inner = from_chars(&t, from, to);
    split_table_cells(inner.as_str())
}

impl ParsedRow {
    /// Read a row from its line, without and with its line ending.
    pub fn new(body: &str, eol: String) -> (row: ParsedRow)
        ensures
            row@ == row_of(body@, eol@),
            row.cells@.len() >= 1,
    {
        let chars = to_chars(body);
        let i: usize = skip_spaces(&chars, 0);
        let indent = from_chars(&chars, 0, i);
        let rest = from_chars(&chars, i, chars.len());
        assert(indent@ =~= body@.take(i as int));
        assert(rest@ =~= body@.skip(i as int));
        let table = trim_tail(rest.as_str());
        let t = to_chars(table.as_str());
        let n: usize = t.len();
        let leading_pipe = n > 0 && is_pipe_at(&t, 0);
        let trailing_pipe = n > 1 && is_pipe_at(&t, n - 1);
        let raw = raw_cells(table.as_str());
        let cells = trim_all(&raw);
        assert(views(cells@).len() == cells@.len());
        assert(views(raw@).len() == raw@.len());
        let row = ParsedRow { indent, cells, leading_pipe, trailing_pipe, eol };
        assert(row@ =~= row_of(body@, eol@));
        row
    }

    /// The row laid out at the given widths.
    pub fn format(&self, widths: &Vec<usize>, separator: bool) -> (out: String)
        ensures
            out@ == self@.formatted(widths@, separator),
    {
        let count: usize = widths.len();
        let mut out = self.indent.clone();
        if self.leading_pipe {
            out.push('|');
        }
        let mut c: usize = 0;
        while c < count
            invariant
                c <= count,
                count == widths@.len(),
                out@ == self@.formatted_upto(widths@, separator, c as int),
            decreases count - c,
        {
            if self.leading_pipe || c > 0 {
                out.push(' ');
            }
            let source = if c < self.cells.len() {
                assert(views(self.cells@)[c as int] == self.cells@[c as int]@);
                self.cells[c].clone()
            } else {
                String::new()
            };
            assert(source@ =~= self@.cell(c as int));
            let cell = if separator {
                separator_cell(source.as_str(), widths[c])
            } else {
                let padding: usize = widths[c].saturating_sub(width(source.as_str()));
                let mut filled = source;
                push_repeated(&mut filled, ' ', padding);
                filled
            };
            out.append(cell.as_str());
            if c + 1 < count || self.trailing_pipe {
                out.push(' ');
                out.push('|');
            }
            c += 1;
        }
        out.append(self.eol.as_str());
        out
    }
}

/// Whether a cell holds dashes, with a colon or more at either end at most.
pub open spec fn dashes_cell(cell: Seq<char>, least: int) -> bool {
    let core = strip_end(strip_start(trimmed(cell), ':'), ':');
    core.len() >= least && forall|i: int| 0 <= i < core.len() ==> core[i] == '-'
}

/// Whether a cell holds at least `least` dashes, with colons at either end at most.
pub fn is_dashes_cell(cell: &str, least: usize) -> (yes: bool)
    ensures
        yes == dashes_cell(cell@, least as int),
{
    let t = trim(cell);
    let front = strip_front(t.as_str(), ':');
    let core = to_chars(strip_back(front.as_str(), ':').as_str());
    if core.len() < least {
        return false;
    }
    let mut i: usize = 0;
    while i < core.len()
        invariant
            i <= core@.len(),
            core@ == strip_end(strip_start(trimmed(cell@), ':'), ':'),
            forall|j: int| 0 <= j < i ==> core@[j] == '-',
        decreases core@.len() - i,
    {
        if core[i] != '-' {
            return false;
        }
        i += 1;
    }
    true
}

/// Whether all cells hold at least `least` dashes.
pub open spec fn all_dashes(cells: Seq<Seq<char>>, least: int) -> bool {
    forall|k: int| 0 <= k < cells.len() ==> dashes_cell(#[trigger] cells[k], least)
}

/// Whether all cells hold at least `least` dashes.
pub fn are_dashes(cells: &Vec<String>, least: usize) -> (yes: bool)
    ensures
        yes == all_dashes(views(cells@), least as int),
{
    let mut i: usize = 0;
    while i < cells.len()
        invariant
            i <= cells@.len(),
            forall|k: int| 0 <= k < i ==> dashes_cell(#[trigger] views(cells@)[k], least as int),
        decreases cells@.len() - i,
    {
        assert(views(cells@)[i as int] == cells@[i as int]@);
        if !is_dashes_cell(cells[i].as_str(), least) {
            return false;
        }
        i += 1;
    }
    assert(views(cells@).len() == cells@.len());
    true
}

/// The bounds of the cells of a line, in characters. White space around the row is not
/// part of a cell.
pub open spec fn cell_bounds(text: Seq<char>) -> Seq<(int, int)> {
    let t = trimmed(text);
    let off = text.len() - trim_start(text).len();
    let p = pipes(t);
    let first: int = if pipe_at(t, 0) {
        1
    } else {
        0
    };
    let rest: int = if pipe_at(t, t.len() - 1) {
        0
    } else {
        1
    };
    if p.len() == 0 {
        Seq::empty()
    } else {
        Seq::new(
            (p.len() - first + rest) as nat,
            |k: int|
                (
                    off + cell_from(p, first + k),
                    off + cell_to(p, t.len() as int, first + k),
                ),
        )
    }
}

/// The bounds, as exact numbers.
pub open spec fn bound_places(v: Seq<(usize, usize)>) -> Seq<(int, int)> {
    v.map_values(|b: (usize, usize)| (b.0 as int, b.1 as int))
}

/// The bounds of the cells of a line, in characters.
pub fn table_cell_bounds(text: &str) -> (out: Vec<(usize, usize)>)
    ensures
        bound_places(out@) == cell_bounds(text@),
        forall|k: int| 0 <= k < out@.len() ==> (#[trigger] out@[k]).0 <= out@[k].1 <= text@.len(),
{
    let all = to_chars(text);
    let whole: usize = all.len();
    let off: usize = lead_length(&all);
    let (a, b) = trim_bounds(&all);
    let body = from_chars(&all, a, b);
    let t = to_chars(body.as_str());
    let p = pipe_positions(&t);
    let ghost q = pipes(t@);
    let mut out: Vec<(usize, usize)> = Vec::new();
    if p.len() == 0 {
        assert(bound_places(out@) =~= cell_bounds(text@));
        return out;
    }
    let n: usize = t.len();
    proof {
        lemma_trimmed_fits(text@);
    }
    let leading = is_pipe_at(&t, 0);
    let ends = is_pipe_at(&t, n - 1);
    let first: usize = if leading {
        1
    } else {
        0
    };
    proof {
        lemma_pipes(t@, n as int);
        if leading {
            lemma_first_pipe(t@, n as int);
        }
    }
    let mut k: usize = first;
    while k < p.len()
        invariant
            first <= k <= p@.len(),
            first <= 1,
            p@.len() > 0,
            n == t@.len(),
            off + n <= text@.len(),
            whole == text@.len(),
            q == pipes(t@),
            p@.len() == q.len(),
            forall|k: int| 0 <= k < p@.len() ==> (#[trigger] p@[k]) < n,
            forall|k: int| 0 <= k < p@.len() ==> q[k] == #[trigger] p@[k],
            forall|j: int, k: int| 0 <= j < k < p@.len() ==> p@[j] < p@[k],
            out@.len() == k - first,
            forall|j: int|
                0 <= j < k - first ==> (#[trigger] out@[j]).0 == off + cell_from(q, first + j)
                    && out@[j].1 == off + cell_to(q, n as int, first + j) && out@[j].0 <= out@[j].1
                    <= text@.len(),
        decreases p@.len() - k,
    {
        let from: usize = if k == 0 {
            0
        } else {
            p[k - 1] + 1
        };
        out.push((off + from, off + p[k]));
        k += 1;
    }
    if !ends {
        let from: usize = p[p.len() - 1] + 1;
        out.push((off + from, off + n));
    }
    assert(bound_places(out@) =~= cell_bounds(text@));
    out
}

proof fn lemma_trimmed_fits(s: Seq<char>)
    ensures
        (s.len() - trim_start(s).len()) + trimmed(s).len() <= s.len(),
        trim_start(s).len() <= s.len(),
{
    lemma_trim_start_len(s);
    lemma_trim_end_len(trim_start(s));
}

proof fn lemma_trim_start_len(s: Seq<char>)
    ensures
        trim_start(s).len() <= s.len(),
    decreases s.len(),
{
    if s.len() > 0 && crate::strings::white_space(s[0]) {
        lemma_trim_start_len(s.skip(1));
    }
}

proof fn lemma_trim_end_len(s: Seq<char>)
    ensures
        trim_end(s).len() <= s.len(),
    decreases s.len(),
{
    if s.len() > 0 && crate::strings::white_space(s.last()) {
        lemma_trim_end_len(s.drop_last());
    }
}

proof fn lemma_first_pipe(s: Seq<char>, n: int)
    requires
        pipe_at(s, 0),
        0 < n <= s.len(),
    ensures
        pipes_upto(s, n).len() > 0,
        pipes_upto(s, n)[0] == 0,
    decreases n,
{
    if n > 1 {
        lemma_first_pipe(s, n - 1);
    } else {
        assert(pipes_upto(s, 0) =~= Seq::<int>::empty());
    }
}

/// The cells of a line lie in it one behind the other, with a pipe between them.
pub proof fn lemma_cells_follow(text: Seq<char>, j: int, k: int)
    requires
        0 <= j <= k < cell_bounds(text).len(),
    ensures
        0 <= cell_bounds(text)[k].0 <= cell_bounds(text)[k].1 <= text.len(),
        j < k ==> cell_bounds(text)[j].1 < cell_bounds(text)[k].0,
{
    let t = trimmed(text);
    let p = pipes(t);
    lemma_trimmed_fits(text);
    lemma_pipes(t, t.len() as int);
    if pipe_at(t, 0) {
        lemma_first_pipe(t, t.len() as int);
    }
    let first: int = if pipe_at(t, 0) {
        1
    } else {
        0
    };
    if first + k > 0 {
        assert(0 <= p[first + k - 1] < t.len());
    }
    if first + k < p.len() {
        assert(0 <= p[first + k] < t.len());
    }
}

/// A cell of the line of dashes is as wide as its column, and keeps the colons that say how
/// the column is aligned.
pub proof fn lemma_alignment_is_kept(source: Seq<char>, width: usize)
    requires
        width >= 3,
    ensures
        ({
            let t = trimmed(source);
            let s = separator_text(source, width);
            &&& s.len() == width
            &&& s[0] == ':' <==> t.len() > 0 && t[0] == ':'
            &&& s.last() == ':' <==> t.len() > 0 && t.last() == ':'
            &&& forall|i: int| 0 < i < width - 1 ==> #[trigger] s[i] == '-'
            &&& s[0] == ':' || s[0] == '-'
            &&& s.last() == ':' || s.last() == '-'
        }),
{
}

/// A row between pipes has each of its cells, with spaces up to the width of the column,
/// between a space and a space before a pipe.
pub proof fn lemma_cells_are_laid_out(row: ParsedRowView, widths: Seq<usize>, c: int)
    requires
        row.leading_pipe,
        row.trailing_pipe,
        0 <= c < widths.len(),
        c < row.cells.len(),
        columns(row.cells[c]) <= widths[c],
    ensures
        row.formatted_upto(widths, false, 0) == row.indent.push('|'),
        row.formatted_upto(widths, false, c + 1) == row.formatted_upto(widths, false, c) + seq![' ']
            + row.cells[c] + repeated(' ', widths[c] - columns(row.cells[c])) + seq![' ', '|'],
        row.formatted(widths, false) == row.formatted_upto(widths, false, widths.len() as int)
            + row.eol,
{
    let before = row.formatted_upto(widths, false, c);
    let pad = repeated(' ', widths[c] - columns(row.cells[c]));
    assert(row.formatted_upto(widths, false, c + 1) =~= before + seq![' '] + row.cells[c] + pad + seq![
        ' ',
        '|',
    ]);
}

} // verus!
