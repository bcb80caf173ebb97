//! Flowing styled text into lines: merging runs of one style, and wrapping with
//! awareness of CJK / emoji display width.

use vstd::prelude::*;

use crate::strings::{same, views};
use crate::style::{shown, span_views, Line, Span, SpanView, Style};
use crate::text::{cluster_texts, columns, graphemes, width};

verus! {

/// Runs of text with neighbours of the same style joined.
pub open spec fn merged(items: Seq<SpanView>) -> Seq<SpanView>
    decreases items.len(),
{
    if items.len() == 0 {
        Seq::empty()
    } else {
        let rest = merged(items.drop_last());
        if rest.len() > 0 && rest.last().style == items.last().style {
            rest.drop_last().push(shown(rest.last().text + items.last().text, rest.last().style))
        } else {
            rest.push(items.last())
        }
    }
}

/// All the text of runs, in order.
pub open spec fn text_of(items: Seq<SpanView>) -> Seq<char>
    decreases items.len(),
{
    if items.len() == 0 {
        Seq::empty()
    } else {
        text_of(items.drop_last()) + items.last().text
    }
}

/// The text of a line's spans.
pub fn line_text(line: &Line) -> (out: String)
    ensures
        out@ == text_of(line@),
{
    let mut out = String::new();
    let mut i: usize = 0;
    let count: usize = line.spans.len();
    while i < count
        invariant
            i <= count,
            count == line.spans@.len(),
            out@ == text_of(line@.take(i as int)),
        decreases count - i,
    {
        let span: &Span = &line.spans[i];
        out.append(span.text.as_str());
        i += 1;
        assert(line@.take(i as int).drop_last() =~= line@.take(i - 1));
        assert(line@[i - 1] == line.spans@[i - 1]@);
    }
    assert(line@.take(i as int) =~= line@);
    out
}

/// Merging runs changes neither the text nor leaves two neighbours of one style.
pub proof fn lemma_merging_keeps_the_text(items: Seq<SpanView>)
    ensures
        text_of(merged(items)) == text_of(items),
        forall|i: int, j: int|
            0 <= i && j == i + 1 && j < merged(items).len() ==> (#[trigger] merged(items)[i]).style
                != (#[trigger] merged(items)[j]).style,
    decreases items.len(),
{
    if items.len() > 0 {
        lemma_merging_keeps_the_text(items.drop_last());
        let rest = merged(items.drop_last());
        let all = merged(items);
        if rest.len() > 0 && rest.last().style == items.last().style {
            let both = shown(rest.last().text + items.last().text, rest.last().style);
            assert(all.drop_last() =~= rest.drop_last());
            assert(all.last() == both);
            assert(text_of(all) =~= text_of(items));
            assert forall|i: int, j: int|
                0 <= i && j == i + 1 && j < all.len() implies (#[trigger] all[i]).style != (
            #[trigger] all[j]).style by {
                assert(rest[i].style != rest[j].style);
            }
        } else {
            assert(all.drop_last() =~= rest);
            assert(text_of(all) =~= text_of(items));
            assert forall|i: int, j: int|
                0 <= i && j == i + 1 && j < all.len() implies (#[trigger] all[i]).style != (
            #[trigger] all[j]).style by {
                if j < rest.len() {
                    assert(rest[i].style != rest[j].style);
                }
            }
        }
    }
}

/// Merge runs of (text, style) into a line, coalescing equal styles.
/// Shared by the preview and code-block renderers.
pub fn merge_spans(items: &Vec<Span>) -> (line: Line)
    ensures
        line@ == merged(span_views(items@)),
{
    let ghost all = span_views(items@);
    let mut spans: Vec<Span> = Vec::new();
    let mut i: usize = 0;
    assert(all.take(0) =~= Seq::empty());
    assert(span_views(spans@) =~= Seq::empty());
    while i < items.len()
        invariant
            i <= items@.len(),
            all == span_views(items@),
            span_views(spans@) == merged(all.take(i as int)),
        decreases items@.len() - i,
    {
        let ghost before = span_views(spans@);
        let count: usize = spans.len();
        proof {
            assert(all.take(i + 1).drop_last() =~= all.take(i as int));
            assert(all.take(i + 1).last() == items@[i as int]@);
            if count > 0 {
                assert(before.last() == spans@[count - 1]@);
            }
        }
        if count > 0 && spans[count - 1].style == items[i].style {
            let mut last = spans.pop().unwrap();
            assert(span_views(spans@) =~= before.drop_last());
            last.text.append(items[i].text.as_str());
            let ghost joint = last@;
            spans.push(last);
            assert(span_views(spans@) =~= before.drop_last().push(joint));
        } else {
            let span = items[i].copy();
            let ghost added = span@;
            spans.push(span);
            assert(span_views(spans@) =~= before.push(added));
        }
        i += 1;
    }
    assert(all.take(i as int) =~= all);
    Line { spans }
}

/// A grapheme cluster to flow, with its display width.
pub struct Cluster {
    pub text: String,
    pub style: Style,
    pub w: usize,
}

/// What a [`Cluster`] is.
#[verifier::ext_equal]
pub struct ClusterView {
    pub text: Seq<char>,
    pub style: Style,
    pub w: usize,
}

impl View for Cluster {
    type V = ClusterView;

    open spec fn view(&self) -> ClusterView {
        ClusterView { text: self.text@, style: self.style, w: self.w }
    }
}

/// What clusters are.
pub open spec fn cluster_views(cells: Seq<Cluster>) -> Seq<ClusterView> {
    cells.map_values(|c: Cluster| c@)
}

/// A cluster of the given text: a line break takes no columns.
pub open spec fn cluster_of(text: Seq<char>, style: Style) -> ClusterView {
    ClusterView {
        text,
        style,
        w: if text == "\n"@ {
            0
        } else {
            columns(text)
        },
    }
}

/// The clusters of one run.
pub open spec fn run_cells(seg: SpanView) -> Seq<ClusterView> {
    cluster_texts(seg.text).map_values(|t: Seq<char>| cluster_of(t, seg.style))
}

/// The clusters of runs, in order.
pub open spec fn cells_of(segs: Seq<SpanView>) -> Seq<ClusterView>
    decreases segs.len(),
{
    if segs.len() == 0 {
        Seq::empty()
    } else {
        cells_of(segs.drop_last()) + run_cells(segs.last())
    }
}

/// The display width of the clusters from `a` to `b`.
pub open spec fn width_between(cells: Seq<ClusterView>, a: int, b: int) -> usize
    decreases b - a,
{
    if b <= a {
        0
    } else {
        width_between(cells, a, b - 1).saturating_add(cells[b - 1].w)
    }
}

/// How the clusters so far are cut into rows: each row runs from one cluster up to
/// another, and the row being filled begins at `from`.
#[verifier::ext_equal]
pub struct Wrapping {
    pub rows: Seq<(int, int)>,
    pub from: int,
    pub col: usize,
    /// The place after the last space of the row being filled.
    pub gap: Option<int>,
}

/// The row being filled, closed before a cluster that does not fit: at its last space
/// where words are kept whole and there is one, else right before the cluster.
pub open spec fn closed_row(
    s: Wrapping,
    cells: Seq<ClusterView>,
    n: int,
    word_wrap: bool,
) -> Wrapping {
    match s.gap {
        Some(gap) if word_wrap => Wrapping {
            rows: s.rows.push((s.from, gap)),
            from: gap,
            col: width_between(cells, gap, n),
            gap: None,
        },
        _ => Wrapping { rows: s.rows.push((s.from, n)), from: n, col: 0, gap: None },
    }
}

/// The rows after the first `n` clusters. A line break ends its row; a cluster that would
/// overflow a row that is not empty closes it first.
pub open spec fn wrapping(
    cells: Seq<ClusterView>,
    n: int,
    width: usize,
    word_wrap: bool,
) -> Wrapping
    decreases n,
{
    if n <= 0 {
        Wrapping { rows: Seq::empty(), from: 0, col: 0, gap: None }
    } else {
        let s = wrapping(cells, n - 1, width, word_wrap);
        let g = cells[n - 1];
        if g.text == "\n"@ {
            Wrapping { rows: s.rows.push((s.from, n - 1)), from: n, col: 0, gap: None }
        } else {
            let t = if s.col.saturating_add(g.w) > width && n - 1 > s.from {
                closed_row(s, cells, n - 1, word_wrap)
            } else {
                s
            };
            Wrapping {
                rows: t.rows,
                from: t.from,
                col: t.col.saturating_add(g.w),
                gap: if g.text == " "@ {
                    Some(n)
                } else {
                    t.gap
                },
            }
        }
    }
}

/// The rows that clusters are cut into.
pub open spec fn row_ranges(
    cells: Seq<ClusterView>,
    width: usize,
    word_wrap: bool,
) -> Seq<(int, int)> {
    let s = wrapping(cells, cells.len() as int, width, word_wrap);
    s.rows.push((s.from, cells.len() as int))
}

/// The clusters from `a` to `b` as runs.
pub open spec fn runs_between(cells: Seq<ClusterView>, a: int, b: int) -> Seq<SpanView> {
    cells.subrange(a, b).map_values(|c: ClusterView| shown(c.text, c.style))
}

/// Runs of text flowed into lines `width` columns wide.
pub open spec fn wrapped(segs: Seq<SpanView>, width: usize, word_wrap: bool) -> Seq<Seq<SpanView>> {
    let cells = cells_of(segs);
    let w: usize = if width < 1 {
        1
    } else {
        width
    };
    row_ranges(cells, w, word_wrap).map_values(
        |r: (int, int)| merged(runs_between(cells, r.0, r.1)),
    )
}

/// Where the next row begins after the row that ends at `end`: a line break is left out.
pub open spec fn next_from(cells: Seq<ClusterView>, end: int) -> int {
    if 0 <= end < cells.len() && cells[end].text == "\n"@ {
        end + 1
    } else {
        end
    }
}

/// Whether row `i` begins where the row before it ends.
pub open spec fn rows_join(cells: Seq<ClusterView>, rows: Seq<(int, int)>, i: int) -> bool {
    rows[i].0 == if i == 0 {
        0
    } else {
        next_from(cells, rows[i - 1].1)
    }
}

/// What holds of the rows while clusters are added.
pub open spec fn wrapping_ok(cells: Seq<ClusterView>, s: Wrapping, n: int) -> bool {
    &&& 0 <= s.from <= n
    &&& match s.gap {
        Some(gap) => s.from < gap <= n,
        None => true,
    }
    &&& s.from == if s.rows.len() == 0 {
        0
    } else {
        next_from(cells, s.rows.last().1)
    }
    &&& forall|i: int| 0 <= i < s.rows.len() ==> #[trigger] rows_join(cells, s.rows, i)
    &&& forall|i: int|
        0 <= i < s.rows.len() ==> 0 <= (#[trigger] s.rows[i]).0 <= s.rows[i].1 <= n
    &&& forall|k: int| s.from <= k < n ==> (#[trigger] cells[k]).text != "\n"@
}

proof fn lemma_row_added(cells: Seq<ClusterView>, s: Wrapping, n: int, end: int)
    requires
        wrapping_ok(cells, s, n),
        s.from <= end <= n,
    ensures
        forall|i: int|
            0 <= i < s.rows.len() + 1 ==> #[trigger] rows_join(
                cells,
                s.rows.push((s.from, end)),
                i,
            ),
        forall|i: int|
            0 <= i < s.rows.len() + 1 ==> 0 <= (#[trigger] s.rows.push((s.from, end))[i]).0
                <= s.rows.push((s.from, end))[i].1 <= n,
{
    let rows = s.rows.push((s.from, end));
    assert forall|i: int| 0 <= i < rows.len() implies #[trigger] rows_join(cells, rows, i) by {
        if i < s.rows.len() {
            assert(rows_join(cells, s.rows, i));
        }
    }
    assert forall|i: int| 0 <= i < rows.len() implies 0 <= (#[trigger] rows[i]).0 <= rows[i].1
        <= n by {
        if i < s.rows.len() {
            assert(0 <= s.rows[i].0 <= s.rows[i].1 <= n);
        }
    }
}

/// The rows of the clusters so far follow one another.
pub proof fn lemma_wrapping_ok(cells: Seq<ClusterView>, n: int, width: usize, word_wrap: bool)
    requires
        0 <= n <= cells.len(),
    ensures
        wrapping_ok(cells, wrapping(cells, n, width, word_wrap), n),
    decreases n,
{
    if n > 0 {
        lemma_wrapping_ok(cells, n - 1, width, word_wrap);
        let s = wrapping(cells, n - 1, width, word_wrap);
        let g = cells[n - 1];
        let r = wrapping(cells, n, width, word_wrap);
        if g.text == "\n"@ {
            lemma_row_added(cells, s, n - 1, n - 1);
            assert(r.rows.last() == (s.from, n - 1));
            assert(next_from(cells, n - 1) == n);
        } else if s.col.saturating_add(g.w) > width && n - 1 > s.from {
            let end = match s.gap {
                Some(gap) if word_wrap => gap,
                _ => n - 1,
            };
            lemma_row_added(cells, s, n - 1, end);
            assert(r.rows.last() == (s.from, end));
            assert(r.from == end);
            if end < n - 1 {
                assert(cells[end].text != "\n"@);
            }
            assert(next_from(cells, end) == end);
            reveal_strlit(" ");
        } else {
            assert(r.rows == s.rows && r.from == s.from);
        }
    }
}

/// Wrapping loses nothing: the rows follow one another from the first cluster to the last,
/// and only line breaks are left out between them.
pub proof fn lemma_wrapping_is_lossless(cells: Seq<ClusterView>, width: usize, word_wrap: bool)
    ensures
        ({
            let rows = row_ranges(cells, width, word_wrap);
            &&& rows.len() > 0
            &&& rows.last().1 == cells.len()
            &&& forall|i: int| 0 <= i < rows.len() ==> #[trigger] rows_join(cells, rows, i)
            &&& forall|i: int|
                0 <= i < rows.len() ==> 0 <= (#[trigger] rows[i]).0 <= rows[i].1 <= cells.len()
        }),
{
    let n = cells.len() as int;
    lemma_wrapping_ok(cells, n, width, word_wrap);
    lemma_row_added(cells, wrapping(cells, n, width, word_wrap), n, n);
}

/// The exact display width of the clusters from `a` to `b`.
pub open spec fn total_width(cells: Seq<ClusterView>, a: int, b: int) -> int
    decreases b - a,
{
    if b <= a {
        0
    } else {
        total_width(cells, a, b - 1) + cells[b - 1].w
    }
}

proof fn lemma_total_width_splits(cells: Seq<ClusterView>, a: int, m: int, b: int)
    requires
        a <= m <= b,
    ensures
        total_width(cells, a, b) == total_width(cells, a, m) + total_width(cells, m, b),
        total_width(cells, m, b) >= 0,
    decreases b - m,
{
    if b > m {
        lemma_total_width_splits(cells, a, m, b - 1);
    }
}

proof fn lemma_width_between_exact(cells: Seq<ClusterView>, a: int, b: int)
    requires
        total_width(cells, a, b) <= usize::MAX,
    ensures
        width_between(cells, a, b) == total_width(cells, a, b),
    decreases b - a,
{
    if b > a {
        lemma_total_width_splits(cells, a, b - 1, b);
        lemma_width_between_exact(cells, a, b - 1);
    }
}

/// What holds of the widths while narrow clusters are added.
pub open spec fn widths_ok(cells: Seq<ClusterView>, s: Wrapping, n: int, width: int) -> bool {
    &&& s.col == total_width(cells, s.from, n)
    &&& s.col <= width
    &&& match s.gap {
        Some(gap) => total_width(cells, s.from, gap) >= 1,
        None => true,
    }
    &&& forall|i: int|
        0 <= i < s.rows.len() ==> total_width(
            cells,
            (#[trigger] s.rows[i]).0,
            s.rows[i].1,
        ) <= width
}

proof fn lemma_widths_ok(cells: Seq<ClusterView>, n: int, width: usize, word_wrap: bool)
    requires
        0 <= n <= cells.len(),
        1 <= width < usize::MAX,
        forall|k: int| 0 <= k < cells.len() ==> (#[trigger] cells[k]).w <= 1,
        forall|k: int|
            0 <= k < cells.len() && cells[k].text == " "@ ==> (#[trigger] cells[k]).w == 1,
    ensures
        widths_ok(cells, wrapping(cells, n, width, word_wrap), n, width as int),
    decreases n,
{
    if n > 0 {
        lemma_widths_ok(cells, n - 1, width, word_wrap);
        lemma_wrapping_ok(cells, n - 1, width, word_wrap);
        let s = wrapping(cells, n - 1, width, word_wrap);
        let g = cells[n - 1];
        let r = wrapping(cells, n, width, word_wrap);
        if g.text == "\n"@ {
            assert(total_width(cells, n, n) == 0);
            assert forall|i: int| 0 <= i < r.rows.len() implies total_width(
                cells,
                (#[trigger] r.rows[i]).0,
                r.rows[i].1,
            ) <= width by {
                if i < s.rows.len() {
                    assert(r.rows[i] == s.rows[i]);
                }
            }
        } else {
            let t = if s.col.saturating_add(g.w) > width && n - 1 > s.from {
                closed_row(s, cells, n - 1, word_wrap)
            } else {
                s
            };
            if s.col.saturating_add(g.w) > width && n - 1 > s.from {
                let end = match s.gap {
                    Some(gap) if word_wrap => gap,
                    _ => n - 1,
                };
                lemma_total_width_splits(cells, s.from, end, n - 1);
                lemma_width_between_exact(cells, end, n - 1);
                assert(t.col + 1 <= width);
                assert(t.col == total_width(cells, end, n - 1));
                assert forall|i: int| 0 <= i < t.rows.len() implies total_width(
                    cells,
                    (#[trigger] t.rows[i]).0,
                    t.rows[i].1,
                ) <= width by {
                    if i < s.rows.len() {
                        assert(t.rows[i] == s.rows[i]);
                    }
                }
            } else if n - 1 == s.from {
                assert(total_width(cells, s.from, n - 1) == 0);
            }
            assert(r.col == total_width(cells, r.from, n));
            if g.text == " "@ {
                lemma_total_width_splits(cells, r.from, n - 1, n);
                lemma_total_width_splits(cells, r.from, r.from, n - 1);
                assert(total_width(cells, r.from, n) >= 1);
            }
        }
    }
}

/// Where no cluster is wider than one column and a space is one column wide, no row is
/// wider than the width.
pub proof fn lemma_wrapped_rows_fit(cells: Seq<ClusterView>, width: usize, word_wrap: bool)
    requires
        1 <= width < usize::MAX,
        forall|k: int| 0 <= k < cells.len() ==> (#[trigger] cells[k]).w <= 1,
        forall|k: int|
            0 <= k < cells.len() && cells[k].text == " "@ ==> (#[trigger] cells[k]).w == 1,
    ensures
        forall|i: int|
            0 <= i < row_ranges(cells, width, word_wrap).len() ==> total_width(
                cells,
                (#[trigger] row_ranges(cells, width, word_wrap)[i]).0,
                row_ranges(cells, width, word_wrap)[i].1,
            ) <= width,
{
    let n = cells.len() as int;
    lemma_widths_ok(cells, n, width, word_wrap);
    let s = wrapping(cells, n, width, word_wrap);
    let rows = row_ranges(cells, width, word_wrap);
    assert forall|i: int| 0 <= i < rows.len() implies total_width(
        cells,
        (#[trigger] rows[i]).0,
        rows[i].1,
    ) <= width by {
        if i < s.rows.len() {
            assert(rows[i] == s.rows[i]);
        }
    }
}

/// The clusters of runs, in order.
pub fn flatten(segs: &Vec<Span>) -> (cells: Vec<Cluster>)
    ensures
        cluster_views(cells@) == cells_of(span_views(segs@)),
{
    let ghost all = span_views(segs@);
    let mut cells: Vec<Cluster> = Vec::new();
    let mut i: usize = 0;
    assert(all.take(0) =~= Seq::empty());
    assert(cluster_views(cells@) =~= Seq::empty());
    while i < segs.len()
        invariant
            i <= segs@.len(),
            all == span_views(segs@),
            cluster_views(cells@) == cells_of(all.take(i as int)),
        decreases segs@.len() - i,
    {
        let parts = graphemes(segs[i].text.as_str());
        let style = segs[i].style;
        let ghost seg = segs@[i as int]@;
        let ghost before = cluster_views(cells@);
        let ghost whole = run_cells(seg);
        assert(views(parts@).len() == parts@.len());
        let mut k: usize = 0;
        assert(before + whole.take(0) =~= before);
        while k < parts.len()
            invariant
                k <= parts@.len(),
                style == seg.style,
                views(parts@) == cluster_texts(seg.text),
                whole == run_cells(seg),
                whole.len() == parts@.len(),
                cluster_views(cells@) == before + whole.take(k as int),
            decreases parts@.len() - k,
        {
            let ghost prior = cluster_views(cells@);
            assert(views(parts@)[k as int] == parts@[k as int]@);
            let text = parts[k].clone();
            let w: usize = if same(text.as_str(), "\n") {
                0
            } else {
                width(text.as_str())
            };
            let cell = Cluster { text, style, w };
            let ghost added = cell@;
            assert(added == whole[k as int]);
            cells.push(cell);
            k += 1;
            assert(cluster_views(cells@) =~= prior.push(added));
            assert(whole.take(k as int) =~= whole.take(k - 1).push(added));
            assert(cluster_views(cells@) =~= before + whole.take(k as int));
        }
        assert(whole.take(k as int) =~= whole);
        i += 1;
        assert(all.take(i as int).drop_last() =~= all.take(i - 1));
        assert(all.take(i as int).last() == seg);
    }
    assert(all.take(i as int) =~= all);
    cells
}

fn width_from(cells: &Vec<Cluster>, a: usize, b: usize) -> (w: usize)
    requires
        a <= b <= cells@.len(),
    ensures
        w == width_between(cluster_views(cells@), a as int, b as int),
{
    let ghost v = cluster_views(cells@);
    let mut w: usize = 0;
    let mut i: usize = a;
    while i < b
        invariant
            a <= i <= b <= cells@.len(),
            v == cluster_views(cells@),
            w == width_between(v, a as int, i as int),
        decreases b - i,
    {
        assert(v[i as int].w == cells@[i as int].w);
        w = w.saturating_add(cells[i].w);
        i += 1;
    }
    w
}

/// The row of the clusters from `a` to `b`.
fn row_between(cells: &Vec<Cluster>, a: usize, b: usize) -> (line: Line)
    requires
        a <= b <= cells@.len(),
    ensures
        line@ == merged(runs_between(cluster_views(cells@), a as int, b as int)),
{
    let ghost v = cluster_views(cells@);
    let ghost whole = runs_between(v, a as int, b as int);
    let mut runs: Vec<Span> = Vec::new();
    let mut i: usize = a;
    while i < b
        invariant
            a <= i <= b <= cells@.len(),
            v == cluster_views(cells@),
            whole == runs_between(v, a as int, b as int),
            runs@.len() == i - a,
            forall|k: int| 0 <= k < i - a ==> (#[trigger] runs@[k])@ == whole[k],
        decreases b - i,
    {
        assert(v[i as int] == cells@[i as int]@);
        runs.push(Span::styled(cells[i].text.clone(), cells[i].style));
        i += 1;
    }
    assert(span_views(runs@) =~= whole);
    merge_spans(&runs)
}

/// Word-wrap (or hard-wrap) styled runs to `width`, returning styled lines.
pub fn wrap(segs: &Vec<Span>, width: usize, word_wrap: bool) -> (lines: Vec<Line>)
    ensures
        crate::style::line_views(lines@) == wrapped(span_views(segs@), width, word_wrap),
{
    let w: usize = if width < 1 {
        1
    } else {
        width
    };
    let cells = flatten(segs);
    let ghost v = cluster_views(cells@);
    let count: usize = cells.len();
    let mut lines: Vec<Line> = Vec::new();
    let mut from: usize = 0;
    let mut col: usize = 0;
    let mut gap: Option<usize> = None;
    let mut n: usize = 0;
    let ghost show = |r: (int, int)| merged(runs_between(v, r.0, r.1));
    assert(crate::style::line_views(lines@) =~= Seq::<(int, int)>::empty().map_values(show));
    while n < count
        invariant
            count == cells@.len(),
            v == cluster_views(cells@),
            v == cells_of(span_views(segs@)),
            show == (|r: (int, int)| merged(runs_between(v, r.0, r.1))),
            n <= count,
            from <= n,
            ({
                let s = wrapping(v, n as int, w, word_wrap);
                &&& s.from == from
                &&& s.col == col
                &&& s.gap == match gap {
                    Some(g) => Some(g as int),
                    None => None,
                }
                &&& crate::style::line_views(lines@) == s.rows.map_values(show)
            }),
        decreases count - n,
    {
        let ghost s = wrapping(v, n as int, w, word_wrap);
        let ghost before = crate::style::line_views(lines@);
        proof {
            lemma_wrapping_ok(v, n as int, w, word_wrap);
            assert(v[n as int] == cells@[n as int]@);
        }
        if same(cells[n].text.as_str(), "\n") {
            let line = row_between(&cells, from, n);
            let ghost added = line@;
            lines.push(line);
            proof {
                assert(crate::style::line_views(lines@) =~= before.push(added));
                assert(s.rows.push((s.from, n as int)).map_values(show) =~= s.rows.map_values(
                    show,
                ).push(show((s.from, n as int))));
            }
            n += 1;
            from = n;
            col = 0;
            gap = None;
        } else {
            if col.saturating_add(cells[n].w) > w && n > from {
                let end: usize = match gap {
                    Some(g) => if word_wrap {
                        g
                    } else {
                        n
                    },
                    None => n,
                };
                let line = row_between(&cells, from, end);
                let ghost added = line@;
                lines.push(line);
                proof {
                    assert(crate::style::line_views(lines@) =~= before.push(added));
                    assert(s.rows.push((s.from, end as int)).map_values(show)
                        =~= s.rows.map_values(show).push(show((s.from, end as int))));
                }
                col = width_from(&cells, end, n);
                from = end;
                gap = None;
            }
            col = col.saturating_add(cells[n].w);
            if same(cells[n].text.as_str(), " ") {
                gap = Some(n + 1);
            }
            n += 1;
        }
    }
    let ghost s = wrapping(v, n as int, w, word_wrap);
    let ghost before = crate::style::line_views(lines@);
    let line = row_between(&cells, from, n);
    let ghost added = line@;
    lines.push(line);
    proof {
        assert(crate::style::line_views(lines@) =~= before.push(added));
        assert(s.rows.push((s.from, n as int)).map_values(show) =~= s.rows.map_values(show).push(
            show((s.from, n as int)),
        ));
    }
    lines
}

} // verus!
