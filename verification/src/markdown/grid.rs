//! Laying out table cells: column widths that fit, and cell text fitted to its column.

use vstd::prelude::*;

use crate::markdown::ast::Alignment;
use crate::strings::{repeat_char, repeated, views};
use crate::style::{raw, shown, span_views, Span, SpanView, Style};
use crate::text::{cluster_texts, columns, graphemes, width};

verus! {

/// Total display width of a cell's runs.
pub open spec fn runs_width(segs: Seq<SpanView>) -> usize
    decreases segs.len(),
{
    if segs.len() == 0 {
        0
    } else {
        runs_width(segs.drop_last()).saturating_add(columns(segs.last().text))
    }
}

/// Total display width of a cell's runs.
pub fn segs_width(segs: &Vec<Span>) -> (w: usize)
    ensures
        w == runs_width(span_views(segs@)),
{
    let ghost all = span_views(segs@);
    let mut w: usize = 0;
    let mut i: usize = 0;
    assert(all.take(0) =~= Seq::empty());
    while i < segs.len()
        invariant
            i <= segs@.len(),
            all == span_views(segs@),
            w == runs_width(all.take(i as int)),
        decreases segs@.len() - i,
    {
        w = w.saturating_add(width(segs[i].text.as_str()));
        i += 1;
        assert(all.take(i as int).drop_last() =~= all.take(i - 1));
        assert(all.take(i as int).last() == segs@[i - 1]@);
    }
    assert(all.take(i as int) =~= all);
    w
}

/// How many of the clusters from `k` on fit before the column `w` is reached, and the
/// width used then.
pub open spec fn fitting(texts: Seq<Seq<char>>, k: int, used: usize, w: usize) -> (int, usize)
    decreases texts.len() - k,
{
    if k >= texts.len() || used.saturating_add(columns(texts[k])).saturating_add(1) > w {
        (k, used)
    } else {
        fitting(texts, k + 1, used.saturating_add(columns(texts[k])), w)
    }
}

/// The texts, one after another.
pub open spec fn concat(texts: Seq<Seq<char>>) -> Seq<char>
    decreases texts.len(),
{
    if texts.len() == 0 {
        Seq::empty()
    } else {
        concat(texts.drop_last()) + texts.last()
    }
}

/// The style of a cell's run: header cells layer the header's emphasis over it.
pub open spec fn cell_style(style: Style, extra: Option<Style>) -> Style {
    match extra {
        Some(e) => style.layered(e),
        None => style,
    }
}

/// What is kept of the runs from `i` on when a cell is cut to leave one column for the
/// ellipsis, and the width used then.
pub open spec fn kept(
    segs: Seq<SpanView>,
    i: int,
    used: usize,
    w: usize,
    extra: Option<Style>,
) -> (Seq<SpanView>, usize)
    decreases segs.len() - i,
{
    if i < 0 || i >= segs.len() {
        (Seq::empty(), used)
    } else {
        let texts = cluster_texts(segs[i].text);
        let (count, now) = fitting(texts, 0, used, w);
        let text = concat(texts.take(count));
        let head = if text.len() > 0 {
            seq![shown(text, cell_style(segs[i].style, extra))]
        } else {
            Seq::empty()
        };
        if count < texts.len() {
            (head, now)
        } else {
            let (rest, end) = kept(segs, i + 1, now, w, extra);
            (head + rest, end)
        }
    }
}

/// The runs that are not empty.
pub open spec fn cell_runs(segs: Seq<SpanView>, extra: Option<Style>) -> Seq<SpanView>
    decreases segs.len(),
{
    if segs.len() == 0 {
        Seq::empty()
    } else if segs.last().text.len() > 0 {
        cell_runs(segs.drop_last(), extra).push(
            shown(segs.last().text, cell_style(segs.last().style, extra)),
        )
    } else {
        cell_runs(segs.drop_last(), extra)
    }
}

/// `n` spaces, where that is any.
pub open spec fn spaces(n: int) -> Seq<SpanView> {
    if n > 0 {
        seq![raw(repeated(' ', n))]
    } else {
        Seq::empty()
    }
}

/// The columns left of an aligned text, of `pad` columns in all.
pub open spec fn left_of(pad: int, align: Alignment) -> int {
    match align {
        Alignment::Right => pad,
        Alignment::Center => pad / 2,
        _ => 0,
    }
}

/// A cell's runs fitted into `w` columns: cut short with an ellipsis when too long, padded
/// with spaces when short.
pub open spec fn fitted(
    segs: Seq<SpanView>,
    w: usize,
    align: Alignment,
    extra: Option<Style>,
) -> Seq<SpanView> {
    let total = runs_width(segs);
    if total > w {
        let (head, used) = kept(segs, 0, 0, w, extra);
        head + seq![shown("\u{2026}"@, cell_style(Style::plain(), extra))] + spaces(
            w - used.saturating_add(1),
        )
    } else {
        let pad = w - total;
        spaces(left_of(pad, align)) + cell_runs(segs, extra) + spaces(pad - left_of(pad, align))
    }
}

fn layered_style(style: Style, extra: Option<Style>) -> (s: Style)
    ensures
        s == cell_style(style, extra),
{
    match extra {
        Some(e) => style.add_emphasis(e),
        None => style,
    }
}

fn push_spaces(out: &mut Vec<Span>, n: usize)
    ensures
        span_views(final(out)@) == span_views(old(out)@) + spaces(n as int),
{
    let ghost before = span_views(out@);
    if n > 0 {
        let span = Span::raw(repeat_char(' ', n));
        let ghost added = span@;
        out.push(span);
        assert(span_views(out@) =~= before.push(added));
    }
    assert(span_views(out@) =~= before + spaces(n as int));
}

/// The text of the clusters that fit, whether all of them do, and the width used then.
fn cut(text: &str, used: usize, w: usize) -> (r: (String, bool, usize))
    ensures
        ({
            let texts = cluster_texts(text@);
            let (count, now) = fitting(texts, 0, used, w);
            &&& r.0@ == concat(texts.take(count))
            &&& r.1 == (count >= texts.len())
            &&& r.2 == now
        }),
{
    let parts = graphemes(text);
    let ghost texts = cluster_texts(text@);
    let mut out = String::new();
    let mut now: usize = used;
    let mut k: usize = 0;
    assert(views(parts@).len() == parts@.len());
    assert(texts.take(0) =~= Seq::empty());
    assert(out@ =~= concat(texts.take(0)));
    while k < parts.len()
        invariant
            k <= parts@.len(),
            views(parts@) == texts,
            texts.len() == parts@.len(),
            fitting(texts, 0, used, w) == fitting(texts, k as int, now, w),
            out@ == concat(texts.take(k as int)),
            texts == cluster_texts(text@),
        decreases parts@.len() - k,
    {
        assert(views(parts@)[k as int] == parts@[k as int]@);
        let gw: usize = width(parts[k].as_str());
        if now.saturating_add(gw).saturating_add(1) > w {
            return (out, false, now);
        }
        let ghost before = out@;
        out.append(parts[k].as_str());
        now = now.saturating_add(gw);
        k += 1;
        assert(texts.take(k as int).drop_last() =~= texts.take(k - 1));
        assert(texts.take(k as int).last() == parts@[k - 1]@);
        assert(out@ =~= concat(texts.take(k as int)));
    }
    (out, true, now)
}

fn fit_cut(segs: &Vec<Span>, w: usize, extra: Option<Style>) -> (spans: Vec<Span>)
    ensures
        ({
            let (head, used) = kept(span_views(segs@), 0, 0, w, extra);
            span_views(spans@) == head + seq![
                shown("\u{2026}"@, cell_style(Style::plain(), extra)),
            ] + spaces(w - used.saturating_add(1))
        }),
{
    let ghost all = span_views(segs@);
    let mut spans: Vec<Span> = Vec::new();
    let mut used: usize = 0;
    let mut full = false;
    let mut i: usize = 0;
    let ghost goal = kept(all, 0, 0, w, extra);
    assert(span_views(spans@) + goal.0 =~= goal.0);
    while i < segs.len() && !full
        invariant
            i <= segs@.len(),
            all == span_views(segs@),
            !full ==> span_views(spans@) + kept(all, i as int, used, w, extra).0 == goal.0 && kept(
                all,
                i as int,
                used,
                w,
                extra,
            ).1 == goal.1,
            full ==> span_views(spans@) == goal.0 && used == goal.1,
        decreases segs@.len() - i,
    {
        let ghost before = span_views(spans@);
        let (text, done, now) = cut(segs[i].text.as_str(), used, w);
        assert(all[i as int] == segs@[i as int]@);
        let ghost t = text@;
        let ghost tail = kept(all, i + 1, now, w, extra);
        if !text.as_str().is_empty() {
            let span = Span::styled(text, layered_style(segs[i].style, extra));
            let ghost added = span@;
            spans.push(span);
            assert(span_views(spans@) =~= before.push(added));
            assert(before.push(added) + tail.0 =~= before + (seq![added] + tail.0));
            assert(before.push(added) =~= before + seq![added]);
        } else {
            assert(before + tail.0 =~= before + (Seq::<SpanView>::empty() + tail.0));
            assert(before =~= before + Seq::<SpanView>::empty());
        }
        used = now;
        if !done {
            full = true;
        }
        i += 1;
    }
    assert(span_views(spans@) =~= goal.0);
    assert(used == goal.1);
    let dots = Span::styled("\u{2026}".to_owned(), layered_style(Style::new(), extra));
    let ghost added = dots@;
    let ghost before = span_views(spans@);
    spans.push(dots);
    assert(span_views(spans@) =~= before + seq![added]);
    let now: usize = used.saturating_add(1);
    if now < w {
        push_spaces(&mut spans, w - now);
    } else {
        assert(span_views(spans@) =~= span_views(spans@) + spaces(w - now));
    }
    spans
}

/// Fit a cell's styled runs into `w` display columns with the given
/// alignment (truncating with an ellipsis when too long, padding with spaces
/// when short) while preserving each run's style. `extra` (bold for header
/// cells) is layered on top of every run's own style.
pub fn fit_segs(segs: &Vec<Span>, w: usize, align: Alignment, extra: Option<Style>) -> (spans: Vec<
    Span,
>)
    ensures
        span_views(spans@) == fitted(span_views(segs@), w, align, extra),
{
    let total: usize = segs_width(segs);
    if total > w {
        return fit_cut(segs, w, extra);
    }
    let pad: usize = w - total;
    let left: usize = match align {
        Alignment::Right => pad,
        Alignment::Center => pad / 2,
        _ => 0,
    };
    let ghost all = span_views(segs@);
    let mut spans: Vec<Span> = Vec::new();
    push_spaces(&mut spans, left);
    let ghost lead = span_views(spans@);
    assert(lead =~= spaces(left as int));
    let mut i: usize = 0;
    assert(all.take(0) =~= Seq::empty());
    assert(lead + cell_runs(all.take(0), extra) =~= lead);
    while i < segs.len()
        invariant
            i <= segs@.len(),
            all == span_views(segs@),
            span_views(spans@) == lead + cell_runs(all.take(i as int), extra),
        decreases segs@.len() - i,
    {
        let ghost before = span_views(spans@);
        proof {
            assert(all.take(i + 1).drop_last() =~= all.take(i as int));
            assert(all.take(i + 1).last() == segs@[i as int]@);
        }
        if !segs[i].text.as_str().is_empty() {
            let span = Span::styled(segs[i].text.clone(), layered_style(segs[i].style, extra));
            let ghost added = span@;
            spans.push(span);
            assert(span_views(spans@) =~= before.push(added));
        }
        i += 1;
        assert(span_views(spans@) =~= lead + cell_runs(all.take(i as int), extra));
    }
    assert(all.take(i as int) =~= all);
    push_spaces(&mut spans, pad - left);
    spans
}

/// A width lowered to a ceiling.
pub open spec fn capped(w: usize, cap: int) -> int {
    if w < cap {
        w as int
    } else {
        cap
    }
}

/// The sum of widths lowered to a ceiling.
pub open spec fn capped_total(ws: Seq<usize>, cap: int) -> int
    decreases ws.len(),
{
    if ws.len() == 0 {
        0
    } else {
        capped_total(ws.drop_last(), cap) + capped(ws.last(), cap)
    }
}

/// The sum of widths.
pub open spec fn total(ws: Seq<usize>) -> int
    decreases ws.len(),
{
    if ws.len() == 0 {
        0
    } else {
        total(ws.drop_last()) + ws.last()
    }
}

/// The greatest width.
pub open spec fn widest(ws: Seq<usize>) -> int
    decreases ws.len(),
{
    if ws.len() == 0 {
        0
    } else if ws.last() > widest(ws.drop_last()) {
        ws.last() as int
    } else {
        widest(ws.drop_last())
    }
}

/// The highest ceiling up to `hi`, at least 1, with which the widths fit the budget.
pub open spec fn ceiling(ws: Seq<usize>, budget: int, hi: int) -> int
    decreases hi,
{
    if hi <= 1 {
        1
    } else if capped_total(ws, hi) <= budget {
        hi
    } else {
        ceiling(ws, budget, hi - 1)
    }
}

/// The number of widths above the ceiling among the first `n`.
pub open spec fn wide_before(ws: Seq<usize>, cap: int, n: int) -> int
    decreases n,
{
    if n <= 0 {
        0
    } else {
        wide_before(ws, cap, n - 1) + if ws[n - 1] > cap {
            1int
        } else {
            0
        }
    }
}

/// Widths lowered to a ceiling, with the slack handed back to the lowered ones, one
/// column each.
pub open spec fn handed_out(ws: Seq<usize>, cap: int, slack: int) -> Seq<usize> {
    Seq::new(
        ws.len(),
        |i: int|
            if ws[i] <= cap {
                ws[i]
            } else if wide_before(ws, cap, i) < slack {
                (cap + 1) as usize
            } else {
                cap as usize
            },
    )
}

/// Column widths made to fit a budget: the widest are lowered to the highest common
/// ceiling that fits, and what is left over is handed back.
pub open spec fn shrunk(ws: Seq<usize>, budget: int) -> Seq<usize> {
    if total(ws) <= budget {
        ws
    } else if capped_total(ws, 1) > budget {
        ws.map_values(|w: usize| capped(w, 1) as usize)
    } else {
        let cap = ceiling(ws, budget, widest(ws));
        handed_out(ws, cap, budget - capped_total(ws, cap))
    }
}

proof fn lemma_capped_grows(ws: Seq<usize>, a: int, b: int)
    requires
        0 <= a <= b,
    ensures
        0 <= capped_total(ws, a) <= capped_total(ws, b),
    decreases ws.len(),
{
    if ws.len() > 0 {
        lemma_capped_grows(ws.drop_last(), a, b);
    }
}

proof fn lemma_capped_at_widest(ws: Seq<usize>, cap: int)
    requires
        widest(ws) <= cap,
    ensures
        capped_total(ws, cap) == total(ws),
    decreases ws.len(),
{
    if ws.len() > 0 {
        lemma_capped_at_widest(ws.drop_last(), cap);
    }
}

/// The ceiling is the last that fits.
proof fn lemma_ceiling(ws: Seq<usize>, budget: int, hi: int, cap: int)
    requires
        1 <= cap <= hi,
        capped_total(ws, cap) <= budget,
        cap == hi || capped_total(ws, cap + 1) > budget,
    ensures
        ceiling(ws, budget, hi) == cap,
    decreases hi,
{
    if hi > cap {
        lemma_capped_grows(ws, cap + 1, hi);
        lemma_ceiling(ws, budget, hi - 1, cap);
    }
}

proof fn lemma_ceiling_fits(ws: Seq<usize>, budget: int, hi: int)
    requires
        hi >= 1,
        capped_total(ws, 1) <= budget,
        capped_total(ws, hi) > budget,
    ensures
        ({
            let cap = ceiling(ws, budget, hi);
            &&& 1 <= cap < hi
            &&& capped_total(ws, cap) <= budget < capped_total(ws, cap + 1)
        }),
    decreases hi,
{
    assert(ceiling(ws, budget, hi) == ceiling(ws, budget, hi - 1));
    if capped_total(ws, hi - 1) > budget {
        lemma_ceiling_fits(ws, budget, hi - 1);
    }
}

proof fn lemma_wide_counted(ws: Seq<usize>, cap: int)
    requires
        cap >= 0,
    ensures
        capped_total(ws, cap + 1) == capped_total(ws, cap) + wide_before(
            ws,
            cap,
            ws.len() as int,
        ),
        0 <= wide_before(ws, cap, ws.len() as int),
    decreases ws.len(),
{
    if ws.len() > 0 {
        let rest = ws.drop_last();
        lemma_wide_counted(rest, cap);
        lemma_wide_before_prefix(ws, cap, rest.len() as int);
    }
}

proof fn lemma_wide_before_prefix(ws: Seq<usize>, cap: int, n: int)
    requires
        0 <= n < ws.len(),
    ensures
        wide_before(ws.drop_last(), cap, n) == wide_before(ws, cap, n),
    decreases n,
{
    if n > 0 {
        lemma_wide_before_prefix(ws, cap, n - 1);
    }
}

proof fn lemma_handed_total(ws: Seq<usize>, cap: int, slack: int)
    requires
        0 <= cap < usize::MAX,
        slack >= 0,
    ensures
        ({
            let wide = wide_before(ws, cap, ws.len() as int);
            total(handed_out(ws, cap, slack)) == capped_total(ws, cap) + if wide < slack {
                wide
            } else {
                slack
            }
        }),
    decreases ws.len(),
{
    let out = handed_out(ws, cap, slack);
    if ws.len() > 0 {
        let rest = ws.drop_last();
        lemma_handed_total(rest, cap, slack);
        lemma_wide_before_prefix(ws, cap, rest.len() as int);
        lemma_wide_counted(rest, cap);
        let less = handed_out(rest, cap, slack);
        assert forall|i: int| 0 <= i < rest.len() implies less[i] == out[i] by {
            lemma_wide_before_prefix(ws, cap, i);
        }
        assert(out.drop_last() =~= less);
        let n = ws.len() - 1;
        assert(wide_before(ws, cap, n + 1) == wide_before(ws, cap, n) + if ws[n] > cap {
            1int
        } else {
            0
        });
    } else {
        assert(out =~= Seq::empty());
    }
}

/// Shrunk columns fit the budget, and use all of it when they had to shrink, wherever one
/// column per non-empty cell fits; no column grows.
pub proof fn lemma_shrunk_columns_fit(ws: Seq<usize>, budget: int)
    requires
        capped_total(ws, 1) <= budget,
    ensures
        total(shrunk(ws, budget)) <= budget,
        total(ws) > budget ==> total(shrunk(ws, budget)) == budget,
        shrunk(ws, budget).len() == ws.len(),
        forall|i: int| 0 <= i < ws.len() ==> (#[trigger] shrunk(ws, budget)[i]) <= ws[i],
{
    if total(ws) > budget {
        let hi = widest(ws);
        lemma_capped_at_widest(ws, hi);
        if ws.len() == 0 {
            assert(total(ws) == 0);
        }
        lemma_widest_is_positive(ws);
        lemma_ceiling_fits(ws, budget, hi);
        let cap = ceiling(ws, budget, hi);
        lemma_wide_counted(ws, cap);
        lemma_widest_bounds(ws);
        lemma_handed_total(ws, cap, budget - capped_total(ws, cap));
    }
}

proof fn lemma_widest_bounds(ws: Seq<usize>)
    ensures
        0 <= widest(ws) <= usize::MAX,
        forall|i: int| 0 <= i < ws.len() ==> (#[trigger] ws[i]) <= widest(ws),
    decreases ws.len(),
{
    if ws.len() > 0 {
        lemma_widest_bounds(ws.drop_last());
        assert forall|i: int| 0 <= i < ws.len() implies (#[trigger] ws[i]) <= widest(ws) by {
            if i < ws.len() - 1 {
                assert(ws.drop_last()[i] == ws[i]);
            }
        }
    }
}

proof fn lemma_widest_is_positive(ws: Seq<usize>)
    requires
        total(ws) > capped_total(ws, 1),
    ensures
        widest(ws) >= 1,
{
    lemma_widest_bounds(ws);
    if widest(ws) == 0 {
        lemma_capped_at_widest(ws, 1);
    }
}

/// Whether widths lowered to `cap` fit the budget.
fn fits(ws: &Vec<usize>, cap: usize, budget: usize) -> (yes: bool)
    ensures
        yes == (capped_total(ws@, cap as int) <= budget),
{
    match room_left(ws, cap, budget) {
        Some(_) => true,
        None => false,
    }
}

/// What the widths lowered to `cap` leave of the budget, where they fit it.
fn room_left(ws: &Vec<usize>, cap: usize, budget: usize) -> (room: Option<usize>)
    ensures
        match room {
            Some(n) => n == budget - capped_total(ws@, cap as int),
            None => capped_total(ws@, cap as int) > budget,
        },
{
    let mut left: usize = budget;
    let mut i: usize = 0;
    assert(ws@.take(0) =~= Seq::empty());
    while i < ws.len()
        invariant
            i <= ws@.len(),
            left == budget - capped_total(ws@.take(i as int), cap as int),
        decreases ws@.len() - i,
    {
        let w: usize = if ws[i] < cap {
            ws[i]
        } else {
            cap
        };
        proof {
            assert(ws@.take(i + 1).drop_last() =~= ws@.take(i as int));
            lemma_capped_prefix(ws@, cap as int, i + 1);
        }
        if w > left {
            return None;
        }
        left -= w;
        i += 1;
    }
    assert(ws@.take(i as int) =~= ws@);
    Some(left)
}

proof fn lemma_capped_prefix(ws: Seq<usize>, cap: int, n: int)
    requires
        0 <= n <= ws.len(),
        cap >= 0,
    ensures
        capped_total(ws.take(n), cap) <= capped_total(ws, cap),
    decreases ws.len() - n,
{
    if n < ws.len() {
        lemma_capped_prefix(ws, cap, n + 1);
        assert(ws.take(n + 1).drop_last() =~= ws.take(n));
    } else {
        assert(ws.take(n) =~= ws);
    }
}

fn widest_of(ws: &Vec<usize>) -> (w: usize)
    ensures
        w == widest(ws@),
{
    let mut w: usize = 0;
    let mut i: usize = 0;
    assert(ws@.take(0) =~= Seq::empty());
    while i < ws.len()
        invariant
            i <= ws@.len(),
            w == widest(ws@.take(i as int)),
        decreases ws@.len() - i,
    {
        if ws[i] > w {
            w = ws[i];
        }
        i += 1;
        assert(ws@.take(i as int).drop_last() =~= ws@.take(i - 1));
    }
    assert(ws@.take(i as int) =~= ws@);
    w
}

/// Shrink column widths until their sum fits `budget` by lowering the widest
/// columns to a common ceiling (narrow columns keep their width). Computed by
/// binary-searching the ceiling rather than shaving one cell per iteration, so
/// a pasted multi-kilobyte cell cannot stall every render.
pub fn shrink_to_fit(col_w: &mut Vec<usize>, budget: usize)
    ensures
        final(col_w)@ == shrunk(old(col_w)@, budget as int),
{
    let ghost ws = col_w@;
    let top: usize = widest_of(col_w);
    proof {
        lemma_capped_at_widest(ws, top as int);
    }
    if fits(col_w, top, budget) {
        return;
    }
    // Below a ceiling of 1 there is nothing left to shrink.
    if !fits(col_w, 1, budget) {
        let mut i: usize = 0;
        while i < col_w.len()
            invariant
                i <= col_w@.len(),
                col_w@.len() == ws.len(),
                forall|k: int| 0 <= k < i ==> col_w@[k] == capped(ws[k], 1),
                forall|k: int| i <= k < ws.len() ==> col_w@[k] == ws[k],
            decreases col_w@.len() - i,
        {
            if col_w[i] > 1 {
                col_w.set(i, 1);
            }
            i += 1;
        }
        assert(col_w@ =~= ws.map_values(|w: usize| capped(w, 1) as usize));
        return;
    }
    proof {
        lemma_widest_is_positive(ws);
    }
    let mut lo: usize = 1;
    let mut hi: usize = top;
    while lo < hi
        invariant
            1 <= lo <= hi <= top,
            top == widest(ws),
            col_w@ == ws,
            capped_total(ws, lo as int) <= budget,
            hi == top || capped_total(ws, hi + 1) > budget,
        decreases hi - lo,
    {
        let half: usize = (hi - lo) / 2 + (hi - lo) % 2;
        let mid: usize = lo + half;
        if fits(col_w, mid, budget) {
            lo = mid;
        } else {
            hi = mid - 1;
        }
    }
    let cap: usize = lo;
    proof {
        lemma_ceiling(ws, budget as int, top as int, cap as int);
        if cap == top {
            assert(capped_total(ws, top as int) > budget);
        }
    }
    // Hand any leftover budget back to the clamped columns, one cell each.
    let mut slack: usize = match room_left(col_w, cap, budget) {
        Some(n) => n,
        None => 0,
    };
    let ghost all = slack as int;
    let mut i: usize = 0;
    while i < col_w.len()
        invariant
            i <= col_w@.len(),
            col_w@.len() == ws.len(),
            cap < top,
            slack == (if wide_before(ws, cap as int, i as int) < all {
                all - wide_before(ws, cap as int, i as int)
            } else {
                0
            }),
            forall|k: int| 0 <= k < i ==> col_w@[k] == handed_out(ws, cap as int, all)[k],
            forall|k: int| i <= k < ws.len() ==> col_w@[k] == ws[k],
        decreases col_w@.len() - i,
    {
        if col_w[i] > cap {
            if slack > 0 {
                col_w.set(i, cap + 1);
                slack -= 1;
            } else {
                col_w.set(i, cap);
            }
        }
        i += 1;
    }
    assert(col_w@ =~= handed_out(ws, cap as int, all));
}

} // verus!
