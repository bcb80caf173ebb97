//! Fuzzy matching, and the query of a list that is filtered by it.

use vstd::prelude::*;
use vstd::utf8::*;

use crate::bytes::{slice, text_between};
use crate::diagnostics::lowered;
use crate::strings::to_chars;
use crate::text::{cluster_starts, clusters};

verus! {

/// A character in lower case.
pub uninterp spec fn char_lowered(c: char) -> Seq<char>;

/// `char::to_lowercase` depends on the character alone; how letters are lowered is for
/// Unicode to say.
#[verifier::external_body]
pub(crate) fn lower_of(c: char) -> (out: String)
    ensures
        out@ == char_lowered(c),
{
    c.to_lowercase().to_string()
}

/// The first `n` characters, each in lower case.
pub open spec fn each_lowered(s: Seq<char>, n: int) -> Seq<char>
    decreases n,
{
    if n <= 0 {
        Seq::empty()
    } else {
        each_lowered(s, n - 1) + char_lowered(s[n - 1])
    }
}

/// A score that has grown, as far as it can.
pub open spec fn plus(score: i32, more: i32) -> i32 {
    if score > i32::MAX - more {
        i32::MAX
    } else {
        (score + more) as i32
    }
}

/// What a character that is found scores: more in a run, and more at the beginning of a
/// word.
pub open spec fn bonus(run: bool, prev: Option<char>) -> i32 {
    let base: int = if run {
        8
    } else {
        3
    };
    let start: int = if prev is None || prev == Some(' ') {
        4
    } else {
        0
    };
    (base + start) as i32
}

/// The score of the characters of `q` from `j` on, each looked for in turn in `l` from `i`
/// on; `None` where one is not there.
pub open spec fn score_from(
    l: Seq<char>,
    i: int,
    q: Seq<char>,
    j: int,
    score: i32,
    run: bool,
    prev: Option<char>,
) -> Option<i32>
    decreases l.len() - i,
{
    if i < 0 || i >= l.len() {
        None
    } else if l[i] != q[j] {
        score_from(l, i + 1, q, j, score, false, Some(l[i]))
    } else if j + 1 >= q.len() {
        Some(plus(score, bonus(run, prev)))
    } else {
        score_from(l, i + 1, q, j + 1, plus(score, bonus(run, prev)), true, Some(l[i]))
    }
}

/// How well a label matches a query, if it does.
pub open spec fn score_of(label: Seq<char>, query: Seq<char>) -> Option<i32> {
    let q = lowered(query);
    if query.len() == 0 {
        Some(0)
    } else if q.len() == 0 {
        None
    } else {
        score_from(each_lowered(label, label.len() as int), 0, q, 0, 0, false, None)
    }
}

/// Whether the characters of `q` from `j` on stand in `l` from `i` on, in that order.
pub open spec fn embeds(l: Seq<char>, i: int, q: Seq<char>, j: int) -> bool
    decreases q.len() - j,
{
    j >= q.len() || exists|k: int| i <= k < l.len() && #[trigger] l[k] == q[j] && embeds(l, k + 1, q, j + 1)
}

proof fn lemma_embeds_earlier(l: Seq<char>, i: int, a: int, q: Seq<char>, j: int)
    requires
        a <= i,
        embeds(l, i, q, j),
    ensures
        embeds(l, a, q, j),
{
}

/// A label matches exactly where the characters of the query stand in it in their order.
pub proof fn lemma_matches_are_subsequences(
    l: Seq<char>,
    i: int,
    q: Seq<char>,
    j: int,
    score: i32,
    run: bool,
    prev: Option<char>,
)
    requires
        0 <= i <= l.len(),
        0 <= j < q.len(),
    ensures
        score_from(l, i, q, j, score, run, prev) is Some <==> embeds(l, i, q, j),
    decreases l.len() - i,
{
    if i < l.len() {
        if l[i] != q[j] {
            lemma_matches_are_subsequences(l, i + 1, q, j, score, false, Some(l[i]));
            if embeds(l, i, q, j) {
                let k = choose|k: int|
                    i <= k < l.len() && #[trigger] l[k] == q[j] && embeds(l, k + 1, q, j + 1);
                assert(i + 1 <= k && l[k] == q[j]);
            }
            if embeds(l, i + 1, q, j) {
                lemma_embeds_earlier(l, i + 1, i, q, j);
            }
        } else if j + 1 >= q.len() {
            assert(l[i] == q[j] && embeds(l, i + 1, q, j + 1));
        } else {
            lemma_matches_are_subsequences(
                l,
                i + 1,
                q,
                j + 1,
                plus(score, bonus(run, prev)),
                true,
                Some(l[i]),
            );
            if embeds(l, i, q, j) {
                let k = choose|k: int|
                    i <= k < l.len() && #[trigger] l[k] == q[j] && embeds(l, k + 1, q, j + 1);
                lemma_embeds_earlier(l, k + 1, i + 1, q, j + 1);
            }
            if embeds(l, i + 1, q, j + 1) {
                assert(l[i] == q[j]);
            }
        }
    }
}

fn lower_each(label: &str) -> (out: Vec<char>)
    ensures
        out@ == each_lowered(label@, label@.len() as int),
{
    let chars = to_chars(label);
    let mut out: Vec<char> = Vec::new();
    let mut i: usize = 0;
    while i < chars.len()
        invariant
            i <= chars@.len(),
            chars@ == label@,
            out@ == each_lowered(label@, i as int),
        decreases chars@.len() - i,
    {
        let low = to_chars(lower_of(chars[i]).as_str());
        let ghost before = out@;
        let mut k: usize = 0;
        assert(before + low@.take(0) =~= before);
        while k < low.len()
            invariant
                k <= low@.len(),
                out@ == before + low@.take(k as int),
            decreases low@.len() - k,
        {
            out.push(low[k]);
            k += 1;
            assert(low@.take(k as int) =~= low@.take(k - 1).push(low@[k - 1]));
            assert(out@ =~= before + low@.take(k as int));
        }
        assert(low@.take(k as int) =~= low@);
        i += 1;
    }
    out
}

/// How well the characters of a label in lower case match those of a query, if they do.
pub fn score_lowered(l: &Vec<char>, q: &Vec<char>) -> (score: Option<i32>)
    requires
        q@.len() > 0,
    ensures
        score == score_from(l@, 0, q@, 0, 0, false, None),
{
    let mut j: usize = 0;
    let mut score: i32 = 0;
    let mut run = false;
    let mut prev: Option<char> = None;
    let mut i: usize = 0;
    while i < l.len()
        invariant
            i <= l@.len(),
            j < q@.len(),
            0 <= score,
            score_from(l@, 0, q@, 0, 0, false, None) == score_from(
                l@,
                i as int,
                q@,
                j as int,
                score,
                run,
                prev,
            ),
        decreases l@.len() - i,
    {
        let c = l[i];
        if c != q[j] {
            run = false;
            prev = Some(c);
        } else {
            let base: i32 = if run {
                8
            } else {
                3
            };
            let start: i32 = match prev {
                None => 4,
                Some(p) => if p == ' ' {
                    4
                } else {
                    0
                },
            };
            let more: i32 = base + start;
            score = if score > i32::MAX - more {
                i32::MAX
            } else {
                score + more
            };
            if q.len() - j == 1 {
                return Some(score);
            }
            run = true;
            prev = Some(c);
            j += 1;
        }
        i += 1;
    }
    None
}

/// How well a label matches a query, if it does.
pub fn fuzzy_score(label: &str, query: &str) -> (score: Option<i32>)
    ensures
        score == score_of(label@, query@),
{
    if query.is_empty() {
        return Some(0);
    }
    let q = to_chars(query.to_lowercase().as_str());
    if q.len() == 0 {
        return None;
    }
    score_lowered(&lower_each(label), &q)
}

/// Whether entry `a` ranks before entry `b`: a better score, or as good a one and the
/// smaller tie-breaker.
pub open spec fn outranks(scores: Seq<Option<i32>>, ties: Seq<usize>, a: int, b: int) -> bool {
    let x = scores[a]->0;
    let y = scores[b]->0;
    x > y || (x == y && ties[a] < ties[b])
}

/// Where an entry goes among the first `k` ranked ones: after all that it does not
/// outrank.
pub open spec fn rank_slot(
    scores: Seq<Option<i32>>,
    ties: Seq<usize>,
    ranked: Seq<int>,
    entry: int,
    k: int,
) -> int
    decreases k,
{
    if k <= 0 || !outranks(scores, ties, entry, ranked[k - 1]) {
        k
    } else {
        rank_slot(scores, ties, ranked, entry, k - 1)
    }
}

/// Those of the first `n` entries that have a score, the best first.
pub open spec fn ranking(scores: Seq<Option<i32>>, ties: Seq<usize>, n: int) -> Seq<int>
    decreases n,
{
    if n <= 0 {
        Seq::empty()
    } else {
        let before = ranking(scores, ties, n - 1);
        if scores[n - 1] is Some {
            before.insert(
                rank_slot(scores, ties, before, n - 1, before.len() as int),
                n - 1,
            )
        } else {
            before
        }
    }
}

proof fn lemma_rank_slot(
    scores: Seq<Option<i32>>,
    ties: Seq<usize>,
    ranked: Seq<int>,
    entry: int,
    k: int,
)
    requires
        0 <= k <= ranked.len(),
    ensures
        0 <= rank_slot(scores, ties, ranked, entry, k) <= k,
        forall|i: int|
            rank_slot(scores, ties, ranked, entry, k) <= i < k ==> outranks(
                scores,
                ties,
                entry,
                #[trigger] ranked[i],
            ),
        rank_slot(scores, ties, ranked, entry, k) > 0 ==> !outranks(
            scores,
            ties,
            entry,
            ranked[rank_slot(scores, ties, ranked, entry, k) - 1],
        ),
    decreases k,
{
    if k > 0 && outranks(scores, ties, entry, ranked[k - 1]) {
        lemma_rank_slot(scores, ties, ranked, entry, k - 1);
    }
}

/// A ranking holds exactly the entries with a score, and no entry stands before one that
/// outranks it.
pub proof fn lemma_ranking_is_ordered(scores: Seq<Option<i32>>, ties: Seq<usize>, n: int)
    requires
        0 <= n <= scores.len(),
        scores.len() == ties.len(),
    ensures
        forall|e: int| 0 <= e < n && scores[e] is Some ==> #[trigger] ranking(
            scores,
            ties,
            n,
        ).contains(e),
        forall|i: int|
            0 <= i < ranking(scores, ties, n).len() ==> 0 <= #[trigger] ranking(scores, ties, n)[i]
                < n && scores[ranking(scores, ties, n)[i]] is Some,
        forall|i: int, j: int|
            0 <= i < j < ranking(scores, ties, n).len() ==> !outranks(
                scores,
                ties,
                #[trigger] ranking(scores, ties, n)[j],
                #[trigger] ranking(scores, ties, n)[i],
            ),
        ranking(scores, ties, n).len() <= n,
    decreases n,
{
    if n > 0 {
        lemma_ranking_is_ordered(scores, ties, n - 1);
        let before = ranking(scores, ties, n - 1);
        let out = ranking(scores, ties, n);
        if scores[n - 1] is Some {
            let at = rank_slot(scores, ties, before, n - 1, before.len() as int);
            lemma_rank_slot(scores, ties, before, n - 1, before.len() as int);
            assert(out == before.insert(at, n - 1));
            assert(out[at] == n - 1);
            assert forall|e: int| 0 <= e < n && scores[e] is Some implies #[trigger] out.contains(
                e,
            ) by {
                if e < n - 1 {
                    assert(before.contains(e));
                    let i = choose|i: int| 0 <= i < before.len() && before[i] == e;
                    if i < at {
                        assert(out[i] == e);
                    } else {
                        assert(out[i + 1] == e);
                    }
                }
            }
            assert forall|i: int, j: int| 0 <= i < j < out.len() implies !outranks(
                scores,
                ties,
                #[trigger] out[j],
                #[trigger] out[i],
            ) by {
                if j < at {
                    assert(out[i] == before[i] && out[j] == before[j]);
                } else if j == at {
                    assert(out[i] == before[i]);
                    assert(!outranks(scores, ties, n - 1, before[at - 1]));
                    if i < at - 1 {
                        assert(!outranks(scores, ties, before[at - 1], before[i]));
                    }
                } else if i < at {
                    assert(out[i] == before[i] && out[j] == before[j - 1]);
                } else if i == at {
                    assert(out[j] == before[j - 1]);
                    assert(outranks(scores, ties, n - 1, before[j - 1]));
                } else {
                    assert(out[i] == before[i - 1] && out[j] == before[j - 1]);
                }
            }
        }
    }
}

/// The entries as exact numbers.
pub open spec fn entries(v: Seq<usize>) -> Seq<int> {
    v.map_values(|i: usize| i as int)
}

/// The entries that have a score, the best first.
pub fn rank(scores: &Vec<Option<i32>>, ties: &Vec<usize>) -> (out: Vec<usize>)
    requires
        scores@.len() == ties@.len(),
    ensures
        entries(out@) == ranking(scores@, ties@, scores@.len() as int),
        out@.len() == ranking(scores@, ties@, scores@.len() as int).len(),
        forall|i: int| 0 <= i < out@.len() ==> (#[trigger] out@[i]) < scores@.len(),
{
    let mut out: Vec<usize> = Vec::new();
    let mut n: usize = 0;
    assert(entries(out@) =~= ranking(scores@, ties@, 0));
    while n < scores.len()
        invariant
            n <= scores@.len(),
            scores@.len() == ties@.len(),
            entries(out@) == ranking(scores@, ties@, n as int),
        decreases scores@.len() - n,
    {
        let ghost before = entries(out@);
        if let Some(score) = scores[n] {
            let mut k: usize = out.len();
            assert(before.len() == out@.len());
            let mut more = true;
            while k > 0 && more
                invariant
                    k <= out@.len(),
                    n < scores@.len(),
                    scores@.len() == ties@.len(),
                    scores@[n as int] == Some(score),
                    before == entries(out@),
                    before == ranking(scores@, ties@, n as int),
                    more ==> rank_slot(scores@, ties@, before, n as int, before.len() as int)
                        == rank_slot(scores@, ties@, before, n as int, k as int),
                    !more ==> rank_slot(scores@, ties@, before, n as int, before.len() as int) == k,
                decreases
                        k,
                        if more {
                            1int
                        } else {
                            0int
                        },
            {
                let other: usize = out[k - 1];
                assert(before[k - 1] == other);
                proof {
                    lemma_ranking_is_ordered(scores@, ties@, n as int);
                    assert(scores@[before[k - 1]] is Some);
                }
                let first = match scores[other] {
                    Some(s) => score > s || (score == s && ties[n] < ties[other]),
                    None => false,
                };
                if first {
                    k -= 1;
                } else {
                    more = false;
                }
            }
            out.insert(k, n);
            assert(entries(out@) =~= before.insert(k as int, n as int));
        }
        n += 1;
    }
    proof {
        lemma_ranking_is_ordered(scores@, ties@, n as int);
        assert(entries(out@).len() == out@.len());
        assert forall|i: int| 0 <= i < out@.len() implies (#[trigger] out@[i]) < scores@.len() by {
            assert(entries(out@)[i] == out@[i]);
        }
    }
    out
}

/// A query without its last cluster.
pub open spec fn shortened(query: Seq<char>) -> Seq<char> {
    let c = clusters(query);
    if c.len() == 0 {
        query
    } else {
        text_between(encode_utf8(query), 0, c.last() as int)
    }
}

/// A query without its last cluster. Says whether it had one.
pub fn shorten(query: &str) -> (r: (String, bool))
    ensures
        r.0@ == shortened(query@),
        r.1 == (query@.len() > 0),
{
    let starts = cluster_starts(query);
    if starts.len() == 0 {
        return (query.to_owned(), false);
    }
    let at: usize = starts[starts.len() - 1];
    proof {
        encode_utf8_valid_utf8(query@);
        crate::bytes::lemma_boundary_ends(encode_utf8(query@));
    }
    (slice(query, 0, at).to_owned(), true)
}

/// A selection moved up or down in a list of `len` entries.
pub open spec fn selection_moved(selected: usize, len: int, down: bool) -> usize {
    if len == 0 {
        0
    } else {
        let next = if down {
            selected.saturating_add(1)
        } else {
            selected.saturating_sub(1)
        };
        if next < len {
            next
        } else {
            (len - 1) as usize
        }
    }
}

/// Move a selection up or down in a list of `len` entries.
pub fn move_selection(selected: usize, len: usize, down: bool) -> (next: usize)
    ensures
        next == selection_moved(selected, len as int, down),
{
    if len == 0 {
        return 0;
    }
    let next: usize = if down {
        selected.saturating_add(1)
    } else {
        selected.saturating_sub(1)
    };
    if next < len {
        next
    } else {
        len - 1
    }
}

/// A selection always names an entry.
pub proof fn lemma_selection_stays_inside(selected: usize, len: int, down: bool)
    requires
        0 < len,
    ensures
        selection_moved(selected, len, down) < len,
{
}

/// A run of characters scores eight for each of them that is no space behind no space.
proof fn lemma_runs_score(l: Seq<char>, i: int, q: Seq<char>, j: int, score: i32, prev: char)
    requires
        0 <= j < q.len(),
        0 <= i,
        i + q.len() - j <= l.len(),
        forall|k: int| j <= k < q.len() ==> l[i + k - j] == #[trigger] q[k] && q[k] != ' ',
        prev != ' ',
        0 <= score,
        score + 8 * (q.len() - j) <= i32::MAX,
    ensures
        score_from(l, i, q, j, score, true, Some(prev)) == Some(
            (score + 8 * (q.len() - j)) as i32,
        ),
    decreases q.len() - j,
{
    assert(l[i + j - j] == q[j]);
    assert(bonus(true, Some(prev)) == 8);
    if j + 1 < q.len() {
        assert forall|k: int| j + 1 <= k < q.len() implies l[i + 1 + k - (j + 1)] == #[trigger] q[k]
            && q[k] != ' ' by {
            assert(l[i + k - j] == q[k]);
        }
        lemma_runs_score(l, i + 1, q, j + 1, (score + 8) as i32, l[i]);
    }
}

/// What a label begins with is worth eight for each character, less one.
pub proof fn lemma_beginnings_score(l: Seq<char>, q: Seq<char>)
    requires
        0 < q.len() <= l.len(),
        8 * q.len() <= i32::MAX,
        forall|k: int| 0 <= k < q.len() ==> l[k] == #[trigger] q[k] && q[k] != ' ',
    ensures
        score_from(l, 0, q, 0, 0, false, None) == Some((8 * q.len() - 1) as i32),
{
    assert(l[0] == q[0]);
    assert(bonus(false, None) == 7);
    if q.len() > 1 {
        assert forall|k: int| 1 <= k < q.len() implies l[1 + k - 1] == #[trigger] q[k] && q[k] != ' ' by {}
        lemma_runs_score(l, 1, q, 1, 7, l[0]);
    }
}

/// One character is worth three where it is first found, and four more at the beginning of
/// the label or of a word.
pub proof fn lemma_one_character_scores(
    l: Seq<char>,
    i: int,
    c: char,
    k: int,
    run: bool,
    prev: Option<char>,
)
    requires
        0 <= i <= k < l.len(),
        l[k] == c,
        forall|j: int| i <= j < k ==> #[trigger] l[j] != c,
        !run,
        prev == if i == 0 {
            None
        } else {
            Some(l[i - 1])
        },
    ensures
        score_from(l, i, seq![c], 0, 0, run, prev) == Some(
            if k == 0 || l[k - 1] == ' ' {
                7i32
            } else {
                3i32
            },
        ),
    decreases k - i,
{
    if i < k {
        assert(l[i] != c);
        lemma_one_character_scores(l, i + 1, c, k, false, Some(l[i]));
    }
}

} // verus!
