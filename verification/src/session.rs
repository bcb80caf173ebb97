//! The files that were open lately, and where each was left.

use vstd::prelude::*;

use crate::fuzzy::{entries, fuzzy_score, rank, ranking, score_of};
use crate::strings::same;

verus! {

/// How many files are remembered.
pub const MAX_RECENT_FILES: usize = 20;

/// A file and where it was left.
#[derive(Debug)]
pub struct RecentFile {
    pub path: String,
    pub cursor: usize,
    pub focus_scroll: usize,
    pub raw_scroll: usize,
    pub read_scroll: usize,
}

/// What a [`RecentFile`] says.
pub struct RecentView {
    pub path: Seq<char>,
    pub cursor: usize,
    pub focus_scroll: usize,
    pub raw_scroll: usize,
    pub read_scroll: usize,
}

impl View for RecentFile {
    type V = RecentView;

    open spec fn view(&self) -> RecentView {
        RecentView {
            path: self.path@,
            cursor: self.cursor,
            focus_scroll: self.focus_scroll,
            raw_scroll: self.raw_scroll,
            read_scroll: self.read_scroll,
        }
    }
}

impl RecentFile {
    /// The same file, left at the same place.
    pub fn copy(&self) -> (file: RecentFile)
        ensures
            file@ == self@,
    {
        RecentFile {
            path: self.path.clone(),
            cursor: self.cursor,
            focus_scroll: self.focus_scroll,
            raw_scroll: self.raw_scroll,
            read_scroll: self.read_scroll,
        }
    }
}

/// One line of the list of recent files.
#[derive(Debug)]
pub struct RecentItem {
    pub path: String,
    pub selected: bool,
}

/// What recent files say.
pub open spec fn recent_views(files: Seq<RecentFile>) -> Seq<RecentView> {
    files.map_values(|f: RecentFile| f@)
}

/// The first `n` files, without those at a path.
pub open spec fn without_path(files: Seq<RecentView>, path: Seq<char>, n: int) -> Seq<RecentView>
    decreases n,
{
    if n <= 0 {
        Seq::empty()
    } else if files[n - 1].path == path {
        without_path(files, path, n - 1)
    } else {
        without_path(files, path, n - 1).push(files[n - 1])
    }
}

/// At most as many files as are remembered.
pub open spec fn capped(files: Seq<RecentView>) -> Seq<RecentView> {
    if files.len() > MAX_RECENT_FILES {
        files.take(MAX_RECENT_FILES as int)
    } else {
        files
    }
}

/// The files with one more in front, which is there once.
pub open spec fn remembered(files: Seq<RecentView>, file: RecentView) -> Seq<RecentView> {
    capped(seq![file] + without_path(files, file.path, files.len() as int))
}

/// Those of the first `n` files that are still there.
pub open spec fn still_there(files: Seq<RecentView>, there: Seq<bool>, n: int) -> Seq<RecentView>
    decreases n,
{
    if n <= 0 {
        Seq::empty()
    } else if n - 1 < there.len() && there[n - 1] {
        still_there(files, there, n - 1).push(files[n - 1])
    } else {
        still_there(files, there, n - 1)
    }
}

proof fn lemma_without_path(files: Seq<RecentView>, path: Seq<char>, n: int)
    requires
        0 <= n <= files.len(),
    ensures
        without_path(files, path, n).len() <= n,
        forall|i: int|
            0 <= i < without_path(files, path, n).len() ==> (#[trigger] without_path(
                files,
                path,
                n,
            )[i]).path != path,
    decreases n,
{
    if n > 0 {
        lemma_without_path(files, path, n - 1);
    }
}

/// A file that is remembered comes first, is there once, and the list keeps its cap.
pub proof fn lemma_remembered_once(files: Seq<RecentView>, file: RecentView)
    ensures
        remembered(files, file).len() <= MAX_RECENT_FILES,
        remembered(files, file).len() > 0,
        remembered(files, file)[0] == file,
        forall|i: int|
            0 < i < remembered(files, file).len() ==> (#[trigger] remembered(files, file)[i]).path
                != file.path,
{
    lemma_without_path(files, file.path, files.len() as int);
    let rest = without_path(files, file.path, files.len() as int);
    let all = seq![file] + rest;
    assert forall|i: int| 0 < i < remembered(files, file).len() implies (#[trigger] remembered(
        files,
        file,
    )[i]).path != file.path by {
        assert(remembered(files, file)[i] == all[i]);
        assert(all[i] == rest[i - 1]);
    }
}

/// The files, without those at a path.
pub fn forget(files: Vec<RecentFile>, path: &str) -> (out: Vec<RecentFile>)
    ensures
        recent_views(out@) == without_path(
            recent_views(files@),
            path@,
            recent_views(files@).len() as int,
        ),
{
    let ghost v = recent_views(files@);
    let mut out: Vec<RecentFile> = Vec::new();
    let mut i: usize = 0;
    assert(recent_views(out@) =~= without_path(v, path@, 0));
    while i < files.len()
        invariant
            i <= files@.len(),
            v == recent_views(files@),
            recent_views(out@) == without_path(v, path@, i as int),
        decreases files@.len() - i,
    {
        assert(v[i as int] == files@[i as int]@);
        let ghost before = recent_views(out@);
        if !same(files[i].path.as_str(), path) {
            let file = files[i].copy();
            let ghost added = file@;
            out.push(file);
            assert(recent_views(out@) =~= before.push(added));
        }
        i += 1;
    }
    out
}

/// Put a file in front of the others.
pub fn remember(files: Vec<RecentFile>, file: RecentFile) -> (out: Vec<RecentFile>)
    ensures
        recent_views(out@) == remembered(recent_views(files@), file@),
{
    let ghost v = recent_views(files@);
    let ghost first = file@;
    let rest = forget(files, file.path.as_str());
    let mut out: Vec<RecentFile> = Vec::new();
    out.push(file);
    let ghost r = recent_views(rest@);
    assert(recent_views(out@) =~= seq![first] + r.take(0));
    assert(r.len() == rest@.len());
    let mut i: usize = 0;
    while i < rest.len() && i < MAX_RECENT_FILES - 1
        invariant
            i <= rest@.len(),
            i < MAX_RECENT_FILES,
            r == recent_views(rest@),
            recent_views(out@) == seq![first] + r.take(i as int),
        decreases rest@.len() - i,
    {
        assert(r[i as int] == rest@[i as int]@);
        let ghost before = recent_views(out@);
        let one = rest[i].copy();
        let ghost added = one@;
        out.push(one);
        i += 1;
        assert(recent_views(out@) =~= before.push(added));
        assert(r.take(i as int) =~= r.take(i - 1).push(added));
        assert(recent_views(out@) =~= seq![first] + r.take(i as int));
    }
    proof {
        let all = seq![first] + r;
        if i == rest@.len() {
            assert(r.take(i as int) =~= r);
            if all.len() > MAX_RECENT_FILES {
                assert(all.take(MAX_RECENT_FILES as int) =~= all);
            }
        } else {
            assert(all.take(MAX_RECENT_FILES as int) =~= seq![first] + r.take(i as int));
        }
    }
    out
}

/// The files that are still there, at most as many as are remembered.
pub fn present(files: Vec<RecentFile>, there: &Vec<bool>) -> (out: Vec<RecentFile>)
    ensures
        recent_views(out@) == capped(
            still_there(recent_views(files@), there@, recent_views(files@).len() as int),
        ),
{
    let ghost v = recent_views(files@);
    let mut kept: Vec<RecentFile> = Vec::new();
    let mut i: usize = 0;
    assert(recent_views(kept@) =~= still_there(v, there@, 0));
    while i < files.len()
        invariant
            i <= files@.len(),
            v == recent_views(files@),
            recent_views(kept@) == still_there(v, there@, i as int),
        decreases files@.len() - i,
    {
        assert(v[i as int] == files@[i as int]@);
        let ghost before = recent_views(kept@);
        if i < there.len() && there[i] {
            let one = files[i].copy();
            let ghost added = one@;
            kept.push(one);
            assert(recent_views(kept@) =~= before.push(added));
        }
        i += 1;
    }
    let ghost k = recent_views(kept@);
    assert(k.len() == kept@.len());
    if kept.len() > MAX_RECENT_FILES {
        kept.truncate(MAX_RECENT_FILES);
        assert(recent_views(kept@) =~= k.take(MAX_RECENT_FILES as int));
    }
    kept
}

/// The recent files that match a query, by their places: all of them in order for an
/// empty one, else the best first.
pub open spec fn recent_matches(files: Seq<RecentView>, query: Seq<char>) -> Seq<int> {
    if query.len() == 0 {
        Seq::new(files.len(), |i: int| i)
    } else {
        ranking(
            files.map_values(|f: RecentView| score_of(f.path, query)),
            Seq::new(files.len(), |i: int| 0usize),
            files.len() as int,
        )
    }
}

/// The query of the list of recent files, and the entry that is selected.
#[derive(Debug)]
pub struct RecentPicker {
    pub query: String,
    pub selected: usize,
}

impl RecentPicker {
    /// The files that match the query, the best first.
    pub fn matches(&self, files: &Vec<RecentFile>) -> (out: Vec<usize>)
        ensures
            entries(out@) == recent_matches(recent_views(files@), self.query@),
            forall|i: int| 0 <= i < out@.len() ==> (#[trigger] out@[i]) < files@.len(),
    {
        let ghost v = recent_views(files@);
        let query = self.query.as_str();
        let mut scores: Vec<Option<i32>> = Vec::new();
        let mut ties: Vec<usize> = Vec::new();
        let mut all: Vec<usize> = Vec::new();
        let mut i: usize = 0;
        while i < files.len()
            invariant
                i <= files@.len(),
                v == recent_views(files@),
                query@ == self.query@,
                scores@.len() == i,
                ties@.len() == i,
                all@.len() == i,
                forall|k: int| 0 <= k < i ==> #[trigger] scores@[k] == score_of(v[k].path, query@),
                forall|k: int| 0 <= k < i ==> #[trigger] ties@[k] == 0,
                forall|k: int| 0 <= k < i ==> #[trigger] all@[k] == k,
            decreases files@.len() - i,
        {
            assert(v[i as int] == files@[i as int]@);
            scores.push(fuzzy_score(files[i].path.as_str(), query));
            ties.push(0);
            all.push(i);
            i += 1;
        }
        if query.is_empty() {
            assert(entries(all@) =~= recent_matches(v, query@));
            return all;
        }
        assert(scores@ =~= v.map_values(|f: RecentView| score_of(f.path, query@)));
        assert(ties@ =~= Seq::new(v.len(), |i: int| 0usize));
        rank(&scores, &ties)
    }
}

/// A file that was not remembered goes before all that are, and one that was is moved there;
/// the others keep their order.
pub proof fn lemma_remembered_goes_first(files: Seq<RecentView>, file: RecentView, k: int)
    requires
        forall|i: int| 0 <= i < files.len() && i != k ==> (#[trigger] files[i]).path != file.path,
        files.len() < MAX_RECENT_FILES,
    ensures
        !(0 <= k < files.len() && files[k].path == file.path) ==> remembered(files, file) == seq![
            file,
        ] + files,
        0 <= k < files.len() && files[k].path == file.path ==> remembered(files, file) == seq![file]
            + files.remove(k),
{
    let n = files.len() as int;
    lemma_others_stay(files, file.path, k, n);
    assert(files.take(n) =~= files);
    if 0 <= k < n {
        assert(files.take(k) + files.subrange(k + 1, n) =~= files.remove(k));
    }
}

proof fn lemma_others_stay(files: Seq<RecentView>, path: Seq<char>, k: int, n: int)
    requires
        0 <= n <= files.len(),
        forall|i: int| 0 <= i < files.len() && i != k ==> (#[trigger] files[i]).path != path,
    ensures
        without_path(files, path, n) == if 0 <= k < n && files[k].path == path {
            files.take(k) + files.subrange(k + 1, n)
        } else {
            files.take(n)
        },
    decreases n,
{
    if n > 0 {
        lemma_others_stay(files, path, k, n - 1);
        if n - 1 == k && files[k].path == path {
            assert(files.take(k) + files.subrange(k + 1, n) =~= files.take(n - 1));
        } else {
            assert(files.take(n) =~= files.take(n - 1).push(files[n - 1]));
            if 0 <= k < n - 1 && files[k].path == path {
                assert(files.take(k) + files.subrange(k + 1, n) =~= (files.take(k) + files.subrange(
                    k + 1,
                    n - 1,
                )).push(files[n - 1]));
            }
        }
    } else {
        assert(files.take(0) =~= Seq::<RecentView>::empty());
    }
}

} // verus!
