//! Code fences, judged line by line: a closing fence uses the same character as the
//! opening one, at least as often, with nothing after it.

use vstd::prelude::*;

use crate::strings::{blank_from, lead_length, to_chars, trim_start, trimmed};

verus! {

/// The fence that a line begins with.
#[derive(Clone, Copy, Debug, PartialEq, Eq, Structural)]
pub struct FenceMark {
    /// A backtick or a tilde.
    pub mark: char,
    /// How often it stands there.
    pub count: usize,
    /// Whether nothing follows.
    pub closing: bool,
}

/// The first place from `i` on where `c` does not stand.
pub open spec fn run_end(s: Seq<char>, i: int, c: char) -> int
    decreases s.len() - i,
{
    if 0 <= i < s.len() && s[i] == c {
        run_end(s, i + 1, c)
    } else {
        i
    }
}

/// The first place from `i` on where `c` does not stand.
pub fn run_stop(s: &Vec<char>, i: usize, c: char) -> (e: usize)
    requires
        i <= s@.len(),
    ensures
        e == run_end(s@, i as int, c),
        i <= e <= s@.len(),
        forall|j: int| i <= j < e ==> s@[j] == c,
{
    let mut e: usize = i;
    while e < s.len() && s[e] == c
        invariant
            i <= e <= s@.len(),
            run_end(s@, i as int, c) == run_end(s@, e as int, c),
            forall|j: int| i <= j < e ==> s@[j] == c,
        decreases s@.len() - e,
    {
        e += 1;
    }
    e
}

/// The fence that a line begins with, after any white space.
pub open spec fn fence_of(line: Seq<char>) -> Option<FenceMark> {
    let t = trim_start(line);
    if t.len() == 0 || (t[0] != '`' && t[0] != '~') {
        None
    } else {
        let n = run_end(t, 0, t[0]);
        if n < 3 {
            None
        } else {
            Some(
                FenceMark { mark: t[0], count: n as usize, closing: trimmed(t.skip(n)).len() == 0 },
            )
        }
    }
}

/// The fence that a line begins with, after any white space.
pub fn fence_marker(line: &str) -> (fence: Option<FenceMark>)
    ensures
        fence == fence_of(line@),
{
    let chars = to_chars(line);
    let a: usize = lead_length(&chars);
    let ghost t = trim_start(line@);
    if a >= chars.len() {
        return None;
    }
    let mark = chars[a];
    assert(t[0] == mark);
    if mark != '`' && mark != '~' {
        return None;
    }
    let stop: usize = run_stop(&chars, a, mark);
    proof {
        lemma_run_end_skip(chars@, a as int, a as int, mark);
        assert(t.skip(stop - a) =~= chars@.skip(stop as int));
    }
    if stop - a < 3 {
        return None;
    }
    let closing = blank_from(&chars, stop);
    Some(FenceMark { mark, count: stop - a, closing })
}

proof fn lemma_run_end_skip(s: Seq<char>, a: int, i: int, c: char)
    requires
        0 <= a <= i <= s.len(),
    ensures
        run_end(s.skip(a), i - a, c) == run_end(s, i, c) - a,
    decreases s.len() - i,
{
    if i < s.len() && s[i] == c {
        lemma_run_end_skip(s, a, i + 1, c);
    }
}

/// The fence that is open after a line, where `open` is the one that was open before.
pub open spec fn fence_after(open: Option<(char, usize)>, line: Seq<char>) -> Option<(char, usize)> {
    match fence_of(line) {
        None => open,
        Some(m) => match open {
            None => Some((m.mark, m.count)),
            Some((mark, count)) => if m.closing && m.mark == mark && m.count >= count {
                None
            } else {
                open
            },
        },
    }
}

/// The fence that is open after a line.
pub fn step_fence(open: Option<(char, usize)>, line: &str) -> (next: Option<(char, usize)>)
    ensures
        next == fence_after(open, line@),
{
    match fence_marker(line) {
        None => open,
        Some(m) => match open {
            None => Some((m.mark, m.count)),
            Some((mark, count)) => if m.closing && m.mark == mark && m.count >= count {
                None
            } else {
                open
            },
        },
    }
}

} // verus!
