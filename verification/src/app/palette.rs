//! The command palette: every command, filtered by a query.

use vstd::prelude::*;

use crate::action::Action;
use crate::app::{App, AppView, Effect, EffectView, Palette, PickerView};
use crate::fuzzy::{
    entries, fuzzy_score, move_selection, rank, ranking, score_of, selection_moved, shorten,
    shortened,
};
use crate::line_input::{Key, KeyCode};
use crate::strings::{comes_before, text_before};

verus! {

/// One line of the command palette.
#[derive(Clone, Copy, Debug, PartialEq, Eq, Structural)]
pub struct PaletteItem {
    pub action: Action,
    pub selected: bool,
    pub enabled: bool,
}

/// How many of the first `n` commands have a label before a text.
pub open spec fn labels_before(text: Seq<char>, n: int) -> int
    decreases n,
{
    if n <= 0 {
        0
    } else {
        labels_before(text, n - 1) + if text_before(Action::order()[n - 1].label_text(), text, 0) {
            1int
        } else {
            0int
        }
    }
}

/// The scores of the commands for a query.
pub open spec fn label_scores(query: Seq<char>) -> Seq<Option<i32>> {
    Action::order().map_values(|a: Action| score_of(a.label_text(), query))
}

/// The places of the commands in the order of their labels.
pub open spec fn label_places() -> Seq<usize> {
    Action::order().map_values(
        |a: Action| labels_before(a.label_text(), Action::order().len() as int) as usize,
    )
}

/// The commands that match a query, by their places: the best first, and those that match
/// equally in the order of their labels.
pub open spec fn palette_matches(query: Seq<char>) -> Seq<int> {
    ranking(label_scores(query), label_places(), Action::order().len() as int)
}

/// How many commands have a label before a text.
fn count_before(actions: &Vec<Action>, text: &str) -> (n: usize)
    requires
        actions@ == Action::order(),
    ensures
        n == labels_before(text@, actions@.len() as int),
        n <= actions@.len(),
{
    let mut n: usize = 0;
    let mut i: usize = 0;
    while i < actions.len()
        invariant
            i <= actions@.len(),
            actions@ == Action::order(),
            n == labels_before(text@, i as int),
            n <= i,
        decreases actions@.len() - i,
    {
        if comes_before(actions[i].label(), text) {
            n += 1;
        }
        i += 1;
    }
    n
}

impl Palette {
    /// The commands that match the query.
    pub fn matches(&self) -> (out: Vec<Action>)
        ensures
            out@.len() == palette_matches(self.query@).len(),
            forall|i: int|
                0 <= i < out@.len() ==> 0 <= palette_matches(self.query@)[i]
                    < Action::order().len() && #[trigger] out@[i]
                    == Action::order()[palette_matches(self.query@)[i]],
    {
        let actions = Action::all();
        let mut scores: Vec<Option<i32>> = Vec::new();
        let mut places: Vec<usize> = Vec::new();
        let mut i: usize = 0;
        while i < actions.len()
            invariant
                i <= actions@.len(),
                actions@ == Action::order(),
                scores@.len() == i,
                places@.len() == i,
                forall|k: int|
                    0 <= k < i ==> #[trigger] scores@[k] == score_of(
                        actions@[k].label_text(),
                        self.query@,
                    ),
                forall|k: int|
                    0 <= k < i ==> #[trigger] places@[k] == labels_before(
                        actions@[k].label_text(),
                        actions@.len() as int,
                    ),
            decreases actions@.len() - i,
        {
            let label = actions[i].label();
            scores.push(fuzzy_score(label, self.query.as_str()));
            places.push(count_before(&actions, label));
            i += 1;
        }
        assert(scores@ =~= label_scores(self.query@));
        assert(places@ =~= label_places());
        let ranked = rank(&scores, &places);
        assert(entries(ranked@) == palette_matches(self.query@));
        let mut out: Vec<Action> = Vec::new();
        let mut k: usize = 0;
        while k < ranked.len()
            invariant
                k <= ranked@.len(),
                actions@ == Action::order(),
                entries(ranked@) == palette_matches(self.query@),
                forall|i: int| 0 <= i < ranked@.len() ==> (#[trigger] ranked@[i]) < actions@.len(),
                out@.len() == k,
                forall|i: int|
                    0 <= i < k ==> #[trigger] out@[i] == actions@[ranked@[i] as int],
            decreases ranked@.len() - k,
        {
            out.push(actions[ranked[k]]);
            k += 1;
        }
        assert forall|i: int| 0 <= i < out@.len() implies 0 <= palette_matches(self.query@)[i]
            < Action::order().len() && #[trigger] out@[i]
            == Action::order()[palette_matches(self.query@)[i]] by {
            assert(entries(ranked@)[i] == ranked@[i] as int);
        }
        out
    }
}

/// A query and a selection after a key, in a list of `len` entries.
pub open spec fn picker_after(p: PickerView, key: Key, len: int) -> PickerView {
    match key.code {
        KeyCode::Up => PickerView { selected: selection_moved(p.selected, len, false), ..p },
        KeyCode::Down => PickerView { selected: selection_moved(p.selected, len, true), ..p },
        KeyCode::Backspace => if p.query.len() > 0 {
            PickerView { query: shortened(p.query), selected: 0 }
        } else {
            p
        },
        KeyCode::Char(c) => if key.ctrl() {
            p
        } else {
            PickerView { query: p.query.push(c), selected: 0 }
        },
        _ => p,
    }
}

/// A query and a selection after a key, in a list of `len` entries.
pub fn picker_key(query: String, selected: usize, key: Key, len: usize) -> (r: (String, usize))
    ensures
        (PickerView { query: r.0@, selected: r.1 }) == picker_after(
            PickerView { query: query@, selected },
            key,
            len as int,
        ),
{
    match key.code {
        KeyCode::Up => (query, move_selection(selected, len, false)),
        KeyCode::Down => (query, move_selection(selected, len, true)),
        KeyCode::Backspace => {
            let (short, had) = shorten(query.as_str());
            if had {
                (short, 0)
            } else {
                (query, selected)
            }
        },
        KeyCode::Char(c) => {
            if key.is_ctrl() {
                (query, selected)
            } else {
                let mut longer = query;
                longer.push(c);
                (longer, 0)
            }
        },
        _ => (query, selected),
    }
}

impl AppView {
    /// The application with a command palette, or without one.
    pub open spec fn with_palette(self, palette: Option<PickerView>) -> AppView {
        AppView { palette, ..self }
    }

    /// The command that is selected in the palette.
    pub open spec fn palette_choice(self, p: PickerView) -> Option<Action> {
        let m = palette_matches(p.query);
        if p.selected < m.len() {
            Some(Action::order()[m[p.selected as int]])
        } else {
            None
        }
    }

    /// A key in the command palette: a command that can be run is, and the palette closes.
    #[verifier::opaque]
    pub open spec fn palette_key(self, key: Key) -> (AppView, EffectView) {
        match self.palette {
            None => (self, EffectView::Nothing),
            Some(p) => if key.code == KeyCode::Esc {
                (self.with_palette(None), EffectView::Nothing)
            } else {
                let stay = (
                    self.with_palette(
                        Some(picker_after(p, key, palette_matches(p.query).len() as int)),
                    ),
                    EffectView::Nothing,
                );
                if key.code == KeyCode::Enter {
                    match self.palette_choice(p) {
                        Some(action) => if self.enabled(action) {
                            self.with_palette(None).ran(action)
                        } else {
                            stay
                        },
                        None => stay,
                    }
                } else {
                    stay
                }
            },
        }
    }

    /// The lines of the command palette.
    pub open spec fn palette_lines(self) -> Seq<PaletteItem> {
        match self.palette {
            None => Seq::empty(),
            Some(p) => {
                let m = palette_matches(p.query);
                Seq::new(
                    m.len(),
                    |i: int|
                        PaletteItem {
                            action: Action::order()[m[i]],
                            selected: i == p.selected,
                            enabled: self.enabled(Action::order()[m[i]]),
                        },
                )
            },
        }
    }
}

impl App {
    /// What is typed in the command palette.
    pub fn palette_query(&self) -> (query: &str)
        requires
            self.wf(),
        ensures
            query@ == match self@.palette {
                Some(p) => p.query,
                None => ""@,
            },
    {
        proof {
            reveal(App::seen);
        }
        match &self.palette {
            Some(p) => p.query.as_str(),
            None => "",
        }
    }

    /// The lines of the command palette.
    #[verifier::spinoff_prover]
    pub fn palette_items(&self) -> (items: Vec<PaletteItem>)
        requires
            self.wf(),
        ensures
            items@ == self@.palette_lines(),
    {
        proof {
            reveal(App::seen);
        }
        let mut items: Vec<PaletteItem> = Vec::new();
        match &self.palette {
            None => {
                assert(items@ =~= self@.palette_lines());
            },
            Some(p) => {
                let actions = p.matches();
                let ghost m = palette_matches(p.query@);
                let mut i: usize = 0;
                while i < actions.len()
                    invariant
                        i <= actions@.len(),
                        m == palette_matches(p.query@),
                        actions@.len() == m.len(),
                        forall|k: int|
                            0 <= k < actions@.len() ==> #[trigger] actions@[k]
                                == Action::order()[m[k]],
                        items@.len() == i,
                        forall|k: int|
                            0 <= k < i ==> #[trigger] items@[k] == (PaletteItem {
                                action: Action::order()[m[k]],
                                selected: k == p.selected,
                                enabled: self@.enabled(Action::order()[m[k]]),
                            }),
                    decreases actions@.len() - i,
                {
                    let action = actions[i];
                    let enabled = self.action_enabled(action);
                    items.push(PaletteItem { action, selected: i == p.selected, enabled });
                    i += 1;
                }
                assert(items@ =~= self@.palette_lines());
            },
        }
        items
    }

    /// Take the command palette away.
    #[verifier::spinoff_prover]
    fn take_palette(&mut self) -> (palette: Option<Palette>)
        requires
            old(self).wf(),
        ensures
            final(self).wf(),
            final(self)@ == old(self)@.with_palette(None),
            match palette {
                Some(p) => old(self)@.palette == Some(p@),
                None => old(self)@.palette is None,
            },
    {
        proof {
            reveal(App::seen);
            reveal(App::wf);
        }
        let mut palette: Option<Palette> = None;
        std::mem::swap(&mut palette, &mut self.palette);
        palette
    }

    /// Show a command palette.
    #[verifier::spinoff_prover]
    fn put_palette(&mut self, palette: Palette)
        requires
            old(self).wf(),
        ensures
            final(self).wf(),
            final(self)@ == old(self)@.with_palette(Some(palette@)),
    {
        proof {
            reveal(App::seen);
            reveal(App::wf);
        }
        self.palette = Some(palette);
    }

    /// Handle a key while the command palette is open.
    #[verifier::spinoff_prover]
    pub fn handle_palette_key(&mut self, key: Key) -> (effect: Effect)
        requires
            old(self).wf(),
        ensures
            final(self).wf(),
            (final(self)@, effect@) == old(self)@.palette_key(key),
    {
        proof {
            reveal(AppView::palette_key);
        }
        let palette = match self.take_palette() {
            Some(p) => p,
            None => {
                assert(self@ == old(self)@);
                return Effect::Nothing;
            },
        };
        if key.code == KeyCode::Esc {
            return Effect::Nothing;
        }
        let actions = palette.matches();
        if key.code == KeyCode::Enter && palette.selected < actions.len() {
            let action = actions[palette.selected];
            if self.action_enabled(action) {
                return self.run_action(action);
            }
        }
        let (query, selected) = picker_key(palette.query, palette.selected, key, actions.len());
        self.put_palette(Palette { query, selected });
        Effect::Nothing
    }
}

} // verus!
