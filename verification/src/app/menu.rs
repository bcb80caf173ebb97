//! The settings popup: an interactive overlay for switching the theme,
//! light/dark appearance, and keybinding preset.
//!
//! It captures all input while open. Theme and appearance changes apply **live** behind the
//! popup; `Esc` reverts to the snapshot taken when it opened, `Enter` / `^G` accept and
//! close.

use vstd::prelude::*;

use crate::app::{App, AppView, Desk, Effect, EffectView, LineNumbers, Menu};
use crate::line_input::{Key, KeyCode};
use crate::markdown::theme::{ThemeName, ThemeVariant};
use crate::strings::{ascii_lowered, opt_view, to_ascii_lower};

verus! {

pub const ROW_KEYBINDINGS: usize = 0;

pub const ROW_THEME: usize = 1;

pub const ROW_APPEARANCE: usize = 2;

pub const ROW_LINE_NUMBERS: usize = 3;

pub const ROW_SAVE_DEFAULTS: usize = 4;

/// How many rows the guide scrolls by.
pub const GUIDE_STEP: usize = 4;

/// The index after or before another, around the end of `len` items.
pub open spec fn wrapped(i: int, len: int, forward: bool) -> int {
    if forward {
        if i + 1 < len {
            i + 1
        } else {
            0
        }
    } else if i == 0 {
        len - 1
    } else {
        i - 1
    }
}

/// The theme after, or before, another in the order of all, around its end.
pub open spec fn theme_stepped(name: ThemeName, forward: bool) -> ThemeName {
    let order = ThemeName::order();
    let i = choose|i: int| 0 <= i < order.len() && #[trigger] order[i] == name;
    order[wrapped(i, order.len() as int, forward)]
}

/// Every theme is in the order of all, once.
pub proof fn lemma_themes_are_listed_once(name: ThemeName)
    ensures
        exists|i: int| 0 <= i < ThemeName::order().len() && ThemeName::order()[i] == name,
        forall|i: int, j: int|
            0 <= i < j < ThemeName::order().len() ==> ThemeName::order()[i]
                != ThemeName::order()[j],
{
    let o = ThemeName::order();
    match name {
        ThemeName::Marqi => assert(o[0] == name),
        ThemeName::OneDark => assert(o[1] == name),
        ThemeName::Github => assert(o[2] == name),
        ThemeName::Catppuccin => assert(o[3] == name),
        ThemeName::TokyoNight => assert(o[4] == name),
        ThemeName::Gruvbox => assert(o[5] == name),
        ThemeName::Nord => assert(o[6] == name),
        ThemeName::Dracula => assert(o[7] == name),
        ThemeName::Solarized => assert(o[8] == name),
    }
}

/// The other appearance.
pub open spec fn other_variant(v: ThemeVariant) -> ThemeVariant {
    match v {
        ThemeVariant::Dark => ThemeVariant::Light,
        ThemeVariant::Light => ThemeVariant::Dark,
    }
}

/// The theme after, or before, another.
fn step_theme(name: ThemeName, forward: bool) -> (next: ThemeName)
    ensures
        next == theme_stepped(name, forward),
{
    proof {
        lemma_themes_are_listed_once(name);
    }
    let all = ThemeName::all();
    let count: usize = all.len();
    let ghost at = choose|i: int| 0 <= i < ThemeName::order().len() && #[trigger] ThemeName::order()[i] == name;
    let mut i: usize = 0;
    while i < count && all[i] != name
        invariant
            i <= count,
            count == all@.len(),
            all@ == ThemeName::order(),
            0 <= at < count,
            all@[at] == name,
            i <= at,
        decreases count - i,
    {
        i += 1;
    }
    assert(i == at);
    if forward {
        if i + 1 < count {
            all[i + 1]
        } else {
            all[0]
        }
    } else if i == 0 {
        all[count - 1]
    } else {
        all[i - 1]
    }
}

impl AppView {
    /// The application with a settings popup, or without one.
    pub open spec fn with_menu(self, menu: Option<Menu>) -> AppView {
        self.with_desk(Desk { menu, ..self.desk })
    }

    /// The application with line numbers.
    pub open spec fn numbered(self, line_numbers: LineNumbers) -> AppView {
        self.with_desk(Desk { line_numbers, ..self.desk })
    }

    /// The settings are those that the popup was opened with, and it is closed.
    #[verifier::opaque]
    pub open spec fn menu_cancelled(self, m: Menu) -> AppView {
        let v = self.theme_applied(m.orig_theme, m.orig_variant);
        let v = if v.desk.preset != m.orig_preset {
            v.preset_set(m.orig_preset)
        } else {
            v
        };
        v.numbered(m.orig_line_numbers).silent().with_menu(None)
    }

    /// The value of a row is the next, or the previous one.
    #[verifier::opaque]
    pub open spec fn menu_adjusted(self, focus: usize, forward: bool) -> AppView {
        if focus == ROW_KEYBINDINGS {
            self.preset_set(
                if forward {
                    self.desk.preset.next()
                } else {
                    self.desk.preset.prev()
                },
            )
        } else if focus == ROW_THEME {
            self.theme_applied(theme_stepped(self.theme.name, forward), self.theme.variant)
        } else if focus == ROW_APPEARANCE {
            self.theme_applied(self.theme.name, other_variant(self.theme.variant))
        } else if focus == ROW_LINE_NUMBERS {
            self.numbered(self.desk.line_numbers.stepped(forward))
        } else {
            self
        }
    }

    /// The settings are to be written to the configuration file, and the popup is closed.
    #[verifier::opaque]
    pub open spec fn defaults_saved(self) -> (AppView, EffectView) {
        match self.config_path {
            Some(path) => (
                self.with_menu(None),
                EffectView::SaveSettings {
                    path,
                    keybindings: ascii_lowered(self.desk.preset.label_text()),
                    line_numbers: self.desk.line_numbers.config_text(),
                    theme: self.theme.name.config_text(),
                    variant: ascii_lowered(self.theme.variant.label_text()),
                },
            ),
            None => (
                self.say("Config directory is unavailable"@).with_menu(None),
                EffectView::Nothing,
            ),
        }
    }

    /// A key in the settings popup.
    #[verifier::opaque]
    pub open spec fn menu_key(self, key: Key) -> (AppView, EffectView) {
        match self.desk.menu {
            None => (self, EffectView::Nothing),
            Some(m) => {
                let code = key.code;
                if code == KeyCode::Enter && m.focus == ROW_SAVE_DEFAULTS {
                    self.defaults_saved()
                } else if code == KeyCode::Enter || (key.ctrl() && code == KeyCode::Char('g')) {
                    (self.with_menu(None), EffectView::Nothing)
                } else if code == KeyCode::Esc {
                    (self.menu_cancelled(m), EffectView::Nothing)
                } else if code == KeyCode::Left || code == KeyCode::Char('h') {
                    (self.menu_adjusted(m.focus, false), EffectView::Nothing)
                } else if code == KeyCode::Right || code == KeyCode::Char('l') {
                    (self.menu_adjusted(m.focus, true), EffectView::Nothing)
                } else {
                    (self.with_menu(Some(menu_moved(m, code))), EffectView::Nothing)
                }
            },
        }
    }
}

/// The popup after a key that moves in it.
pub open spec fn menu_moved(m: Menu, code: KeyCode) -> Menu {
    if code == KeyCode::Up || code == KeyCode::Char('k') {
        Menu { focus: m.focus.saturating_sub(1), ..m }
    } else if code == KeyCode::Down || code == KeyCode::Char('j') {
        Menu {
            focus: if m.focus < ROW_SAVE_DEFAULTS {
                (m.focus + 1) as usize
            } else {
                ROW_SAVE_DEFAULTS
            },
            ..m
        }
    } else if code == KeyCode::PageDown || code == KeyCode::Char(' ') {
        Menu { guide_scroll: m.guide_scroll.saturating_add(GUIDE_STEP), ..m }
    } else if code == KeyCode::PageUp {
        Menu { guide_scroll: m.guide_scroll.saturating_sub(GUIDE_STEP), ..m }
    } else {
        m
    }
}

/// The popup after a key that moves in it.
fn move_in_menu(m: Menu, code: KeyCode) -> (out: Menu)
    ensures
        out == menu_moved(m, code),
{
    let mut out = m;
    if code == KeyCode::Up || code == KeyCode::Char('k') {
        out.focus = m.focus.saturating_sub(1);
    } else if code == KeyCode::Down || code == KeyCode::Char('j') {
        out.focus = if m.focus < ROW_SAVE_DEFAULTS {
            m.focus + 1
        } else {
            ROW_SAVE_DEFAULTS
        };
    } else if code == KeyCode::PageDown || code == KeyCode::Char(' ') {
        out.guide_scroll = m.guide_scroll.saturating_add(GUIDE_STEP);
    } else if code == KeyCode::PageUp {
        out.guide_scroll = m.guide_scroll.saturating_sub(GUIDE_STEP);
    }
    out
}

impl App {
    /// Show a settings popup, or none.
    #[verifier::spinoff_prover]
    pub fn set_menu(&mut self, menu: Option<Menu>)
        requires
            old(self).wf(),
        ensures
            final(self).wf(),
            final(self)@ == old(self)@.with_menu(menu),
    {
        proof {
            reveal(App::seen);
            reveal(App::wf);
        }
        self.desk.menu = menu;
    }

    /// Set the line numbers.
    #[verifier::spinoff_prover]
    fn set_line_numbers(&mut self, numbers: LineNumbers)
        requires
            old(self).wf(),
        ensures
            final(self).wf(),
            final(self)@ == old(self)@.numbered(numbers),
    {
        proof {
            reveal(App::seen);
            reveal(App::wf);
        }
        self.desk.line_numbers = numbers;
    }

    /// Undo what was set since the popup opened, and close it.
    #[verifier::spinoff_prover]
    fn cancel_menu(&mut self, m: Menu)
        requires
            old(self).wf(),
        ensures
            final(self).wf(),
            final(self)@ == old(self)@.menu_cancelled(m),
    {
        proof {
            reveal(AppView::menu_cancelled);
        }
        self.apply_theme_runtime(m.orig_theme, m.orig_variant);
        if self.desk().preset != m.orig_preset {
            self.set_preset(m.orig_preset);
        }
        self.set_line_numbers(m.orig_line_numbers);
        self.clear_status();
        self.set_menu(None);
    }

    /// Step the focused row's value one place (`forward` = right / next),
    /// applying the change live.
    #[verifier::spinoff_prover]
    fn menu_adjust(&mut self, focus: usize, forward: bool)
        requires
            old(self).wf(),
        ensures
            final(self).wf(),
            final(self)@ == old(self)@.menu_adjusted(focus, forward),
    {
        proof {
            reveal(AppView::menu_adjusted);
        }
        let theme = *self.theme();
        if focus == ROW_KEYBINDINGS {
            let preset = self.desk().preset;
            self.set_preset(preset.step(forward));
        } else if focus == ROW_THEME {
            self.apply_theme_runtime(step_theme(theme.name, forward), theme.variant);
        } else if focus == ROW_APPEARANCE {
            let variant = match theme.variant {
                ThemeVariant::Dark => ThemeVariant::Light,
                ThemeVariant::Light => ThemeVariant::Dark,
            };
            self.apply_theme_runtime(theme.name, variant);
        } else if focus == ROW_LINE_NUMBERS {
            let numbers = self.desk().line_numbers;
            self.set_line_numbers(numbers.step(forward));
        }
    }

    /// The path of the configuration file.
    fn settings_path(&self) -> (path: Option<String>)
        requires
            self.wf(),
        ensures
            opt_view(path) == self@.config_path,
    {
        proof {
            reveal(App::seen);
        }
        crate::app::copy_text(&self.config_path)
    }

    /// Write the settings to the configuration file.
    #[verifier::spinoff_prover]
    fn save_menu_defaults(&mut self) -> (effect: Effect)
        requires
            old(self).wf(),
        ensures
            final(self).wf(),
            (final(self)@, effect@) == old(self)@.defaults_saved(),
    {
        proof {
            reveal(AppView::defaults_saved);
        }
        match self.settings_path() {
            Some(path) => {
                let theme = *self.theme();
                let desk = self.desk();
                let keybindings = to_ascii_lower(desk.preset.label());
                let variant = to_ascii_lower(theme.variant.label());
                self.set_menu(None);
                Effect::SaveSettings {
                    path,
                    keybindings,
                    line_numbers: desk.line_numbers.config_name().to_owned(),
                    theme: theme.name.config_name().to_owned(),
                    variant,
                }
            },
            None => {
                self.set_status("Config directory is unavailable");
                self.set_menu(None);
                Effect::Nothing
            },
        }
    }

    /// Handle a key while the settings popup is open.
    #[verifier::spinoff_prover]
    pub fn handle_menu_key(&mut self, key: Key) -> (effect: Effect)
        requires
            old(self).wf(),
        ensures
            final(self).wf(),
            (final(self)@, effect@) == old(self)@.menu_key(key),
    {
        proof {
            reveal(AppView::menu_key);
        }
        let menu = match self.desk().menu {
            Some(m) => m,
            None => {
                return Effect::Nothing;
            },
        };
        let code = key.code;
        if code == KeyCode::Enter && menu.focus == ROW_SAVE_DEFAULTS {
            return self.save_menu_defaults();
        }
        if code == KeyCode::Enter || (key.is_ctrl() && code == KeyCode::Char('g')) {
            self.set_menu(None);
        } else if code == KeyCode::Esc {
            self.cancel_menu(menu);
        } else if code == KeyCode::Left || code == KeyCode::Char('h') {
            self.menu_adjust(menu.focus, false);
        } else if code == KeyCode::Right || code == KeyCode::Char('l') {
            self.menu_adjust(menu.focus, true);
        } else {
            self.set_menu(Some(move_in_menu(menu, code)));
        }
        Effect::Nothing
    }
}

} // verus!
