//! User configuration, from `config.toml` in the platform config dir
//! (`~/.config/marqi/config.toml` on Linux, `~/Library/Application Support` on
//! macOS). Everything is optional; missing values fall back to defaults.
//!
//! ```toml
//! [editor]
//! keybindings = "standard"   # "standard" | "vim" | "nano" | "emacs"
//! line_numbers = "off"       # "off" | "absolute" | "relative"
//! heading_glyphs = true
//! left_margin = 1
//! tab_width = 4
//! scrolloff = 3
//!
//! [theme]
//! name = "default"                 # palette family: "default" picks One Dark
//!                                  # (dark) / GitHub (light); also: "marqi",
//!                                  # "onedark", "github", "catppuccin",
//!                                  # "tokyonight", "gruvbox", "nord",
//!                                  # "dracula", "solarized"
//! variant = "auto"                 # "auto" | "dark" | "light"
//! # syntax = "base16-ocean.dark"   # optional syntect theme override
//!
//! [theme.markdown]                # element -> #rrggbb overrides
//! heading1 = "#8be9fd"
//! link = "#8be9fd"
//! ```

use vstd::prelude::*;

use crate::color::{hex_color, parse_hex};
use crate::markdown::highlight::{bundled_file, default_theme, CodeHighlighter};
use crate::markdown::theme::{known_name, override_key, pair_views, MarkdownTheme};
use crate::strings::{
    ascii_lowered, comes_before, lemma_text_before_one_way, lemma_text_before_passes_on, opt_view,
    same, text_before, to_ascii_lower, trim, trimmed, views,
};

verus! {

/// What the user has configured.
pub struct Config {
    pub editor: EditorConfig,
    pub theme: ThemeConfig,
    /// The file that the configuration was read from.
    pub source_path: Option<String>,
}

pub struct EditorConfig {
    pub keybindings: String,
    pub line_numbers: String,
    pub heading_glyphs: bool,
    /// How a single source newline renders in the preview: "space" (markdown
    /// reflow) or "break" (a visible line break, Obsidian-style).
    pub soft_break: String,
    /// Blank columns between the terminal's left edge and the editor content
    /// (0 disables).
    pub left_margin: usize,
    pub tab_width: usize,
    pub scrolloff: usize,
    /// Save automatically ~2 seconds after the last edit (named buffers only).
    pub auto_save: bool,
    /// Show the number of words and characters in the status line.
    pub status_stats: bool,
}

pub struct ThemeConfig {
    /// Palette family name ("onedark", "github", "catppuccin", ...). Empty or
    /// "default" picks the most popular face per variant: One Dark when dark,
    /// GitHub when light. "marqi" keeps the original palette.
    pub name: String,
    /// Built-in markdown/editor palette variant: "auto", "dark", or "light".
    pub variant: String,
    /// A syntect theme name for fenced code blocks.
    pub syntax: Option<String>,
    /// Per-element colour overrides (`element -> "#rrggbb"`).
    pub markdown: Vec<(String, String)>,
}

/// What an [`EditorConfig`] says.
#[verifier::ext_equal]
pub struct EditorConfigView {
    pub keybindings: Seq<char>,
    pub line_numbers: Seq<char>,
    pub heading_glyphs: bool,
    pub soft_break: Seq<char>,
    pub left_margin: usize,
    pub tab_width: usize,
    pub scrolloff: usize,
    pub auto_save: bool,
    pub status_stats: bool,
}

/// What a [`ThemeConfig`] says.
#[verifier::ext_equal]
pub struct ThemeConfigView {
    pub name: Seq<char>,
    pub variant: Seq<char>,
    pub syntax: Option<Seq<char>>,
    pub markdown: Seq<(Seq<char>, Seq<char>)>,
}

/// What a [`Config`] says.
#[verifier::ext_equal]
pub struct ConfigView {
    pub editor: EditorConfigView,
    pub theme: ThemeConfigView,
    pub source_path: Option<Seq<char>>,
}

impl View for EditorConfig {
    type V = EditorConfigView;

    open spec fn view(&self) -> EditorConfigView {
        EditorConfigView {
            keybindings: self.keybindings@,
            line_numbers: self.line_numbers@,
            heading_glyphs: self.heading_glyphs,
            soft_break: self.soft_break@,
            left_margin: self.left_margin,
            tab_width: self.tab_width,
            scrolloff: self.scrolloff,
            auto_save: self.auto_save,
            status_stats: self.status_stats,
        }
    }
}

impl View for ThemeConfig {
    type V = ThemeConfigView;

    open spec fn view(&self) -> ThemeConfigView {
        ThemeConfigView {
            name: self.name@,
            variant: self.variant@,
            syntax: opt_view(self.syntax),
            markdown: pair_views(self.markdown@),
        }
    }
}

impl View for Config {
    type V = ConfigView;

    open spec fn view(&self) -> ConfigView {
        ConfigView {
            editor: self.editor@,
            theme: self.theme@,
            source_path: opt_view(self.source_path),
        }
    }
}

impl EditorConfigView {
    /// The settings where nothing is configured.
    pub open spec fn unset() -> EditorConfigView {
        EditorConfigView {
            keybindings: "standard"@,
            line_numbers: "off"@,
            heading_glyphs: true,
            soft_break: "space"@,
            left_margin: 1,
            tab_width: 4,
            scrolloff: 3,
            auto_save: false,
            status_stats: false,
        }
    }
}

impl ThemeConfigView {
    /// The settings where nothing is configured.
    pub open spec fn unset() -> ThemeConfigView {
        ThemeConfigView {
            name: Seq::empty(),
            variant: "auto"@,
            syntax: None,
            markdown: Seq::empty(),
        }
    }
}

impl ConfigView {
    /// The settings where nothing is configured.
    pub open spec fn unset() -> ConfigView {
        ConfigView {
            editor: EditorConfigView::unset(),
            theme: ThemeConfigView::unset(),
            source_path: None,
        }
    }
}

impl Default for EditorConfig {
    fn default() -> (c: Self)
        ensures
            c@ == EditorConfigView::unset(),
    {
        EditorConfig {
            keybindings: "standard".to_owned(),
            line_numbers: "off".to_owned(),
            heading_glyphs: true,
            soft_break: "space".to_owned(),
            left_margin: 1,
            tab_width: 4,
            scrolloff: 3,
            auto_save: false,
            status_stats: false,
        }
    }
}

impl Default for ThemeConfig {
    fn default() -> (c: Self)
        ensures
            c@ == ThemeConfigView::unset(),
    {
        let c = ThemeConfig {
            name: String::new(),
            variant: "auto".to_owned(),
            syntax: None,
            markdown: Vec::new(),
        };
        assert(c@ =~= ThemeConfigView::unset());
        c
    }
}

impl Default for Config {
    fn default() -> (c: Self)
        ensures
            c@ == ConfigView::unset(),
    {
        Config {
            editor: EditorConfig::default(),
            theme: ThemeConfig::default(),
            source_path: None,
        }
    }
}

/// A setting as it is compared.
pub open spec fn plain_setting(value: Seq<char>) -> Seq<char> {
    ascii_lowered(trimmed(value))
}

/// A setting with its value, as it is reported.
pub open spec fn setting(name: Seq<char>, value: Seq<char>) -> Seq<char> {
    name + " = \""@ + value + "\""@
}

/// A list with one more item where a condition holds.
pub open spec fn with_item(list: Seq<Seq<char>>, add: bool, item: Seq<char>) -> Seq<Seq<char>> {
    if add {
        list.push(item)
    } else {
        list
    }
}

/// Whether a code theme goes by this name.
pub open spec fn code_theme(name: Seq<char>) -> bool {
    bundled_file(name) is Some || default_theme(name)
}

/// Where an override goes among others in the order of their names: after all that its name
/// does not come before.
pub open spec fn key_slot(pairs: Seq<(Seq<char>, Seq<char>)>, key: Seq<char>, k: int) -> int
    decreases k,
{
    if k <= 0 || !text_before(key, pairs[k - 1].0, 0) {
        k
    } else {
        key_slot(pairs, key, k - 1)
    }
}

/// The first `n` overrides in the order of their names.
pub open spec fn in_key_order(pairs: Seq<(Seq<char>, Seq<char>)>, n: int) -> Seq<
    (Seq<char>, Seq<char>),
>
    decreases n,
{
    if n <= 0 {
        Seq::empty()
    } else {
        let sorted = in_key_order(pairs, n - 1);
        sorted.insert(key_slot(sorted, pairs[n - 1].0, sorted.len() as int), pairs[n - 1])
    }
}

proof fn lemma_key_slot(pairs: Seq<(Seq<char>, Seq<char>)>, key: Seq<char>, k: int)
    requires
        0 <= k <= pairs.len(),
    ensures
        0 <= key_slot(pairs, key, k) <= k,
        forall|i: int|
            key_slot(pairs, key, k) <= i < k ==> text_before(key, (#[trigger] pairs[i]).0, 0),
        key_slot(pairs, key, k) > 0 ==> !text_before(key, pairs[key_slot(pairs, key, k) - 1].0, 0),
    decreases k,
{
    if k > 0 && text_before(key, pairs[k - 1].0, 0) {
        lemma_key_slot(pairs, key, k - 1);
    }
}

/// Overrides in the order of their names are: no name comes before that of an earlier one.
pub proof fn lemma_overrides_are_in_order(pairs: Seq<(Seq<char>, Seq<char>)>, n: int)
    requires
        0 <= n <= pairs.len(),
    ensures
        in_key_order(pairs, n).len() == n,
        forall|i: int, j: int|
            0 <= i < j < n ==> !text_before(
                (#[trigger] in_key_order(pairs, n)[j]).0,
                (#[trigger] in_key_order(pairs, n)[i]).0,
                0,
            ),
    decreases n,
{
    if n > 0 {
        lemma_overrides_are_in_order(pairs, n - 1);
        let sorted = in_key_order(pairs, n - 1);
        let key = pairs[n - 1].0;
        lemma_key_slot(sorted, key, sorted.len() as int);
        let at = key_slot(sorted, key, sorted.len() as int);
        let all = in_key_order(pairs, n);
        assert forall|i: int, j: int| 0 <= i < j < n implies !text_before(
            (#[trigger] all[j]).0,
            (#[trigger] all[i]).0,
            0,
        ) by {
            if j < at {
                assert(all[i] == sorted[i] && all[j] == sorted[j]);
            } else if j == at {
                assert(all[i] == sorted[i]);
                if text_before(key, sorted[i].0, 0) && i < at - 1 {
                    assert(!text_before(sorted[at - 1].0, sorted[i].0, 0));
                    lemma_text_before_passes_on(key, sorted[i].0, sorted[at - 1].0, 0);
                }
            } else if i < at {
                assert(all[i] == sorted[i] && all[j] == sorted[j - 1]);
            } else if i == at {
                assert(all[j] == sorted[j - 1]);
                lemma_text_before_one_way(key, sorted[j - 1].0, 0);
            } else {
                assert(all[i] == sorted[i - 1] && all[j] == sorted[j - 1]);
            }
        }
    }
}

/// Overrides in the order of their names.
fn sort_overrides(pairs: &Vec<(String, String)>) -> (sorted: Vec<(String, String)>)
    ensures
        pair_views(sorted@) == in_key_order(pair_views(pairs@), pairs@.len() as int),
{
    let ghost all = pair_views(pairs@);
    let mut sorted: Vec<(String, String)> = Vec::new();
    let mut i: usize = 0;
    assert(pair_views(sorted@) =~= in_key_order(all, 0));
    while i < pairs.len()
        invariant
            i <= pairs@.len(),
            all == pair_views(pairs@),
            sorted@.len() == i,
            pair_views(sorted@) == in_key_order(all, i as int),
        decreases pairs@.len() - i,
    {
        let ghost before = pair_views(sorted@);
        let key = pairs[i].0.clone();
        let value = pairs[i].1.clone();
        assert(all[i as int] == (key@, value@));
        let mut k: usize = sorted.len();
        while k > 0 && comes_before(key.as_str(), sorted[k - 1].0.as_str())
            invariant
                k <= sorted@.len(),
                before == pair_views(sorted@),
                key_slot(before, key@, sorted@.len() as int) == key_slot(before, key@, k as int),
            decreases k,
        {
            assert(before[k - 1].0 == sorted@[k - 1].0@);
            k -= 1;
        }
        if k > 0 {
            assert(before[k - 1].0 == sorted@[k - 1].0@);
        }
        sorted.insert(k, (key, value));
        i += 1;
        assert(pair_views(sorted@) =~= in_key_order(all, i as int));
    }
    sorted
}

/// What is wrong with the first `n` colour overrides.
pub open spec fn bad_overrides(list: Seq<Seq<char>>, pairs: Seq<(Seq<char>, Seq<char>)>, n: int) -> Seq<
    Seq<char>,
>
    decreases n,
{
    if n <= 0 {
        list
    } else {
        let before = bad_overrides(list, pairs, n - 1);
        let (key, value) = pairs[n - 1];
        if !override_key(key) {
            before.push("theme.markdown."@ + key)
        } else if hex_color(value) is None {
            before.push(setting("theme.markdown."@ + key, value))
        } else {
            before
        }
    }
}

impl ConfigView {
    pub open spec fn keybindings_known(self) -> bool {
        let v = plain_setting(self.editor.keybindings);
        v == "standard"@ || v == "vim"@ || v == "nano"@ || v == "emacs"@
    }

    pub open spec fn line_numbers_known(self) -> bool {
        let v = plain_setting(self.editor.line_numbers);
        v == "off"@ || v == "absolute"@ || v == "relative"@
    }

    pub open spec fn soft_break_known(self) -> bool {
        let v = plain_setting(self.editor.soft_break);
        v == "space"@ || v == "break"@
    }

    pub open spec fn variant_known(self) -> bool {
        let v = plain_setting(self.theme.variant);
        v == "auto"@ || v == "dark"@ || v == "light"@
    }

    /// The settings that parse but match no known value.
    pub open spec fn bad_settings(self) -> Seq<Seq<char>> {
        let a = with_item(
            Seq::empty(),
            !self.keybindings_known(),
            setting("editor.keybindings"@, self.editor.keybindings),
        );
        let b = with_item(
            a,
            !self.line_numbers_known(),
            setting("editor.line_numbers"@, self.editor.line_numbers),
        );
        let c = with_item(
            b,
            !self.soft_break_known(),
            setting("editor.soft_break"@, self.editor.soft_break),
        );
        let d = with_item(
            c,
            !self.variant_known(),
            setting("theme.variant"@, self.theme.variant),
        );
        let e = with_item(
            d,
            !known_name(self.theme.name),
            setting("theme.name"@, self.theme.name),
        );
        let f = match self.theme.syntax {
            Some(s) => with_item(e, !code_theme(s), setting("theme.syntax"@, s)),
            None => e,
        };
        let g = with_item(f, self.editor.tab_width == 0, "editor.tab_width = 0"@);
        let n = self.theme.markdown.len() as int;
        bad_overrides(g, in_key_order(self.theme.markdown, n), n)
    }

    /// What to warn of, if anything.
    pub open spec fn warning(self) -> Option<Seq<char>> {
        let bad = self.bad_settings();
        if bad.len() == 0 {
            None
        } else {
            Some("Config: invalid setting(s): "@ + listed(bad, bad.len() as int))
        }
    }
}

/// The first `n` items, with commas between them.
pub open spec fn listed(items: Seq<Seq<char>>, n: int) -> Seq<char>
    decreases n,
{
    if n <= 0 {
        Seq::empty()
    } else if n == 1 {
        items[0]
    } else {
        listed(items, n - 1) + ", "@ + items[n - 1]
    }
}

/// The settings where nothing is configured give no reason to warn.
pub proof fn lemma_defaults_are_valid()
    ensures
        ConfigView::unset().warning() is None,
{
    let c = ConfigView::unset();
    reveal_strlit("standard");
    reveal_strlit("off");
    reveal_strlit("space");
    reveal_strlit("auto");
    reveal_strlit("");
    crate::strings::lemma_trimmed_is_kept("standard"@);
    crate::strings::lemma_trimmed_is_kept("off"@);
    crate::strings::lemma_trimmed_is_kept("space"@);
    crate::strings::lemma_trimmed_is_kept("auto"@);
    crate::strings::lemma_trimmed_is_kept(Seq::<char>::empty());
    assert(ascii_lowered("standard"@) =~= "standard"@);
    assert(ascii_lowered("off"@) =~= "off"@);
    assert(ascii_lowered("space"@) =~= "space"@);
    assert(ascii_lowered("auto"@) =~= "auto"@);
    assert(ascii_lowered(Seq::<char>::empty()) =~= ""@);
    assert(c.keybindings_known());
    assert(c.line_numbers_known());
    assert(c.soft_break_known());
    assert(c.variant_known());
    assert(known_name(c.theme.name));
    assert(c.bad_settings() =~= Seq::<Seq<char>>::empty());
}

fn setting_text(name: &str, value: &str) -> (text: String)
    ensures
        text@ == setting(name@, value@),
{
    let mut text = name.to_owned();
    text.append(" = \"");
    text.append(value);
    text.append("\"");
    text
}

fn plain(value: &str) -> (text: String)
    ensures
        text@ == plain_setting(value@),
{
    to_ascii_lower(trim(value).as_str())
}

fn push_bad(list: &mut Vec<String>, add: bool, item: String)
    ensures
        views(final(list)@) == with_item(views(old(list)@), add, item@),
{
    let ghost before = views(list@);
    let ghost one = item@;
    if add {
        list.push(item);
        assert(views(list@) =~= before.push(one));
    }
}

/// What reading a configuration file gave.
pub enum Loaded {
    /// There is no file.
    Missing,
    /// It could not be read or understood, for the given reason.
    Failed(String),
    /// What it says.
    Parsed(Config),
}

/// What a [`Loaded`] says.
pub enum LoadedView {
    Missing,
    Failed(Seq<char>),
    Parsed(ConfigView),
}

impl View for Loaded {
    type V = LoadedView;

    open spec fn view(&self) -> LoadedView {
        match self {
            Loaded::Missing => LoadedView::Missing,
            Loaded::Failed(reason) => LoadedView::Failed(reason@),
            Loaded::Parsed(config) => LoadedView::Parsed(config@),
        }
    }
}

/// The configuration to use, and what to warn of.
pub open spec fn settled(path: Seq<char>, found: LoadedView) -> (ConfigView, Option<Seq<char>>) {
    match found {
        LoadedView::Missing => (ConfigView::unset(), None),
        LoadedView::Failed(reason) => (
            ConfigView::unset(),
            Some("Config ignored: "@ + path + " ("@ + reason + ")"@),
        ),
        LoadedView::Parsed(config) => (
            ConfigView { source_path: Some(path), ..config },
            config.warning(),
        ),
    }
}

impl Config {
    /// Warn about values that parse as strings but match no known variant —
    /// they would otherwise silently fall back to the default downstream.
    pub fn validate_warning(&self) -> (warning: Option<String>)
        ensures
            opt_view(warning) == self@.warning(),
    {
        let mut bad: Vec<String> = Vec::new();
        assert(views(bad@) =~= Seq::<Seq<char>>::empty());
        let keys = plain(self.editor.keybindings.as_str());
        let known = same(keys.as_str(), "standard") || same(keys.as_str(), "vim") || same(
            keys.as_str(),
            "nano",
        ) || same(keys.as_str(), "emacs");
        push_bad(
            &mut bad,
            !known,
            setting_text("editor.keybindings", self.editor.keybindings.as_str()),
        );
        let numbers = plain(self.editor.line_numbers.as_str());
        let known = same(numbers.as_str(), "off") || same(numbers.as_str(), "absolute") || same(
            numbers.as_str(),
            "relative",
        );
        push_bad(
            &mut bad,
            !known,
            setting_text("editor.line_numbers", self.editor.line_numbers.as_str()),
        );
        let soft = plain(self.editor.soft_break.as_str());
        let known = same(soft.as_str(), "space") || same(soft.as_str(), "break");
        push_bad(
            &mut bad,
            !known,
            setting_text("editor.soft_break", self.editor.soft_break.as_str()),
        );
        let variant = plain(self.theme.variant.as_str());
        let known = same(variant.as_str(), "auto") || same(variant.as_str(), "dark") || same(
            variant.as_str(),
            "light",
        );
        push_bad(
            &mut bad,
            !known,
            setting_text("theme.variant", self.theme.variant.as_str()),
        );
        push_bad(
            &mut bad,
            !MarkdownTheme::is_known_name(self.theme.name.as_str()),
            setting_text("theme.name", self.theme.name.as_str()),
        );
        if let Some(syntax) = &self.theme.syntax {
            push_bad(
                &mut bad,
                !CodeHighlighter::has_theme(syntax.as_str()),
                setting_text("theme.syntax", syntax.as_str()),
            );
        }
        push_bad(
            &mut bad,
            self.editor.tab_width == 0,
            "editor.tab_width = 0".to_owned(),
        );
        self.push_overrides(&mut bad);
        list_warning(&bad)
    }

    fn push_overrides(&self, bad: &mut Vec<String>)
        ensures
            views(final(bad)@) == bad_overrides(
                views(old(bad)@),
                in_key_order(self@.theme.markdown, self@.theme.markdown.len() as int),
                self@.theme.markdown.len() as int,
            ),
    {
        let ghost start = views(bad@);
        let sorted = sort_overrides(&self.theme.markdown);
        let ghost pairs = pair_views(sorted@);
        proof {
            lemma_overrides_are_in_order(
                self@.theme.markdown,
                self@.theme.markdown.len() as int,
            );
        }
        let mut i: usize = 0;
        while i < sorted.len()
            invariant
                i <= sorted@.len(),
                pairs == pair_views(sorted@),
                views(bad@) == bad_overrides(start, pairs, i as int),
            decreases sorted@.len() - i,
        {
            let key = sorted[i].0.as_str();
            let value = sorted[i].1.as_str();
            assert(pairs[i as int] == (key@, value@));
            let name = crate::strings::joined("theme.markdown.", key);
            if !MarkdownTheme::is_override_key(key) {
                push_bad(bad, true, name);
            } else if parse_hex(value, true).is_none() {
                push_bad(bad, true, setting_text(name.as_str(), value));
            }
            i += 1;
        }
        assert(pairs.len() == sorted@.len());
    }

    /// The configuration from the platform's config file, with a short warning for
    /// readable-but-invalid or unreadable files. A missing config is not an error; nor is a
    /// platform without a config directory.
    pub fn load_with_warning(path: Option<&str>, found: Loaded) -> (r: (Self, Option<String>))
        ensures
            (r.0@, opt_view(r.1)) == match path {
                Some(p) => settled(p@, found@),
                None => (ConfigView::unset(), None),
            },
    {
        match path {
            Some(p) => Config::settle(p, found),
            None => (Config::default(), None),
        }
    }

    /// The configuration from an explicit `-c` argument, resolved to a file. Unlike the
    /// implicit platform path, a missing file here warns: the user asked for this path, so
    /// silently using defaults would hide a typo'd `-c`.
    pub fn load_from_arg_with_warning(path: &str, exists: bool, found: Loaded) -> (r: (
        Self,
        Option<String>,
    ))
        ensures
            (r.0@, opt_view(r.1)) == (if exists {
                settled(path@, found@)
            } else {
                (ConfigView::unset(), Some("Config not found: "@ + path@))
            }),
    {
        if !exists {
            return (Config::default(), Some(crate::strings::joined("Config not found: ", path)));
        }
        Config::settle(path, found)
    }

    fn settle(path: &str, found: Loaded) -> (r: (Self, Option<String>))
        ensures
            (r.0@, opt_view(r.1)) == settled(path@, found@),
    {
        match found {
            Loaded::Missing => (Config::default(), None),
            Loaded::Failed(reason) => {
                let mut text = "Config ignored: ".to_owned();
                text.append(path);
                text.append(" (");
                text.append(reason.as_str());
                text.append(")");
                (Config::default(), Some(text))
            },
            Loaded::Parsed(config) => {
                let warning = config.validate_warning();
                let mut config = config;
                config.source_path = Some(path.to_owned());
                (config, warning)
            },
        }
    }
}

fn list_warning(bad: &Vec<String>) -> (warning: Option<String>)
    ensures
        opt_view(warning) == (if bad@.len() == 0 {
            None
        } else {
            Some("Config: invalid setting(s): "@ + listed(views(bad@), bad@.len() as int))
        }),
        views(bad@).len() == bad@.len(),
{
    if bad.len() == 0 {
        return None;
    }
    let ghost v = views(bad@);
    let ghost head = "Config: invalid setting(s): "@;
    let mut text = "Config: invalid setting(s): ".to_owned();
    text.append(bad[0].as_str());
    assert(v[0] == bad@[0]@);
    assert(text@ =~= head + listed(v, 1));
    let mut i: usize = 1;
    while i < bad.len()
        invariant
            1 <= i <= bad@.len(),
            v == views(bad@),
            text@ == head + listed(v, i as int),
        decreases bad@.len() - i,
    {
        assert(v[i as int] == bad@[i as int]@);
        text.append(", ");
        text.append(bad[i].as_str());
        i += 1;
        assert(text@ =~= head + listed(v, i as int));
    }
    Some(text)
}

/// A setting of a configuration file.
pub struct Setting {
    pub section: &'static str,
    pub key: &'static str,
    pub value: String,
}

/// What a [`Setting`] says.
pub struct SettingView {
    pub section: Seq<char>,
    pub key: Seq<char>,
    pub value: Seq<char>,
}

impl View for Setting {
    type V = SettingView;

    open spec fn view(&self) -> SettingView {
        SettingView { section: self.section@, key: self.key@, value: self.value@ }
    }
}

/// The settings that the settings popup writes.
pub open spec fn written_settings(
    keybindings: Seq<char>,
    line_numbers: Seq<char>,
    theme: Seq<char>,
    variant: Seq<char>,
) -> Seq<SettingView> {
    seq![
        SettingView { section: "editor"@, key: "keybindings"@, value: keybindings },
        SettingView { section: "editor"@, key: "line_numbers"@, value: line_numbers },
        SettingView { section: "theme"@, key: "name"@, value: theme },
        SettingView { section: "theme"@, key: "variant"@, value: variant },
    ]
}

/// The settings that the settings popup writes, in the order of the file.
pub fn settings_to_write(keybindings: &str, line_numbers: &str, theme: &str, variant: &str) -> (out:
    Vec<Setting>)
    ensures
        out@.map_values(|s: Setting| s@) == written_settings(
            keybindings@,
            line_numbers@,
            theme@,
            variant@,
        ),
{
    let mut out: Vec<Setting> = Vec::new();
    out.push(Setting { section: "editor", key: "keybindings", value: keybindings.to_owned() });
    out.push(Setting { section: "editor", key: "line_numbers", value: line_numbers.to_owned() });
    out.push(Setting { section: "theme", key: "name", value: theme.to_owned() });
    out.push(Setting { section: "theme", key: "variant", value: variant.to_owned() });
    assert(out@.map_values(|s: Setting| s@) =~= written_settings(
        keybindings@,
        line_numbers@,
        theme@,
        variant@,
    ));
    out
}

proof fn lemma_bad_overrides(list: Seq<Seq<char>>, pairs: Seq<(Seq<char>, Seq<char>)>, n: int)
    requires
        0 <= n <= pairs.len(),
    ensures
        bad_overrides(list, pairs, n).len() >= list.len(),
        bad_overrides(list, pairs, n).len() == list.len() <==> (forall|i: int|
            0 <= i < n ==> override_key((#[trigger] pairs[i]).0) && hex_color(pairs[i].1) is Some),
    decreases n,
{
    if n > 0 {
        lemma_bad_overrides(list, pairs, n - 1);
        let (key, value) = pairs[n - 1];
        if override_key(key) && hex_color(value) is Some {
            assert forall|i: int| 0 <= i < n && (forall|k: int|
                0 <= k < n - 1 ==> override_key((#[trigger] pairs[k]).0) && hex_color(pairs[k].1)
                    is Some) implies override_key((#[trigger] pairs[i]).0) && hex_color(pairs[i].1)
                is Some by {}
        } else {
            assert(!(override_key(pairs[n - 1].0) && hex_color(pairs[n - 1].1) is Some));
        }
    }
}

/// There is nothing to warn of exactly where every setting is one of those that there are.
#[verifier::spinoff_prover]
pub proof fn lemma_settings_are_warned_of(c: ConfigView)
    ensures
        ({
            let keys = ascii_lowered(trimmed(c.editor.keybindings));
            let numbers = ascii_lowered(trimmed(c.editor.line_numbers));
            let breaks = ascii_lowered(trimmed(c.editor.soft_break));
            let variant = ascii_lowered(trimmed(c.theme.variant));
            let n = c.theme.markdown.len() as int;
            let pairs = in_key_order(c.theme.markdown, n);
            c.warning() is None <==> {
                &&& keys == "standard"@ || keys == "vim"@ || keys == "nano"@ || keys == "emacs"@
                &&& numbers == "off"@ || numbers == "absolute"@ || numbers == "relative"@
                &&& breaks == "space"@ || breaks == "break"@
                &&& variant == "auto"@ || variant == "dark"@ || variant == "light"@
                &&& known_name(c.theme.name)
                &&& c.theme.syntax is Some ==> code_theme(c.theme.syntax->0)
                &&& c.editor.tab_width != 0
                &&& forall|i: int|
                    0 <= i < n ==> override_key((#[trigger] pairs[i]).0) && hex_color(pairs[i].1)
                        is Some
            }
        }),
{
    let n = c.theme.markdown.len() as int;
    let pairs = in_key_order(c.theme.markdown, n);
    lemma_overrides_are_in_order(c.theme.markdown, n);
    let a = with_item(
        Seq::empty(),
        !c.keybindings_known(),
        setting("editor.keybindings"@, c.editor.keybindings),
    );
    let b = with_item(
        a,
        !c.line_numbers_known(),
        setting("editor.line_numbers"@, c.editor.line_numbers),
    );
    let d = with_item(b, !c.soft_break_known(), setting("editor.soft_break"@, c.editor.soft_break));
    let e = with_item(d, !c.variant_known(), setting("theme.variant"@, c.theme.variant));
    let f = with_item(e, !known_name(c.theme.name), setting("theme.name"@, c.theme.name));
    let g = match c.theme.syntax {
        Some(s) => with_item(f, !code_theme(s), setting("theme.syntax"@, s)),
        None => f,
    };
    let h = with_item(g, c.editor.tab_width == 0, "editor.tab_width = 0"@);
    lemma_bad_overrides(h, pairs, n);
}

} // verus!
