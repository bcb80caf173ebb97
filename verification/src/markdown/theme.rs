//! Visual theme for rendered markdown: a [`Style`] per element.
//!
//! Themes come in named palette families ([`ThemeName`]), each with a dark
//! and a light face selected by [`ThemeVariant`]. Every face derives its
//! element roles from a small seed of canonical colours, and can be overridden
//! per element via [`MarkdownTheme::apply_overrides`].

use vstd::prelude::*;

use crate::color::{adapted, hex_color, parse_hex, rgb, Color};
use crate::strings::{
    ascii_alphanumeric, ascii_lowered, contains_text, from_chars, has_text,
    is_ascii_alphanumeric, lemma_trimmed_is_kept, parse_number, parsed_number, same,
    to_ascii_lower, to_chars, trim, trimmed, views,
};
use crate::style::Style;

verus! {

/// The face of a palette family.
#[derive(Clone, Copy, PartialEq, Eq, Debug, Structural)]
pub enum ThemeVariant {
    Dark,
    Light,
}

impl ThemeVariant {
    pub open spec fn label_text(self) -> Seq<char> {
        match self {
            ThemeVariant::Dark => "Dark"@,
            ThemeVariant::Light => "Light"@,
        }
    }

    /// Display name for the settings menu.
    pub fn label(self) -> (s: &'static str)
        ensures
            s@ == self.label_text(),
    {
        match self {
            ThemeVariant::Dark => "Dark",
            ThemeVariant::Light => "Light",
        }
    }
}

/// Built-in palette families. `Marqi` is the hand-tuned look; the rest follow the
/// canonical published palettes of the most popular editor and terminal themes.
#[derive(Clone, Copy, PartialEq, Eq, Debug, Structural)]
pub enum ThemeName {
    Marqi,
    OneDark,
    Github,
    Catppuccin,
    TokyoNight,
    Gruvbox,
    Nord,
    Dracula,
    Solarized,
}

impl ThemeName {
    /// Every built-in palette family, in settings-menu order.
    pub open spec fn order() -> Seq<ThemeName> {
        seq![
            ThemeName::Marqi,
            ThemeName::OneDark,
            ThemeName::Github,
            ThemeName::Catppuccin,
            ThemeName::TokyoNight,
            ThemeName::Gruvbox,
            ThemeName::Nord,
            ThemeName::Dracula,
            ThemeName::Solarized,
        ]
    }

    /// Every built-in palette family, in settings-menu order.
    pub fn all() -> (names: Vec<ThemeName>)
        ensures
            names@ == ThemeName::order(),
    {
        vec![
            ThemeName::Marqi,
            ThemeName::OneDark,
            ThemeName::Github,
            ThemeName::Catppuccin,
            ThemeName::TokyoNight,
            ThemeName::Gruvbox,
            ThemeName::Nord,
            ThemeName::Dracula,
            ThemeName::Solarized,
        ]
    }

    pub open spec fn label_text(self) -> Seq<char> {
        match self {
            ThemeName::Marqi => "marqi"@,
            ThemeName::OneDark => "One Dark"@,
            ThemeName::Github => "GitHub"@,
            ThemeName::Catppuccin => "Catppuccin"@,
            ThemeName::TokyoNight => "Tokyo Night"@,
            ThemeName::Gruvbox => "Gruvbox"@,
            ThemeName::Nord => "Nord"@,
            ThemeName::Dracula => "Dracula"@,
            ThemeName::Solarized => "Solarized"@,
        }
    }

    /// Display name for the settings menu.
    pub fn label(self) -> (s: &'static str)
        ensures
            s@ == self.label_text(),
    {
        match self {
            ThemeName::Marqi => "marqi",
            ThemeName::OneDark => "One Dark",
            ThemeName::Github => "GitHub",
            ThemeName::Catppuccin => "Catppuccin",
            ThemeName::TokyoNight => "Tokyo Night",
            ThemeName::Gruvbox => "Gruvbox",
            ThemeName::Nord => "Nord",
            ThemeName::Dracula => "Dracula",
            ThemeName::Solarized => "Solarized",
        }
    }

    pub open spec fn config_text(self) -> Seq<char> {
        match self {
            ThemeName::Marqi => "marqi"@,
            ThemeName::OneDark => "onedark"@,
            ThemeName::Github => "github"@,
            ThemeName::Catppuccin => "catppuccin"@,
            ThemeName::TokyoNight => "tokyonight"@,
            ThemeName::Gruvbox => "gruvbox"@,
            ThemeName::Nord => "nord"@,
            ThemeName::Dracula => "dracula"@,
            ThemeName::Solarized => "solarized"@,
        }
    }

    /// The name that a configuration file uses.
    pub fn config_name(self) -> (s: &'static str)
        ensures
            s@ == self.config_text(),
    {
        match self {
            ThemeName::Marqi => "marqi",
            ThemeName::OneDark => "onedark",
            ThemeName::Github => "github",
            ThemeName::Catppuccin => "catppuccin",
            ThemeName::TokyoNight => "tokyonight",
            ThemeName::Gruvbox => "gruvbox",
            ThemeName::Nord => "nord",
            ThemeName::Dracula => "dracula",
            ThemeName::Solarized => "solarized",
        }
    }
}

/// The styles of the six heading levels.
#[derive(Clone, Copy, Debug, PartialEq, Eq, Structural)]
pub struct Headings {
    pub h1: Style,
    pub h2: Style,
    pub h3: Style,
    pub h4: Style,
    pub h5: Style,
    pub h6: Style,
}

/// A style per element of a document and of the editor around it.
#[derive(Clone, Copy, Debug, PartialEq, Eq, Structural)]
pub struct MarkdownTheme {
    pub name: ThemeName,
    pub variant: ThemeVariant,
    pub background: Color,
    pub active_line: Color,
    pub gutter: Style,
    pub gutter_current: Style,
    pub status: Style,
    pub help_background: Color,
    pub text: Style,
    pub headings: Headings,
    pub heading_glyphs: bool,
    /// Render a single source newline as a line break rather than a space.
    pub hard_breaks: bool,
    /// Dimmed style for markdown punctuation shown raw in the active block
    /// (e.g. `**`, `#`, backticks, link brackets).
    pub marker: Style,
    pub code_inline: Style,
    pub link: Style,
    pub quote: Style,
    pub quote_bar: Style,
    pub list_marker: Style,
    pub task_done: Style,
    pub task_todo: Style,
    pub rule: Style,
    pub table_header: Style,
    pub table_border: Style,
    pub html: Style,
    pub keyword_note: Style,
    pub keyword_warn: Style,
    pub keyword_error: Style,
    pub keyword_misc: Style,
    /// Background colour for selected text.
    pub selection: Color,
}

/// The colour written `0xRRGGBB`.
pub open spec fn hex_rgb(hex: u32, truecolor: bool) -> Color {
    adapted((hex / 0x10000 % 0x100) as u8, (hex / 0x100 % 0x100) as u8, (hex % 0x100) as u8, truecolor)
}

/// The colour written `0xRRGGBB`.
#[verifier::when_used_as_spec(hex_rgb)]
pub fn color_of(hex: u32, truecolor: bool) -> (c: Color)
    ensures
        c == hex_rgb(hex, truecolor),
{
    rgb((hex / 0x10000 % 0x100) as u8, (hex / 0x100 % 0x100) as u8, (hex % 0x100) as u8, truecolor)
}

/// A bold heading style: a `0xRRGGBB` foreground on `bg`.
pub open spec fn bold_on(hex: u32, bg: Color, truecolor: bool) -> Style {
    Style::plain().with_fg(hex_rgb(hex, truecolor)).with_bg(bg).with_bold()
}

/// A bold heading style: a `0xRRGGBB` foreground on `bg`.
#[verifier::when_used_as_spec(bold_on)]
pub fn hstyle(hex: u32, bg: Color, truecolor: bool) -> (s: Style)
    ensures
        s == bold_on(hex, bg, truecolor),
{
    Style::new().fg(color_of(hex, truecolor)).bg(bg).bold()
}

/// One channel of a blend: the value `num/den` of the way from `a` to `b`, rounded
/// to the nearest, halves up.
pub open spec fn blended(a: int, b: int, num: int, den: int) -> int {
    (2 * (a * (den - num) + b * num) + den) / (2 * den)
}

/// Linear per-channel blend of two `0xRRGGBB` colours.
pub open spec fn mixed(a: u32, b: u32, num: int, den: int) -> int {
    blended(a as int / 0x10000 % 0x100, b as int / 0x10000 % 0x100, num, den) * 0x10000 + blended(
        a as int / 0x100 % 0x100,
        b as int / 0x100 % 0x100,
        num,
        den,
    ) * 0x100 + blended(a as int % 0x100, b as int % 0x100, num, den)
}

fn blend(a: u32, b: u32, num: u32, den: u32) -> (v: u32)
    requires
        a < 256,
        b < 256,
        num <= den,
        0 < den <= 1000,
    ensures
        v == blended(a as int, b as int, num as int, den as int),
        v < 256,
{
    proof {
        let (x, y, n, d) = (a as int, b as int, num as int, den as int);
        assert(0 <= x * (d - n) <= 255 * (d - n)) by (nonlinear_arith)
            requires
                0 <= x <= 255,
                n <= d,
        ;
        assert(0 <= y * n <= 255 * n) by (nonlinear_arith)
            requires
                0 <= y <= 255,
                0 <= n,
        ;
        let total = 2 * (x * (d - n) + y * n) + d;
        assert(total / (2 * d) < 256) by (nonlinear_arith)
            requires
                0 <= total <= 511 * d,
                d > 0,
        ;
        assert(total / (2 * d) >= 0) by (nonlinear_arith)
            requires
                0 <= total,
                d > 0,
        ;
    }
    (2 * (a * (den - num) + b * num) + den) / (2 * den)
}

/// Linear per-channel blend of two `0xRRGGBB` colours, `num/den` of the way from
/// `a` toward `b`.
pub fn mix(a: u32, b: u32, num: u32, den: u32) -> (hex: u32)
    requires
        num <= den,
        0 < den <= 1000,
    ensures
        hex == mixed(a, b, num as int, den as int),
{
    let r: u32 = blend(a / 0x10000 % 0x100, b / 0x10000 % 0x100, num, den);
    let g: u32 = blend(a / 0x100 % 0x100, b / 0x100 % 0x100, num, den);
    let u: u32 = blend(a % 0x100, b % 0x100, num, den);
    r * 0x10000 + g * 0x100 + u
}

/// H1..H6 foregrounds: H1-H3 get restrained palette accents, while H4-H6
/// step down through text, muted text, and faint chrome.
pub fn heading_ladder(
    primary: u32,
    secondary: u32,
    tertiary: u32,
    text: u32,
    muted: u32,
    faint: u32,
) -> (ladder: [u32; 6])
    ensures
        ladder@ == seq![primary, secondary, tertiary, text, muted, faint],
{
    [primary, secondary, tertiary, text, muted, faint]
}

/// The published colours of one face of a family, as `0xRRGGBB`.
#[derive(Clone, Copy, PartialEq, Eq, Structural)]
pub struct Seed {
    /// Editor canvas.
    pub background: u32,
    /// Offset surface: active line, status bar, inline-code background.
    pub surface: u32,
    /// Body text.
    pub text: u32,
    /// Secondary text (quotes).
    pub muted: u32,
    /// Faint chrome: markers, gutter, todo boxes, raw HTML.
    pub faint: u32,
    /// Structural lines: quote bars, rules, table borders.
    pub chrome: u32,
    /// Selection background.
    pub selection: u32,
    /// Links and NOTE-style keywords.
    pub link: u32,
    /// Inline code, before it is softened toward the body text.
    pub code: u32,
    pub red: u32,
    pub orange: u32,
    pub yellow: u32,
    pub green: u32,
    pub cyan: u32,
    pub blue: u32,
    pub magenta: u32,
}

/// The seed colours that every role of a face derives from.
#[derive(Clone, Copy, PartialEq, Eq, Structural)]
pub struct Palette {
    pub background: Color,
    pub surface: Color,
    pub text: Color,
    pub muted: Color,
    pub faint: Color,
    pub chrome: Color,
    pub selection: Color,
    pub link: Color,
    pub code: Color,
    pub h1: Color,
    pub h2: Color,
    pub h3: Color,
    pub h4: Color,
    pub h5: Color,
    pub h6: Color,
    pub red: Color,
    pub orange: Color,
    pub yellow: Color,
    pub green: Color,
}

/// Canonical seed colours per family and face. Sources: the published
/// palettes of each project (One Dark/Light, GitHub Primer, Catppuccin
/// Mocha/Latte, Tokyo Night/Day, Gruvbox medium, Nord, Dracula, Solarized).
pub open spec fn seed_colors(name: ThemeName, dark: bool) -> Seed {
    match name {
        ThemeName::Marqi | ThemeName::OneDark => if dark {
            Seed {
                background: 0x282c34,
                surface: 0x2c313c,
                text: 0xabb2bf,
                muted: 0x828997,
                faint: 0x5c6370,
                chrome: 0x5c6370,
                selection: 0x3e4451,
                link: 0x61afef,
                code: 0xe06c75,
                red: 0xe06c75,
                orange: 0xd19a66,
                yellow: 0xe5c07b,
                green: 0x98c379,
                cyan: 0x56b6c2,
                blue: 0x61afef,
                magenta: 0xc678dd,
            }
        } else {
            Seed {
                background: 0xfafafa,
                surface: 0xf0f0f1,
                text: 0x383a42,
                muted: 0x696c77,
                faint: 0xa0a1a7,
                chrome: 0xa0a1a7,
                selection: 0xdee4ee,
                link: 0x4078f2,
                code: 0xe45649,
                red: 0xe45649,
                orange: 0x986801,
                yellow: 0xc18401,
                green: 0x50a14f,
                cyan: 0x0184bc,
                blue: 0x4078f2,
                magenta: 0xa626a4,
            }
        },
        ThemeName::Github => if dark {
            Seed {
                background: 0x0d1117,
                surface: 0x161b22,
                text: 0xe6edf3,
                muted: 0x8b949e,
                faint: 0x6e7681,
                chrome: 0x30363d,
                selection: 0x1c395c,
                link: 0x58a6ff,
                code: 0xe6edf3,
                red: 0xf85149,
                orange: 0xf0883e,
                yellow: 0xd29922,
                green: 0x3fb950,
                cyan: 0x79c0ff,
                blue: 0x58a6ff,
                magenta: 0xbc8cff,
            }
        } else {
            Seed {
                background: 0xffffff,
                surface: 0xf6f8fa,
                text: 0x24292f,
                muted: 0x57606a,
                faint: 0x8c959f,
                chrome: 0xd0d7de,
                selection: 0xddebff,
                link: 0x0969da,
                code: 0x24292f,
                red: 0xcf222e,
                orange: 0xbc4c00,
                yellow: 0x9a6700,
                green: 0x1a7f37,
                cyan: 0x218bff,
                blue: 0x0969da,
                magenta: 0x8250df,
            }
        },
        ThemeName::Catppuccin => if dark {
            Seed {
                background: 0x1e1e2e,
                surface: 0x313244,
                text: 0xcdd6f4,
                muted: 0xa6adc8,
                faint: 0x6c7086,
                chrome: 0x585b70,
                selection: 0x45475a,
                link: 0x89b4fa,
                code: 0xa6e3a1,
                red: 0xf38ba8,
                orange: 0xfab387,
                yellow: 0xf9e2af,
                green: 0xa6e3a1,
                cyan: 0x89dceb,
                blue: 0x89b4fa,
                magenta: 0xcba6f7,
            }
        } else {
            Seed {
                background: 0xeff1f5,
                surface: 0xccd0da,
                text: 0x4c4f69,
                muted: 0x6c6f85,
                faint: 0x9ca0b0,
                chrome: 0xacb0be,
                selection: 0xbcc0cc,
                link: 0x1e66f5,
                code: 0x40a02b,
                red: 0xd20f39,
                orange: 0xfe640b,
                yellow: 0xdf8e1d,
                green: 0x40a02b,
                cyan: 0x04a5e5,
                blue: 0x1e66f5,
                magenta: 0x8839ef,
            }
        },
        ThemeName::TokyoNight => if dark {
            Seed {
                background: 0x1a1b26,
                surface: 0x292e42,
                text: 0xc0caf5,
                muted: 0xa9b1d6,
                faint: 0x565f89,
                chrome: 0x3b4261,
                selection: 0x283457,
                link: 0x7aa2f7,
                code: 0x73daca,
                red: 0xf7768e,
                orange: 0xff9e64,
                yellow: 0xe0af68,
                green: 0x9ece6a,
                cyan: 0x7dcfff,
                blue: 0x7aa2f7,
                magenta: 0xbb9af7,
            }
        } else {
            Seed {
                background: 0xe1e2e7,
                surface: 0xc4c8da,
                text: 0x3760bf,
                muted: 0x6172b0,
                faint: 0x848cb5,
                chrome: 0xa8aecb,
                selection: 0xb6bfe2,
                link: 0x2e7de9,
                code: 0x387068,
                red: 0xf52a65,
                orange: 0xb15c00,
                yellow: 0x8c6c3e,
                green: 0x587539,
                cyan: 0x007197,
                blue: 0x2e7de9,
                magenta: 0x9854f1,
            }
        },
        ThemeName::Gruvbox => if dark {
            Seed {
                background: 0x282828,
                surface: 0x3c3836,
                text: 0xebdbb2,
                muted: 0xd5c4a1,
                faint: 0x928374,
                chrome: 0x665c54,
                selection: 0x504945,
                link: 0x83a598,
                code: 0xfe8019,
                red: 0xfb4934,
                orange: 0xfe8019,
                yellow: 0xfabd2f,
                green: 0xb8bb26,
                cyan: 0x8ec07c,
                blue: 0x83a598,
                magenta: 0xd3869b,
            }
        } else {
            Seed {
                background: 0xfbf1c7,
                surface: 0xebdbb2,
                text: 0x3c3836,
                muted: 0x665c54,
                faint: 0x928374,
                chrome: 0xbdae93,
                selection: 0xd5c4a1,
                link: 0x076678,
                code: 0xaf3a03,
                red: 0x9d0006,
                orange: 0xaf3a03,
                yellow: 0xb57614,
                green: 0x79740e,
                cyan: 0x427b58,
                blue: 0x076678,
                magenta: 0x8f3f71,
            }
        },
        ThemeName::Nord => if dark {
            Seed {
                background: 0x2e3440,
                surface: 0x3b4252,
                text: 0xd8dee9,
                muted: 0x9fa8b8,
                faint: 0x616e88,
                chrome: 0x4c566a,
                selection: 0x434c5e,
                link: 0x88c0d0,
                code: 0x88c0d0,
                red: 0xbf616a,
                orange: 0xd08770,
                yellow: 0xebcb8b,
                green: 0xa3be8c,
                cyan: 0x88c0d0,
                blue: 0x81a1c1,
                magenta: 0xb48ead,
            }
        } else {
            Seed {
                background: 0xeceff4,
                surface: 0xe5e9f0,
                text: 0x2e3440,
                muted: 0x4c566a,
                faint: 0x969eaa,
                chrome: 0xaeb8ca,
                selection: 0xd8dee9,
                link: 0x5e81ac,
                code: 0x2f7d8e,
                red: 0xa14a52,
                orange: 0xad6a4e,
                yellow: 0xb08a3e,
                green: 0x6f8a55,
                cyan: 0x2f7d8e,
                blue: 0x5e81ac,
                magenta: 0x8f718c,
            }
        },
        ThemeName::Dracula => if dark {
            Seed {
                background: 0x282a36,
                surface: 0x44475a,
                text: 0xf8f8f2,
                muted: 0x6272a4,
                faint: 0x6272a4,
                chrome: 0x6272a4,
                selection: 0x44475a,
                link: 0x8be9fd,
                code: 0x50fa7b,
                red: 0xff5555,
                orange: 0xffb86c,
                yellow: 0xf1fa8c,
                green: 0x50fa7b,
                cyan: 0x8be9fd,
                blue: 0xbd93f9,
                magenta: 0xff79c6,
            }
        } else {
            Seed {
                background: 0xfffbeb,
                surface: 0xf5f3e8,
                text: 0x1f1f23,
                muted: 0x6c6783,
                faint: 0x9694a0,
                chrome: 0x9694a0,
                selection: 0xe8e4f6,
                link: 0x036a96,
                code: 0x14710a,
                red: 0xcb3a2a,
                orange: 0xa34d14,
                yellow: 0x846e15,
                green: 0x14710a,
                cyan: 0x036a96,
                blue: 0x644ac9,
                magenta: 0xa3144d,
            }
        },
        ThemeName::Solarized => if dark {
            Seed {
                background: 0x002b36,
                surface: 0x073642,
                text: 0x839496,
                muted: 0x586e75,
                faint: 0x586e75,
                chrome: 0x586e75,
                selection: 0x073642,
                link: 0x268bd2,
                code: 0x2aa198,
                red: 0xdc322f,
                orange: 0xcb4b16,
                yellow: 0xb58900,
                green: 0x859900,
                cyan: 0x2aa198,
                blue: 0x268bd2,
                magenta: 0x6c71c4,
            }
        } else {
            Seed {
                background: 0xfdf6e3,
                surface: 0xeee8d5,
                text: 0x657b83,
                muted: 0x93a1a1,
                faint: 0x93a1a1,
                chrome: 0x93a1a1,
                selection: 0xeee8d5,
                link: 0x268bd2,
                code: 0x2aa198,
                red: 0xdc322f,
                orange: 0xcb4b16,
                yellow: 0xb58900,
                green: 0x859900,
                cyan: 0x2aa198,
                blue: 0x268bd2,
                magenta: 0x6c71c4,
            }
        },
    }
}

fn seed(name: ThemeName, dark: bool) -> (s: Seed)
    ensures
        s == seed_colors(name, dark),
{
    match name {
        ThemeName::Marqi | ThemeName::OneDark => if dark {
            Seed {
                background: 0x282c34,
                surface: 0x2c313c,
                text: 0xabb2bf,
                muted: 0x828997,
                faint: 0x5c6370,
                chrome: 0x5c6370,
                selection: 0x3e4451,
                link: 0x61afef,
                code: 0xe06c75,
                red: 0xe06c75,
                orange: 0xd19a66,
                yellow: 0xe5c07b,
                green: 0x98c379,
                cyan: 0x56b6c2,
                blue: 0x61afef,
                magenta: 0xc678dd,
            }
        } else {
            Seed {
                background: 0xfafafa,
                surface: 0xf0f0f1,
                text: 0x383a42,
                muted: 0x696c77,
                faint: 0xa0a1a7,
                chrome: 0xa0a1a7,
                selection: 0xdee4ee,
                link: 0x4078f2,
                code: 0xe45649,
                red: 0xe45649,
                orange: 0x986801,
                yellow: 0xc18401,
                green: 0x50a14f,
                cyan: 0x0184bc,
                blue: 0x4078f2,
                magenta: 0xa626a4,
            }
        },
        ThemeName::Github => if dark {
            Seed {
                background: 0x0d1117,
                surface: 0x161b22,
                text: 0xe6edf3,
                muted: 0x8b949e,
                faint: 0x6e7681,
                chrome: 0x30363d,
                selection: 0x1c395c,
                link: 0x58a6ff,
                code: 0xe6edf3,
                red: 0xf85149,
                orange: 0xf0883e,
                yellow: 0xd29922,
                green: 0x3fb950,
                cyan: 0x79c0ff,
                blue: 0x58a6ff,
                magenta: 0xbc8cff,
            }
        } else {
            Seed {
                background: 0xffffff,
                surface: 0xf6f8fa,
                text: 0x24292f,
                muted: 0x57606a,
                faint: 0x8c959f,
                chrome: 0xd0d7de,
                selection: 0xddebff,
                link: 0x0969da,
                code: 0x24292f,
                red: 0xcf222e,
                orange: 0xbc4c00,
                yellow: 0x9a6700,
                green: 0x1a7f37,
                cyan: 0x218bff,
                blue: 0x0969da,
                magenta: 0x8250df,
            }
        },
        ThemeName::Catppuccin => if dark {
            Seed {
                background: 0x1e1e2e,
                surface: 0x313244,
                text: 0xcdd6f4,
                muted: 0xa6adc8,
                faint: 0x6c7086,
                chrome: 0x585b70,
                selection: 0x45475a,
                link: 0x89b4fa,
                code: 0xa6e3a1,
                red: 0xf38ba8,
                orange: 0xfab387,
                yellow: 0xf9e2af,
                green: 0xa6e3a1,
                cyan: 0x89dceb,
                blue: 0x89b4fa,
                magenta: 0xcba6f7,
            }
        } else {
            Seed {
                background: 0xeff1f5,
                surface: 0xccd0da,
                text: 0x4c4f69,
                muted: 0x6c6f85,
                faint: 0x9ca0b0,
                chrome: 0xacb0be,
                selection: 0xbcc0cc,
                link: 0x1e66f5,
                code: 0x40a02b,
                red: 0xd20f39,
                orange: 0xfe640b,
                yellow: 0xdf8e1d,
                green: 0x40a02b,
                cyan: 0x04a5e5,
                blue: 0x1e66f5,
                magenta: 0x8839ef,
            }
        },
        ThemeName::TokyoNight => if dark {
            Seed {
                background: 0x1a1b26,
                surface: 0x292e42,
                text: 0xc0caf5,
                muted: 0xa9b1d6,
                faint: 0x565f89,
                chrome: 0x3b4261,
                selection: 0x283457,
                link: 0x7aa2f7,
                code: 0x73daca,
                red: 0xf7768e,
                orange: 0xff9e64,
                yellow: 0xe0af68,
                green: 0x9ece6a,
                cyan: 0x7dcfff,
                blue: 0x7aa2f7,
                magenta: 0xbb9af7,
            }
        } else {
            Seed {
                background: 0xe1e2e7,
                surface: 0xc4c8da,
                text: 0x3760bf,
                muted: 0x6172b0,
                faint: 0x848cb5,
                chrome: 0xa8aecb,
                selection: 0xb6bfe2,
                link: 0x2e7de9,
                code: 0x387068,
                red: 0xf52a65,
                orange: 0xb15c00,
                yellow: 0x8c6c3e,
                green: 0x587539,
                cyan: 0x007197,
                blue: 0x2e7de9,
                magenta: 0x9854f1,
            }
        },
        ThemeName::Gruvbox => if dark {
            Seed {
                background: 0x282828,
                surface: 0x3c3836,
                text: 0xebdbb2,
                muted: 0xd5c4a1,
                faint: 0x928374,
                chrome: 0x665c54,
                selection: 0x504945,
                link: 0x83a598,
                code: 0xfe8019,
                red: 0xfb4934,
                orange: 0xfe8019,
                yellow: 0xfabd2f,
                green: 0xb8bb26,
                cyan: 0x8ec07c,
                blue: 0x83a598,
                magenta: 0xd3869b,
            }
        } else {
            Seed {
                background: 0xfbf1c7,
                surface: 0xebdbb2,
                text: 0x3c3836,
                muted: 0x665c54,
                faint: 0x928374,
                chrome: 0xbdae93,
                selection: 0xd5c4a1,
                link: 0x076678,
                code: 0xaf3a03,
                red: 0x9d0006,
                orange: 0xaf3a03,
                yellow: 0xb57614,
                green: 0x79740e,
                cyan: 0x427b58,
                blue: 0x076678,
                magenta: 0x8f3f71,
            }
        },
        ThemeName::Nord => if dark {
            Seed {
                background: 0x2e3440,
                surface: 0x3b4252,
                text: 0xd8dee9,
                muted: 0x9fa8b8,
                faint: 0x616e88,
                chrome: 0x4c566a,
                selection: 0x434c5e,
                link: 0x88c0d0,
                code: 0x88c0d0,
                red: 0xbf616a,
                orange: 0xd08770,
                yellow: 0xebcb8b,
                green: 0xa3be8c,
                cyan: 0x88c0d0,
                blue: 0x81a1c1,
                magenta: 0xb48ead,
            }
        } else {
            Seed {
                background: 0xeceff4,
                surface: 0xe5e9f0,
                text: 0x2e3440,
                muted: 0x4c566a,
                faint: 0x969eaa,
                chrome: 0xaeb8ca,
                selection: 0xd8dee9,
                link: 0x5e81ac,
                code: 0x2f7d8e,
                red: 0xa14a52,
                orange: 0xad6a4e,
                yellow: 0xb08a3e,
                green: 0x6f8a55,
                cyan: 0x2f7d8e,
                blue: 0x5e81ac,
                magenta: 0x8f718c,
            }
        },
        ThemeName::Dracula => if dark {
            Seed {
                background: 0x282a36,
                surface: 0x44475a,
                text: 0xf8f8f2,
                muted: 0x6272a4,
                faint: 0x6272a4,
                chrome: 0x6272a4,
                selection: 0x44475a,
                link: 0x8be9fd,
                code: 0x50fa7b,
                red: 0xff5555,
                orange: 0xffb86c,
                yellow: 0xf1fa8c,
                green: 0x50fa7b,
                cyan: 0x8be9fd,
                blue: 0xbd93f9,
                magenta: 0xff79c6,
            }
        } else {
            Seed {
                background: 0xfffbeb,
                surface: 0xf5f3e8,
                text: 0x1f1f23,
                muted: 0x6c6783,
                faint: 0x9694a0,
                chrome: 0x9694a0,
                selection: 0xe8e4f6,
                link: 0x036a96,
                code: 0x14710a,
                red: 0xcb3a2a,
                orange: 0xa34d14,
                yellow: 0x846e15,
                green: 0x14710a,
                cyan: 0x036a96,
                blue: 0x644ac9,
                magenta: 0xa3144d,
            }
        },
        ThemeName::Solarized => if dark {
            Seed {
                background: 0x002b36,
                surface: 0x073642,
                text: 0x839496,
                muted: 0x586e75,
                faint: 0x586e75,
                chrome: 0x586e75,
                selection: 0x073642,
                link: 0x268bd2,
                code: 0x2aa198,
                red: 0xdc322f,
                orange: 0xcb4b16,
                yellow: 0xb58900,
                green: 0x859900,
                cyan: 0x2aa198,
                blue: 0x268bd2,
                magenta: 0x6c71c4,
            }
        } else {
            Seed {
                background: 0xfdf6e3,
                surface: 0xeee8d5,
                text: 0x657b83,
                muted: 0x93a1a1,
                faint: 0x93a1a1,
                chrome: 0x93a1a1,
                selection: 0xeee8d5,
                link: 0x268bd2,
                code: 0x2aa198,
                red: 0xdc322f,
                orange: 0xcb4b16,
                yellow: 0xb58900,
                green: 0x859900,
                cyan: 0x2aa198,
                blue: 0x268bd2,
                magenta: 0x6c71c4,
            }
        },
    }
}

/// The palette of a seed: inline code is pulled two fifths of the way toward the
/// body text, and the headings run from three accents to the quiet text levels.
pub open spec fn palette_of(s: Seed, truecolor: bool) -> Palette {
    Palette {
        background: hex_rgb(s.background, truecolor),
        surface: hex_rgb(s.surface, truecolor),
        text: hex_rgb(s.text, truecolor),
        muted: hex_rgb(s.muted, truecolor),
        faint: hex_rgb(s.faint, truecolor),
        chrome: hex_rgb(s.chrome, truecolor),
        selection: hex_rgb(s.selection, truecolor),
        link: hex_rgb(s.link, truecolor),
        code: hex_rgb(mixed(s.code, s.text, 2, 5) as u32, truecolor),
        h1: hex_rgb(s.blue, truecolor),
        h2: hex_rgb(s.magenta, truecolor),
        h3: hex_rgb(s.cyan, truecolor),
        h4: hex_rgb(s.text, truecolor),
        h5: hex_rgb(s.muted, truecolor),
        h6: hex_rgb(s.faint, truecolor),
        red: hex_rgb(s.red, truecolor),
        orange: hex_rgb(s.orange, truecolor),
        yellow: hex_rgb(s.yellow, truecolor),
        green: hex_rgb(s.green, truecolor),
    }
}

fn palette(name: ThemeName, variant: ThemeVariant, truecolor: bool) -> (p: Palette)
    ensures
        p == palette_of(seed_colors(name, variant == ThemeVariant::Dark), truecolor),
{
    let s = seed(name, variant == ThemeVariant::Dark);
    let ladder = heading_ladder(s.blue, s.magenta, s.cyan, s.text, s.muted, s.faint);
    Palette {
        background: color_of(s.background, truecolor),
        surface: color_of(s.surface, truecolor),
        text: color_of(s.text, truecolor),
        muted: color_of(s.muted, truecolor),
        faint: color_of(s.faint, truecolor),
        chrome: color_of(s.chrome, truecolor),
        selection: color_of(s.selection, truecolor),
        link: color_of(s.link, truecolor),
        code: color_of(mix(s.code, s.text, 2, 5), truecolor),
        h1: color_of(ladder[0], truecolor),
        h2: color_of(ladder[1], truecolor),
        h3: color_of(ladder[2], truecolor),
        h4: color_of(ladder[3], truecolor),
        h5: color_of(ladder[4], truecolor),
        h6: color_of(ladder[5], truecolor),
        red: color_of(s.red, truecolor),
        orange: color_of(s.orange, truecolor),
        yellow: color_of(s.yellow, truecolor),
        green: color_of(s.green, truecolor),
    }
}

/// A surface or selection colour kept apart from the canvas after any reduction to
/// 256 colours: a collapsed index steps one slot lighter on dark themes and one
/// darker on light ones.
pub open spec fn kept_apart(color: Color, background: Color, variant: ThemeVariant) -> Color {
    if color != background {
        color
    } else {
        match color {
            Color::Indexed(n) => Color::Indexed(
                match variant {
                    ThemeVariant::Dark => if n < 255 {
                        (n + 1) as u8
                    } else {
                        255
                    },
                    ThemeVariant::Light => if n > 0 {
                        (n - 1) as u8
                    } else {
                        0
                    },
                },
            ),
            other => other,
        }
    }
}

/// A colour on the palette never collapses into the canvas, but at the ends of the
/// palette.
pub proof fn lemma_surface_stays_visible(n: u8, variant: ThemeVariant)
    requires
        variant == ThemeVariant::Dark ==> n < 255,
        variant == ThemeVariant::Light ==> n > 0,
    ensures
        kept_apart(Color::Indexed(n), Color::Indexed(n), variant) != Color::Indexed(n),
{
}

#[verifier::when_used_as_spec(kept_apart)]
pub fn offset_from(color: Color, background: Color, variant: ThemeVariant) -> (c: Color)
    ensures
        c == kept_apart(color, background, variant),
{
    if color != background {
        return color;
    }
    match color {
        Color::Indexed(n) => Color::Indexed(
            match variant {
                ThemeVariant::Dark => if n < 255 {
                    n + 1
                } else {
                    255
                },
                ThemeVariant::Light => if n > 0 {
                    n - 1
                } else {
                    0
                },
            },
        ),
        other => other,
    }
}

/// The full role set of a palette. Headings use a restrained accent ladder for
/// H1-H3, then recede through text/muted/faint for H4-H6. Secondary chrome stays
/// muted so prose and links keep the foreground.
pub open spec fn derived(name: ThemeName, variant: ThemeVariant, p: Palette) -> MarkdownTheme {
    let bg = p.background;
    let surface = kept_apart(p.surface, bg, variant);
    let selection = kept_apart(p.selection, bg, variant);
    MarkdownTheme {
        name,
        variant,
        background: p.background,
        active_line: surface,
        gutter: Style::new().fg(p.faint).bg(bg),
        gutter_current: Style::new().fg(p.text).bg(surface).bold(),
        status: Style::new().bg(surface).fg(p.text),
        help_background: bg,
        text: Style::new().fg(p.text).bg(bg),
        headings: Headings {
            h1: Style::new().fg(p.h1).bg(bg).bold(),
            h2: Style::new().fg(p.h2).bg(bg).bold(),
            h3: Style::new().fg(p.h3).bg(bg).bold(),
            h4: Style::new().fg(p.h4).bg(bg).bold(),
            h5: Style::new().fg(p.h5).bg(bg).bold(),
            h6: Style::new().fg(p.h6).bg(bg).bold(),
        },
        heading_glyphs: true,
        hard_breaks: false,
        marker: Style::new().fg(p.faint).bg(bg),
        code_inline: Style::new().fg(p.code).bg(surface),
        link: Style::new().fg(p.link).bg(bg).underlined(),
        quote: Style::new().fg(p.muted).bg(bg).italic(),
        quote_bar: Style::new().fg(p.chrome).bg(bg),
        list_marker: Style::new().fg(p.chrome).bg(bg),
        task_done: Style::new().fg(p.green).bg(bg),
        task_todo: Style::new().fg(p.faint).bg(bg),
        rule: Style::new().fg(p.chrome).bg(bg),
        table_header: Style::new().bg(bg).bold(),
        table_border: Style::new().fg(p.chrome).bg(bg),
        html: Style::new().fg(p.faint).bg(bg).dim(),
        keyword_note: Style::new().fg(p.link).bg(bg).bold(),
        keyword_warn: Style::new().fg(p.yellow).bg(bg).bold(),
        keyword_error: Style::new().fg(p.red).bg(bg).bold(),
        keyword_misc: Style::new().fg(p.orange).bg(bg).bold(),
        selection,
    }
}

/// The hand-tuned dark face.
pub open spec fn marqi_dark(truecolor: bool) -> MarkdownTheme {
    let background = Color::Indexed(235);
    let active_line = Color::Indexed(236);
    MarkdownTheme {
            name: ThemeName::Marqi,
            variant: ThemeVariant::Dark,
            background,
            active_line,
            gutter: Style::new().fg(rgb(0x7b, 0x81, 0x98, truecolor)).bg(background),
            gutter_current: Style::new().fg(rgb(0xe6, 0xe6, 0xf0, truecolor)).bg(active_line).bold(),
            status: Style::new().bg(Color::Indexed(236)).fg(Color::White),
            help_background: background,
            text: Style::new().fg(rgb(0xe6, 0xe6, 0xf0, truecolor)).bg(background),
            headings: Headings {
        h1: hstyle(0x7aa2f7, background, truecolor),
        h2: hstyle(0xbb9af7, background, truecolor),
        h3: hstyle(0x7dcfff, background, truecolor),
        h4: hstyle(0xe6e6f0, background, truecolor),
        h5: hstyle(0x9a9ab0, background, truecolor),
        h6: hstyle(0x6c7086, background, truecolor),
    },
            heading_glyphs: true,
            hard_breaks: false,
            marker: Style::new().fg(rgb(0x6c, 0x70, 0x86, truecolor)).bg(background),
            code_inline: Style::new().fg(rgb(0x50, 0xfa, 0x7b, truecolor)).bg(Color::Indexed(236)),
            link: Style::new().fg(rgb(0x8b, 0xe9, 0xfd, truecolor)).bg(background).underlined(),
            quote: Style::new().fg(rgb(0x9a, 0x9a, 0xb0, truecolor)).bg(background).italic(),
            quote_bar: Style::new().fg(rgb(0x62, 0x72, 0xa4, truecolor)).bg(background),
            list_marker: Style::new().fg(rgb(0x62, 0x72, 0xa4, truecolor)).bg(background),
            task_done: Style::new().fg(rgb(0x50, 0xfa, 0x7b, truecolor)).bg(background),
            task_todo: Style::new().fg(rgb(0x6c, 0x6c, 0x80, truecolor)).bg(background),
            rule: Style::new().fg(rgb(0x62, 0x72, 0xa4, truecolor)).bg(background),
            table_header: Style::new().bg(background).bold(),
            table_border: Style::new().fg(rgb(0x62, 0x72, 0xa4, truecolor)).bg(background),
            html: Style::new().fg(rgb(0x6c, 0x6c, 0x80, truecolor)).bg(background).dim(),
            keyword_note: Style::new().fg(rgb(0x8b, 0xe9, 0xfd, truecolor)).bg(background).bold(),
            keyword_warn: Style::new().fg(rgb(0xf1, 0xfa, 0x8c, truecolor)).bg(background).bold(),
            keyword_error: Style::new().fg(rgb(0xff, 0x55, 0x55, truecolor)).bg(background).bold(),
            keyword_misc: Style::new().fg(rgb(0xff, 0xb8, 0x6c, truecolor)).bg(background).bold(),
            selection: rgb(0x33, 0x4a, 0x6b, truecolor),
        }
}

/// The hand-tuned light face.
pub open spec fn marqi_light(truecolor: bool) -> MarkdownTheme {
    let background = Color::Indexed(255);
    let active_line = Color::Indexed(254);
    MarkdownTheme {
            name: ThemeName::Marqi,
            variant: ThemeVariant::Light,
            background,
            active_line,
            gutter: Style::new().fg(rgb(0x6b, 0x72, 0x80, truecolor)).bg(background),
            gutter_current: Style::new().fg(rgb(0x1f, 0x29, 0x37, truecolor)).bg(active_line).bold(),
            status: Style::new().bg(Color::Indexed(254)).fg(rgb(0x1f, 0x29, 0x37, truecolor)),
            help_background: background,
            text: Style::new().fg(rgb(0x1f, 0x29, 0x37, truecolor)).bg(background),
            headings: Headings {
        h1: hstyle(0x005f87, background, truecolor),
        h2: hstyle(0x6b46c1, background, truecolor),
        h3: hstyle(0x00796b, background, truecolor),
        h4: hstyle(0x1f2937, background, truecolor),
        h5: hstyle(0x5f6b7a, background, truecolor),
        h6: hstyle(0x8a8f98, background, truecolor),
    },
            heading_glyphs: true,
            hard_breaks: false,
            marker: Style::new().fg(rgb(0x8a, 0x8f, 0x98, truecolor)).bg(background),
            code_inline: Style::new().fg(rgb(0x00, 0x5f, 0x5f, truecolor)).bg(Color::Indexed(254)),
            link: Style::new().fg(rgb(0x00, 0x5f, 0xaf, truecolor)).bg(background).underlined(),
            quote: Style::new().fg(rgb(0x5f, 0x6b, 0x7a, truecolor)).bg(background).italic(),
            quote_bar: Style::new().fg(rgb(0x8a, 0x8f, 0x98, truecolor)).bg(background),
            list_marker: Style::new().fg(rgb(0x8a, 0x8f, 0x98, truecolor)).bg(background),
            task_done: Style::new().fg(rgb(0x00, 0x87, 0x5f, truecolor)).bg(background),
            task_todo: Style::new().fg(rgb(0x8a, 0x8f, 0x98, truecolor)).bg(background),
            rule: Style::new().fg(rgb(0x8a, 0x8f, 0x98, truecolor)).bg(background),
            table_header: Style::new().bg(background).bold(),
            table_border: Style::new().fg(rgb(0x8a, 0x8f, 0x98, truecolor)).bg(background),
            html: Style::new().fg(rgb(0x8a, 0x8f, 0x98, truecolor)).bg(background).dim(),
            keyword_note: Style::new().fg(rgb(0x00, 0x5f, 0xaf, truecolor)).bg(background).bold(),
            keyword_warn: Style::new().fg(rgb(0x87, 0x5f, 0x00, truecolor)).bg(background).bold(),
            keyword_error: Style::new().fg(rgb(0xaf, 0x00, 0x00, truecolor)).bg(background).bold(),
            keyword_misc: Style::new().fg(rgb(0xaf, 0x5f, 0x00, truecolor)).bg(background).bold(),
            selection: rgb(0xc7, 0xdc, 0xff, truecolor),
        }
}

/// The face of a family.
pub open spec fn face(name: ThemeName, variant: ThemeVariant, truecolor: bool) -> MarkdownTheme {
    match (name, variant) {
        (ThemeName::Marqi, ThemeVariant::Dark) => marqi_dark(truecolor),
        (ThemeName::Marqi, ThemeVariant::Light) => marqi_light(truecolor),
        _ => derived(
            name,
            variant,
            palette_of(seed_colors(name, variant == ThemeVariant::Dark), truecolor),
        ),
    }
}

/// Every face carries its own name and variant, has six bold headings without an
/// underline, and shows the heading glyphs.
pub proof fn lemma_every_face_is_usable(name: ThemeName, variant: ThemeVariant, truecolor: bool)
    ensures
        ({
            let t = face(name, variant, truecolor);
            let h = t.headings;
            &&& t.name == name
            &&& t.variant == variant
            &&& h.h1.bold && h.h2.bold && h.h3.bold && h.h4.bold && h.h5.bold && h.h6.bold
            &&& !h.h1.underlined && !h.h2.underlined && !h.h3.underlined
            &&& !h.h4.underlined && !h.h5.underlined && !h.h6.underlined
            &&& t.heading_glyphs
            &&& !t.hard_breaks
            &&& t.text.bg == Some(t.background)
        }),
{
}

impl MarkdownTheme {
    pub fn named(name: ThemeName, variant: ThemeVariant, truecolor: bool) -> (t: Self)
        ensures
            t == face(name, variant, truecolor),
    {
        match (name, variant) {
            (ThemeName::Marqi, ThemeVariant::Dark) => Self::dark(truecolor),
            (ThemeName::Marqi, ThemeVariant::Light) => Self::light(truecolor),
            _ => Self::from_palette(name, variant, palette(name, variant, truecolor)),
        }
    }

    fn dark(truecolor: bool) -> (t: Self)
        ensures
            t == marqi_dark(truecolor),
    {
    let background = Color::Indexed(235);
    let active_line = Color::Indexed(236);
    MarkdownTheme {
            name: ThemeName::Marqi,
            variant: ThemeVariant::Dark,
            background,
            active_line,
            gutter: Style::new().fg(rgb(0x7b, 0x81, 0x98, truecolor)).bg(background),
            gutter_current: Style::new().fg(rgb(0xe6, 0xe6, 0xf0, truecolor)).bg(active_line).bold(),
            status: Style::new().bg(Color::Indexed(236)).fg(Color::White),
            help_background: background,
            text: Style::new().fg(rgb(0xe6, 0xe6, 0xf0, truecolor)).bg(background),
            headings: Headings {
        h1: hstyle(0x7aa2f7, background, truecolor),
        h2: hstyle(0xbb9af7, background, truecolor),
        h3: hstyle(0x7dcfff, background, truecolor),
        h4: hstyle(0xe6e6f0, background, truecolor),
        h5: hstyle(0x9a9ab0, background, truecolor),
        h6: hstyle(0x6c7086, background, truecolor),
    },
            heading_glyphs: true,
            hard_breaks: false,
            marker: Style::new().fg(rgb(0x6c, 0x70, 0x86, truecolor)).bg(background),
            code_inline: Style::new().fg(rgb(0x50, 0xfa, 0x7b, truecolor)).bg(Color::Indexed(236)),
            link: Style::new().fg(rgb(0x8b, 0xe9, 0xfd, truecolor)).bg(background).underlined(),
            quote: Style::new().fg(rgb(0x9a, 0x9a, 0xb0, truecolor)).bg(background).italic(),
            quote_bar: Style::new().fg(rgb(0x62, 0x72, 0xa4, truecolor)).bg(background),
            list_marker: Style::new().fg(rgb(0x62, 0x72, 0xa4, truecolor)).bg(background),
            task_done: Style::new().fg(rgb(0x50, 0xfa, 0x7b, truecolor)).bg(background),
            task_todo: Style::new().fg(rgb(0x6c, 0x6c, 0x80, truecolor)).bg(background),
            rule: Style::new().fg(rgb(0x62, 0x72, 0xa4, truecolor)).bg(background),
            table_header: Style::new().bg(background).bold(),
            table_border: Style::new().fg(rgb(0x62, 0x72, 0xa4, truecolor)).bg(background),
            html: Style::new().fg(rgb(0x6c, 0x6c, 0x80, truecolor)).bg(background).dim(),
            keyword_note: Style::new().fg(rgb(0x8b, 0xe9, 0xfd, truecolor)).bg(background).bold(),
            keyword_warn: Style::new().fg(rgb(0xf1, 0xfa, 0x8c, truecolor)).bg(background).bold(),
            keyword_error: Style::new().fg(rgb(0xff, 0x55, 0x55, truecolor)).bg(background).bold(),
            keyword_misc: Style::new().fg(rgb(0xff, 0xb8, 0x6c, truecolor)).bg(background).bold(),
            selection: rgb(0x33, 0x4a, 0x6b, truecolor),
        }
    }

    fn light(truecolor: bool) -> (t: Self)
        ensures
            t == marqi_light(truecolor),
    {
    let background = Color::Indexed(255);
    let active_line = Color::Indexed(254);
    MarkdownTheme {
            name: ThemeName::Marqi,
            variant: ThemeVariant::Light,
            background,
            active_line,
            gutter: Style::new().fg(rgb(0x6b, 0x72, 0x80, truecolor)).bg(background),
            gutter_current: Style::new().fg(rgb(0x1f, 0x29, 0x37, truecolor)).bg(active_line).bold(),
            status: Style::new().bg(Color::Indexed(254)).fg(rgb(0x1f, 0x29, 0x37, truecolor)),
            help_background: background,
            text: Style::new().fg(rgb(0x1f, 0x29, 0x37, truecolor)).bg(background),
            headings: Headings {
        h1: hstyle(0x005f87, background, truecolor),
        h2: hstyle(0x6b46c1, background, truecolor),
        h3: hstyle(0x00796b, background, truecolor),
        h4: hstyle(0x1f2937, background, truecolor),
        h5: hstyle(0x5f6b7a, background, truecolor),
        h6: hstyle(0x8a8f98, background, truecolor),
    },
            heading_glyphs: true,
            hard_breaks: false,
            marker: Style::new().fg(rgb(0x8a, 0x8f, 0x98, truecolor)).bg(background),
            code_inline: Style::new().fg(rgb(0x00, 0x5f, 0x5f, truecolor)).bg(Color::Indexed(254)),
            link: Style::new().fg(rgb(0x00, 0x5f, 0xaf, truecolor)).bg(background).underlined(),
            quote: Style::new().fg(rgb(0x5f, 0x6b, 0x7a, truecolor)).bg(background).italic(),
            quote_bar: Style::new().fg(rgb(0x8a, 0x8f, 0x98, truecolor)).bg(background),
            list_marker: Style::new().fg(rgb(0x8a, 0x8f, 0x98, truecolor)).bg(background),
            task_done: Style::new().fg(rgb(0x00, 0x87, 0x5f, truecolor)).bg(background),
            task_todo: Style::new().fg(rgb(0x8a, 0x8f, 0x98, truecolor)).bg(background),
            rule: Style::new().fg(rgb(0x8a, 0x8f, 0x98, truecolor)).bg(background),
            table_header: Style::new().bg(background).bold(),
            table_border: Style::new().fg(rgb(0x8a, 0x8f, 0x98, truecolor)).bg(background),
            html: Style::new().fg(rgb(0x8a, 0x8f, 0x98, truecolor)).bg(background).dim(),
            keyword_note: Style::new().fg(rgb(0x00, 0x5f, 0xaf, truecolor)).bg(background).bold(),
            keyword_warn: Style::new().fg(rgb(0x87, 0x5f, 0x00, truecolor)).bg(background).bold(),
            keyword_error: Style::new().fg(rgb(0xaf, 0x00, 0x00, truecolor)).bg(background).bold(),
            keyword_misc: Style::new().fg(rgb(0xaf, 0x5f, 0x00, truecolor)).bg(background).bold(),
            selection: rgb(0xc7, 0xdc, 0xff, truecolor),
        }
    }

    fn from_palette(name: ThemeName, variant: ThemeVariant, p: Palette) -> (t: Self)
        ensures
            t == derived(name, variant, p),
    {
    let bg = p.background;
    // The reduction to 256 colours can collapse a subtle offset into the
    // canvas index; nudge so highlights stay visible there.
    let surface = offset_from(p.surface, bg, variant);
    let selection = offset_from(p.selection, bg, variant);
    MarkdownTheme {
        name,
        variant,
        background: p.background,
        active_line: surface,
        gutter: Style::new().fg(p.faint).bg(bg),
        gutter_current: Style::new().fg(p.text).bg(surface).bold(),
        status: Style::new().bg(surface).fg(p.text),
        help_background: bg,
        text: Style::new().fg(p.text).bg(bg),
        headings: Headings {
            h1: Style::new().fg(p.h1).bg(bg).bold(),
            h2: Style::new().fg(p.h2).bg(bg).bold(),
            h3: Style::new().fg(p.h3).bg(bg).bold(),
            h4: Style::new().fg(p.h4).bg(bg).bold(),
            h5: Style::new().fg(p.h5).bg(bg).bold(),
            h6: Style::new().fg(p.h6).bg(bg).bold(),
        },
        heading_glyphs: true,
        hard_breaks: false,
        marker: Style::new().fg(p.faint).bg(bg),
        code_inline: Style::new().fg(p.code).bg(surface),
        link: Style::new().fg(p.link).bg(bg).underlined(),
        quote: Style::new().fg(p.muted).bg(bg).italic(),
        quote_bar: Style::new().fg(p.chrome).bg(bg),
        list_marker: Style::new().fg(p.chrome).bg(bg),
        task_done: Style::new().fg(p.green).bg(bg),
        task_todo: Style::new().fg(p.faint).bg(bg),
        rule: Style::new().fg(p.chrome).bg(bg),
        table_header: Style::new().bg(bg).bold(),
        table_border: Style::new().fg(p.chrome).bg(bg),
        html: Style::new().fg(p.faint).bg(bg).dim(),
        keyword_note: Style::new().fg(p.link).bg(bg).bold(),
        keyword_warn: Style::new().fg(p.yellow).bg(bg).bold(),
        keyword_error: Style::new().fg(p.red).bg(bg).bold(),
        keyword_misc: Style::new().fg(p.orange).bg(bg).bold(),
        selection,
    }
    }

    /// The syntax theme paired with this palette face for fenced code blocks.
    pub open spec fn syntax_theme_text(self) -> Seq<char> {
        let dark = self.variant == ThemeVariant::Dark;
        match self.name {
            ThemeName::Marqi => if dark {
                "base16-ocean.dark"@
            } else {
                "InspiredGitHub"@
            },
            ThemeName::OneDark => if dark {
                "onehalf-dark"@
            } else {
                "onehalf-light"@
            },
            ThemeName::Github => if dark {
                "onehalf-dark"@
            } else {
                "InspiredGitHub"@
            },
            ThemeName::Catppuccin => if dark {
                "catppuccin-mocha"@
            } else {
                "catppuccin-latte"@
            },
            ThemeName::TokyoNight => if dark {
                "tokyonight-night"@
            } else {
                "tokyonight-day"@
            },
            ThemeName::Gruvbox => if dark {
                "gruvbox-dark"@
            } else {
                "gruvbox-light"@
            },
            ThemeName::Nord => if dark {
                "nord"@
            } else {
                "onehalf-light"@
            },
            ThemeName::Dracula => if dark {
                "dracula"@
            } else {
                "onehalf-light"@
            },
            ThemeName::Solarized => if dark {
                "Solarized (dark)"@
            } else {
                "Solarized (light)"@
            },
        }
    }

    /// The syntax theme paired with this palette face for fenced code blocks; a few
    /// light faces without a canonical match pair with a neutral light theme instead.
    pub fn default_syntax_theme(&self) -> (s: &'static str)
        ensures
            s@ == self.syntax_theme_text(),
    {
        let dark = self.variant == ThemeVariant::Dark;
        match self.name {
            ThemeName::Marqi => if dark {
                "base16-ocean.dark"
            } else {
                "InspiredGitHub"
            },
            ThemeName::OneDark => if dark {
                "onehalf-dark"
            } else {
                "onehalf-light"
            },
            ThemeName::Github => if dark {
                "onehalf-dark"
            } else {
                "InspiredGitHub"
            },
            ThemeName::Catppuccin => if dark {
                "catppuccin-mocha"
            } else {
                "catppuccin-latte"
            },
            ThemeName::TokyoNight => if dark {
                "tokyonight-night"
            } else {
                "tokyonight-day"
            },
            ThemeName::Gruvbox => if dark {
                "gruvbox-dark"
            } else {
                "gruvbox-light"
            },
            ThemeName::Nord => if dark {
                "nord"
            } else {
                "onehalf-light"
            },
            ThemeName::Dracula => if dark {
                "dracula"
            } else {
                "onehalf-light"
            },
            ThemeName::Solarized => if dark {
                "Solarized (dark)"
            } else {
                "Solarized (light)"
            },
        }
    }

    /// Style for a heading of the given 1-based level.
    pub open spec fn heading_of(self, level: u8) -> Style {
        if level <= 1 {
            self.headings.h1
        } else if level == 2 {
            self.headings.h2
        } else if level == 3 {
            self.headings.h3
        } else if level == 4 {
            self.headings.h4
        } else if level == 5 {
            self.headings.h5
        } else {
            self.headings.h6
        }
    }

    /// Style for a heading of the given 1-based level; levels beyond the ladder take
    /// its nearest end.
    pub fn heading(&self, level: u8) -> (s: Style)
        ensures
            s == self.heading_of(level),
    {
        if level <= 1 {
            self.headings.h1
        } else if level == 2 {
            self.headings.h2
        } else if level == 3 {
            self.headings.h3
        } else if level == 4 {
            self.headings.h4
        } else if level == 5 {
            self.headings.h5
        } else {
            self.headings.h6
        }
    }

    /// Whether a configured family name is one that selects a theme.
    pub fn is_known_name(value: &str) -> (known: bool)
        ensures
            known == known_name(value@),
    {
        let name = to_ascii_lower(trim(value).as_str());
        same(name.as_str(), "") || same(name.as_str(), "default") || theme_from_name(value).is_some()
    }

    /// Whether `key` names an element whose colour can be overridden.
    pub fn is_override_key(key: &str) -> (known: bool)
        ensures
            known == override_key(key@),
    {
        same(key, "text") || same(key, "background") || same(key, "editor_bg") || same(key, "editor_background") || same(key, "active_line") || same(key, "active_line_bg") || same(key, "gutter") || same(key, "gutter_current") || same(key, "status") || same(key, "status_fg") || same(key, "help_bg") || same(key, "help_background") || same(key, "heading1") || same(key, "heading2") || same(key, "heading3") || same(key, "heading4") || same(key, "heading5") || same(key, "heading6") || same(key, "code") || same(key, "code_bg") || same(key, "code_background") || same(key, "link") || same(key, "quote") || same(key, "quote_bar") || same(key, "marker") || same(key, "list") || same(key, "task_done") || same(key, "task_todo") || same(key, "rule") || same(key, "table_header") || same(key, "table_border") || same(key, "html") || same(key, "keyword") || same(key, "keyword_misc") || same(key, "keyword_note") || same(key, "keyword_warn") || same(key, "keyword_warning") || same(key, "keyword_error") || same(key, "selection")
    }

    /// Select a theme from the configuration's two axes: a palette family name and a
    /// variant, where `detected` stands for a variant that names neither face. An
    /// empty or unknown name picks One Dark when dark, GitHub when light.
    pub fn select(name: &str, variant: &str, detected: ThemeVariant, truecolor: bool) -> (t: Self)
        ensures
            t == selected(name@, variant@, detected, truecolor),
    {
        let variant = match variant_from_name(variant) {
            Some(v) => v,
            None => detected,
        };
        let name = match theme_from_name(name) {
            Some(n) => n,
            None => match variant {
                ThemeVariant::Dark => ThemeName::OneDark,
                ThemeVariant::Light => ThemeName::Github,
            },
        };
        Self::named(name, variant, truecolor)
    }

    fn set_background(&mut self, color: Color)
        ensures
            *final(self) == on_background(*old(self), color),
    {
        self.background = color;
        self.help_background = color;
        self.text = self.text.bg(color);
        self.marker = self.marker.bg(color);
        self.link = self.link.bg(color);
        self.quote = self.quote.bg(color);
        self.quote_bar = self.quote_bar.bg(color);
        self.list_marker = self.list_marker.bg(color);
        self.task_done = self.task_done.bg(color);
        self.task_todo = self.task_todo.bg(color);
        self.rule = self.rule.bg(color);
        self.table_header = self.table_header.bg(color);
        self.table_border = self.table_border.bg(color);
        self.html = self.html.bg(color);
        self.keyword_note = self.keyword_note.bg(color);
        self.keyword_warn = self.keyword_warn.bg(color);
        self.keyword_error = self.keyword_error.bg(color);
        self.keyword_misc = self.keyword_misc.bg(color);
        self.gutter = self.gutter.bg(color);
        self.headings.h1 = self.headings.h1.bg(color);
        self.headings.h2 = self.headings.h2.bg(color);
        self.headings.h3 = self.headings.h3.bg(color);
        self.headings.h4 = self.headings.h4.bg(color);
        self.headings.h5 = self.headings.h5.bg(color);
        self.headings.h6 = self.headings.h6.bg(color);
    }

    fn override_one(&mut self, key: &str, color: Color)
        ensures
            *final(self) == overridden(*old(self), key@, color),
    {
        if same(key, "active_line") || same(key, "active_line_bg") {
            self.active_line = color;
            self.gutter_current = self.gutter_current.bg(color);
        } else if same(key, "help_bg") || same(key, "help_background") {
            self.help_background = color;
        } else if same(key, "selection") {
            self.selection = color;
        } else if same(key, "text") {
            self.text = self.text.fg(color);
        } else if same(key, "gutter") {
            self.gutter = self.gutter.fg(color);
        } else if same(key, "gutter_current") {
            self.gutter_current = self.gutter_current.fg(color);
        } else if same(key, "status") {
            self.status = self.status.bg(color);
        } else if same(key, "status_fg") {
            self.status = self.status.fg(color);
        } else if same(key, "code") {
            self.code_inline = self.code_inline.fg(color);
        } else if same(key, "code_bg") || same(key, "code_background") {
            self.code_inline = self.code_inline.bg(color);
        } else if same(key, "link") {
            self.link = self.link.fg(color);
        } else if same(key, "quote") {
            self.quote = self.quote.fg(color);
        } else if same(key, "quote_bar") {
            self.quote_bar = self.quote_bar.fg(color);
        } else if same(key, "marker") {
            self.marker = self.marker.fg(color);
        } else if same(key, "list") {
            self.list_marker = self.list_marker.fg(color);
        } else if same(key, "task_done") {
            self.task_done = self.task_done.fg(color);
        } else if same(key, "task_todo") {
            self.task_todo = self.task_todo.fg(color);
        } else if same(key, "rule") {
            self.rule = self.rule.fg(color);
        } else if same(key, "table_header") {
            self.table_header = self.table_header.fg(color);
        } else if same(key, "table_border") {
            self.table_border = self.table_border.fg(color);
        } else if same(key, "html") {
            self.html = self.html.fg(color);
        } else if same(key, "keyword") || same(key, "keyword_misc") {
            self.keyword_misc = self.keyword_misc.fg(color);
        } else if same(key, "keyword_note") {
            self.keyword_note = self.keyword_note.fg(color);
        } else if same(key, "keyword_warn") || same(key, "keyword_warning") {
            self.keyword_warn = self.keyword_warn.fg(color);
        } else if same(key, "keyword_error") {
            self.keyword_error = self.keyword_error.fg(color);
        } else if same(key, "heading1") {
            self.headings.h1 = self.headings.h1.fg(color);
        } else if same(key, "heading2") {
            self.headings.h2 = self.headings.h2.fg(color);
        } else if same(key, "heading3") {
            self.headings.h3 = self.headings.h3.fg(color);
        } else if same(key, "heading4") {
            self.headings.h4 = self.headings.h4.fg(color);
        } else if same(key, "heading5") {
            self.headings.h5 = self.headings.h5.fg(color);
        } else if same(key, "heading6") {
            self.headings.h6 = self.headings.h6.fg(color);
        }
    }

    /// Apply `element -> "#rrggbb"` overrides in the order given. Unknown keys and
    /// unparseable colours are ignored. The background rewrites every element's
    /// background (including the help background), so it goes first: a specific
    /// override like `help_bg` has to win.
    pub fn apply_overrides(&mut self, overrides: &Vec<(String, String)>, truecolor: bool)
        ensures
            *final(self) == with_overrides(*old(self), pair_views(overrides@), truecolor),
    {
        let ghost all = pair_views(overrides@);
        let background = match find_value(overrides, "background") {
            Some(value) => Some(value),
            None => match find_value(overrides, "editor_bg") {
                Some(value) => Some(value),
                None => find_value(overrides, "editor_background"),
            },
        };
        match background {
            Some(value) => match parse_hex(value.as_str(), truecolor) {
                Some(color) => self.set_background(color),
                None => {},
            },
            None => {},
        }
        let ghost base = *self;
        let mut i: usize = 0;
        assert(all.take(0) =~= Seq::empty());
        while i < overrides.len()
            invariant
                i <= overrides@.len(),
                all == pair_views(overrides@),
                *self == fold_overrides(base, all.take(i as int), truecolor),
            decreases overrides@.len() - i,
        {
            let ghost before = *self;
            match parse_hex(overrides[i].1.as_str(), truecolor) {
                Some(color) => self.override_one(overrides[i].0.as_str(), color),
                None => {},
            }
            i += 1;
            assert(all.take(i as int).drop_last() =~= all.take(i - 1));
            assert(all.take(i as int).last() == (overrides@[i - 1].0@, overrides@[i - 1].1@));
        }
        assert(all.take(i as int) =~= all);
    }
}

/// A configured family name reduced to its ASCII letters and digits, in lower case.
pub open spec fn plain_name(value: Seq<char>) -> Seq<char> {
    ascii_lowered(trimmed(value)).filter(|c: char| ascii_alphanumeric(c))
}

/// The family that a plain name selects: its own name or a common alias.
pub open spec fn family(n: Seq<char>) -> Option<ThemeName> {
    if n == "marqi"@ {
        Some(ThemeName::Marqi)
    } else if n == "onedark"@ || n == "onelight"@ || n == "one"@ || n == "onedarkpro"@ || n == "atomone"@ {
        Some(ThemeName::OneDark)
    } else if n == "github"@ || n == "githubdark"@ || n == "githublight"@ || n == "primer"@ {
        Some(ThemeName::Github)
    } else if n == "catppuccin"@ || n == "catppuccinmocha"@ || n == "catppuccinlatte"@ || n == "catppuccinfrappe"@ || n == "catppuccinmacchiato"@ || n == "mocha"@ || n == "latte"@ || n == "frappe"@ || n == "macchiato"@ {
        Some(ThemeName::Catppuccin)
    } else if n == "tokyonight"@ || n == "tokyonightnight"@ || n == "tokyonightday"@ || n == "tokyonightstorm"@ || n == "tokyo"@ {
        Some(ThemeName::TokyoNight)
    } else if n == "gruvbox"@ || n == "gruvboxdark"@ || n == "gruvboxlight"@ {
        Some(ThemeName::Gruvbox)
    } else if n == "nord"@ {
        Some(ThemeName::Nord)
    } else if n == "dracula"@ || n == "alucard"@ {
        Some(ThemeName::Dracula)
    } else if n == "solarized"@ || n == "solarizeddark"@ || n == "solarizedlight"@ {
        Some(ThemeName::Solarized)
    } else {
        None
    }
}

/// Whether a configured family name is one that selects a theme.
pub open spec fn known_name(value: Seq<char>) -> bool {
    let name = ascii_lowered(trimmed(value));
    name == ""@ || name == "default"@ || family(plain_name(value)) is Some
}

/// The variant that a configured value names: any text that holds "light", or else
/// "dark".
pub open spec fn named_variant(value: Seq<char>) -> Option<ThemeVariant> {
    let name = ascii_lowered(trimmed(value));
    if has_text(name, "light"@) {
        Some(ThemeVariant::Light)
    } else if has_text(name, "dark"@) {
        Some(ThemeVariant::Dark)
    } else {
        None
    }
}

/// The theme that the configuration selects.
pub open spec fn selected(
    name: Seq<char>,
    variant: Seq<char>,
    detected: ThemeVariant,
    truecolor: bool,
) -> MarkdownTheme {
    let v = match named_variant(variant) {
        Some(v) => v,
        None => detected,
    };
    let n = match family(plain_name(name)) {
        Some(n) => n,
        None => match v {
            ThemeVariant::Dark => ThemeName::OneDark,
            ThemeVariant::Light => ThemeName::Github,
        },
    };
    face(n, v, truecolor)
}

/// Whether `key` names an element whose colour can be overridden.
pub open spec fn override_key(key: Seq<char>) -> bool {
    ||| key == "text"@
    ||| key == "background"@
    ||| key == "editor_bg"@
    ||| key == "editor_background"@
    ||| key == "active_line"@
    ||| key == "active_line_bg"@
    ||| key == "gutter"@
    ||| key == "gutter_current"@
    ||| key == "status"@
    ||| key == "status_fg"@
    ||| key == "help_bg"@
    ||| key == "help_background"@
    ||| key == "heading1"@
    ||| key == "heading2"@
    ||| key == "heading3"@
    ||| key == "heading4"@
    ||| key == "heading5"@
    ||| key == "heading6"@
    ||| key == "code"@
    ||| key == "code_bg"@
    ||| key == "code_background"@
    ||| key == "link"@
    ||| key == "quote"@
    ||| key == "quote_bar"@
    ||| key == "marker"@
    ||| key == "list"@
    ||| key == "task_done"@
    ||| key == "task_todo"@
    ||| key == "rule"@
    ||| key == "table_header"@
    ||| key == "table_border"@
    ||| key == "html"@
    ||| key == "keyword"@
    ||| key == "keyword_misc"@
    ||| key == "keyword_note"@
    ||| key == "keyword_warn"@
    ||| key == "keyword_warning"@
    ||| key == "keyword_error"@
    ||| key == "selection"@
}

/// The theme drawn on another canvas.
pub open spec fn on_background(t: MarkdownTheme, color: Color) -> MarkdownTheme {
    MarkdownTheme {
        background: color,
        help_background: color,
        text: t.text.with_bg(color),
        marker: t.marker.with_bg(color),
        link: t.link.with_bg(color),
        quote: t.quote.with_bg(color),
        quote_bar: t.quote_bar.with_bg(color),
        list_marker: t.list_marker.with_bg(color),
        task_done: t.task_done.with_bg(color),
        task_todo: t.task_todo.with_bg(color),
        rule: t.rule.with_bg(color),
        table_header: t.table_header.with_bg(color),
        table_border: t.table_border.with_bg(color),
        html: t.html.with_bg(color),
        keyword_note: t.keyword_note.with_bg(color),
        keyword_warn: t.keyword_warn.with_bg(color),
        keyword_error: t.keyword_error.with_bg(color),
        keyword_misc: t.keyword_misc.with_bg(color),
        gutter: t.gutter.with_bg(color),
        headings: Headings {
            h1: t.headings.h1.with_bg(color),
            h2: t.headings.h2.with_bg(color),
            h3: t.headings.h3.with_bg(color),
            h4: t.headings.h4.with_bg(color),
            h5: t.headings.h5.with_bg(color),
            h6: t.headings.h6.with_bg(color),
        },
        ..t
    }
}

/// The theme with one element in another colour. The canvas is not one of these
/// elements.
pub open spec fn overridden(t: MarkdownTheme, key: Seq<char>, color: Color) -> MarkdownTheme {
    if key == "active_line"@ || key == "active_line_bg"@ {
        MarkdownTheme { active_line: color, gutter_current: t.gutter_current.with_bg(color), ..t }
    } else if key == "help_bg"@ || key == "help_background"@ {
        MarkdownTheme { help_background: color, ..t }
    } else if key == "selection"@ {
        MarkdownTheme { selection: color, ..t }
    } else if key == "text"@ {
        MarkdownTheme { text: t.text.with_fg(color), ..t }
    } else if key == "gutter"@ {
        MarkdownTheme { gutter: t.gutter.with_fg(color), ..t }
    } else if key == "gutter_current"@ {
        MarkdownTheme { gutter_current: t.gutter_current.with_fg(color), ..t }
    } else if key == "status"@ {
        MarkdownTheme { status: t.status.with_bg(color), ..t }
    } else if key == "status_fg"@ {
        MarkdownTheme { status: t.status.with_fg(color), ..t }
    } else if key == "code"@ {
        MarkdownTheme { code_inline: t.code_inline.with_fg(color), ..t }
    } else if key == "code_bg"@ || key == "code_background"@ {
        MarkdownTheme { code_inline: t.code_inline.with_bg(color), ..t }
    } else if key == "link"@ {
        MarkdownTheme { link: t.link.with_fg(color), ..t }
    } else if key == "quote"@ {
        MarkdownTheme { quote: t.quote.with_fg(color), ..t }
    } else if key == "quote_bar"@ {
        MarkdownTheme { quote_bar: t.quote_bar.with_fg(color), ..t }
    } else if key == "marker"@ {
        MarkdownTheme { marker: t.marker.with_fg(color), ..t }
    } else if key == "list"@ {
        MarkdownTheme { list_marker: t.list_marker.with_fg(color), ..t }
    } else if key == "task_done"@ {
        MarkdownTheme { task_done: t.task_done.with_fg(color), ..t }
    } else if key == "task_todo"@ {
        MarkdownTheme { task_todo: t.task_todo.with_fg(color), ..t }
    } else if key == "rule"@ {
        MarkdownTheme { rule: t.rule.with_fg(color), ..t }
    } else if key == "table_header"@ {
        MarkdownTheme { table_header: t.table_header.with_fg(color), ..t }
    } else if key == "table_border"@ {
        MarkdownTheme { table_border: t.table_border.with_fg(color), ..t }
    } else if key == "html"@ {
        MarkdownTheme { html: t.html.with_fg(color), ..t }
    } else if key == "keyword"@ || key == "keyword_misc"@ {
        MarkdownTheme { keyword_misc: t.keyword_misc.with_fg(color), ..t }
    } else if key == "keyword_note"@ {
        MarkdownTheme { keyword_note: t.keyword_note.with_fg(color), ..t }
    } else if key == "keyword_warn"@ || key == "keyword_warning"@ {
        MarkdownTheme { keyword_warn: t.keyword_warn.with_fg(color), ..t }
    } else if key == "keyword_error"@ {
        MarkdownTheme { keyword_error: t.keyword_error.with_fg(color), ..t }
    } else if key == "heading1"@ {
        MarkdownTheme { headings: Headings { h1: t.headings.h1.with_fg(color), ..t.headings }, ..t }
    } else if key == "heading2"@ {
        MarkdownTheme { headings: Headings { h2: t.headings.h2.with_fg(color), ..t.headings }, ..t }
    } else if key == "heading3"@ {
        MarkdownTheme { headings: Headings { h3: t.headings.h3.with_fg(color), ..t.headings }, ..t }
    } else if key == "heading4"@ {
        MarkdownTheme { headings: Headings { h4: t.headings.h4.with_fg(color), ..t.headings }, ..t }
    } else if key == "heading5"@ {
        MarkdownTheme { headings: Headings { h5: t.headings.h5.with_fg(color), ..t.headings }, ..t }
    } else if key == "heading6"@ {
        MarkdownTheme { headings: Headings { h6: t.headings.h6.with_fg(color), ..t.headings }, ..t }
    } else {
        t
    }
}

/// The text of each key and value.
pub open spec fn pair_views(pairs: Seq<(String, String)>) -> Seq<(Seq<char>, Seq<char>)> {
    pairs.map_values(|p: (String, String)| (p.0@, p.1@))
}

/// The value of the first pair with the given key.
pub open spec fn value_of(pairs: Seq<(Seq<char>, Seq<char>)>, key: Seq<char>) -> Option<Seq<char>>
    decreases pairs.len(),
{
    if pairs.len() == 0 {
        None
    } else if pairs[0].0 == key {
        Some(pairs[0].1)
    } else {
        value_of(pairs.skip(1), key)
    }
}

/// What a `#rrggbb` value shows as.
pub open spec fn shown_color(value: Seq<char>, truecolor: bool) -> Option<Color> {
    match hex_color(value) {
        Some((r, g, b)) => Some(adapted(r as u8, g as u8, b as u8, truecolor)),
        None => None,
    }
}

/// The configured canvas.
pub open spec fn background_value(pairs: Seq<(Seq<char>, Seq<char>)>) -> Option<Seq<char>> {
    match value_of(pairs, "background"@) {
        Some(v) => Some(v),
        None => match value_of(pairs, "editor_bg"@) {
            Some(v) => Some(v),
            None => value_of(pairs, "editor_background"@),
        },
    }
}

/// The theme after each override in turn.
pub open spec fn fold_overrides(
    t: MarkdownTheme,
    pairs: Seq<(Seq<char>, Seq<char>)>,
    truecolor: bool,
) -> MarkdownTheme
    decreases pairs.len(),
{
    if pairs.len() == 0 {
        t
    } else {
        let before = fold_overrides(t, pairs.drop_last(), truecolor);
        match shown_color(pairs.last().1, truecolor) {
            Some(color) => overridden(before, pairs.last().0, color),
            None => before,
        }
    }
}

/// The theme with all overrides: the canvas first, then each element in turn.
pub open spec fn with_overrides(
    t: MarkdownTheme,
    pairs: Seq<(Seq<char>, Seq<char>)>,
    truecolor: bool,
) -> MarkdownTheme {
    let base = match background_value(pairs) {
        Some(value) => match shown_color(value, truecolor) {
            Some(color) => on_background(t, color),
            None => t,
        },
        None => t,
    };
    fold_overrides(base, pairs, truecolor)
}

fn find_value(pairs: &Vec<(String, String)>, key: &str) -> (value: Option<String>)
    ensures
        match value {
            Some(v) => value_of(pair_views(pairs@), key@) == Some(v@),
            None => value_of(pair_views(pairs@), key@) is None,
        },
{
    let ghost all = pair_views(pairs@);
    let mut i: usize = 0;
    assert(all.skip(0) =~= all);
    while i < pairs.len()
        invariant
            i <= pairs@.len(),
            all == pair_views(pairs@),
            value_of(all.skip(i as int), key@) == value_of(all, key@),
        decreases pairs@.len() - i,
    {
        assert(all.skip(i as int)[0] == (pairs@[i as int].0@, pairs@[i as int].1@));
        assert(all.skip(i as int).skip(1) =~= all.skip(i + 1));
        if same(pairs[i].0.as_str(), key) {
            return Some(pairs[i].1.clone());
        }
        i += 1;
    }
    None
}

fn family_of(n: &str) -> (name: Option<ThemeName>)
    ensures
        name == family(n@),
{
    if same(n, "marqi") {
        Some(ThemeName::Marqi)
    } else if same(n, "onedark") || same(n, "onelight") || same(n, "one") || same(n, "onedarkpro") || same(n, "atomone") {
        Some(ThemeName::OneDark)
    } else if same(n, "github") || same(n, "githubdark") || same(n, "githublight") || same(n, "primer") {
        Some(ThemeName::Github)
    } else if same(n, "catppuccin") || same(n, "catppuccinmocha") || same(n, "catppuccinlatte") || same(n, "catppuccinfrappe") || same(n, "catppuccinmacchiato") || same(n, "mocha") || same(n, "latte") || same(n, "frappe") || same(n, "macchiato") {
        Some(ThemeName::Catppuccin)
    } else if same(n, "tokyonight") || same(n, "tokyonightnight") || same(n, "tokyonightday") || same(n, "tokyonightstorm") || same(n, "tokyo") {
        Some(ThemeName::TokyoNight)
    } else if same(n, "gruvbox") || same(n, "gruvboxdark") || same(n, "gruvboxlight") {
        Some(ThemeName::Gruvbox)
    } else if same(n, "nord") {
        Some(ThemeName::Nord)
    } else if same(n, "dracula") || same(n, "alucard") {
        Some(ThemeName::Dracula)
    } else if same(n, "solarized") || same(n, "solarizeddark") || same(n, "solarizedlight") {
        Some(ThemeName::Solarized)
    } else {
        None
    }
}

/// Parse a palette-family name. Accepts the common aliases and spellings; mode words
/// in the name ("onedark", "latte") select the family only.
pub fn theme_from_name(value: &str) -> (name: Option<ThemeName>)
    ensures
        name == family(plain_name(value@)),
{
    let lowered = to_ascii_lower(trim(value).as_str());
    let chars = to_chars(lowered.as_str());
    let mut plain = String::new();
    let mut i: usize = 0;
    let ghost keep = |c: char| ascii_alphanumeric(c);
    assert(chars@.take(0).filter(keep) =~= Seq::empty()) by {
        reveal(Seq::filter);
    }
    while i < chars.len()
        invariant
            i <= chars@.len(),
            keep == (|c: char| ascii_alphanumeric(c)),
            plain@ == chars@.take(i as int).filter(keep),
        decreases chars@.len() - i,
    {
        proof {
            reveal(Seq::filter);
            assert(chars@.take(i + 1).drop_last() =~= chars@.take(i as int));
            assert(chars@.take(i + 1).last() == chars@[i as int]);
        }
        if is_ascii_alphanumeric(chars[i]) {
            plain.push(chars[i]);
        }
        i += 1;
    }
    assert(chars@.take(i as int) =~= chars@);
    family_of(plain.as_str())
}

/// The variant that a configured value names.
pub fn variant_from_name(value: &str) -> (v: Option<ThemeVariant>)
    ensures
        v == named_variant(value@),
{
    let name = to_ascii_lower(trim(value).as_str());
    if contains_text(name.as_str(), "light") {
        Some(ThemeVariant::Light)
    } else if contains_text(name.as_str(), "dark") {
        Some(ThemeVariant::Dark)
    } else {
        None
    }
}

/// Whether `c` separates the fields of a `COLORFGBG` value.
pub open spec fn field_separator(c: char) -> bool {
    c == ';' || c == ':' || c == ','
}

/// What follows the last separator.
pub open spec fn last_field(value: Seq<char>) -> Seq<char>
    decreases value.len(),
{
    if value.len() == 0 || field_separator(value.last()) {
        Seq::empty()
    } else {
        last_field(value.drop_last()).push(value.last())
    }
}

/// Whether a palette entry is light enough to be the background of a light theme.
pub open spec fn light_background(index: u8) -> bool {
    if index < 16 {
        index == 7 || index >= 9
    } else if index < 232 {
        let n = index - 16;
        let level = |v: int| crate::color::cube_level(v);
        299 * level(n / 36) + 587 * level(n % 36 / 6) + 114 * level(n % 6) >= 128_000
    } else {
        8 + 10 * (index - 232) >= 128
    }
}

/// The variant that a `COLORFGBG` value hints at.
pub open spec fn hinted_variant(value: Seq<char>) -> Option<ThemeVariant> {
    match parsed_number(trimmed(last_field(value))) {
        Some(n) => if n > 255 {
            None
        } else if light_background(n as u8) {
            Some(ThemeVariant::Light)
        } else {
            Some(ThemeVariant::Dark)
        },
        None => None,
    }
}

/// The variant that a `COLORFGBG` value hints at, by its last field.
pub fn variant_from_colorfgbg(value: &str) -> (v: Option<ThemeVariant>)
    ensures
        v == hinted_variant(value@),
{
    let chars = to_chars(value);
    let mut from: usize = chars.len();
    assert(value@.subrange(from as int, value@.len() as int) =~= Seq::empty());
    assert(value@.take(from as int) =~= value@);
    while from > 0 && !(chars[from - 1] == ';' || chars[from - 1] == ':' || chars[from - 1] == ',')
        invariant
            from <= chars@.len(),
            chars@ == value@,
            last_field(value@) == last_field(value@.take(from as int)) + value@.subrange(
                from as int,
                value@.len() as int,
            ),
        decreases from,
    {
        from -= 1;
        assert(value@.take(from + 1).drop_last() =~= value@.take(from as int));
        assert(value@.take(from + 1).last() == value@[from as int]);
        assert(last_field(value@) =~= last_field(value@.take(from as int)) + value@.subrange(
            from as int,
            value@.len() as int,
        ));
    }
    let field = from_chars(&chars, from, chars.len());
    assert(last_field(value@) =~= field@);
    let text = trim(field.as_str());
    match parse_number(text.as_str(), 255) {
        Some(n) => if ansi_background_is_light(n as u8) {
            Some(ThemeVariant::Light)
        } else {
            Some(ThemeVariant::Dark)
        },
        None => None,
    }
}

fn channel_level(v: u8) -> (level: u32)
    requires
        v < 6,
    ensures
        level == crate::color::cube_level(v as int),
{
    if v == 0 {
        0
    } else {
        55 + 40 * v as u32
    }
}

/// Whether a palette entry is light enough to be the background of a light theme.
pub fn ansi_background_is_light(index: u8) -> (light: bool)
    ensures
        light == light_background(index),
{
    if index < 16 {
        index == 7 || index >= 9
    } else if index < 232 {
        let n: u8 = index - 16;
        let lum: u32 = 299 * channel_level(n / 36) + 587 * channel_level(n % 36 / 6) + 114
            * channel_level(n % 6);
        lum >= 128_000
    } else {
        let intensity: u16 = 8u16 + 10 * (index as u16 - 232);
        intensity >= 128
    }
}

/// The first of the values that names a variant.
pub open spec fn first_named(values: Seq<Seq<char>>) -> Option<ThemeVariant>
    decreases values.len(),
{
    if values.len() == 0 {
        None
    } else if named_variant(values[0]) is Some {
        named_variant(values[0])
    } else {
        first_named(values.skip(1))
    }
}

/// The variant to use where the configuration names none: what the environment says
/// outright, or else the background that the terminal reports, or else its
/// `COLORFGBG` hint, or else dark.
pub fn detect_variant(
    hints: &Vec<String>,
    light_terminal: Option<bool>,
    colorfgbg: Option<&str>,
) -> (v: ThemeVariant)
    ensures
        v == match first_named(views(hints@)) {
            Some(v) => v,
            None => match light_terminal {
                Some(light) => if light {
                    ThemeVariant::Light
                } else {
                    ThemeVariant::Dark
                },
                None => match colorfgbg {
                    Some(value) => match hinted_variant(value@) {
                        Some(v) => v,
                        None => ThemeVariant::Dark,
                    },
                    None => ThemeVariant::Dark,
                },
            },
        },
{
    let ghost all = views(hints@);
    let mut i: usize = 0;
    assert(all.skip(0) =~= all);
    while i < hints.len()
        invariant
            i <= hints@.len(),
            all == views(hints@),
            first_named(all.skip(i as int)) == first_named(all),
        decreases hints@.len() - i,
    {
        assert(all.skip(i as int)[0] == hints@[i as int]@);
        assert(all.skip(i as int).skip(1) =~= all.skip(i + 1));
        match variant_from_name(hints[i].as_str()) {
            Some(v) => {
                return v;
            },
            None => {},
        }
        i += 1;
    }
    match light_terminal {
        Some(light) => if light {
            ThemeVariant::Light
        } else {
            ThemeVariant::Dark
        },
        None => match colorfgbg {
            Some(value) => match variant_from_colorfgbg(value) {
                Some(v) => v,
                None => ThemeVariant::Dark,
            },
            None => ThemeVariant::Dark,
        },
    }
}

proof fn lemma_plain_names_are_kept(s: Seq<char>)
    requires
        forall|i: int| 0 <= i < s.len() ==> 'a' <= #[trigger] s[i] <= 'z',
    ensures
        plain_name(s) == s,
{
    lemma_trimmed_is_kept(s);
    assert(ascii_lowered(s) =~= s);
    let keep = |c: char| ascii_alphanumeric(c);
    lemma_filter_all(s, keep);
}

proof fn lemma_filter_all(s: Seq<char>, keep: spec_fn(char) -> bool)
    requires
        forall|i: int| 0 <= i < s.len() ==> keep(#[trigger] s[i]),
    ensures
        s.filter(keep) == s,
    decreases s.len(),
{
    reveal(Seq::filter);
    if s.len() > 0 {
        lemma_filter_all(s.drop_last(), keep);
        assert(s.drop_last().push(s.last()) =~= s);
    }
}

/// The name that a configuration file uses for a family selects that family.
pub proof fn lemma_config_names_resolve(name: ThemeName)
    ensures
        family(plain_name(name.config_text())) == Some(name),
{
    reveal_strlit("marqi");
    reveal_strlit("onedark");
    reveal_strlit("onelight");
    reveal_strlit("one");
    reveal_strlit("onedarkpro");
    reveal_strlit("atomone");
    reveal_strlit("github");
    reveal_strlit("githubdark");
    reveal_strlit("githublight");
    reveal_strlit("primer");
    reveal_strlit("catppuccin");
    reveal_strlit("catppuccinmocha");
    reveal_strlit("catppuccinlatte");
    reveal_strlit("catppuccinfrappe");
    reveal_strlit("catppuccinmacchiato");
    reveal_strlit("mocha");
    reveal_strlit("latte");
    reveal_strlit("frappe");
    reveal_strlit("macchiato");
    reveal_strlit("tokyonight");
    reveal_strlit("tokyonightnight");
    reveal_strlit("tokyonightday");
    reveal_strlit("tokyonightstorm");
    reveal_strlit("tokyo");
    reveal_strlit("gruvbox");
    reveal_strlit("gruvboxdark");
    reveal_strlit("gruvboxlight");
    reveal_strlit("nord");
    reveal_strlit("dracula");
    reveal_strlit("alucard");
    reveal_strlit("solarized");
    reveal_strlit("solarizeddark");
    reveal_strlit("solarizedlight");
    lemma_plain_names_are_kept(name.config_text());
}

/// A word is plain once it is lower-cased.
proof fn lemma_plain_word(s: Seq<char>)
    requires
        forall|i: int| 0 <= i < s.len() ==> ascii_alphanumeric(#[trigger] s[i]),
    ensures
        ascii_lowered(s).filter(|c: char| ascii_alphanumeric(c)) == ascii_lowered(s),
{
    let keep = |c: char| ascii_alphanumeric(c);
    let low = ascii_lowered(s);
    assert forall|i: int| 0 <= i < low.len() implies keep(#[trigger] low[i]) by {
        assert(ascii_alphanumeric(s[i]));
    }
    lemma_filter_all(low, keep);
}

/// Two words are plain once they are lower-cased and joined.
proof fn lemma_plain_words(s: Seq<char>, at: int)
    requires
        0 < at < s.len() - 1,
        s[at] == ' ',
        forall|i: int| 0 <= i < s.len() && i != at ==> ascii_alphanumeric(#[trigger] s[i]),
    ensures
        plain_name(s) == ascii_lowered(s.take(at)) + ascii_lowered(s.skip(at + 1)),
{
    let keep = |c: char| ascii_alphanumeric(c);
    assert(ascii_alphanumeric(s[0]) && ascii_alphanumeric(s.last()));
    lemma_trimmed_is_kept(s);
    let (a, b) = (ascii_lowered(s.take(at)), ascii_lowered(s.skip(at + 1)));
    assert forall|i: int| 0 <= i < s.take(at).len() implies ascii_alphanumeric(
        #[trigger] s.take(at)[i],
    ) by {
        assert(s.take(at)[i] == s[i]);
    }
    assert forall|i: int| 0 <= i < s.skip(at + 1).len() implies ascii_alphanumeric(
        #[trigger] s.skip(at + 1)[i],
    ) by {
        assert(s.skip(at + 1)[i] == s[at + 1 + i]);
    }
    lemma_plain_word(s.take(at));
    lemma_plain_word(s.skip(at + 1));
    assert(ascii_lowered(s) =~= a + seq![' '] + b);
    Seq::filter_distributes_over_add(a + seq![' '], b, keep);
    Seq::filter_distributes_over_add(a, seq![' '], keep);
    let space = seq![' '];
    assert(space.filter(keep) =~= Seq::<char>::empty()) by {
        reveal_with_fuel(Seq::filter, 2);
        assert(space.drop_last() =~= Seq::<char>::empty());
        assert(space.last() == ' ');
    }
    assert(a + Seq::<char>::empty() =~= a);
}

/// The name that the settings show for a family selects that family.
pub proof fn lemma_shown_names_resolve(name: ThemeName)
    ensures
        family(plain_name(name.label_text())) == Some(name),
{
    reveal_strlit("marqi");
    reveal_strlit("One Dark");
    reveal_strlit("GitHub");
    reveal_strlit("Catppuccin");
    reveal_strlit("Tokyo Night");
    reveal_strlit("Gruvbox");
    reveal_strlit("Nord");
    reveal_strlit("Dracula");
    reveal_strlit("Solarized");
    reveal_strlit("onedark");
    reveal_strlit("github");
    reveal_strlit("catppuccin");
    reveal_strlit("tokyonight");
    reveal_strlit("gruvbox");
    reveal_strlit("nord");
    reveal_strlit("dracula");
    reveal_strlit("solarized");
    lemma_config_names_resolve(name);
    lemma_plain_names_are_kept(name.config_text());
    let s = name.label_text();
    if name == ThemeName::OneDark {
        lemma_plain_words(s, 3);
    } else if name == ThemeName::TokyoNight {
        lemma_plain_words(s, 5);
    } else {
        lemma_trimmed_is_kept(s);
        lemma_plain_word(s);
    }
    assert(plain_name(s) =~= name.config_text());
}

} // verus!
