//! Terminal colours, and their reduction to the 256-colour palette.

use vstd::prelude::*;

use crate::strings::to_chars;

verus! {

/// A colour that a terminal can show.
#[derive(Clone, Copy, Debug, PartialEq, Eq, Structural)]
pub enum Color {
    /// The terminal's own default.
    Reset,
    /// The terminal's white.
    White,
    /// A 24-bit colour.
    Rgb(u8, u8, u8),
    /// An entry of the xterm 256-colour palette.
    Indexed(u8),
}

/// The six levels of one channel of the colour cube.
pub open spec fn cube_level(i: int) -> int {
    if i == 0 {
        0
    } else {
        55 + 40 * i
    }
}

/// The cube level closest to the channel value `v`, the lower one on a tie.
pub open spec fn nearest_level(v: int) -> int {
    if v <= 47 {
        0
    } else if v <= 115 {
        1
    } else if v <= 155 {
        2
    } else if v <= 195 {
        3
    } else if v <= 235 {
        4
    } else {
        5
    }
}

/// The position of the grey closest to the average `avg` on the 24-step ramp.
pub open spec fn nearest_gray(avg: int) -> int {
    if avg < 13 {
        0
    } else if avg > 233 {
        23
    } else {
        (avg - 3) / 10
    }
}

/// The squared distance of two colours.
pub open spec fn distance(a: (int, int, int), b: (int, int, int)) -> int {
    (a.0 - b.0) * (a.0 - b.0) + (a.1 - b.1) * (a.1 - b.1) + (a.2 - b.2) * (a.2 - b.2)
}

/// The palette entry for a 24-bit colour: the closest cube vertex, or the closest
/// grey of the ramp where that one is strictly closer.
pub open spec fn ansi256(r: int, g: int, b: int) -> int {
    let cube = (
        cube_level(nearest_level(r)),
        cube_level(nearest_level(g)),
        cube_level(nearest_level(b)),
    );
    let step = nearest_gray((r + g + b) / 3);
    let gray = (8 + 10 * step, 8 + 10 * step, 8 + 10 * step);
    if distance(cube, (r, g, b)) <= distance(gray, (r, g, b)) {
        16 + 36 * nearest_level(r) + 6 * nearest_level(g) + nearest_level(b)
    } else {
        232 + step
    }
}

/// `|a - b|`.
pub open spec fn gap(a: int, b: int) -> int {
    if a <= b {
        b - a
    } else {
        a - b
    }
}

/// The chosen cube level is the closest of the six, and the lowest of the closest.
pub proof fn lemma_nearest_level_is_closest(v: u8, i: int)
    requires
        0 <= i < 6,
    ensures
        0 <= nearest_level(v as int) < 6,
        gap(cube_level(nearest_level(v as int)), v as int) <= gap(cube_level(i), v as int),
        i < nearest_level(v as int) ==> gap(cube_level(nearest_level(v as int)), v as int) < gap(
            cube_level(i),
            v as int,
        ),
{
}

/// A colour that is itself a vertex of the cube maps to that vertex.
pub proof fn lemma_cube_colors_are_kept(ri: int, gi: int, bi: int)
    requires
        0 <= ri < 6,
        0 <= gi < 6,
        0 <= bi < 6,
    ensures
        ansi256(cube_level(ri), cube_level(gi), cube_level(bi)) == 16 + 36 * ri + 6 * gi + bi,
{
    assert(nearest_level(cube_level(ri)) == ri);
    assert(nearest_level(cube_level(gi)) == gi);
    assert(nearest_level(cube_level(bi)) == bi);
    let c = (cube_level(ri), cube_level(gi), cube_level(bi));
    let step = nearest_gray((c.0 + c.1 + c.2) / 3);
    let gray = (8 + 10 * step, 8 + 10 * step, 8 + 10 * step);
    assert(distance(c, c) == 0) by (nonlinear_arith)
        requires
            distance(c, c) == (c.0 - c.0) * (c.0 - c.0) + (c.1 - c.1) * (c.1 - c.1) + (c.2 - c.2)
                * (c.2 - c.2),
    ;
    let (x, y, z) = (gray.0 - c.0, gray.1 - c.1, gray.2 - c.2);
    assert(x * x + y * y + z * z >= 0) by (nonlinear_arith);
}

/// The channels of an entry of the palette, from the first of the colour cube on.
pub open spec fn palette_color(i: int) -> (int, int, int) {
    if i < 232 {
        (cube_level((i - 16) / 36), cube_level((i - 16) / 6 % 6), cube_level((i - 16) % 6))
    } else {
        (8 + 10 * (i - 232), 8 + 10 * (i - 232), 8 + 10 * (i - 232))
    }
}

/// The smaller gap has the smaller square.
proof fn lemma_squares_grow(a: int, b: int, v: int)
    requires
        gap(a, v) <= gap(b, v),
    ensures
        (a - v) * (a - v) <= (b - v) * (b - v),
{
    let (x, y) = (gap(a, v), gap(b, v));
    assert(x * x <= y * y) by (nonlinear_arith)
        requires
            0 <= x <= y,
    ;
    assert((a - v) * (a - v) == x * x) by (nonlinear_arith)
        requires
            x == a - v || x == v - a,
    ;
    assert((b - v) * (b - v) == y * y) by (nonlinear_arith)
        requires
            y == b - v || y == v - b,
    ;
}

/// No other grey of the ramp is closer to a colour than the one closest to its average.
proof fn lemma_nearest_gray_is_closest(r: u8, g: u8, b: u8, j: int)
    requires
        0 <= j < 24,
    ensures
        ({
            let k = nearest_gray((r + g + b) / 3);
            let c = (r as int, g as int, b as int);
            distance((8 + 10 * k, 8 + 10 * k, 8 + 10 * k), c) <= distance(
                (8 + 10 * j, 8 + 10 * j, 8 + 10 * j),
                c,
            )
        }),
{
    let s = r + g + b;
    let k = nearest_gray(s / 3);
    let (x, y) = (8 + 10 * k, 8 + 10 * j);
    let (r, g, b) = (r as int, g as int, b as int);
    assert((y - x) * (3 * (y + x) - 2 * s) >= 0) by (nonlinear_arith)
        requires
            y > x ==> 3 * (y + x) >= 2 * s,
            y < x ==> 3 * (y + x) <= 2 * s,
    ;
    assert((y - r) * (y - r) + (y - g) * (y - g) + (y - b) * (y - b) - ((x - r) * (x - r) + (x - g)
        * (x - g) + (x - b) * (x - b)) == (y - x) * (3 * (y + x) - 2 * s)) by (nonlinear_arith)
        requires
            s == r + g + b,
    ;
}

/// No colour of the palette is closer to a 24-bit colour than the entry chosen for it.
pub proof fn lemma_chosen_color_is_closest(r: u8, g: u8, b: u8, i: int)
    requires
        16 <= i < 256,
    ensures
        distance(
            palette_color(ansi256(r as int, g as int, b as int)),
            (r as int, g as int, b as int),
        ) <= distance(palette_color(i), (r as int, g as int, b as int)),
{
    let (ri, gi, bi) = (
        nearest_level(r as int),
        nearest_level(g as int),
        nearest_level(b as int),
    );
    let n = 36 * ri + 6 * gi + bi;
    assert(n / 36 == ri && n / 6 % 6 == gi && n % 6 == bi);
    if i < 232 {
        let p = palette_color(i);
        lemma_nearest_level_is_closest(r, (i - 16) / 36);
        lemma_nearest_level_is_closest(g, (i - 16) / 6 % 6);
        lemma_nearest_level_is_closest(b, (i - 16) % 6);
        lemma_squares_grow(cube_level(ri), p.0, r as int);
        lemma_squares_grow(cube_level(gi), p.1, g as int);
        lemma_squares_grow(cube_level(bi), p.2, b as int);
    } else {
        lemma_nearest_gray_is_closest(r, g, b, i - 232);
    }
}

/// `(a - b)²`.
fn squared_gap(a: u8, b: u8) -> (d: i32)
    ensures
        d == (a - b) * (a - b),
        0 <= d <= 65025,
{
    let diff: i32 = a as i32 - b as i32;
    proof {
        let x: int = diff as int;
        assert(0 <= x * x <= 65025) by (nonlinear_arith)
            requires
                -255 <= x <= 255,
        ;
    }
    diff * diff
}

/// The index of the closest cube level, with the level.
fn cube_index(v: u8) -> (r: (u8, u8))
    ensures
        r.0 == nearest_level(v as int),
        r.1 == cube_level(r.0 as int),
{
    if v <= 47 {
        (0, 0)
    } else if v <= 115 {
        (1, 95)
    } else if v <= 155 {
        (2, 135)
    } else if v <= 195 {
        (3, 175)
    } else if v <= 235 {
        (4, 215)
    } else {
        (5, 255)
    }
}

/// Map an RGB triple to the nearest xterm-256 palette colour: whichever of the
/// 6×6×6 colour cube (16–231) or the 24-step grey ramp (232–255) is closest.
pub fn rgb_to_ansi256(r: u8, g: u8, b: u8) -> (index: u8)
    ensures
        index == ansi256(r as int, g as int, b as int),
        16 <= index,
{
    let (ri, cr) = cube_index(r);
    let (gi, cg) = cube_index(g);
    let (bi, cb) = cube_index(b);
    let cube: u8 = 16 + 36 * ri + 6 * gi + bi;
    let avg: u16 = (r as u16 + g as u16 + b as u16) / 3;
    let step: u8 = if avg < 13 {
        0
    } else if avg > 233 {
        23
    } else {
        ((avg - 3) / 10) as u8
    };
    let level: u8 = 8 + 10 * step;
    let to_cube: i32 = squared_gap(cr, r) + squared_gap(cg, g) + squared_gap(cb, b);
    let to_gray: i32 = squared_gap(level, r) + squared_gap(level, g) + squared_gap(level, b);
    if to_cube <= to_gray {
        cube
    } else {
        232 + step
    }
}

/// What a terminal shows for an RGB triple.
pub open spec fn adapted(r: u8, g: u8, b: u8, truecolor: bool) -> Color {
    if truecolor {
        Color::Rgb(r, g, b)
    } else {
        Color::Indexed(ansi256(r as int, g as int, b as int) as u8)
    }
}

/// An RGB colour, reduced to the palette where the terminal has no 24-bit colour.
#[verifier::when_used_as_spec(adapted)]
pub fn rgb(r: u8, g: u8, b: u8, truecolor: bool) -> (color: Color)
    ensures
        color == adapted(r, g, b, truecolor),
{
    if truecolor {
        Color::Rgb(r, g, b)
    } else {
        Color::Indexed(rgb_to_ansi256(r, g, b))
    }
}

/// The value of a hexadecimal digit.
pub open spec fn hex_value(c: char) -> Option<int> {
    if '0' <= c <= '9' {
        Some(c as int - '0' as int)
    } else if 'a' <= c <= 'f' {
        Some(c as int - 'a' as int + 10)
    } else if 'A' <= c <= 'F' {
        Some(c as int - 'A' as int + 10)
    } else {
        None
    }
}

/// The value of a channel written in two characters: two hexadecimal digits, or a
/// plus sign and one.
pub open spec fn hex_pair(a: char, b: char) -> Option<int> {
    if a == '+' {
        hex_value(b)
    } else {
        match (hex_value(a), hex_value(b)) {
            (Some(x), Some(y)) => Some(16 * x + y),
            _ => None,
        }
    }
}

/// The channels that a `#rrggbb` or `rrggbb` string writes.
pub open spec fn hex_color(s: Seq<char>) -> Option<(int, int, int)> {
    let t = if s.len() > 0 && s[0] == '#' {
        s.skip(1)
    } else {
        s
    };
    if t.len() != 6 {
        None
    } else {
        match (hex_pair(t[0], t[1]), hex_pair(t[2], t[3]), hex_pair(t[4], t[5])) {
            (Some(r), Some(g), Some(b)) => Some((r, g, b)),
            _ => None,
        }
    }
}

fn hex_digit(c: char) -> (v: Option<u8>)
    ensures
        match v {
            Some(v) => hex_value(c) == Some(v as int) && v < 16,
            None => hex_value(c) is None,
        },
{
    if '0' <= c && c <= '9' {
        Some((c as u32 - 48) as u8)
    } else if 'a' <= c && c <= 'f' {
        Some((c as u32 - 87) as u8)
    } else if 'A' <= c && c <= 'F' {
        Some((c as u32 - 55) as u8)
    } else {
        None
    }
}

fn hex_channel(a: char, b: char) -> (v: Option<u8>)
    ensures
        match v {
            Some(v) => hex_pair(a, b) == Some(v as int),
            None => hex_pair(a, b) is None,
        },
{
    if a == '+' {
        return hex_digit(b);
    }
    match (hex_digit(a), hex_digit(b)) {
        (Some(x), Some(y)) => Some(16 * x + y),
        _ => None,
    }
}

/// Parse a `#rrggbb` (or `rrggbb`) hex string into a colour for the terminal.
pub fn parse_hex(s: &str, truecolor: bool) -> (color: Option<Color>)
    ensures
        color == match hex_color(s@) {
            Some((r, g, b)) => Some(adapted(r as u8, g as u8, b as u8, truecolor)),
            None => None,
        },
{
    let chars = to_chars(s);
    let from: usize = if chars.len() > 0 && chars[0] == '#' {
        1
    } else {
        0
    };
    if chars.len() - from != 6 {
        return None;
    }
    let r = hex_channel(chars[from], chars[from + 1]);
    let g = hex_channel(chars[from + 2], chars[from + 3]);
    let b = hex_channel(chars[from + 4], chars[from + 5]);
    match (r, g, b) {
        (Some(r), Some(g), Some(b)) => Some(rgb(r, g, b, truecolor)),
        _ => None,
    }
}

} // verus!
