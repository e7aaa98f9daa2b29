//! The tray icon's badge: colours, text, layout and glyphs, and the pixel
//! format the StatusNotifierItem protocol expects.
//!
//! Shapes are rasterised by the application with tiny-skia (floating point);
//! everything that is integer arithmetic stands here.

use crate::config::color_is_valid;
use crate::text::{
    chars_of, decimal, hex_val, is_hex, is_ws, lemma_decimal_parses_back, parse_u64_spec, trim,
    trim_end, trim_range, trim_start,
};
use vstd::prelude::*;

verus! {

/// The icon's edge length in pixels.
pub const ICON_SIZE: u32 = 24;

/// A tray icon: ARGB32 pixels in network byte order, row by row.
pub struct IconPixmap {
    pub width: i32,
    pub height: i32,
    pub data: Vec<u8>,
}

/// A colour of the rasteriser.
#[verifier::external_type_specification]
#[verifier::external_body]
pub struct ExColor(tiny_skia::Color);

/// What `tiny_skia::Color::from_rgba8` yields for 8-bit components.
pub uninterp spec fn rgba8_color(r: u8, g: u8, b: u8, a: u8) -> tiny_skia::Color;

/// A colour from 8-bit components, with `tiny_skia::Color::from_rgba8`.
#[verifier::external_body]
fn color_from_rgba8(r: u8, g: u8, b: u8, a: u8) -> (c: tiny_skia::Color)
    ensures
        c == rgba8_color(r, g, b, a),
{
    tiny_skia::Color::from_rgba8(r, g, b, a)
}

/// The value of an ASCII hexadecimal digit byte.
pub open spec fn hex_byte_value(byte: u8) -> Option<u8> {
    if 48 <= byte <= 57 {
        Some((byte - 48) as u8)
    } else if 97 <= byte <= 102 {
        Some((byte - 87) as u8)
    } else if 65 <= byte <= 70 {
        Some((byte - 55) as u8)
    } else {
        None
    }
}

/// The value of an ASCII hexadecimal digit byte.
pub fn hex_value(byte: u8) -> (r: Option<u8>)
    ensures
        r == hex_byte_value(byte),
{
    if 48 <= byte && byte <= 57 {
        Some(byte - 48)
    } else if 97 <= byte && byte <= 102 {
        Some(byte - 87)
    } else if 65 <= byte && byte <= 70 {
        Some(byte - 55)
    } else {
        None
    }
}

/// Drops leading `#` characters.
pub open spec fn strip_hashes(s: Seq<char>) -> Seq<char>
    decreases s.len(),
{
    if s.len() > 0 && s[0] == '#' {
        strip_hashes(s.drop_first())
    } else {
        s
    }
}

/// All characters are hexadecimal digits.
pub open spec fn all_hex(s: Seq<char>) -> bool {
    forall|i: int| 0 <= i < s.len() ==> is_hex(#[trigger] s[i])
}

/// The red, green and blue of `#RGB` or `#RRGGBB` (surrounding whitespace and any
/// number of leading `#` are ignored; a short digit `d` stands for `dd`).
pub open spec fn hex_rgb(s: Seq<char>) -> Option<(u8, u8, u8)> {
    let h = strip_hashes(trim(s));
    if h.len() == 3 && all_hex(h) {
        Some(((hex_val(h[0]) * 17) as u8, (hex_val(h[1]) * 17) as u8, (hex_val(h[2]) * 17) as u8))
    } else if h.len() == 6 && all_hex(h) {
        Some(
            (
                (hex_val(h[0]) * 16 + hex_val(h[1])) as u8,
                (hex_val(h[2]) * 16 + hex_val(h[3])) as u8,
                (hex_val(h[4]) * 16 + hex_val(h[5])) as u8,
            ),
        )
    } else {
        None
    }
}

/// The value of a hexadecimal digit character.
fn hex_char_value(c: char) -> (r: Option<u8>)
    ensures
        match r {
            Some(d) => is_hex(c) && d == hex_val(c),
            None => !is_hex(c),
        },
{
    if (c as u32) < 128 {
        hex_value((c as u32) as u8)
    } else {
        None
    }
}

proof fn lemma_strip_hashes_step(v: Seq<char>, a: int, b: int)
    requires
        0 <= a < b <= v.len(),
        v[a] == '#',
    ensures
        strip_hashes(v.subrange(a, b)) == strip_hashes(v.subrange(a + 1, b)),
{
    assert(v.subrange(a, b).drop_first() =~= v.subrange(a + 1, b));
}

/// Parses `#RGB` or `#RRGGBB` into its components.
pub fn parse_hex_rgb(hex: &str) -> (r: Option<(u8, u8, u8)>)
    ensures
        r == hex_rgb(hex@),
{
    let v = chars_of(hex);
    let (mut a, b) = trim_range(&v, 0, v.len());
    assert(v@.subrange(0, v@.len() as int) =~= v@);
    let ghost t = v@.subrange(a as int, b as int);
    while a < b && v[a] == '#'
        invariant
            a <= b <= v@.len(),
            strip_hashes(t) == strip_hashes(v@.subrange(a as int, b as int)),
        decreases b - a,
    {
        proof {
            lemma_strip_hashes_step(v@, a as int, b as int);
        }
        a = a + 1;
    }
    let ghost h = v@.subrange(a as int, b as int);
    assert(strip_hashes(h) == h);
    assert(strip_hashes(trim(hex@)) == h);
    let n = b - a;
    if n != 3 && n != 6 {
        return None;
    }
    let mut digits: Vec<u8> = Vec::new();
    let mut i: usize = 0;
    while i < n
        invariant
            a + n == b <= v@.len(),
            h == v@.subrange(a as int, b as int),
            strip_hashes(trim(hex@)) == h,
            i <= n,
            digits@.len() == i,
            forall|k: int| 0 <= k < i ==> is_hex(#[trigger] h[k]) && digits@[k] == hex_val(h[k]),
        decreases n - i,
    {
        match hex_char_value(v[a + i]) {
            Some(d) => digits.push(d),
            None => {
                assert(!is_hex(h[i as int]));
                return None;
            },
        }
        i = i + 1;
    }
    assert(all_hex(h));
    if n == 3 {
        Some((digits[0] * 17, digits[1] * 17, digits[2] * 17))
    } else {
        Some((digits[0] * 16 + digits[1], digits[2] * 16 + digits[3], digits[4] * 16 + digits[5]))
    }
}

proof fn lemma_hash_hex_digits(s: Seq<char>)
    requires
        s.len() >= 2,
        s[0] == '#',
        forall|i: int| 1 <= i < s.len() ==> is_hex(#[trigger] s[i]),
    ensures
        strip_hashes(trim(s)) == s.drop_first(),
        all_hex(s.drop_first()),
{
    assert(!is_ws(s[0]));
    assert(is_hex(s[s.len() - 1]));
    assert(!is_ws(s.last()));
    assert(trim_start(s) == s);
    assert(trim_end(s) == s);
    assert(s.drop_first()[0] == s[1]);
    assert(strip_hashes(s.drop_first()) == s.drop_first());
    assert forall|i: int| 0 <= i < s.drop_first().len() implies is_hex(#[trigger] s.drop_first()[i]) by {
        assert(s.drop_first()[i] == s[i + 1]);
    }
}

/// Law of colours: every colour the configuration accepts (`#RGB` or `#RRGGBB`)
/// is drawn as given; the fallback colour is never used for it.
pub proof fn validated_colors_are_drawn(c: Seq<char>)
    requires
        color_is_valid(c),
    ensures
        hex_rgb(c) is Some,
{
    lemma_hash_hex_digits(c);
}

/// Law of colours: a short colour `#RGB` is the long colour `#RRGGBB` with each
/// digit doubled.
pub proof fn short_colors_double_their_digits(r: char, g: char, b: char)
    requires
        is_hex(r),
        is_hex(g),
        is_hex(b),
    ensures
        hex_rgb(seq!['#', r, g, b]) == hex_rgb(seq!['#', r, r, g, g, b, b]),
        hex_rgb(seq!['#', r, g, b]) is Some,
{
    let short = seq!['#', r, g, b];
    let long = seq!['#', r, r, g, g, b, b];
    lemma_hash_hex_digits(short);
    lemma_hash_hex_digits(long);
    assert(short.drop_first() =~= seq![r, g, b]);
    assert(long.drop_first() =~= seq![r, r, g, g, b, b]);
}

/// A colour given as `#RGB` or `#RRGGBB`, or `fallback` when it is not one.
pub fn parse_hex_color(hex: &str, fallback: tiny_skia::Color) -> (r: tiny_skia::Color)
    ensures
        r == match hex_rgb(hex@) {
            Some((red, green, blue)) => rgba8_color(red, green, blue, 255),
            None => fallback,
        },
{
    match parse_hex_rgb(hex) {
        Some((red, green, blue)) => color_from_rgba8(red, green, blue, 255),
        None => fallback,
    }
}

// ---------------------------------------------------------------------------
// Badge layout and glyphs
// ---------------------------------------------------------------------------

/// The badge's outline.
#[derive(Debug, Clone, Copy, PartialEq, Eq, Structural)]
pub enum BadgeShape {
    /// One digit: a circle at (18, 18) of radius 4.5.
    Circle,
    /// Two digits: a pill from x = 12, 10 wide, 8 high, from y = 14.
    Pill,
    /// Three glyphs: a pill from x = 9, 13 wide, 8 high, from y = 14.
    WidePill,
}

/// Where and how the unread count is drawn.
pub struct BadgeLayout {
    pub text: String,
    pub shape: BadgeShape,
    pub center_x: i32,
    pub center_y: i32,
}

/// The badge text: the count, or `99+` above 99.
pub open spec fn badge_text(count: u32) -> Seq<char> {
    if count > 99 {
        "99+"@
    } else {
        decimal(count as nat)
    }
}

/// The outline for a text of `len` glyphs.
pub open spec fn shape_for(len: nat) -> BadgeShape {
    if len == 1 {
        BadgeShape::Circle
    } else if len == 2 {
        BadgeShape::Pill
    } else {
        BadgeShape::WidePill
    }
}

/// The horizontal centre of a text of `len` glyphs.
pub open spec fn center_for(len: nat) -> i32 {
    if len == 1 {
        18
    } else if len == 2 {
        17
    } else {
        15
    }
}

/// The badge for an unread count: none without unread mail.
pub fn badge_layout(count: u32) -> (r: Option<BadgeLayout>)
    ensures
        count == 0 <==> r is None,
        r matches Some(l) ==> l.text@ == badge_text(count) && l.shape == shape_for(l.text@.len())
            && l.center_x == center_for(l.text@.len()) && l.center_y == 18,
{
    if count == 0 {
        return None;
    }
    let text = if count > 99 {
        String::from_str("99+")
    } else {
        crate::text::decimal_string(count as u64)
    };
    let len = text.as_str().unicode_len();
    let shape = if len == 1 {
        BadgeShape::Circle
    } else if len == 2 {
        BadgeShape::Pill
    } else {
        BadgeShape::WidePill
    };
    let center_x: i32 = if len == 1 {
        18
    } else if len == 2 {
        17
    } else {
        15
    };
    Some(BadgeLayout { text, shape, center_x, center_y: 18 })
}

/// Rows of the 3×5 glyph for a character: digits and `+`.
pub open spec fn glyph_rows(c: char) -> Option<Seq<u8>> {
    if c == '0' {
        Some(seq![7u8, 5, 5, 5, 7])
    } else if c == '1' {
        Some(seq![2u8, 6, 2, 2, 7])
    } else if c == '2' {
        Some(seq![7u8, 1, 7, 4, 7])
    } else if c == '3' {
        Some(seq![7u8, 1, 7, 1, 7])
    } else if c == '4' {
        Some(seq![5u8, 5, 7, 1, 1])
    } else if c == '5' {
        Some(seq![7u8, 4, 7, 1, 7])
    } else if c == '6' {
        Some(seq![7u8, 4, 7, 5, 7])
    } else if c == '7' {
        Some(seq![7u8, 1, 2, 2, 2])
    } else if c == '8' {
        Some(seq![7u8, 5, 7, 5, 7])
    } else if c == '9' {
        Some(seq![7u8, 5, 7, 1, 7])
    } else if c == '+' {
        Some(seq![0u8, 2, 7, 2, 0])
    } else {
        None
    }
}

/// The 3×5 picture of a glyph, row by row from the top, `#` for a lit pixel:
/// the ten digits as they are commonly drawn on a small grid, and `+`.
pub open spec fn glyph_picture(c: char) -> Option<Seq<Seq<char>>> {
    if c == '0' {
        Some(seq![
            seq!['#', '#', '#'],
            seq!['#', '.', '#'],
            seq!['#', '.', '#'],
            seq!['#', '.', '#'],
            seq!['#', '#', '#'],
        ])
    } else if c == '1' {
        Some(seq![
            seq!['.', '#', '.'],
            seq!['#', '#', '.'],
            seq!['.', '#', '.'],
            seq!['.', '#', '.'],
            seq!['#', '#', '#'],
        ])
    } else if c == '2' {
        Some(seq![
            seq!['#', '#', '#'],
            seq!['.', '.', '#'],
            seq!['#', '#', '#'],
            seq!['#', '.', '.'],
            seq!['#', '#', '#'],
        ])
    } else if c == '3' {
        Some(seq![
            seq!['#', '#', '#'],
            seq!['.', '.', '#'],
            seq!['#', '#', '#'],
            seq!['.', '.', '#'],
            seq!['#', '#', '#'],
        ])
    } else if c == '4' {
        Some(seq![
            seq!['#', '.', '#'],
            seq!['#', '.', '#'],
            seq!['#', '#', '#'],
            seq!['.', '.', '#'],
            seq!['.', '.', '#'],
        ])
    } else if c == '5' {
        Some(seq![
            seq!['#', '#', '#'],
            seq!['#', '.', '.'],
            seq!['#', '#', '#'],
            seq!['.', '.', '#'],
            seq!['#', '#', '#'],
        ])
    } else if c == '6' {
        Some(seq![
            seq!['#', '#', '#'],
            seq!['#', '.', '.'],
            seq!['#', '#', '#'],
            seq!['#', '.', '#'],
            seq!['#', '#', '#'],
        ])
    } else if c == '7' {
        Some(seq![
            seq!['#', '#', '#'],
            seq!['.', '.', '#'],
            seq!['.', '#', '.'],
            seq!['.', '#', '.'],
            seq!['.', '#', '.'],
        ])
    } else if c == '8' {
        Some(seq![
            seq!['#', '#', '#'],
            seq!['#', '.', '#'],
            seq!['#', '#', '#'],
            seq!['#', '.', '#'],
            seq!['#', '#', '#'],
        ])
    } else if c == '9' {
        Some(seq![
            seq!['#', '#', '#'],
            seq!['#', '.', '#'],
            seq!['#', '#', '#'],
            seq!['.', '.', '#'],
            seq!['#', '#', '#'],
        ])
    } else if c == '+' {
        Some(seq![
            seq!['.', '.', '.'],
            seq!['.', '#', '.'],
            seq!['#', '#', '#'],
            seq!['.', '#', '.'],
            seq!['.', '.', '.'],
        ])
    } else {
        None
    }
}

/// Law of the glyphs: every glyph lights exactly the pixels of its picture, so
/// the badge spells the count it stands for.
pub proof fn glyphs_match_their_pictures(c: char, row: int, col: int)
    requires
        0 <= row < 5,
        0 <= col < 3,
    ensures
        glyph_rows(c) is Some <==> glyph_picture(c) is Some,
        glyph_rows(c) is Some ==> (bit_set(glyph_rows(c).unwrap()[row], col) <==> glyph_picture(
            c,
        ).unwrap()[row][col] == '#'),
{
}

/// Law of the glyphs: no two characters share a glyph, so different digits are
/// drawn differently.
pub proof fn glyphs_are_distinct(a: char, b: char)
    requires
        a != b,
        glyph_rows(a) is Some,
    ensures
        glyph_rows(a) != glyph_rows(b),
{
    if glyph_rows(b) is Some {
        let ra = glyph_rows(a).unwrap();
        let rb = glyph_rows(b).unwrap();
        assert(ra[0] != rb[0] || ra[1] != rb[1] || ra[2] != rb[2] || ra[3] != rb[3] || ra[4]
            != rb[4]);
    }
}

/// The rows of a glyph, as an array.
fn glyph_bitmap(c: char) -> (r: Option<[u8; 5]>)
    ensures
        match r {
            Some(rows) => glyph_rows(c) == Some(rows@),
            None => glyph_rows(c) is None,
        },
{
    let rows: [u8; 5] = if c == '0' {
        [7, 5, 5, 5, 7]
    } else if c == '1' {
        [2, 6, 2, 2, 7]
    } else if c == '2' {
        [7, 1, 7, 4, 7]
    } else if c == '3' {
        [7, 1, 7, 1, 7]
    } else if c == '4' {
        [5, 5, 7, 1, 1]
    } else if c == '5' {
        [7, 4, 7, 1, 7]
    } else if c == '6' {
        [7, 4, 7, 5, 7]
    } else if c == '7' {
        [7, 1, 2, 2, 2]
    } else if c == '8' {
        [7, 5, 7, 5, 7]
    } else if c == '9' {
        [7, 5, 7, 1, 7]
    } else if c == '+' {
        [0, 2, 7, 2, 0]
    } else {
        return None;
    };
    assert(glyph_rows(c) == Some(rows@));
    Some(rows)
}

/// Column `col` (0 = left) of a 3-bit glyph row is set.
pub open spec fn bit_set(row: u8, col: int) -> bool {
    if col == 0 {
        (row / 4) % 2 == 1
    } else if col == 1 {
        (row / 2) % 2 == 1
    } else {
        row % 2 == 1
    }
}

/// The left edge of a text of `n` glyphs centred at `cx` (3-pixel glyphs, 1-pixel gaps).
pub open spec fn text_start_x(n: int, cx: int) -> int {
    let width = n * 3 + (n - 1);
    cx - if width >= 0 {
        width / 2
    } else {
        -((-width) / 2)
    }
}

/// Pixel (`x`, `y`) is set by glyph `g`, row `row`, column `col` of the text.
pub open spec fn glyph_pixel(
    text: Seq<char>,
    cx: int,
    cy: int,
    g: int,
    row: int,
    col: int,
    x: int,
    y: int,
) -> bool {
    &&& 0 <= g < text.len()
    &&& 0 <= row < 5
    &&& 0 <= col < 3
    &&& glyph_rows(text[g]) is Some
    &&& bit_set(glyph_rows(text[g]).unwrap()[row], col)
    &&& x == text_start_x(text.len() as int, cx) + g * 4 + col
    &&& y == cy - 2 + row
}

/// Pixel (`x`, `y`) of a `width`×`height` canvas is covered by the text's glyphs.
pub open spec fn covers(
    text: Seq<char>,
    cx: int,
    cy: int,
    width: int,
    height: int,
    x: int,
    y: int,
) -> bool {
    &&& 0 <= x < width
    &&& 0 <= y < height
    &&& exists|g: int, row: int, col: int| glyph_pixel(text, cx, cy, g, row, col, x, y)
}

/// `out` holds pixel (`x`, `y`).
pub open spec fn holds(out: Seq<(u32, u32)>, x: int, y: int) -> bool {
    exists|q: int| 0 <= q < out.len() && (#[trigger] out[q]).0 == x && out[q].1 == y
}

/// `pixels` are exactly the pixels the text covers.
pub open spec fn are_text_pixels(
    pixels: Seq<(u32, u32)>,
    text: Seq<char>,
    cx: int,
    cy: int,
    width: int,
    height: int,
) -> bool {
    &&& forall|q: int|
        0 <= q < pixels.len() ==> covers(
            text,
            cx,
            cy,
            width,
            height,
            (#[trigger] pixels[q]).0 as int,
            pixels[q].1 as int,
        )
    &&& forall|x: int, y: int|
        covers(text, cx, cy, width, height, x, y) ==> #[trigger] holds(pixels, x, y)
}

/// The pixels covered by the glyphs of `text`, clipped to the canvas.
fn glyph_pixels(text: &str, center_x: i32, center_y: i32, width: u32, height: u32) -> (r: Vec<
    (u32, u32),
>)
    requires
        text@.len() <= 16,
        -1000 <= center_x <= 1000,
        -1000 <= center_y <= 1000,
    ensures
        are_text_pixels(r@, text@, center_x as int, center_y as int, width as int, height as int),
{
    let v = chars_of(text);
    let n = v.len() as i64;
    let text_width: i64 = n * 3 + (n - 1);
    let start_x: i64 = center_x as i64 - text_width / 2;
    let start_y: i64 = center_y as i64 - 2;
    let ghost cx = center_x as int;
    let ghost cy = center_y as int;
    assert(start_x == text_start_x(n as int, cx));
    let mut out: Vec<(u32, u32)> = Vec::new();
    let mut g: usize = 0;
    while g < v.len()
        invariant
            g <= v@.len(),
            v@ == text@,
            n == v@.len(),
            n <= 16,
            -1000 <= center_x <= 1000,
            -1000 <= center_y <= 1000,
            start_x == text_start_x(n as int, cx),
            start_y == cy - 2,
            cx == center_x,
            cy == center_y,
            forall|q: int|
                0 <= q < out@.len() ==> covers(
                    v@,
                    cx,
                    cy,
                    width as int,
                    height as int,
                    (#[trigger] out@[q]).0 as int,
                    out@[q].1 as int,
                ),
            forall|gg: int, row: int, col: int, x: int, y: int|
                #![trigger glyph_pixel(v@, cx, cy, gg, row, col, x, y)]
                glyph_pixel(v@, cx, cy, gg, row, col, x, y) && gg < g && 0 <= x < width && 0 <= y
                    < height ==> holds(out@, x, y),
        decreases v@.len() - g,
    {
        let maybe_rows = glyph_bitmap(v[g]);
        match maybe_rows {
            None => {},
            Some(rows) => {
                let glyph_x: i64 = start_x + (g as i64) * 4;
                let mut row: usize = 0;
                while row < 5
                    invariant
                        g < v@.len(),
                        v@ == text@,
                        n == v@.len(),
                        n <= 16,
                        -1000 <= center_x <= 1000,
                        -1000 <= center_y <= 1000,
                        start_x == text_start_x(n as int, cx),
                        start_y == cy - 2,
                        cx == center_x,
                        cy == center_y,
                        forall|q: int|
                            0 <= q < out@.len() ==> covers(
                                v@,
                                cx,
                                cy,
                                width as int,
                                height as int,
                                (#[trigger] out@[q]).0 as int,
                                out@[q].1 as int,
                            ),
                        glyph_x == start_x + g * 4,
                        glyph_rows(v@[g as int]) == Some(rows@),
                        row <= 5,
                        forall|gg: int, rr: int, col: int, x: int, y: int|
                            #![trigger glyph_pixel(v@, cx, cy, gg, rr, col, x, y)]
                            glyph_pixel(v@, cx, cy, gg, rr, col, x, y) && (gg < g || (gg == g && rr
                                < row)) && 0 <= x < width && 0 <= y < height ==> holds(out@, x, y),
                    decreases 5 - row,
                {
                    let bits = rows[row];
                    let mut col: usize = 0;
                    while col < 3
                        invariant
                            g < v@.len(),
                            v@ == text@,
                            n == v@.len(),
                            n <= 16,
                            -1000 <= center_x <= 1000,
                            -1000 <= center_y <= 1000,
                            start_x == text_start_x(n as int, cx),
                            start_y == cy - 2,
                            cx == center_x,
                            cy == center_y,
                            forall|q: int|
                                0 <= q < out@.len() ==> covers(
                                    v@,
                                    cx,
                                    cy,
                                    width as int,
                                    height as int,
                                    (#[trigger] out@[q]).0 as int,
                                    out@[q].1 as int,
                                ),
                            glyph_x == start_x + g * 4,
                            glyph_rows(v@[g as int]) == Some(rows@),
                            row < 5,
                            bits == rows@[row as int],
                            col <= 3,
                            forall|gg: int, rr: int, cc: int, x: int, y: int|
                                #![trigger glyph_pixel(v@, cx, cy, gg, rr, cc, x, y)]
                                glyph_pixel(v@, cx, cy, gg, rr, cc, x, y) && (gg < g || (gg == g
                                    && rr < row) || (gg == g && rr == row && cc < col)) && 0 <= x
                                    < width && 0 <= y < height ==> holds(out@, x, y),
                        decreases 3 - col,
                    {
                        let divisor: u8 = if col == 0 {
                            4
                        } else if col == 1 {
                            2
                        } else {
                            1
                        };
                        let x: i64 = glyph_x + col as i64;
                        let y: i64 = start_y + row as i64;
                        let ghost before = out@;
                        if (bits / divisor) % 2 == 1 && x >= 0 && y >= 0 && x < width as i64 && y
                            < height as i64 {
                            assert(glyph_pixel(
                                v@,
                                cx,
                                cy,
                                g as int,
                                row as int,
                                col as int,
                                x as int,
                                y as int,
                            ));
                            out.push((x as u32, y as u32));
                            assert(out@[out@.len() - 1] == (x as u32, y as u32));
                            assert forall|q: int| 0 <= q < out@.len() implies covers(
                                v@,
                                cx,
                                cy,
                                width as int,
                                height as int,
                                (#[trigger] out@[q]).0 as int,
                                out@[q].1 as int,
                            ) by {
                                if q < before.len() {
                                    assert(out@[q] == before[q]);
                                }
                            }
                            assert forall|gg: int, rr: int, cc: int, xx: int, yy: int|
                                #![trigger glyph_pixel(v@, cx, cy, gg, rr, cc, xx, yy)]
                                glyph_pixel(v@, cx, cy, gg, rr, cc, xx, yy) && (gg < g || (gg == g
                                    && rr < row) || (gg == g && rr == row && cc < col + 1)) && 0
                                    <= xx < width && 0 <= yy < height implies holds(out@, xx, yy) by {
                                if gg == g && rr == row && cc == col {
                                    assert(out@[out@.len() - 1].0 == xx);
                                } else {
                                    assert(holds(before, xx, yy));
                                    let k = choose|k: int|
                                        0 <= k < before.len() && (#[trigger] before[k]).0 == xx
                                            && before[k].1 == yy;
                                    assert(out@[k] == before[k]);
                                }
                            }
                        } else {
                            assert forall|gg: int, rr: int, cc: int, xx: int, yy: int|
                                #![trigger glyph_pixel(v@, cx, cy, gg, rr, cc, xx, yy)]
                                glyph_pixel(v@, cx, cy, gg, rr, cc, xx, yy) && (gg < g || (gg == g
                                    && rr < row) || (gg == g && rr == row && cc < col + 1)) && 0
                                    <= xx < width && 0 <= yy < height implies holds(out@, xx, yy) by {
                                if gg == g && rr == row && cc == col {
                                    assert(bit_set(bits, col as int));
                                    assert(false);
                                }
                            }
                        }
                        col = col + 1;
                    }
                    row = row + 1;
                }
            },
        }
        proof {
            if maybe_rows is None {
                assert forall|gg: int, rr: int, cc: int, xx: int, yy: int|
                    #![trigger glyph_pixel(v@, cx, cy, gg, rr, cc, xx, yy)]
                    glyph_pixel(v@, cx, cy, gg, rr, cc, xx, yy) && gg < g + 1 && 0 <= xx < width
                        && 0 <= yy < height implies holds(out@, xx, yy) by {
                    if gg == g {
                        assert(glyph_rows(v@[g as int]) is None);
                    }
                }
            }
        }
        g = g + 1;
    }
    assert forall|x: int, y: int|
        covers(v@, cx, cy, width as int, height as int, x, y) implies #[trigger] holds(
        out@,
        x,
        y,
    ) by {
        let (g0, r0, c0) = choose|g0: int, r0: int, c0: int|
            glyph_pixel(v@, cx, cy, g0, r0, c0, x, y);
        assert(glyph_pixel(v@, cx, cy, g0, r0, c0, x, y));
    }
    out
}

proof fn lemma_badge_text_short(count: u32)
    ensures
        badge_text(count).len() <= 3,
{
    reveal_strlit("99+");
    if count <= 99 && count >= 10 {
        assert(decimal(count as nat) == decimal((count / 10) as nat).push(
            crate::text::digit_char((count % 10) as nat),
        ));
        assert(decimal((count / 10) as nat).len() == 1);
    }
}

/// Law of the badge text: a count from 1 to 99 is written as a number that
/// reads back as the count.
pub proof fn badge_text_reads_back(count: u32)
    requires
        0 < count <= 99,
    ensures
        parse_u64_spec(badge_text(count)) == Some(count as u64),
{
    lemma_decimal_parses_back(count as nat);
}

/// Law of the badge: every count above 99 is drawn as `99+`: any two such counts
/// give the same text, outline and position, and the same glyph pixels.
pub proof fn counts_above_99_share_the_badge(c1: u32, c2: u32)
    requires
        c1 > 99,
        c2 > 99,
    ensures
        badge_text(c1) == "99+"@,
        badge_text(c1) == badge_text(c2),
        shape_for(badge_text(c1).len()) == shape_for(badge_text(c2).len()),
        center_for(badge_text(c1).len()) == center_for(badge_text(c2).len()),
        forall|x: int, y: int|
            #![trigger covers(badge_text(c1), center_for(badge_text(c1).len()) as int, 18, ICON_SIZE as int, ICON_SIZE as int, x, y)]
            covers(
                badge_text(c1),
                center_for(badge_text(c1).len()) as int,
                18,
                ICON_SIZE as int,
                ICON_SIZE as int,
                x,
                y,
            ) <==> covers(
                badge_text(c2),
                center_for(badge_text(c2).len()) as int,
                18,
                ICON_SIZE as int,
                ICON_SIZE as int,
                x,
                y,
            ),
{
}

/// Law of the badge text: every pixel of its glyphs lies within columns 10 to 20
/// and rows 16 to 20 of the icon, so nothing of it is clipped at the edge of the
/// 24×24 canvas.
pub proof fn badge_glyphs_keep_a_margin(count: u32, g: int, row: int, col: int, x: int, y: int)
    requires
        count > 0,
        glyph_pixel(
            badge_text(count),
            center_for(badge_text(count).len()) as int,
            18,
            g,
            row,
            col,
            x,
            y,
        ),
    ensures
        10 <= x <= 20,
        16 <= y <= 20,
{
    lemma_badge_text_short(count);
    reveal_strlit("99+");
    if count <= 99 {
        crate::text::lemma_decimal_digits(count as nat);
    }
}

/// The pixels of the badge text for an unread count, inside the icon. Every one of
/// them lies inside the 24×24 canvas.
pub fn badge_glyph_pixels(count: u32) -> (r: Vec<(u32, u32)>)
    ensures
        count == 0 ==> r@.len() == 0,
        count > 0 ==> are_text_pixels(
            r@,
            badge_text(count),
            center_for(badge_text(count).len()) as int,
            18,
            ICON_SIZE as int,
            ICON_SIZE as int,
        ),
        forall|i: int| 0 <= i < r@.len() ==> (#[trigger] r@[i]).0 < ICON_SIZE && r@[i].1 < ICON_SIZE,
{
    match badge_layout(count) {
        None => Vec::new(),
        Some(layout) => {
            proof {
                lemma_badge_text_short(count);
            }
            glyph_pixels(layout.text.as_str(), layout.center_x, layout.center_y, ICON_SIZE, ICON_SIZE)
        },
    }
}

// ---------------------------------------------------------------------------
// Pixel format
// ---------------------------------------------------------------------------

/// A colour component recovered from a premultiplied one (kept as is when the
/// pixel is transparent; reduced to its low byte as `as u8` does).
pub open spec fn unpremultiply(c: u8, a: u8) -> u8 {
    if a > 0 {
        (((c * 255) / (a as int)) % 256) as u8
    } else {
        c
    }
}

/// The ARGB big-endian bytes of the `i`th pixel of premultiplied RGBA `data`.
pub open spec fn argb_pixel(data: Seq<u8>, i: int) -> Seq<u8> {
    let r = data[4 * i];
    let g = data[4 * i + 1];
    let b = data[4 * i + 2];
    let a = data[4 * i + 3];
    seq![a, unpremultiply(r, a), unpremultiply(g, a), unpremultiply(b, a)]
}

/// Converts premultiplied RGBA pixels (as the rasteriser stores them) to straight
/// ARGB32 in network byte order, as StatusNotifierItem icons are sent. Trailing
/// bytes that do not make a whole pixel are dropped.
pub fn convert_to_argb_be(data: &[u8]) -> (r: Vec<u8>)
    ensures
        r@.len() == (data@.len() / 4) * 4,
        forall|i: int| 0 <= i < data@.len() / 4 ==> r@.subrange(4 * i, 4 * i + 4) == argb_pixel(data@, i),
{
    let len = data.len();
    let pixels = len / 4;
    assert(pixels * 4 <= len);
    let mut result: Vec<u8> = Vec::new();
    let mut i: usize = 0;
    while i < pixels
        invariant
            pixels == data@.len() / 4,
            len == data@.len(),
            pixels * 4 <= len,
            i <= pixels,
            result@.len() == 4 * i,
            forall|k: int| 0 <= k < i ==> result@.subrange(4 * k, 4 * k + 4) == argb_pixel(data@, k),
        decreases pixels - i,
    {
        assert(4 * i + 4 <= len) by (nonlinear_arith)
            requires
                i < pixels,
                pixels * 4 <= len,
        ;
        let r = data[4 * i];
        let g = data[4 * i + 1];
        let b = data[4 * i + 2];
        let a = data[4 * i + 3];
        let (r2, g2, b2) = if a > 0 {
            (
                (((r as u16 * 255) / a as u16) % 256) as u8,
                (((g as u16 * 255) / a as u16) % 256) as u8,
                (((b as u16 * 255) / a as u16) % 256) as u8,
            )
        } else {
            (r, g, b)
        };
        let ghost before = result@;
        result.push(a);
        result.push(r2);
        result.push(g2);
        result.push(b2);
        assert(result@.subrange(4 * i as int, 4 * i + 4) =~= argb_pixel(data@, i as int));
        assert forall|k: int| 0 <= k < i + 1 implies result@.subrange(4 * k, 4 * k + 4) == argb_pixel(
            data@,
            k,
        ) by {
            if k < i {
                assert(result@.subrange(4 * k, 4 * k + 4) =~= before.subrange(4 * k, 4 * k + 4));
            }
        }
        i = i + 1;
    }
    result
}

} // verus!
