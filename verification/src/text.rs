//! Text drawn with a 5x7 pixel font scaled up by an integer factor.
use vstd::prelude::*;

use crate::framebuffer::{
    frame_drawn, lemma_frame_drawn_concat, lemma_frame_drawn_nothing, lemma_frame_drawn_union,
    lemma_layered_single, Framebuffer, Layer,
};
use crate::shapes::draw_scaled_pixel;

verus! {

/// Columns of a glyph.
pub const GLYPH_WIDTH: isize = 5;

/// Rows of a glyph.
pub const GLYPH_HEIGHT: isize = 7;

/// Color of the shadow drawn under centered text.
pub const VICTORY_SHADOW_COLOR: u32 = 0x0f172a;

/// The rows of the glyph for `c`, top to bottom, each a 5-bit mask whose
/// highest bit is the leftmost column; `None` for characters the font lacks.
pub open spec fn glyph_rows(c: char) -> Option<Seq<u8>> {
    if c == 'A' {
        Some(seq![0b01110u8, 0b10001u8, 0b10001u8, 0b11111u8, 0b10001u8, 0b10001u8, 0b10001u8])
    } else if c == 'B' {
        Some(seq![0b11110u8, 0b10001u8, 0b10001u8, 0b11110u8, 0b10001u8, 0b10001u8, 0b11110u8])
    } else if c == 'C' {
        Some(seq![0b01111u8, 0b10000u8, 0b10000u8, 0b10000u8, 0b10000u8, 0b10000u8, 0b01111u8])
    } else if c == 'D' {
        Some(seq![0b11110u8, 0b10001u8, 0b10001u8, 0b10001u8, 0b10001u8, 0b10001u8, 0b11110u8])
    } else if c == 'E' {
        Some(seq![0b11111u8, 0b10000u8, 0b10000u8, 0b11110u8, 0b10000u8, 0b10000u8, 0b11111u8])
    } else if c == 'F' {
        Some(seq![0b11111u8, 0b10000u8, 0b10000u8, 0b11110u8, 0b10000u8, 0b10000u8, 0b10000u8])
    } else if c == 'G' {
        Some(seq![0b01111u8, 0b10000u8, 0b10000u8, 0b10111u8, 0b10001u8, 0b10001u8, 0b01111u8])
    } else if c == 'I' {
        Some(seq![0b11111u8, 0b00100u8, 0b00100u8, 0b00100u8, 0b00100u8, 0b00100u8, 0b11111u8])
    } else if c == 'L' {
        Some(seq![0b10000u8, 0b10000u8, 0b10000u8, 0b10000u8, 0b10000u8, 0b10000u8, 0b11111u8])
    } else if c == 'M' {
        Some(seq![0b10001u8, 0b11011u8, 0b10101u8, 0b10101u8, 0b10001u8, 0b10001u8, 0b10001u8])
    } else if c == 'N' {
        Some(seq![0b10001u8, 0b11001u8, 0b10101u8, 0b10011u8, 0b10001u8, 0b10001u8, 0b10001u8])
    } else if c == 'O' {
        Some(seq![0b01110u8, 0b10001u8, 0b10001u8, 0b10001u8, 0b10001u8, 0b10001u8, 0b01110u8])
    } else if c == 'P' {
        Some(seq![0b11110u8, 0b10001u8, 0b10001u8, 0b11110u8, 0b10000u8, 0b10000u8, 0b10000u8])
    } else if c == 'R' {
        Some(seq![0b11110u8, 0b10001u8, 0b10001u8, 0b11110u8, 0b10100u8, 0b10010u8, 0b10001u8])
    } else if c == 'S' {
        Some(seq![0b01111u8, 0b10000u8, 0b10000u8, 0b01110u8, 0b00001u8, 0b00001u8, 0b11110u8])
    } else if c == 'T' {
        Some(seq![0b11111u8, 0b00100u8, 0b00100u8, 0b00100u8, 0b00100u8, 0b00100u8, 0b00100u8])
    } else if c == 'U' {
        Some(seq![0b10001u8, 0b10001u8, 0b10001u8, 0b10001u8, 0b10001u8, 0b10001u8, 0b01110u8])
    } else if c == 'V' {
        Some(seq![0b10001u8, 0b10001u8, 0b10001u8, 0b10001u8, 0b10001u8, 0b01010u8, 0b00100u8])
    } else if c == 'Y' {
        Some(seq![0b10001u8, 0b10001u8, 0b01010u8, 0b00100u8, 0b00100u8, 0b00100u8, 0b00100u8])
    } else if c == '0' {
        Some(seq![0b01110u8, 0b10001u8, 0b10011u8, 0b10101u8, 0b11001u8, 0b10001u8, 0b01110u8])
    } else if c == '1' {
        Some(seq![0b00100u8, 0b01100u8, 0b00100u8, 0b00100u8, 0b00100u8, 0b00100u8, 0b01110u8])
    } else if c == '2' {
        Some(seq![0b01110u8, 0b10001u8, 0b00001u8, 0b00010u8, 0b00100u8, 0b01000u8, 0b11111u8])
    } else if c == '3' {
        Some(seq![0b11110u8, 0b00001u8, 0b00001u8, 0b01110u8, 0b00001u8, 0b00001u8, 0b11110u8])
    } else if c == '4' {
        Some(seq![0b00010u8, 0b00110u8, 0b01010u8, 0b10010u8, 0b11111u8, 0b00010u8, 0b00010u8])
    } else if c == '5' {
        Some(seq![0b11111u8, 0b10000u8, 0b10000u8, 0b11110u8, 0b00001u8, 0b00001u8, 0b11110u8])
    } else if c == '6' {
        Some(seq![0b01110u8, 0b10000u8, 0b10000u8, 0b11110u8, 0b10001u8, 0b10001u8, 0b01110u8])
    } else if c == '7' {
        Some(seq![0b11111u8, 0b00001u8, 0b00010u8, 0b00100u8, 0b01000u8, 0b01000u8, 0b01000u8])
    } else if c == '8' {
        Some(seq![0b01110u8, 0b10001u8, 0b10001u8, 0b01110u8, 0b10001u8, 0b10001u8, 0b01110u8])
    } else if c == '9' {
        Some(seq![0b01110u8, 0b10001u8, 0b10001u8, 0b01111u8, 0b00001u8, 0b00001u8, 0b01110u8])
    } else if c == ':' {
        Some(seq![0b00000u8, 0b00100u8, 0b00100u8, 0b00000u8, 0b00100u8, 0b00100u8, 0b00000u8])
    } else {
        None
    }
}

/// The glyph for `character`, or `None` when the font lacks it.
pub fn glyph(character: char) -> (rows: Option<[u8; 7]>)
    ensures
        match rows {
            Some(r) => glyph_rows(character) == Some(r@),
            None => glyph_rows(character) is None,
        },
{
    let rows = match character {
        'A' => Some([0b01110, 0b10001, 0b10001, 0b11111, 0b10001, 0b10001, 0b10001]),
        'B' => Some([0b11110, 0b10001, 0b10001, 0b11110, 0b10001, 0b10001, 0b11110]),
        'C' => Some([0b01111, 0b10000, 0b10000, 0b10000, 0b10000, 0b10000, 0b01111]),
        'D' => Some([0b11110, 0b10001, 0b10001, 0b10001, 0b10001, 0b10001, 0b11110]),
        'E' => Some([0b11111, 0b10000, 0b10000, 0b11110, 0b10000, 0b10000, 0b11111]),
        'F' => Some([0b11111, 0b10000, 0b10000, 0b11110, 0b10000, 0b10000, 0b10000]),
        'G' => Some([0b01111, 0b10000, 0b10000, 0b10111, 0b10001, 0b10001, 0b01111]),
        'I' => Some([0b11111, 0b00100, 0b00100, 0b00100, 0b00100, 0b00100, 0b11111]),
        'L' => Some([0b10000, 0b10000, 0b10000, 0b10000, 0b10000, 0b10000, 0b11111]),
        'M' => Some([0b10001, 0b11011, 0b10101, 0b10101, 0b10001, 0b10001, 0b10001]),
        'N' => Some([0b10001, 0b11001, 0b10101, 0b10011, 0b10001, 0b10001, 0b10001]),
        'O' => Some([0b01110, 0b10001, 0b10001, 0b10001, 0b10001, 0b10001, 0b01110]),
        'P' => Some([0b11110, 0b10001, 0b10001, 0b11110, 0b10000, 0b10000, 0b10000]),
        'R' => Some([0b11110, 0b10001, 0b10001, 0b11110, 0b10100, 0b10010, 0b10001]),
        'S' => Some([0b01111, 0b10000, 0b10000, 0b01110, 0b00001, 0b00001, 0b11110]),
        'T' => Some([0b11111, 0b00100, 0b00100, 0b00100, 0b00100, 0b00100, 0b00100]),
        'U' => Some([0b10001, 0b10001, 0b10001, 0b10001, 0b10001, 0b10001, 0b01110]),
        'V' => Some([0b10001, 0b10001, 0b10001, 0b10001, 0b10001, 0b01010, 0b00100]),
        'Y' => Some([0b10001, 0b10001, 0b01010, 0b00100, 0b00100, 0b00100, 0b00100]),
        '0' => Some([0b01110, 0b10001, 0b10011, 0b10101, 0b11001, 0b10001, 0b01110]),
        '1' => Some([0b00100, 0b01100, 0b00100, 0b00100, 0b00100, 0b00100, 0b01110]),
        '2' => Some([0b01110, 0b10001, 0b00001, 0b00010, 0b00100, 0b01000, 0b11111]),
        '3' => Some([0b11110, 0b00001, 0b00001, 0b01110, 0b00001, 0b00001, 0b11110]),
        '4' => Some([0b00010, 0b00110, 0b01010, 0b10010, 0b11111, 0b00010, 0b00010]),
        '5' => Some([0b11111, 0b10000, 0b10000, 0b11110, 0b00001, 0b00001, 0b11110]),
        '6' => Some([0b01110, 0b10000, 0b10000, 0b11110, 0b10001, 0b10001, 0b01110]),
        '7' => Some([0b11111, 0b00001, 0b00010, 0b00100, 0b01000, 0b01000, 0b01000]),
        '8' => Some([0b01110, 0b10001, 0b10001, 0b01110, 0b10001, 0b10001, 0b01110]),
        '9' => Some([0b01110, 0b10001, 0b10001, 0b01111, 0b00001, 0b00001, 0b01110]),
        ':' => Some([0b00000, 0b00100, 0b00100, 0b00000, 0b00100, 0b00100, 0b00000]),
        _ => None,
    };
    proof {
        if let Some(r) = rows {
            assert(glyph_rows(character) == Some(r@));
        }
    }
    rows
}

/// Whether column `column` (0 at the left) of a glyph row is lit.
pub open spec fn glyph_pixel_set(bits: u8, column: int) -> bool {
    bits & (1u8 << ((4 - column) as u8)) != 0
}

/// The pixel `(px, py)` lies in the enlarged pixel of row `r`, column `col`
/// of a glyph drawn at `(x, y)` with factor `scale`.
pub open spec fn in_glyph_cell(x: int, y: int, scale: int, r: int, col: int, px: int, py: int) -> bool {
    &&& x + col * scale <= px < x + col * scale + scale
    &&& y + r * scale <= py < y + r * scale + scale
}

/// Among the first `n` cells of the glyph (row by row), a lit one covers
/// `(px, py)`.
pub open spec fn glyph_prefix_covers(
    rows: Seq<u8>,
    n: int,
    x: int,
    y: int,
    scale: int,
    px: int,
    py: int,
) -> bool {
    exists|r: int, col: int|
        0 <= r < 7 && 0 <= col < 5 && r * 5 + col < n && #[trigger] glyph_pixel_set(rows[r], col)
            && in_glyph_cell(x, y, scale, r, col, px, py)
}

/// The glyph of `c` drawn with its top-left corner at `(x, y)`, each font
/// pixel enlarged to a `scale` x `scale` square, covers `(px, py)`.
pub open spec fn glyph_covers(c: char, x: int, y: int, scale: int, px: int, py: int) -> bool {
    match glyph_rows(c) {
        Some(rows) => glyph_prefix_covers(rows, 35, x, y, scale, px, py),
        None => false,
    }
}

/// Horizontal distance from one character to the next: a space is half a
/// glyph wide, every other character a full glyph, and one `scale` of
/// spacing follows each.
pub open spec fn char_advance(c: char, scale: int) -> int {
    if c == ' ' {
        2 * scale + scale
    } else {
        5 * scale + scale
    }
}

/// Where character `k` of `chars` starts, relative to the text's start.
pub open spec fn cursor_offset(chars: Seq<char>, k: int, scale: int) -> int
    decreases k,
{
    if k <= 0 {
        0
    } else {
        cursor_offset(chars, k - 1, scale) + char_advance(chars[k - 1], scale)
    }
}

/// Among the first `n` characters of `chars`, drawn from `(x, y)`, one
/// covers `(px, py)`.
pub open spec fn text_prefix_covers(
    chars: Seq<char>,
    n: int,
    x: int,
    y: int,
    scale: int,
    px: int,
    py: int,
) -> bool {
    exists|k: int|
        0 <= k < n && chars[k] != ' ' && #[trigger] glyph_covers(
            chars[k],
            x + cursor_offset(chars, k, scale),
            y,
            scale,
            px,
            py,
        )
}

/// The layer of text `chars` drawn from `(x, y)` with factor `scale`.
pub open spec fn text_layer(chars: Seq<char>, x: int, y: int, scale: int, color: u32) -> Layer {
    (|px: int, py: int| text_prefix_covers(chars, chars.len() as int, x, y, scale, px, py), color)
}

/// Sum of the glyph widths of `chars`: half a glyph for a space, a full one
/// for any other character.
pub open spec fn glyph_widths(chars: Seq<char>, scale: int) -> int
    decreases chars.len(),
{
    if chars.len() == 0 {
        0
    } else {
        glyph_widths(chars.drop_last(), scale) + (if chars.last() == ' ' {
            2 * scale
        } else {
            5 * scale
        })
    }
}

/// Width of text `chars` at factor `scale`: its glyphs plus one `scale` of
/// spacing between neighbouring characters.
pub open spec fn text_width_of(chars: Seq<char>, scale: int) -> int {
    glyph_widths(chars, scale) + (if chars.len() == 0 {
        0
    } else {
        chars.len() - 1
    }) * scale
}

/// `v / 2` rounded toward zero.
pub open spec fn half_toward_zero(v: int) -> int {
    if v >= 0 {
        v / 2
    } else {
        -((-v) / 2)
    }
}

/// Column where text `width` pixels wide starts when centered on a
/// framebuffer `frame_width` pixels wide.
pub open spec fn centered_x(frame_width: int, width: int) -> int {
    half_toward_zero(frame_width - width)
}

/// Bound on the drawing position of a glyph.
pub open spec fn glyph_coord_ok(v: int) -> bool {
    -0x400_0000 <= v <= 0x400_0000
}

/// Bound on the drawing position of a text.
pub open spec fn text_coord_ok(v: int) -> bool {
    -0x200_0000 <= v <= 0x200_0000
}

/// Bound on the enlargement factor of text.
pub open spec fn scale_ok(scale: int) -> bool {
    -0x400 <= scale <= 0x400
}

/// Bound on the length of a text.
pub open spec fn text_len_ok(len: int) -> bool {
    len <= 0x400
}

/// The string holding `chars`, collected by `String::from_iter`.
#[verifier::external_body]
pub(crate) fn string_from_chars(chars: &Vec<char>) -> (s: String)
    ensures
        s@ == chars@,
{
    chars.iter().collect()
}

/// The characters of `text`.
pub fn text_chars(text: &str) -> (chars: Vec<char>)
    ensures
        chars@ == text@,
{
    let mut chars: Vec<char> = Vec::new();
    for c in it: text.chars()
        invariant
            chars@ == it.seq().take(it.index() as int),
            it.seq() == text@,
    {
        chars.push(c);
    }
    chars
}

/// Advancing through a glyph's cells: cell `n` is the next one covered.
proof fn lemma_glyph_prefix_step(
    rows: Seq<u8>,
    n: int,
    x: int,
    y: int,
    scale: int,
    square: spec_fn(int, int) -> bool,
)
    requires
        0 <= n < 35,
        forall|px: int, py: int| #[trigger] square(px, py) == (glyph_pixel_set(rows[n / 5], n % 5)
            && in_glyph_cell(x, y, scale, n / 5, n % 5, px, py)),
    ensures
        forall|px: int, py: int|
            #[trigger] glyph_prefix_covers(rows, n + 1, x, y, scale, px, py) == (glyph_prefix_covers(
                rows,
                n,
                x,
                y,
                scale,
                px,
                py,
            ) || square(px, py)),
{
    assert forall|px: int, py: int|
        #[trigger] glyph_prefix_covers(rows, n + 1, x, y, scale, px, py) == (glyph_prefix_covers(
            rows,
            n,
            x,
            y,
            scale,
            px,
            py,
        ) || square(px, py)) by {
        if glyph_prefix_covers(rows, n + 1, x, y, scale, px, py) {
            let (r, col) = choose|r: int, col: int|
                0 <= r < 7 && 0 <= col < 5 && r * 5 + col < n + 1 && #[trigger] glyph_pixel_set(
                    rows[r],
                    col,
                ) && in_glyph_cell(x, y, scale, r, col, px, py);
            if r * 5 + col == n {
                assert(r == n / 5 && col == n % 5);
            }
        }
        if square(px, py) {
            assert(glyph_pixel_set(rows[n / 5], n % 5) && in_glyph_cell(x, y, scale, n / 5, n % 5, px, py));
            assert((n / 5) * 5 + n % 5 == n);
        }
    }
}

/// Draws the glyph of `character` with its top-left corner at `(x, y)` in
/// the current color, each font pixel enlarged to a `scale` x `scale`
/// square; a character the font lacks draws nothing.
pub fn draw_char(framebuffer: &mut Framebuffer, character: char, x: isize, y: isize, scale: isize)
    requires
        old(framebuffer).wf(),
        glyph_coord_ok(x as int),
        glyph_coord_ok(y as int),
        scale_ok(scale as int),
    ensures
        final(framebuffer).wf(),
        final(framebuffer).width == old(framebuffer).width,
        final(framebuffer).height == old(framebuffer).height,
        final(framebuffer).current_color == old(framebuffer).current_color,
        frame_drawn(
            old(framebuffer).buffer@,
            final(framebuffer).buffer@,
            old(framebuffer).width as int,
            old(framebuffer).height as int,
            seq![
                (
                    |px: int, py: int|
                        glyph_covers(character, x as int, y as int, scale as int, px, py),
                    old(framebuffer).current_color,
                ),
            ],
        ),
{
    let ghost before = framebuffer.buffer@;
    let ghost w = framebuffer.width as int;
    let ghost h = framebuffer.height as int;
    let ghost color = framebuffer.current_color;
    let ghost (gx, gy, gs) = (x as int, y as int, scale as int);
    let rows = match glyph(character) {
        Some(rows) => rows,
        None => {
            proof {
                let target = (
                    |px: int, py: int| glyph_covers(character, gx, gy, gs, px, py),
                    color,
                );
                lemma_frame_drawn_nothing(before, w, h);
                assert forall|px: int, py: int| 0 <= px < w && 0 <= py < h implies #[trigger] before[crate::framebuffer::pixel_index(
                    w,
                    px,
                    py,
                )] == crate::framebuffer::layered_color(
                    seq![target],
                    px,
                    py,
                    before[crate::framebuffer::pixel_index(w, px, py)],
                ) by {
                    lemma_layered_single(target, px, py, before[crate::framebuffer::pixel_index(w, px, py)]);
                }
            }
            return;
        },
    };
    let ghost grows = rows@;
    proof {
        let target0 = (|px: int, py: int| glyph_prefix_covers(grows, 0, gx, gy, gs, px, py), color);
        assert forall|px: int, py: int| 0 <= px < w && 0 <= py < h implies #[trigger] before[crate::framebuffer::pixel_index(
            w,
            px,
            py,
        )] == crate::framebuffer::layered_color(
            seq![target0],
            px,
            py,
            before[crate::framebuffer::pixel_index(w, px, py)],
        ) by {
            lemma_layered_single(target0, px, py, before[crate::framebuffer::pixel_index(w, px, py)]);
        }
    }
    let mut row: usize = 0;
    while row < 7
        invariant
            framebuffer.wf(),
            framebuffer.width == w,
            framebuffer.height == h,
            framebuffer.current_color == color,
            grows == rows@,
            glyph_rows(character) == Some(grows),
            gx == x as int && gy == y as int && gs == scale as int,
            glyph_coord_ok(gx),
            glyph_coord_ok(gy),
            scale_ok(gs),
            row <= 7,
            frame_drawn(
                before,
                framebuffer.buffer@,
                w,
                h,
                seq![
                    (
                        |px: int, py: int|
                            glyph_prefix_covers(grows, row * 5, gx, gy, gs, px, py),
                        color,
                    ),
                ],
            ),
        decreases 7 - row,
    {
        let bits = rows[row];
        let mut column: usize = 0;
        while column < 5
            invariant
                framebuffer.wf(),
                framebuffer.width == w,
                framebuffer.height == h,
                framebuffer.current_color == color,
                grows == rows@,
                bits == grows[row as int],
                gx == x as int && gy == y as int && gs == scale as int,
                glyph_coord_ok(gx),
                glyph_coord_ok(gy),
                scale_ok(gs),
                row < 7,
                column <= 5,
                frame_drawn(
                    before,
                    framebuffer.buffer@,
                    w,
                    h,
                    seq![
                        (
                            |px: int, py: int|
                                glyph_prefix_covers(grows, row * 5 + column, gx, gy, gs, px, py),
                            color,
                        ),
                    ],
                ),
            decreases 5 - column,
        {
            let ghost n = row * 5 + column;
            let ghost mid = framebuffer.buffer@;
            let shift = (4 - column) as u32;
            let lit = bits & (1u8 << shift) != 0;
            proof {
                assert(n / 5 == row as int && n % 5 == column as int);
                assert(lit == glyph_pixel_set(grows[n / 5], n % 5)) by {
                    assert(shift == (4 - column) as u8);
                }
            }
            if lit {
                proof {
                    assert(-0x1000 <= (column as int) * gs <= 0x1000) by (nonlinear_arith)
                        requires
                            0 <= column < 5,
                            -0x400 <= gs <= 0x400,
                    ;
                    assert(-0x1c00 <= (row as int) * gs <= 0x1c00) by (nonlinear_arith)
                        requires
                            0 <= row < 7,
                            -0x400 <= gs <= 0x400,
                    ;
                    assert((column as isize) as int == column as int);
                    assert((row as isize) as int == row as int);
                    assert(glyph_coord_ok(x as int) && glyph_coord_ok(y as int));
                }
                let ci = column as isize;
                let ri = row as isize;
                assert(-0x1000 <= ci * scale <= 0x1000) by (nonlinear_arith)
                    requires
                        0 <= ci < 5,
                        -0x400 <= scale <= 0x400,
                ;
                assert(-0x1c00 <= ri * scale <= 0x1c00) by (nonlinear_arith)
                    requires
                        0 <= ri < 7,
                        -0x400 <= scale <= 0x400,
                ;
                let cx = x + ci * scale;
                let cy = y + ri * scale;
                draw_scaled_pixel(framebuffer, cx, cy, scale);
                proof {
                    let square = crate::framebuffer::rect_layer(cx as int, cy as int, gs, gs, color).0;
                    lemma_glyph_prefix_step(grows, n, gx, gy, gs, square);
                    lemma_frame_drawn_union(
                        before,
                        mid,
                        framebuffer.buffer@,
                        w,
                        h,
                        |px: int, py: int| glyph_prefix_covers(grows, n, gx, gy, gs, px, py),
                        square,
                        |px: int, py: int| glyph_prefix_covers(grows, n + 1, gx, gy, gs, px, py),
                        color,
                    );
                }
            } else {
                proof {
                    let nothing = |px: int, py: int| false;
                    lemma_glyph_prefix_step(grows, n, gx, gy, gs, nothing);
                    lemma_frame_drawn_nothing(mid, w, h);
                    let empty = (nothing, color);
                    assert forall|px: int, py: int| 0 <= px < w && 0 <= py < h implies #[trigger] mid[crate::framebuffer::pixel_index(
                        w,
                        px,
                        py,
                    )] == crate::framebuffer::layered_color(
                        seq![empty],
                        px,
                        py,
                        mid[crate::framebuffer::pixel_index(w, px, py)],
                    ) by {
                        lemma_layered_single(empty, px, py, mid[crate::framebuffer::pixel_index(w, px, py)]);
                    }
                    lemma_frame_drawn_union(
                        before,
                        mid,
                        mid,
                        w,
                        h,
                        |px: int, py: int| glyph_prefix_covers(grows, n, gx, gy, gs, px, py),
                        nothing,
                        |px: int, py: int| glyph_prefix_covers(grows, n + 1, gx, gy, gs, px, py),
                        color,
                    );
                }
            }
            column = column + 1;
        }
        row = row + 1;
    }
    proof {
        let done = (|px: int, py: int| glyph_prefix_covers(grows, 35, gx, gy, gs, px, py), color);
        let target = (|px: int, py: int| glyph_covers(character, gx, gy, gs, px, py), color);
        assert forall|px: int, py: int, base: u32|
            0 <= px < w && 0 <= py < h implies #[trigger] crate::framebuffer::layered_color(
            seq![done],
            px,
            py,
            base,
        ) == crate::framebuffer::layered_color(seq![target], px, py, base) by {
            lemma_layered_single(done, px, py, base);
            lemma_layered_single(target, px, py, base);
        }
        crate::framebuffer::lemma_frame_drawn_same_colors(
            before,
            framebuffer.buffer@,
            w,
            h,
            seq![done],
            seq![target],
        );
    }
}

/// Character positions move by at most six enlarged pixels per character.
proof fn lemma_cursor_offset_bound(chars: Seq<char>, k: int, scale: int)
    requires
        0 <= k,
        scale_ok(scale),
    ensures
        -6144 * k <= cursor_offset(chars, k, scale) <= 6144 * k,
    decreases k,
{
    if k > 0 {
        lemma_cursor_offset_bound(chars, k - 1, scale);
    }
}

/// Glyph widths grow by at most five enlarged pixels per character.
proof fn lemma_glyph_widths_bound(chars: Seq<char>, scale: int)
    requires
        scale_ok(scale),
    ensures
        -5120 * chars.len() <= glyph_widths(chars, scale) <= 5120 * chars.len(),
    decreases chars.len(),
{
    if chars.len() > 0 {
        lemma_glyph_widths_bound(chars.drop_last(), scale);
    }
}

/// Taking one more character into the drawn text.
proof fn lemma_text_prefix_step(chars: Seq<char>, k: int, x: int, y: int, scale: int)
    requires
        0 <= k < chars.len(),
    ensures
        forall|px: int, py: int|
            #[trigger] text_prefix_covers(chars, k + 1, x, y, scale, px, py) == (text_prefix_covers(
                chars,
                k,
                x,
                y,
                scale,
                px,
                py,
            ) || (chars[k] != ' ' && glyph_covers(
                chars[k],
                x + cursor_offset(chars, k, scale),
                y,
                scale,
                px,
                py,
            ))),
{
    assert forall|px: int, py: int|
        #[trigger] text_prefix_covers(chars, k + 1, x, y, scale, px, py) == (text_prefix_covers(
            chars,
            k,
            x,
            y,
            scale,
            px,
            py,
        ) || (chars[k] != ' ' && glyph_covers(
            chars[k],
            x + cursor_offset(chars, k, scale),
            y,
            scale,
            px,
            py,
        ))) by {
        if text_prefix_covers(chars, k + 1, x, y, scale, px, py) {
            let j = choose|j: int|
                0 <= j < k + 1 && chars[j] != ' ' && #[trigger] glyph_covers(
                    chars[j],
                    x + cursor_offset(chars, j, scale),
                    y,
                    scale,
                    px,
                    py,
                );
            if j < k {
                assert(text_prefix_covers(chars, k, x, y, scale, px, py));
            }
        }
    }
}

/// Draws `chars` from `(x, y)` in `color`, which becomes the current color:
/// each character the font has is drawn as `draw_char` does, a space (or a
/// character the font lacks) leaves a gap.
pub fn draw_text_chars(
    framebuffer: &mut Framebuffer,
    chars: &Vec<char>,
    x: isize,
    y: isize,
    scale: isize,
    color: u32,
)
    requires
        old(framebuffer).wf(),
        text_coord_ok(x as int),
        text_coord_ok(y as int),
        scale_ok(scale as int),
        text_len_ok(chars@.len() as int),
    ensures
        final(framebuffer).wf(),
        final(framebuffer).width == old(framebuffer).width,
        final(framebuffer).height == old(framebuffer).height,
        final(framebuffer).current_color == color,
        frame_drawn(
            old(framebuffer).buffer@,
            final(framebuffer).buffer@,
            old(framebuffer).width as int,
            old(framebuffer).height as int,
            seq![text_layer(chars@, x as int, y as int, scale as int, color)],
        ),
{
    let ghost before = framebuffer.buffer@;
    let ghost w = framebuffer.width as int;
    let ghost h = framebuffer.height as int;
    let ghost (gx, gy, gs) = (x as int, y as int, scale as int);
    let ghost text = chars@;
    framebuffer.set_current_color(color);
    proof {
        let target0 = (|px: int, py: int| text_prefix_covers(text, 0, gx, gy, gs, px, py), color);
        assert forall|px: int, py: int| 0 <= px < w && 0 <= py < h implies #[trigger] before[crate::framebuffer::pixel_index(
            w,
            px,
            py,
        )] == crate::framebuffer::layered_color(
            seq![target0],
            px,
            py,
            before[crate::framebuffer::pixel_index(w, px, py)],
        ) by {
            lemma_layered_single(target0, px, py, before[crate::framebuffer::pixel_index(w, px, py)]);
        }
    }
    let mut cursor_x = x;
    let mut k: usize = 0;
    while k < chars.len()
        invariant
            framebuffer.wf(),
            framebuffer.width == w,
            framebuffer.height == h,
            framebuffer.current_color == color,
            text == chars@,
            gx == x as int && gy == y as int && gs == scale as int,
            text_coord_ok(gx),
            text_coord_ok(gy),
            scale_ok(gs),
            text_len_ok(text.len() as int),
            k <= text.len(),
            cursor_x as int == gx + cursor_offset(text, k as int, gs),
            frame_drawn(
                before,
                framebuffer.buffer@,
                w,
                h,
                seq![
                    (
                        |px: int, py: int| text_prefix_covers(text, k as int, gx, gy, gs, px, py),
                        color,
                    ),
                ],
            ),
        decreases text.len() - k,
    {
        let ghost mid = framebuffer.buffer@;
        let character = chars[k];
        proof {
            lemma_cursor_offset_bound(text, k as int, gs);
            lemma_cursor_offset_bound(text, k + 1, gs);
            lemma_text_prefix_step(text, k as int, gx, gy, gs);
        }
        if character == ' ' {
            proof {
                let nothing = |px: int, py: int| false;
                lemma_frame_drawn_nothing(mid, w, h);
                let empty = (nothing, color);
                assert forall|px: int, py: int| 0 <= px < w && 0 <= py < h implies #[trigger] mid[crate::framebuffer::pixel_index(
                    w,
                    px,
                    py,
                )] == crate::framebuffer::layered_color(
                    seq![empty],
                    px,
                    py,
                    mid[crate::framebuffer::pixel_index(w, px, py)],
                ) by {
                    lemma_layered_single(empty, px, py, mid[crate::framebuffer::pixel_index(w, px, py)]);
                }
                lemma_frame_drawn_union(
                    before,
                    mid,
                    mid,
                    w,
                    h,
                    |px: int, py: int| text_prefix_covers(text, k as int, gx, gy, gs, px, py),
                    nothing,
                    |px: int, py: int| text_prefix_covers(text, k + 1, gx, gy, gs, px, py),
                    color,
                );
            }
            cursor_x = cursor_x + GLYPH_WIDTH / 2 * scale + scale;
        } else {
            draw_char(framebuffer, character, cursor_x, y, scale);
            proof {
                lemma_frame_drawn_union(
                    before,
                    mid,
                    framebuffer.buffer@,
                    w,
                    h,
                    |px: int, py: int| text_prefix_covers(text, k as int, gx, gy, gs, px, py),
                    |px: int, py: int| glyph_covers(character, cursor_x as int, gy, gs, px, py),
                    |px: int, py: int| text_prefix_covers(text, k + 1, gx, gy, gs, px, py),
                    color,
                );
            }
            cursor_x = cursor_x + GLYPH_WIDTH * scale + scale;
        }
        k = k + 1;
    }
}

/// Draws `text` from `(x, y)` in `color`, as `draw_text_chars` does.
pub fn draw_text(framebuffer: &mut Framebuffer, text: &str, x: isize, y: isize, scale: isize, color: u32)
    requires
        old(framebuffer).wf(),
        text_coord_ok(x as int),
        text_coord_ok(y as int),
        scale_ok(scale as int),
        text_len_ok(text@.len() as int),
    ensures
        final(framebuffer).wf(),
        final(framebuffer).width == old(framebuffer).width,
        final(framebuffer).height == old(framebuffer).height,
        final(framebuffer).current_color == color,
        frame_drawn(
            old(framebuffer).buffer@,
            final(framebuffer).buffer@,
            old(framebuffer).width as int,
            old(framebuffer).height as int,
            seq![text_layer(text@, x as int, y as int, scale as int, color)],
        ),
{
    let chars = text_chars(text);
    draw_text_chars(framebuffer, &chars, x, y, scale, color);
}

/// Width of `chars` drawn at factor `scale`.
pub fn text_width_chars(chars: &Vec<char>, scale: isize) -> (width: isize)
    requires
        scale_ok(scale as int),
        text_len_ok(chars@.len() as int),
    ensures
        width == text_width_of(chars@, scale as int),
{
    let mut sum: isize = 0;
    let mut k: usize = 0;
    while k < chars.len()
        invariant
            scale_ok(scale as int),
            text_len_ok(chars@.len() as int),
            k <= chars@.len(),
            sum == glyph_widths(chars@.take(k as int), scale as int),
        decreases chars@.len() - k,
    {
        proof {
            lemma_glyph_widths_bound(chars@.take(k as int), scale as int);
            assert(chars@.take(k + 1).drop_last() =~= chars@.take(k as int));
        }
        if chars[k] == ' ' {
            sum = sum + GLYPH_WIDTH / 2 * scale;
        } else {
            sum = sum + GLYPH_WIDTH * scale;
        }
        k = k + 1;
    }
    proof {
        assert(chars@.take(chars@.len() as int) =~= chars@);
        lemma_glyph_widths_bound(chars@, scale as int);
    }
    let gaps: usize = if chars.len() == 0 {
        0
    } else {
        chars.len() - 1
    };
    assert(-0x10_0000 <= (gaps as isize) * scale <= 0x10_0000) by (nonlinear_arith)
        requires
            0 <= gaps <= 0x400,
            -0x400 <= scale <= 0x400,
    ;
    sum + (gaps as isize) * scale
}

/// Width of `text` drawn at factor `scale`: its glyphs (half a glyph for a
/// space) plus one `scale` of spacing between neighbouring characters.
pub fn text_width(text: &str, scale: isize) -> (width: isize)
    requires
        scale_ok(scale as int),
        text_len_ok(text@.len() as int),
    ensures
        width == text_width_of(text@, scale as int),
{
    let chars = text_chars(text);
    text_width_chars(&chars, scale)
}

/// Text widths stay small.
pub proof fn lemma_text_width_bound(chars: Seq<char>, scale: int)
    requires
        scale_ok(scale),
        text_len_ok(chars.len() as int),
    ensures
        -0x80_0000 <= text_width_of(chars, scale) <= 0x80_0000,
{
    lemma_glyph_widths_bound(chars, scale);
    assert(-0x10_0000 <= (if chars.len() == 0 {
        0
    } else {
        chars.len() - 1
    }) * scale <= 0x10_0000) by (nonlinear_arith)
        requires
            0 <= chars.len() <= 0x400,
            -0x400 <= scale <= 0x400,
    ;
}

/// Bound on the row of centered text.
pub open spec fn centered_row_ok(y: int) -> bool {
    -0x100_0000 <= y <= 0x100_0000
}

/// The layers of `chars` centered horizontally at row `y`: its shadow, one
/// `scale` right and down, then the text itself in `color`.
pub open spec fn centered_text_layers(
    frame_width: int,
    chars: Seq<char>,
    y: int,
    scale: int,
    color: u32,
) -> Seq<Layer> {
    let x = centered_x(frame_width, text_width_of(chars, scale));
    seq![
        text_layer(chars, x + scale, y + scale, scale, VICTORY_SHADOW_COLOR),
        text_layer(chars, x, y, scale, color),
    ]
}

/// Draws `chars` horizontally centered at row `y` in `color` over its dark
/// shadow; `color` becomes the current color.
pub fn draw_text_centered_chars(
    framebuffer: &mut Framebuffer,
    chars: &Vec<char>,
    y: isize,
    scale: isize,
    color: u32,
)
    requires
        old(framebuffer).wf(),
        centered_row_ok(y as int),
        scale_ok(scale as int),
        text_len_ok(chars@.len() as int),
    ensures
        final(framebuffer).wf(),
        final(framebuffer).width == old(framebuffer).width,
        final(framebuffer).height == old(framebuffer).height,
        final(framebuffer).current_color == color,
        frame_drawn(
            old(framebuffer).buffer@,
            final(framebuffer).buffer@,
            old(framebuffer).width as int,
            old(framebuffer).height as int,
            centered_text_layers(old(framebuffer).width as int, chars@, y as int, scale as int, color),
        ),
{
    let ghost before = framebuffer.buffer@;
    let ghost w = framebuffer.width as int;
    let ghost h = framebuffer.height as int;
    let width = text_width_chars(chars, scale);
    proof {
        lemma_glyph_widths_bound(chars@, scale as int);
        assert(-0x10_0000 <= (if chars@.len() == 0 {
            0
        } else {
            chars@.len() - 1
        }) * scale <= 0x10_0000) by (nonlinear_arith)
            requires
                0 <= chars@.len() <= 0x400,
                -0x400 <= scale <= 0x400,
        ;
    }
    let diff = framebuffer.width as isize - width;
    let x = if diff >= 0 {
        diff / 2
    } else {
        -((-diff) / 2)
    };
    draw_text_chars(framebuffer, chars, x + scale, y + scale, scale, VICTORY_SHADOW_COLOR);
    let ghost mid = framebuffer.buffer@;
    draw_text_chars(framebuffer, chars, x, y, scale, color);
    proof {
        lemma_frame_drawn_concat(
            before,
            mid,
            framebuffer.buffer@,
            w,
            h,
            seq![text_layer(chars@, x + scale, y + scale, scale as int, VICTORY_SHADOW_COLOR)],
            seq![text_layer(chars@, x as int, y as int, scale as int, color)],
        );
        assert(seq![text_layer(chars@, x + scale, y + scale, scale as int, VICTORY_SHADOW_COLOR)]
            + seq![text_layer(chars@, x as int, y as int, scale as int, color)]
            =~= centered_text_layers(w, chars@, y as int, scale as int, color));
    }
}

/// Draws `text` horizontally centered at row `y`, as
/// `draw_text_centered_chars` does.
pub fn draw_text_centered(framebuffer: &mut Framebuffer, text: &str, y: isize, scale: isize, color: u32)
    requires
        old(framebuffer).wf(),
        centered_row_ok(y as int),
        scale_ok(scale as int),
        text_len_ok(text@.len() as int),
    ensures
        final(framebuffer).wf(),
        final(framebuffer).width == old(framebuffer).width,
        final(framebuffer).height == old(framebuffer).height,
        final(framebuffer).current_color == color,
        frame_drawn(
            old(framebuffer).buffer@,
            final(framebuffer).buffer@,
            old(framebuffer).width as int,
            old(framebuffer).height as int,
            centered_text_layers(old(framebuffer).width as int, text@, y as int, scale as int, color),
        ),
{
    let chars = text_chars(text);
    draw_text_centered_chars(framebuffer, &chars, y, scale, color);
}

/// Text width adds up glyph by glyph: an empty text has no width, one
/// character is five columns wide (a space two), and each further character
/// adds its own width plus one column of spacing, all times the factor.
pub proof fn lemma_text_width_adds_up(chars: Seq<char>, c: char, scale: int)
    ensures
        text_width_of(Seq::empty(), scale) == 0,
        text_width_of(seq![c], scale) == (if c == ' ' {
            2 * scale
        } else {
            5 * scale
        }),
        chars.len() > 0 ==> text_width_of(chars.push(c), scale) == text_width_of(chars, scale) + scale
            + (if c == ' ' {
            2 * scale
        } else {
            5 * scale
        }),
{
    assert(seq![c].drop_last() =~= Seq::<char>::empty());
    assert(chars.push(c).drop_last() =~= chars);
    if chars.len() > 0 {
        assert(((chars.len() + 1) - 1) * scale == (chars.len() - 1) * scale + scale) by (nonlinear_arith);
    }
}

} // verus!
