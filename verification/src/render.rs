//! The renderer's integer parts: the 2D map, the minimap grid, and the menu
//! screens with their texts.
use vstd::prelude::*;
use vstd::arithmetic::div_mod::{lemma_fundamental_div_mod, lemma_mod_bound};

use crate::framebuffer::{
    frame_drawn, layered_color, lemma_frame_drawn_concat, lemma_frame_drawn_nothing, pixel_index,
    rect_layer, Framebuffer, Layer, MAX_FRAME_SIDE,
};
use crate::maze::{maze_rows, Maze};
use crate::line::{lemma_axis_line_covers, line_layer};
use crate::shapes::fill_rect;
use crate::text::{
    centered_row_ok, centered_text_layers, draw_text_centered_chars, draw_text_chars, scale_ok,
    text_chars, text_layer, text_len_ok, text_width_chars, text_width_of,
};

pub use crate::line::{line, line_with_shader};
pub use crate::shapes::{draw_rect_outline, draw_scaled_pixel, fill_screen};
pub use crate::text::{draw_char, draw_text, draw_text_centered, glyph, text_width};

verus! {

pub const WALL_COLOR: u32 = 0x3b82f6;
pub const WALL_PLUS_COLOR: u32 = 0xef4444;
pub const WALL_PERCENT_COLOR: u32 = 0x22c55e;
pub const WALL_AT_COLOR: u32 = 0xa855f7;
pub const WALL_AMPERSAND_COLOR: u32 = 0xf97316;
pub const GOAL_WALL_COLOR: u32 = 0xff00ff;
pub const PATH_COLOR: u32 = 0xd1d5db;
pub const GOAL_COLOR: u32 = 0xfacc15;
pub const PLAYER_COLOR: u32 = 0x00e5ff;
pub const PLAYER_DIRECTION_COLOR: u32 = 0xfff7ed;
pub const CEILING_COLOR: u32 = 0x111827;
pub const FLOOR_COLOR: u32 = 0x374151;
pub const UNKNOWN_COLOR: u32 = 0xff00ff;
pub const VICTORY_BACKGROUND_COLOR: u32 = 0x052e2b;
pub const VICTORY_ACCENT_COLOR: u32 = 0xfacc15;
pub const VICTORY_TEXT_COLOR: u32 = 0xfff7ed;
pub const MENU_MAZE_CELL_SIZE: usize = 10;
pub const MENU_MAZE_BOTTOM_MARGIN: usize = 30;
pub const FPS_OVERLAY_BACKGROUND_COLOR: u32 = 0x111111;
pub const FPS_OVERLAY_TEXT_COLOR: u32 = 0xfff7ed;
pub const FPS_OVERLAY_X: isize = 10;
pub const FPS_OVERLAY_Y: isize = 10;
pub const FPS_OVERLAY_PADDING: isize = 6;
pub const FPS_OVERLAY_SCALE: isize = 3;
pub const MINIMAP_CELL_SIZE: usize = 6;
pub const MINIMAP_MARGIN: usize = 10;
pub const MINIMAP_PADDING: usize = 4;
pub const MINIMAP_BACKGROUND_COLOR: u32 = 0x111111;
pub const MINIMAP_BORDER_COLOR: u32 = 0xfff7ed;
pub const MINIMAP_WALL_COLOR: u32 = 0xd1d5db;
pub const MINIMAP_PATH_COLOR: u32 = 0x1f2937;
pub const MINIMAP_GOAL_COLOR: u32 = 0xfacc15;
pub const MINIMAP_PLAYER_COLOR: u32 = 0x00e5ff;
pub const MINIMAP_DIRECTION_COLOR: u32 = 0xfff7ed;
pub const MINIMAP_PLAYER_SIZE: isize = 2;
pub const PLAYER_SIZE: isize = 4;

/// Color of a cell on the 2D map.
pub open spec fn map_cell_color(cell: char) -> u32 {
    if cell == '#' {
        WALL_COLOR
    } else if cell == '+' {
        WALL_PLUS_COLOR
    } else if cell == '%' {
        WALL_PERCENT_COLOR
    } else if cell == '@' {
        WALL_AT_COLOR
    } else if cell == '&' {
        WALL_AMPERSAND_COLOR
    } else if cell == '!' {
        GOAL_WALL_COLOR
    } else if cell == ' ' || cell == 'p' {
        PATH_COLOR
    } else if cell == 'g' {
        GOAL_COLOR
    } else {
        UNKNOWN_COLOR
    }
}

/// Color of a wall symbol; magenta for anything else.
pub open spec fn wall_color_of(impact: char) -> u32 {
    if impact == '#' {
        WALL_COLOR
    } else if impact == '+' {
        WALL_PLUS_COLOR
    } else if impact == '%' {
        WALL_PERCENT_COLOR
    } else if impact == '@' {
        WALL_AT_COLOR
    } else if impact == '&' {
        WALL_AMPERSAND_COLOR
    } else if impact == '!' {
        GOAL_WALL_COLOR
    } else {
        UNKNOWN_COLOR
    }
}

/// Color of a cell on the minimap: walls light, floor dark, goal yellow.
pub open spec fn minimap_color_of(cell: char) -> u32 {
    if cell == '#' || cell == '+' || cell == '%' || cell == '@' || cell == '&' || cell == '!' {
        MINIMAP_WALL_COLOR
    } else if cell == 'g' {
        MINIMAP_GOAL_COLOR
    } else if cell == ' ' || cell == 'p' {
        MINIMAP_PATH_COLOR
    } else {
        UNKNOWN_COLOR
    }
}

/// The color of wall symbol `impact` (magenta for any other character).
pub fn wall_color(impact: char) -> (color: u32)
    ensures
        color == wall_color_of(impact),
{
    match impact {
        '#' => WALL_COLOR,
        '+' => WALL_PLUS_COLOR,
        '%' => WALL_PERCENT_COLOR,
        '@' => WALL_AT_COLOR,
        '&' => WALL_AMPERSAND_COLOR,
        '!' => GOAL_WALL_COLOR,
        _ => UNKNOWN_COLOR,
    }
}

/// The minimap color of `cell`.
pub fn minimap_cell_color(cell: char) -> (color: u32)
    ensures
        color == minimap_color_of(cell),
{
    match cell {
        '#' | '+' | '%' | '@' | '&' | '!' => MINIMAP_WALL_COLOR,
        'g' => MINIMAP_GOAL_COLOR,
        ' ' | 'p' => MINIMAP_PATH_COLOR,
        _ => UNKNOWN_COLOR,
    }
}

/// Channel of `color` starting at bit `shift` (0 blue, 8 green, 16 red).
pub open spec fn channel(color: u32, shift: u32) -> u32 {
    (color >> shift) & 0xff
}

/// `color` with each channel multiplied by `numerator / denominator`
/// (rounded down, a channel that grows past 255 spilling into the next
/// bits); unchanged when `denominator` is 0.
pub open spec fn scaled_color(color: u32, numerator: u32, denominator: u32) -> u32 {
    if denominator == 0 {
        color
    } else {
        let red = (channel(color, 16) * numerator / (denominator as int)) as u32;
        let green = (channel(color, 8) * numerator / (denominator as int)) as u32;
        let blue = (channel(color, 0) * numerator / (denominator as int)) as u32;
        (red << 16u32) | (green << 8u32) | blue
    }
}

/// Scaling every channel of `color` fits in `u32`.
pub open spec fn scale_fits(color: u32, numerator: u32) -> bool {
    &&& channel(color, 16) * numerator <= u32::MAX
    &&& channel(color, 8) * numerator <= u32::MAX
    &&& channel(color, 0) * numerator <= u32::MAX
}

/// `color` darkened (or brightened) by `numerator / denominator`.
pub fn scale_color(color: u32, numerator: u32, denominator: u32) -> (scaled: u32)
    requires
        denominator == 0 || scale_fits(color, numerator),
    ensures
        scaled == scaled_color(color, numerator, denominator),
{
    if denominator == 0 {
        return color;
    }
    assert(color >> 0u32 == color) by (bit_vector);
    let red = ((color >> 16u32) & 0xff) * numerator / denominator;
    let green = ((color >> 8u32) & 0xff) * numerator / denominator;
    let blue = (color & 0xff) * numerator / denominator;
    (red << 16u32) | (green << 8u32) | blue
}

/// Length of the longest row.
pub open spec fn max_row_len(rows: Seq<Seq<char>>) -> nat
    decreases rows.len(),
{
    if rows.len() == 0 {
        0
    } else {
        let rest = max_row_len(rows.drop_last());
        if rows.last().len() > rest {
            rows.last().len()
        } else {
            rest
        }
    }
}

proof fn lemma_max_row_len_bounds(rows: Seq<Seq<char>>)
    ensures
        forall|r: int| 0 <= r < rows.len() ==> #[trigger] rows[r].len() <= max_row_len(rows),
        rows.len() > 0 ==> exists|r: int| 0 <= r < rows.len() && #[trigger] rows[r].len() == max_row_len(rows),
    decreases rows.len(),
{
    if rows.len() > 0 {
        let rest = rows.drop_last();
        lemma_max_row_len_bounds(rest);
        assert forall|r: int| 0 <= r < rows.len() implies #[trigger] rows[r].len() <= max_row_len(rows) by {
            if r < rest.len() {
                assert(rows[r] == rest[r]);
            }
        }
        if rows.last().len() > max_row_len(rest) {
            assert(rows[rows.len() - 1].len() == max_row_len(rows));
        } else if rest.len() > 0 {
            let r = choose|r: int| 0 <= r < rest.len() && #[trigger] rest[r].len() == max_row_len(rest);
            assert(rows[r] == rest[r]);
        } else {
            assert(rows[0].len() == max_row_len(rows));
        }
    }
}

/// Length of the longest row of `maze` (0 for no rows).
pub fn longest_row(maze: &Maze) -> (len: usize)
    ensures
        len == max_row_len(maze_rows(maze@)),
{
    let ghost rows = maze_rows(maze@);
    let mut longest: usize = 0;
    let mut r: usize = 0;
    while r < maze.len()
        invariant
            rows == maze_rows(maze@),
            r <= maze.len(),
            longest == max_row_len(rows.take(r as int)),
        decreases maze.len() - r,
    {
        proof {
            assert(rows.take(r + 1).drop_last() =~= rows.take(r as int));
        }
        if maze[r].len() > longest {
            longest = maze[r].len();
        }
        r = r + 1;
    }
    assert(rows.take(maze.len() as int) =~= rows);
    longest
}

/// One rectangle per cell of row `r`: cell `c` is the `size` x `size`
/// square at `(ox + c * step, oy + r * step)`, colored by `color_of`.
pub open spec fn cell_row_layers(
    row: Seq<char>,
    r: int,
    ox: int,
    oy: int,
    step: int,
    size: int,
    color_of: spec_fn(char) -> u32,
) -> Seq<Layer> {
    Seq::new(
        row.len(),
        |c: int| rect_layer(ox + c * step, oy + r * step, size, size, color_of(row[c])),
    )
}

/// One rectangle per cell of the grid, row by row, as `cell_row_layers`.
pub open spec fn cell_grid_layers(
    rows: Seq<Seq<char>>,
    ox: int,
    oy: int,
    step: int,
    size: int,
    color_of: spec_fn(char) -> u32,
) -> Seq<Layer>
    decreases rows.len(),
{
    if rows.len() == 0 {
        Seq::empty()
    } else {
        cell_grid_layers(rows.drop_last(), ox, oy, step, size, color_of) + cell_row_layers(
            rows.last(),
            rows.len() - 1,
            ox,
            oy,
            step,
            size,
            color_of,
        )
    }
}

/// The grid layers grow by one row at a time.
proof fn lemma_cell_grid_take(
    rows: Seq<Seq<char>>,
    r: int,
    ox: int,
    oy: int,
    step: int,
    size: int,
    color_of: spec_fn(char) -> u32,
)
    requires
        0 <= r < rows.len(),
    ensures
        cell_grid_layers(rows.take(r + 1), ox, oy, step, size, color_of) == cell_grid_layers(
            rows.take(r),
            ox,
            oy,
            step,
            size,
            color_of,
        ) + cell_row_layers(rows[r], r, ox, oy, step, size, color_of),
{
    assert(rows.take(r + 1).drop_last() =~= rows.take(r));
    assert(rows.take(r + 1).last() == rows[r]);
}

/// The top-left corner that centers a maze drawn with `block_size`-pixel
/// cells in the framebuffer (0 along an axis where the maze is larger).
pub open spec fn centered_offset(frame_side: int, maze_side: int) -> int {
    if frame_side >= maze_side {
        (frame_side - maze_side) / 2
    } else {
        0
    }
}

/// Where the 2D map of `maze` starts so that it is centered.
pub fn maze_offset(framebuffer: &Framebuffer, maze: &Maze, block_size: usize) -> (offset: (usize, usize))
    requires
        max_row_len(maze_rows(maze@)) * block_size <= usize::MAX,
        maze@.len() * block_size <= usize::MAX,
    ensures
        offset.0 == centered_offset(
            framebuffer.width as int,
            max_row_len(maze_rows(maze@)) * block_size,
        ),
        offset.1 == centered_offset(framebuffer.height as int, maze@.len() * block_size),
{
    let maze_width = longest_row(maze) * block_size;
    let maze_height = maze.len() * block_size;
    (
        framebuffer.width.saturating_sub(maze_width) / 2,
        framebuffer.height.saturating_sub(maze_height) / 2,
    )
}

/// Paints one map cell: the `block_size - 1` square at `(x0, y0)` (one line
/// of background is left between cells) in the cell's color, which becomes
/// the current color.
fn draw_cell(framebuffer: &mut Framebuffer, x0: usize, y0: usize, block_size: usize, cell: char)
    requires
        old(framebuffer).wf(),
        x0 + block_size <= usize::MAX,
        y0 + block_size <= usize::MAX,
    ensures
        final(framebuffer).wf(),
        final(framebuffer).width == old(framebuffer).width,
        final(framebuffer).height == old(framebuffer).height,
        final(framebuffer).current_color == map_cell_color(cell),
        frame_drawn(
            old(framebuffer).buffer@,
            final(framebuffer).buffer@,
            old(framebuffer).width as int,
            old(framebuffer).height as int,
            seq![
                rect_layer(
                    x0 as int,
                    y0 as int,
                    if block_size > 0 {
                        block_size - 1
                    } else {
                        0
                    },
                    if block_size > 0 {
                        block_size - 1
                    } else {
                        0
                    },
                    map_cell_color(cell),
                ),
            ],
        ),
{
    let color = match cell {
        '#' => WALL_COLOR,
        '+' => WALL_PLUS_COLOR,
        '%' => WALL_PERCENT_COLOR,
        '@' => WALL_AT_COLOR,
        '&' => WALL_AMPERSAND_COLOR,
        '!' => GOAL_WALL_COLOR,
        ' ' | 'p' => PATH_COLOR,
        'g' => GOAL_COLOR,
        _ => UNKNOWN_COLOR,
    };
    framebuffer.set_current_color(color);
    let visible_size = block_size.saturating_sub(1);
    let w = framebuffer.width;
    let h = framebuffer.height;
    let x_start = if x0 < w {
        x0
    } else {
        w
    };
    let x_end = if x0 + visible_size < w {
        x0 + visible_size
    } else {
        w
    };
    let y_start = if y0 < h {
        y0
    } else {
        h
    };
    let y_end = if y0 + visible_size < h {
        y0 + visible_size
    } else {
        h
    };
    let ghost before = framebuffer.buffer@;
    framebuffer.fill_block(x_start, x_end, y_start, y_end);
    proof {
        let drawn = rect_layer(x_start as int, y_start as int, x_end - x_start, y_end - y_start, color);
        let target = rect_layer(x0 as int, y0 as int, visible_size as int, visible_size as int, color);
        assert forall|px: int, py: int, base: u32|
            0 <= px < w && 0 <= py < h implies #[trigger] crate::framebuffer::layered_color(
            seq![drawn],
            px,
            py,
            base,
        ) == crate::framebuffer::layered_color(seq![target], px, py, base) by {
            crate::framebuffer::lemma_layered_single(drawn, px, py, base);
            crate::framebuffer::lemma_layered_single(target, px, py, base);
        }
        crate::framebuffer::lemma_frame_drawn_same_colors(
            before,
            framebuffer.buffer@,
            w as int,
            h as int,
            seq![drawn],
            seq![target],
        );
    }
}

/// The layers of the 2D map of `maze` with `block_size`-pixel cells,
/// centered in a `width` x `height` framebuffer.
pub open spec fn map_layers(rows: Seq<Seq<char>>, width: int, height: int, block_size: int) -> Seq<
    Layer,
> {
    if rows.len() == 0 || block_size == 0 {
        Seq::empty()
    } else {
        cell_grid_layers(
            rows,
            centered_offset(width, max_row_len(rows) * block_size),
            centered_offset(height, rows.len() * block_size),
            block_size,
            block_size - 1,
            map_palette(),
        )
    }
}

/// The 2D map's cell colors, as a function.
pub open spec fn map_palette() -> spec_fn(char) -> u32 {
    |c: char| map_cell_color(c)
}

/// The color of the last cell of `rows` in reading order, `before` when
/// there is no cell.
pub open spec fn last_cell_color(rows: Seq<Seq<char>>, color_of: spec_fn(char) -> u32, before: u32) -> u32
    decreases rows.len(),
{
    if rows.len() == 0 {
        before
    } else if rows.last().len() == 0 {
        last_cell_color(rows.drop_last(), color_of, before)
    } else {
        color_of(rows.last().last())
    }
}

/// Draws the 2D map: every cell as a `block_size - 1` square in its color,
/// the whole map centered in the framebuffer.
pub fn render_maze(framebuffer: &mut Framebuffer, maze: &Maze, block_size: usize)
    requires
        old(framebuffer).wf(),
        max_row_len(maze_rows(maze@)) * block_size <= usize::MAX,
        maze@.len() * block_size <= usize::MAX,
    ensures
        final(framebuffer).wf(),
        final(framebuffer).width == old(framebuffer).width,
        final(framebuffer).height == old(framebuffer).height,
        final(framebuffer).current_color == (if block_size == 0 {
            old(framebuffer).current_color
        } else {
            last_cell_color(maze_rows(maze@), map_palette(), old(framebuffer).current_color)
        }),
        frame_drawn(
            old(framebuffer).buffer@,
            final(framebuffer).buffer@,
            old(framebuffer).width as int,
            old(framebuffer).height as int,
            map_layers(
                maze_rows(maze@),
                old(framebuffer).width as int,
                old(framebuffer).height as int,
                block_size as int,
            ),
        ),
{
    let ghost before = framebuffer.buffer@;
    let ghost w = framebuffer.width as int;
    let ghost h = framebuffer.height as int;
    let ghost start_color = framebuffer.current_color;
    let ghost rows = maze_rows(maze@);
    if maze.len() == 0 || block_size == 0 {
        proof {
            lemma_frame_drawn_nothing(before, w, h);
        }
        return;
    }
    let (offset_x, offset_y) = maze_offset(framebuffer, maze, block_size);
    let ghost mw = max_row_len(rows);
    proof {
        lemma_max_row_len_bounds(rows);
        lemma_frame_drawn_nothing(before, w, h);
        assert(rows.take(0) =~= Seq::<Seq<char>>::empty());
        // the map fits: its right end is within the framebuffer or the map
        // starts at the left edge
        assert(offset_x + mw * block_size <= usize::MAX);
        assert(offset_y + rows.len() * block_size <= usize::MAX);
    }
    let mut r: usize = 0;
    while r < maze.len()
        invariant
            framebuffer.wf(),
            framebuffer.width == w,
            framebuffer.height == h,
            rows == maze_rows(maze@),
            mw == max_row_len(rows),
            block_size > 0,
            forall|i: int| 0 <= i < rows.len() ==> #[trigger] rows[i].len() <= mw,
            offset_x + mw * block_size <= usize::MAX,
            offset_y + rows.len() * block_size <= usize::MAX,
            framebuffer.current_color == last_cell_color(rows.take(r as int), map_palette(), start_color),
            r <= maze.len(),
            frame_drawn(
                before,
                framebuffer.buffer@,
                w,
                h,
                cell_grid_layers(
                    rows.take(r as int),
                    offset_x as int,
                    offset_y as int,
                    block_size as int,
                    block_size - 1,
                    map_palette(),
                ),
            ),
        decreases maze.len() - r,
    {
        let row = &maze[r];
        let ghost grid_before = framebuffer.buffer@;
        let ghost done = cell_grid_layers(
            rows.take(r as int),
            offset_x as int,
            offset_y as int,
            block_size as int,
            block_size - 1,
            map_palette(),
        );
        proof {
            lemma_frame_drawn_nothing(grid_before, w, h);
            assert(done + Seq::<Layer>::empty() =~= done);
            assert(row@ == rows[r as int]);
            assert(r * block_size + block_size <= rows.len() * block_size) by (nonlinear_arith)
                requires
                    r < rows.len(),
                    block_size > 0,
            ;
        }
        let mut c: usize = 0;
        while c < row.len()
            invariant
                framebuffer.wf(),
                framebuffer.width == w,
                framebuffer.height == h,
                rows == maze_rows(maze@),
                row@ == rows[r as int],
                r < rows.len(),
                block_size > 0,
                row@.len() <= mw,
                offset_x + mw * block_size <= usize::MAX,
                offset_y + r * block_size + block_size <= usize::MAX,
                framebuffer.current_color == (if c > 0 {
                    map_cell_color(row@[c - 1])
                } else {
                    last_cell_color(rows.take(r as int), map_palette(), start_color)
                }),
                c <= row.len(),
                frame_drawn(
                    before,
                    framebuffer.buffer@,
                    w,
                    h,
                    done + cell_row_layers(
                        row@.take(c as int),
                        r as int,
                        offset_x as int,
                        offset_y as int,
                        block_size as int,
                        block_size - 1,
                        map_palette(),
                    ),
                ),
            decreases row.len() - c,
        {
            proof {
                assert(c * block_size + block_size <= mw * block_size) by (nonlinear_arith)
                    requires
                        c < mw,
                        block_size > 0,
                ;
            }
            let x0 = offset_x + c * block_size;
            let y0 = offset_y + r * block_size;
            let ghost mid = framebuffer.buffer@;
            draw_cell(framebuffer, x0, y0, block_size, row[c]);
            proof {
                let prefix = done + cell_row_layers(
                    row@.take(c as int),
                    r as int,
                    offset_x as int,
                    offset_y as int,
                    block_size as int,
                    block_size - 1,
                    map_palette(),
                );
                let cell = rect_layer(
                    x0 as int,
                    y0 as int,
                    block_size - 1,
                    block_size - 1,
                    map_cell_color(row@[c as int]),
                );
                lemma_frame_drawn_concat(before, mid, framebuffer.buffer@, w, h, prefix, seq![cell]);
                let lhs = cell_row_layers(
                    row@.take(c as int),
                    r as int,
                    offset_x as int,
                    offset_y as int,
                    block_size as int,
                    block_size - 1,
                    map_palette(),
                ) + seq![cell];
                let rhs = cell_row_layers(
                    row@.take(c + 1),
                    r as int,
                    offset_x as int,
                    offset_y as int,
                    block_size as int,
                    block_size - 1,
                    map_palette(),
                );
                assert forall|j: int| 0 <= j < rhs.len() implies lhs[j] == rhs[j] by {
                    if j == c {
                        assert(row@.take(c + 1)[j] == row@[c as int]);
                        assert(map_palette()(row@[c as int]) == map_cell_color(row@[c as int]));
                    } else {
                        assert(row@.take(c + 1)[j] == row@.take(c as int)[j]);
                    }
                }
                assert(cell_row_layers(
                    row@.take(c as int),
                    r as int,
                    offset_x as int,
                    offset_y as int,
                    block_size as int,
                    block_size - 1,
                    map_palette(),
                ) + seq![cell] =~= cell_row_layers(
                    row@.take(c + 1),
                    r as int,
                    offset_x as int,
                    offset_y as int,
                    block_size as int,
                    block_size - 1,
                    map_palette(),
                ));
                assert(prefix + seq![cell] =~= done + cell_row_layers(
                    row@.take(c + 1),
                    r as int,
                    offset_x as int,
                    offset_y as int,
                    block_size as int,
                    block_size - 1,
                    map_palette(),
                ));
            }
            c = c + 1;
        }
        proof {
            let next = rows.take(r + 1);
            assert(next.drop_last() =~= rows.take(r as int));
            assert(next.last() == row@);
            if row@.len() > 0 {
                assert(row@.last() == row@[row@.len() - 1]);
            }
        }
        proof {
            assert(row@.take(row@.len() as int) =~= row@);
            lemma_cell_grid_take(
                rows,
                r as int,
                offset_x as int,
                offset_y as int,
                block_size as int,
                block_size - 1,
                map_palette(),
            );
        }
        r = r + 1;
    }
    proof {
        assert(rows.take(rows.len() as int) =~= rows);
    }
}

/// Width and height, in pixels, of the minimap of `maze`.
pub fn minimap_dimensions(maze: &Maze) -> (dimensions: (usize, usize))
    requires
        max_row_len(maze_rows(maze@)) * 6 <= usize::MAX,
        maze@.len() * 6 <= usize::MAX,
    ensures
        dimensions.0 == max_row_len(maze_rows(maze@)) * 6,
        dimensions.1 == maze@.len() * 6,
{
    let width = longest_row(maze) * MINIMAP_CELL_SIZE;
    let height = maze.len() * MINIMAP_CELL_SIZE;
    (width, height)
}

/// Top-left corner of the minimap's cells for a minimap of the given size:
/// its padded panel sits a margin away from the right edge (at the left edge
/// when the framebuffer is too narrow) and at most a margin from the top.
pub open spec fn minimap_offset_of(frame_width: int, frame_height: int, minimap_width: int, minimap_height: int) -> (int, int) {
    let panel_width = minimap_width + 8;
    let panel_height = minimap_height + 8;
    let panel_x = if frame_width >= panel_width + 10 {
        frame_width - (panel_width + 10)
    } else {
        0
    };
    let below = if frame_height >= panel_height + 10 {
        frame_height - (panel_height + 10)
    } else {
        0
    };
    let panel_y = if below < 10 {
        below
    } else {
        10
    };
    (panel_x + 4, panel_y + 4)
}

/// The minimap never starts left of or above its padding, whatever the
/// framebuffer's size; when the framebuffer has room for the padded panel
/// and its margins, the panel sits exactly a margin from the right edge and
/// a margin from the top.
pub proof fn lemma_minimap_in_top_right_corner(
    frame_width: int,
    frame_height: int,
    minimap_width: int,
    minimap_height: int,
)
    requires
        frame_width >= 0,
        frame_height >= 0,
        minimap_width >= 0,
        minimap_height >= 0,
    ensures
        minimap_offset_of(frame_width, frame_height, minimap_width, minimap_height).0 >= 4,
        minimap_offset_of(frame_width, frame_height, minimap_width, minimap_height).1 >= 4,
        frame_width >= minimap_width + 18 ==> minimap_offset_of(
            frame_width,
            frame_height,
            minimap_width,
            minimap_height,
        ).0 + minimap_width + 4 + 10 == frame_width,
        frame_height >= minimap_height + 28 ==> minimap_offset_of(
            frame_width,
            frame_height,
            minimap_width,
            minimap_height,
        ).1 == 10 + 4,
{
}

/// Where the minimap's cells start.
pub fn minimap_content_offset(framebuffer: &Framebuffer, minimap_width: usize, minimap_height: usize) -> (offset: (isize, isize))
    requires
        framebuffer.wf(),
        minimap_width + 18 <= usize::MAX,
        minimap_height + 18 <= usize::MAX,
    ensures
        (offset.0 as int, offset.1 as int) == minimap_offset_of(
            framebuffer.width as int,
            framebuffer.height as int,
            minimap_width as int,
            minimap_height as int,
        ),
{
    let panel_width = minimap_width + MINIMAP_PADDING * 2;
    let panel_height = minimap_height + MINIMAP_PADDING * 2;
    let panel_x = framebuffer.width.saturating_sub(panel_width + MINIMAP_MARGIN);
    let below = framebuffer.height.saturating_sub(panel_height + MINIMAP_MARGIN);
    let panel_y = if below < MINIMAP_MARGIN {
        below
    } else {
        MINIMAP_MARGIN
    };
    ((panel_x + MINIMAP_PADDING) as isize, (panel_y + MINIMAP_PADDING) as isize)
}

/// The minimap's cell colors, as a function.
pub open spec fn minimap_palette() -> spec_fn(char) -> u32 {
    |c: char| minimap_color_of(c)
}

/// Draws the cells of the minimap as 6-pixel squares from `(offset_x,
/// offset_y)`.
pub fn render_minimap_maze(framebuffer: &mut Framebuffer, maze: &Maze, offset_x: isize, offset_y: isize)
    requires
        old(framebuffer).wf(),
        offset_x + max_row_len(maze_rows(maze@)) * 6 + 6 <= isize::MAX,
        offset_y + maze@.len() * 6 + 6 <= isize::MAX,
        max_row_len(maze_rows(maze@)) * 6 <= isize::MAX,
        maze@.len() * 6 <= isize::MAX,
    ensures
        final(framebuffer).wf(),
        final(framebuffer).width == old(framebuffer).width,
        final(framebuffer).height == old(framebuffer).height,
        final(framebuffer).current_color == last_cell_color(maze_rows(maze@), minimap_palette(), old(framebuffer).current_color),
        frame_drawn(
            old(framebuffer).buffer@,
            final(framebuffer).buffer@,
            old(framebuffer).width as int,
            old(framebuffer).height as int,
            cell_grid_layers(maze_rows(maze@), offset_x as int, offset_y as int, 6, 6, minimap_palette()),
        ),
{
    let ghost before = framebuffer.buffer@;
    let ghost w = framebuffer.width as int;
    let ghost h = framebuffer.height as int;
    let ghost start_color = framebuffer.current_color;
    let ghost rows = maze_rows(maze@);
    let ghost mw = max_row_len(rows);
    proof {
        lemma_max_row_len_bounds(rows);
        lemma_frame_drawn_nothing(before, w, h);
        assert(rows.take(0) =~= Seq::<Seq<char>>::empty());
    }
    let mut r: usize = 0;
    while r < maze.len()
        invariant
            framebuffer.wf(),
            framebuffer.width == w,
            framebuffer.height == h,
            rows == maze_rows(maze@),
            mw == max_row_len(rows),
            forall|i: int| 0 <= i < rows.len() ==> #[trigger] rows[i].len() <= mw,
            offset_x + mw * 6 + 6 <= isize::MAX,
            offset_y + rows.len() * 6 + 6 <= isize::MAX,
            mw * 6 <= isize::MAX,
            rows.len() * 6 <= isize::MAX,
            framebuffer.current_color == last_cell_color(rows.take(r as int), minimap_palette(), start_color),
            r <= maze.len(),
            frame_drawn(
                before,
                framebuffer.buffer@,
                w,
                h,
                cell_grid_layers(rows.take(r as int), offset_x as int, offset_y as int, 6, 6, minimap_palette()),
            ),
        decreases maze.len() - r,
    {
        let row = &maze[r];
        let ghost done = cell_grid_layers(rows.take(r as int), offset_x as int, offset_y as int, 6, 6, minimap_palette());
        proof {
            assert(done + Seq::<Layer>::empty() =~= done);
            assert(row@ == rows[r as int]);
            assert(row@.take(0) =~= Seq::<char>::empty());
        }
        let mut c: usize = 0;
        while c < row.len()
            invariant
                framebuffer.wf(),
                framebuffer.width == w,
                framebuffer.height == h,
                rows == maze_rows(maze@),
                row@ == rows[r as int],
                r < rows.len(),
                row@.len() <= mw,
                offset_x + mw * 6 + 6 <= isize::MAX,
                offset_y + rows.len() * 6 + 6 <= isize::MAX,
                mw * 6 <= isize::MAX,
                rows.len() * 6 <= isize::MAX,
                framebuffer.current_color == (if c > 0 {
                    minimap_color_of(row@[c - 1])
                } else {
                    last_cell_color(rows.take(r as int), minimap_palette(), start_color)
                }),
                c <= row.len(),
                frame_drawn(
                    before,
                    framebuffer.buffer@,
                    w,
                    h,
                    done + cell_row_layers(row@.take(c as int), r as int, offset_x as int, offset_y as int, 6, 6, minimap_palette()),
                ),
            decreases row.len() - c,
        {
            let x = offset_x + (c * MINIMAP_CELL_SIZE) as isize;
            let y = offset_y + (r * MINIMAP_CELL_SIZE) as isize;
            let color = minimap_cell_color(row[c]);
            let ghost mid = framebuffer.buffer@;
            fill_rect(framebuffer, x, y, MINIMAP_CELL_SIZE as isize, MINIMAP_CELL_SIZE as isize, color);
            proof {
                let prefix = done + cell_row_layers(row@.take(c as int), r as int, offset_x as int, offset_y as int, 6, 6, minimap_palette());
                let cell = rect_layer(x as int, y as int, 6, 6, color);
                lemma_frame_drawn_concat(before, mid, framebuffer.buffer@, w, h, prefix, seq![cell]);
                let lhs = cell_row_layers(row@.take(c as int), r as int, offset_x as int, offset_y as int, 6, 6, minimap_palette()) + seq![cell];
                let rhs = cell_row_layers(row@.take(c + 1), r as int, offset_x as int, offset_y as int, 6, 6, minimap_palette());
                assert forall|j: int| 0 <= j < rhs.len() implies lhs[j] == rhs[j] by {
                    if j == c {
                        assert(row@.take(c + 1)[j] == row@[c as int]);
                    } else {
                        assert(row@.take(c + 1)[j] == row@.take(c as int)[j]);
                    }
                }
                assert(lhs =~= rhs);
                assert(prefix + seq![cell] =~= done + rhs);
            }
            c = c + 1;
        }
        proof {
            let next = rows.take(r + 1);
            assert(next.drop_last() =~= rows.take(r as int));
            assert(next.last() == row@);
            if row@.len() > 0 {
                assert(row@.last() == row@[row@.len() - 1]);
            }
        }
        proof {
            assert(row@.take(row@.len() as int) =~= row@);
            lemma_cell_grid_take(rows, r as int, offset_x as int, offset_y as int, 6, 6, minimap_palette());
        }
        r = r + 1;
    }
    proof {
        assert(rows.take(rows.len() as int) =~= rows);
    }
}

/// The minimap panel for minimap cells starting at `(x, y)` and covering
/// `width` x `height` pixels: the padded background, its border, then the
/// cells of `rows`.
pub open spec fn minimap_panel_layers(rows: Seq<Seq<char>>, x: int, y: int, width: int, height: int) -> Seq<
    Layer,
> {
    seq![rect_layer(x - 4, y - 4, width + 8, height + 8, MINIMAP_BACKGROUND_COLOR)]
        + crate::shapes::outline_layers(x - 4, y - 4, width + 8, height + 8, MINIMAP_BORDER_COLOR)
        + cell_grid_layers(rows, x, y, 6, 6, minimap_palette())
}

/// Draws the minimap in the top-right corner, all but the player's marker:
/// the padded background, its border and the maze's cells. Returns where the
/// cells start, for the marker. Nothing is drawn, and `None` returned, when
/// the maze, its rows, the block size or the framebuffer is empty.
pub fn render_minimap_panel(framebuffer: &mut Framebuffer, maze: &Maze, block_size: usize) -> (offset:
    Option<(isize, isize)>)
    requires
        old(framebuffer).wf(),
        max_row_len(maze_rows(maze@)) * 6 + 0x20_0000 <= isize::MAX,
        maze@.len() * 6 + 0x20_0000 <= isize::MAX,
    ensures
        final(framebuffer).wf(),
        final(framebuffer).width == old(framebuffer).width,
        final(framebuffer).height == old(framebuffer).height,
        ({
            let w = old(framebuffer).width as int;
            let h = old(framebuffer).height as int;
            let mw = (max_row_len(maze_rows(maze@)) * 6) as int;
            let mh = (maze@.len() * 6) as int;
            if maze@.len() == 0 || block_size == 0 || w == 0 || h == 0 || mw == 0 {
                &&& offset is None
                &&& final(framebuffer).buffer@ == old(framebuffer).buffer@
                &&& final(framebuffer).current_color == old(framebuffer).current_color
            } else {
                let o = minimap_offset_of(w, h, mw, mh);
                &&& offset matches Some((x, y)) && x == o.0 && y == o.1
                &&& final(framebuffer).current_color == last_cell_color(
                    maze_rows(maze@),
                    minimap_palette(),
                    MINIMAP_BORDER_COLOR,
                )
                &&& frame_drawn(
                    old(framebuffer).buffer@,
                    final(framebuffer).buffer@,
                    w,
                    h,
                    minimap_panel_layers(maze_rows(maze@), o.0, o.1, mw, mh),
                )
            }
        }),
{
    if maze.len() == 0 || block_size == 0 || framebuffer.width == 0 || framebuffer.height == 0 {
        return None;
    }
    proof {
        lemma_max_row_len_bounds(maze_rows(maze@));
    }
    let (minimap_width, minimap_height) = minimap_dimensions(maze);
    if minimap_width == 0 || minimap_height == 0 {
        return None;
    }
    let ghost s0 = framebuffer.buffer@;
    let ghost w = framebuffer.width as int;
    let ghost h = framebuffer.height as int;
    let (content_x, content_y) = minimap_content_offset(framebuffer, minimap_width, minimap_height);
    let panel_x = content_x - MINIMAP_PADDING as isize;
    let panel_y = content_y - MINIMAP_PADDING as isize;
    let panel_width = (minimap_width + MINIMAP_PADDING * 2) as isize;
    let panel_height = (minimap_height + MINIMAP_PADDING * 2) as isize;
    fill_rect(framebuffer, panel_x, panel_y, panel_width, panel_height, MINIMAP_BACKGROUND_COLOR);
    let ghost s1 = framebuffer.buffer@;
    draw_rect_outline(framebuffer, panel_x, panel_y, panel_width, panel_height, MINIMAP_BORDER_COLOR);
    let ghost s2 = framebuffer.buffer@;
    render_minimap_maze(framebuffer, maze, content_x, content_y);
    proof {
        let background = seq![
            rect_layer(
                panel_x as int,
                panel_y as int,
                panel_width as int,
                panel_height as int,
                MINIMAP_BACKGROUND_COLOR,
            ),
        ];
        let border = crate::shapes::outline_layers(
            panel_x as int,
            panel_y as int,
            panel_width as int,
            panel_height as int,
            MINIMAP_BORDER_COLOR,
        );
        let cells = cell_grid_layers(
            maze_rows(maze@),
            content_x as int,
            content_y as int,
            6,
            6,
            minimap_palette(),
        );
        lemma_frame_drawn_concat(s0, s1, s2, w, h, background, border);
        lemma_frame_drawn_concat(s0, s2, framebuffer.buffer@, w, h, background + border, cells);
    }
    Some((content_x, content_y))
}

/// A color channel is a byte.
proof fn lemma_channels_are_bytes(color: u32)
    ensures
        channel(color, 16) <= 255,
        channel(color, 8) <= 255,
        channel(color, 0) <= 255,
{
    assert((color >> 16u32) & 0xff <= 0xff) by (bit_vector);
    assert((color >> 8u32) & 0xff <= 0xff) by (bit_vector);
    assert((color >> 0u32) & 0xff <= 0xff) by (bit_vector);
}

/// Wall symbol of menu band `i`, left to right.
pub open spec fn band_wall(i: int) -> char {
    if i == 0 {
        '#'
    } else if i == 1 {
        '+'
    } else if i == 2 {
        '%'
    } else if i == 3 {
        '@'
    } else if i == 4 {
        '&'
    } else {
        '!'
    }
}

/// Width of a menu band: a sixth of the screen, at least one pixel.
pub open spec fn band_width(frame_width: int) -> int {
    if frame_width / 6 >= 1 {
        frame_width / 6
    } else {
        1
    }
}

/// The first `n` menu bands: each a pair of 8-pixel-high stripes, at row
/// 68 and 76 rows above the bottom, in its wall color at half brightness.
pub open spec fn band_layers(frame_width: int, frame_height: int, n: int) -> Seq<Layer>
    decreases n,
{
    if n <= 0 {
        Seq::empty()
    } else {
        let bw = band_width(frame_width);
        let color = scaled_color(wall_color_of(band_wall(n - 1)), 1, 2);
        band_layers(frame_width, frame_height, n - 1) + seq![
            rect_layer((n - 1) * bw, 68, bw, 8, color),
            rect_layer((n - 1) * bw, frame_height - 76, bw, 8, color),
        ]
    }
}

/// The stripes of the menu screens (none on an empty framebuffer).
pub open spec fn menu_band_layers(frame_width: int, frame_height: int) -> Seq<Layer> {
    if frame_width == 0 || frame_height == 0 {
        Seq::empty()
    } else {
        band_layers(frame_width, frame_height, 6)
    }
}

/// Draws the six colored stripe pairs of the menu screens.
fn draw_menu_wall_bands(framebuffer: &mut Framebuffer)
    requires
        old(framebuffer).wf(),
    ensures
        final(framebuffer).wf(),
        final(framebuffer).width == old(framebuffer).width,
        final(framebuffer).height == old(framebuffer).height,
        frame_drawn(
            old(framebuffer).buffer@,
            final(framebuffer).buffer@,
            old(framebuffer).width as int,
            old(framebuffer).height as int,
            menu_band_layers(old(framebuffer).width as int, old(framebuffer).height as int),
        ),
{
    let ghost before = framebuffer.buffer@;
    let ghost w = framebuffer.width as int;
    let ghost h = framebuffer.height as int;
    let walls: [char; 6] = ['#', '+', '%', '@', '&', '!'];
    proof {
        lemma_frame_drawn_nothing(before, w, h);
    }
    if framebuffer.width == 0 || framebuffer.height == 0 {
        return;
    }
    let quotient = framebuffer.width as isize / 6;
    let band_w: isize = if quotient >= 1 {
        quotient
    } else {
        1
    };
    let top_y: isize = 68;
    let bottom_y = framebuffer.height as isize - 76;
    assert(band_w <= 0x10_0000);
    let mut index: usize = 0;
    while index < 6
        invariant
            framebuffer.wf(),
            framebuffer.width == w,
            framebuffer.height == h,
            w > 0 && h > 0,
            band_w == band_width(w),
            1 <= band_w <= 0x10_0000,
            bottom_y == h - 76,
            top_y == 68,
            walls@ == seq!['#', '+', '%', '@', '&', '!'],
            index <= 6,
            frame_drawn(before, framebuffer.buffer@, w, h, band_layers(w, h, index as int)),
        decreases 6 - index,
    {
        assert(index as isize * band_w <= 5 * 0x10_0000) by (nonlinear_arith)
            requires
                index < 6,
                1 <= band_w <= 0x10_0000,
        ;
        let x = index as isize * band_w;
        proof {
            lemma_channels_are_bytes(wall_color_of(walls@[index as int]));
            assert(walls@[index as int] == band_wall(index as int));
        }
        let color = scale_color(wall_color(walls[index]), 1, 2);
        let ghost s0 = framebuffer.buffer@;
        fill_rect(framebuffer, x, top_y, band_w, 8, color);
        let ghost s1 = framebuffer.buffer@;
        fill_rect(framebuffer, x, bottom_y, band_w, 8, color);
        proof {
            let l0 = rect_layer(x as int, 68, band_w as int, 8, color);
            let l1 = rect_layer(x as int, h - 76, band_w as int, 8, color);
            lemma_frame_drawn_concat(s0, s1, framebuffer.buffer@, w, h, seq![l0], seq![l1]);
            lemma_frame_drawn_concat(
                before,
                s0,
                framebuffer.buffer@,
                w,
                h,
                band_layers(w, h, index as int),
                seq![l0] + seq![l1],
            );
            assert(band_layers(w, h, index as int) + (seq![l0] + seq![l1]) =~= band_layers(
                w,
                h,
                index + 1,
            ));
        }
        index = index + 1;
    }
}

/// Color of a cell in the maze picture of the menu screens: walls at two
/// thirds of their brightness, goal yellow, start cyan, floor dimmed.
pub open spec fn motif_color_of(cell: char) -> u32 {
    if cell == '#' || cell == '+' || cell == '%' || cell == '@' || cell == '&' || cell == '!' {
        scaled_color(wall_color_of(cell), 2, 3)
    } else if cell == 'g' {
        GOAL_COLOR
    } else if cell == 'p' {
        PLAYER_COLOR
    } else if cell == ' ' {
        scaled_color(PATH_COLOR, 1, 5)
    } else {
        UNKNOWN_COLOR
    }
}

/// The menu maze picture's cell colors, as a function.
pub open spec fn motif_palette() -> spec_fn(char) -> u32 {
    |c: char| motif_color_of(c)
}

/// Side of a cell of the menu maze picture: at most `limit`, and small
/// enough (though at least one pixel) for the picture to fit the screen.
pub open spec fn motif_cell_size(frame_width: int, frame_height: int, maze_width: int, maze_height: int, limit: int) -> int {
    let by_width = if frame_width / maze_width >= 1 {
        frame_width / maze_width
    } else {
        1
    };
    let by_height = if frame_height / maze_height >= 1 {
        frame_height / maze_height
    } else {
        1
    };
    let a = if limit < by_width {
        limit
    } else {
        by_width
    };
    if a < by_height {
        a
    } else {
        by_height
    }
}

/// The maze picture of the menu screens: the maze, scaled as
/// `motif_cell_size` says, centered horizontally and resting
/// `bottom_margin` rows above the bottom.
pub open spec fn motif_layers(rows: Seq<Seq<char>>, frame_width: int, frame_height: int, limit: int, bottom_margin: int) -> Seq<Layer> {
    let mw = max_row_len(rows) as int;
    let mh = rows.len() as int;
    if mh == 0 || frame_width == 0 || frame_height == 0 || mw == 0 {
        Seq::empty()
    } else {
        let cs = motif_cell_size(frame_width, frame_height, mw, mh, limit);
        let ox = centered_offset(frame_width, mw * cs);
        let oy = if frame_height >= mh * cs + bottom_margin {
            frame_height - (mh * cs + bottom_margin)
        } else {
            0
        };
        let visible = if cs - 1 >= 1 {
            cs - 1
        } else {
            1
        };
        cell_grid_layers(rows, ox, oy, cs, visible, motif_palette())
    }
}

/// The maze picture fits: `side * cell` is at most the larger of the screen
/// side and the maze side.
proof fn lemma_motif_fits(frame_side: int, maze_side: int, cell: int)
    requires
        frame_side >= 0,
        maze_side > 0,
        1 <= cell,
        cell <= (if frame_side / maze_side >= 1 {
            frame_side / maze_side
        } else {
            1
        }),
    ensures
        maze_side * cell <= frame_side || maze_side * cell <= maze_side,
{
    if frame_side / maze_side >= 1 {
        vstd::arithmetic::div_mod::lemma_fundamental_div_mod(frame_side, maze_side);
        assert(maze_side * cell <= maze_side * (frame_side / maze_side)) by (nonlinear_arith)
            requires
                maze_side > 0,
                cell <= frame_side / maze_side,
        ;
    } else {
        assert(cell == 1);
    }
}

/// The menu maze color of `cell`.
fn motif_cell_color(cell: char) -> (color: u32)
    ensures
        color == motif_color_of(cell),
{
    match cell {
        '#' | '+' | '%' | '@' | '&' | '!' => {
            let wall = wall_color(cell);
            proof {
                lemma_channels_are_bytes(wall);
            }
            scale_color(wall, 2, 3)
        },
        'g' => GOAL_COLOR,
        'p' => PLAYER_COLOR,
        ' ' => {
            proof {
                lemma_channels_are_bytes(PATH_COLOR);
            }
            scale_color(PATH_COLOR, 1, 5)
        },
        _ => UNKNOWN_COLOR,
    }
}

/// Bounds, from memory, on the sides of a maze drawn on a menu screen.
pub open spec fn motif_maze_fits(rows: Seq<Seq<char>>, bottom_margin: int) -> bool {
    &&& max_row_len(rows) <= isize::MAX / 4
    &&& rows.len() <= isize::MAX / 4
    &&& bottom_margin <= isize::MAX / 4
}

/// Draws the maze picture of the menu screens.
fn draw_menu_maze_motif(framebuffer: &mut Framebuffer, maze: &Maze, cell_size_limit: usize, bottom_margin: usize)
    requires
        old(framebuffer).wf(),
        motif_maze_fits(maze_rows(maze@), bottom_margin as int),
    ensures
        final(framebuffer).wf(),
        final(framebuffer).width == old(framebuffer).width,
        final(framebuffer).height == old(framebuffer).height,
        frame_drawn(
            old(framebuffer).buffer@,
            final(framebuffer).buffer@,
            old(framebuffer).width as int,
            old(framebuffer).height as int,
            motif_layers(
                maze_rows(maze@),
                old(framebuffer).width as int,
                old(framebuffer).height as int,
                cell_size_limit as int,
                bottom_margin as int,
            ),
        ),
{
    let ghost before = framebuffer.buffer@;
    let ghost w = framebuffer.width as int;
    let ghost h = framebuffer.height as int;
    let ghost rows = maze_rows(maze@);
    proof {
        lemma_frame_drawn_nothing(before, w, h);
        lemma_max_row_len_bounds(rows);
    }
    if maze.len() == 0 || framebuffer.width == 0 || framebuffer.height == 0 {
        return;
    }
    let maze_width = longest_row(maze);
    let maze_height = maze.len();
    if maze_width == 0 || maze_height == 0 {
        return;
    }
    let by_width = if framebuffer.width / maze_width >= 1 {
        framebuffer.width / maze_width
    } else {
        1
    };
    let by_height = if framebuffer.height / maze_height >= 1 {
        framebuffer.height / maze_height
    } else {
        1
    };
    let limited = if cell_size_limit < by_width {
        cell_size_limit
    } else {
        by_width
    };
    let cell_size = if limited < by_height {
        limited
    } else {
        by_height
    };
    let ghost mw = maze_width as int;
    let ghost mh = maze_height as int;
    proof {
        if cell_size >= 1 {
            lemma_motif_fits(w, mw, cell_size as int);
            lemma_motif_fits(h, mh, cell_size as int);
        } else {
            assert(mw * cell_size == 0 && mh * cell_size == 0) by (nonlinear_arith)
                requires
                    cell_size == 0,
            ;
        }
        assert(mw * cell_size <= w || mw * cell_size <= mw);
        assert(mh * cell_size <= h || mh * cell_size <= mh);
    }
    let motif_width = maze_width * cell_size;
    let motif_height = maze_height * cell_size;
    let offset_x = framebuffer.width.saturating_sub(motif_width) / 2;
    let offset_y = framebuffer.height.saturating_sub(motif_height + bottom_margin);
    let visible = if cell_size.saturating_sub(1) >= 1 {
        cell_size.saturating_sub(1)
    } else {
        1
    };
    let ghost cs = cell_size as int;
    let ghost vs = visible as int;
    proof {
        assert(rows.take(0) =~= Seq::<Seq<char>>::empty());
        assert(cs <= MAX_FRAME_SIDE);
    }
    let mut r: usize = 0;
    while r < maze.len()
        invariant
            framebuffer.wf(),
            framebuffer.width == w,
            framebuffer.height == h,
            rows == maze_rows(maze@),
            mw == max_row_len(rows),
            mh == rows.len(),
            motif_maze_fits(rows, bottom_margin as int),
            forall|i: int| 0 <= i < rows.len() ==> #[trigger] rows[i].len() <= mw,
            0 <= cs <= MAX_FRAME_SIDE,
            1 <= vs <= MAX_FRAME_SIDE,
            cs == cell_size as int,
            vs == visible as int,
            mw * cs <= w || mw * cs <= mw,
            mh * cs <= h || mh * cs <= mh,
            offset_x <= w,
            offset_y <= h,
            r <= maze.len(),
            frame_drawn(
                before,
                framebuffer.buffer@,
                w,
                h,
                cell_grid_layers(rows.take(r as int), offset_x as int, offset_y as int, cs, vs, motif_palette()),
            ),
        decreases maze.len() - r,
    {
        let row = &maze[r];
        let ghost done = cell_grid_layers(rows.take(r as int), offset_x as int, offset_y as int, cs, vs, motif_palette());
        proof {
            assert(done + Seq::<Layer>::empty() =~= done);
            assert(row@ == rows[r as int]);
            assert(row@.take(0) =~= Seq::<char>::empty());
            assert(r * cs <= mh * cs) by (nonlinear_arith)
                requires
                    r < mh,
                    cs >= 0,
            ;
        }
        let mut c: usize = 0;
        while c < row.len()
            invariant
                framebuffer.wf(),
                framebuffer.width == w,
                framebuffer.height == h,
                rows == maze_rows(maze@),
                row@ == rows[r as int],
                r < rows.len(),
                mw == max_row_len(rows),
                mh == rows.len(),
                motif_maze_fits(rows, bottom_margin as int),
                row@.len() <= mw,
                0 <= cs <= MAX_FRAME_SIDE,
                1 <= vs <= MAX_FRAME_SIDE,
                cs == cell_size as int,
                vs == visible as int,
                mw * cs <= w || mw * cs <= mw,
                r * cs <= mh * cs,
                mh * cs <= h || mh * cs <= mh,
                offset_x <= w,
                offset_y <= h,
                c <= row.len(),
                frame_drawn(
                    before,
                    framebuffer.buffer@,
                    w,
                    h,
                    done + cell_row_layers(row@.take(c as int), r as int, offset_x as int, offset_y as int, cs, vs, motif_palette()),
                ),
            decreases row.len() - c,
        {
            proof {
                assert(c * cs <= mw * cs) by (nonlinear_arith)
                    requires
                        c < mw,
                        cs >= 0,
                ;
            }
            let x = (offset_x + c * cell_size) as isize;
            let y = (offset_y + r * cell_size) as isize;
            let color = motif_cell_color(row[c]);
            let ghost mid = framebuffer.buffer@;
            fill_rect(framebuffer, x, y, visible as isize, visible as isize, color);
            proof {
                let prefix = done + cell_row_layers(row@.take(c as int), r as int, offset_x as int, offset_y as int, cs, vs, motif_palette());
                let cell = rect_layer(x as int, y as int, vs, vs, color);
                lemma_frame_drawn_concat(before, mid, framebuffer.buffer@, w, h, prefix, seq![cell]);
                let lhs = cell_row_layers(row@.take(c as int), r as int, offset_x as int, offset_y as int, cs, vs, motif_palette()) + seq![cell];
                let rhs = cell_row_layers(row@.take(c + 1), r as int, offset_x as int, offset_y as int, cs, vs, motif_palette());
                assert forall|j: int| 0 <= j < rhs.len() implies lhs[j] == rhs[j] by {
                    if j == c {
                        assert(row@.take(c + 1)[j] == row@[c as int]);
                    } else {
                        assert(row@.take(c + 1)[j] == row@.take(c as int)[j]);
                    }
                }
                assert(lhs =~= rhs);
                assert(prefix + seq![cell] =~= done + rhs);
            }
            c = c + 1;
        }
        proof {
            assert(row@.take(row@.len() as int) =~= row@);
            lemma_cell_grid_take(rows, r as int, offset_x as int, offset_y as int, cs, vs, motif_palette());
        }
        r = r + 1;
    }
    proof {
        assert(rows.take(rows.len() as int) =~= rows);
    }
}

/// The decimal digit `d`.
pub open spec fn digit_char(d: int) -> char {
    if d == 0 {
        '0'
    } else if d == 1 {
        '1'
    } else if d == 2 {
        '2'
    } else if d == 3 {
        '3'
    } else if d == 4 {
        '4'
    } else if d == 5 {
        '5'
    } else if d == 6 {
        '6'
    } else if d == 7 {
        '7'
    } else if d == 8 {
        '8'
    } else {
        '9'
    }
}

/// The decimal writing of `n`, without leading zeros.
pub open spec fn decimal(n: nat) -> Seq<char>
    decreases n,
{
    if n < 10 {
        seq![digit_char(n as int)]
    } else {
        decimal(n / 10).push(digit_char((n % 10) as int))
    }
}

/// A number below `10^k` (`k >= 1`) has at most `k` digits; a `u64` has at
/// most 20.
proof fn lemma_decimal_len(n: nat)
    ensures
        n <= u64::MAX ==> decimal(n).len() <= 20,
        decimal(n).len() >= 1,
{
    reveal_with_fuel(pow10, 21);
    assert(pow10(20) == 100000000000000000000);
    lemma_decimal_len_below(n, 20, 100000000000000000000);
}

proof fn lemma_decimal_len_below(n: nat, k: nat, bound: nat)
    requires
        k >= 1,
        bound == pow10(k),
    ensures
        n < bound ==> decimal(n).len() <= k,
        decimal(n).len() >= 1,
    decreases n,
{
    if n >= 10 {
        if k > 1 {
            let p = pow10((k - 1) as nat);
            assert(bound == 10 * p);
            assert(n < bound ==> n / 10 < p);
            lemma_decimal_len_below(n / 10, (k - 1) as nat, p);
        } else {
            reveal_with_fuel(pow10, 2);
            lemma_decimal_len_below(n / 10, k, bound);
        }
    }
}

/// `10^k`.
pub open spec fn pow10(k: nat) -> nat
    decreases k,
{
    if k == 0 {
        1
    } else {
        10 * pow10((k - 1) as nat)
    }
}

fn digit(d: u64) -> (c: char)
    requires
        d < 10,
    ensures
        c == digit_char(d as int),
{
    match d {
        0 => '0',
        1 => '1',
        2 => '2',
        3 => '3',
        4 => '4',
        5 => '5',
        6 => '6',
        7 => '7',
        8 => '8',
        _ => '9',
    }
}

/// Appends the decimal writing of `n` to `out`.
pub fn push_decimal(out: &mut Vec<char>, n: u64)
    ensures
        final(out)@ == old(out)@ + decimal(n as nat),
    decreases n,
{
    if n >= 10 {
        push_decimal(out, n / 10);
    }
    out.push(digit(n % 10));
    proof {
        if n >= 10 {
            assert(old(out)@ + decimal((n / 10) as nat) + seq![digit_char((n % 10) as int)] =~= old(out)@
                + decimal(n as nat));
        } else {
            assert(old(out)@ + seq![digit_char(n as int)] =~= old(out)@ + decimal(n as nat));
        }
    }
}

/// The level line of the welcome and pause screens, counting levels from 1.
pub open spec fn level_label(selected_level_index: int, level_count: int) -> Seq<char> {
    "NIVEL "@ + decimal((selected_level_index + 1) as nat) + " DE "@ + decimal(level_count as nat)
}

fn level_label_chars(selected_level_index: usize, level_count: usize) -> (label: Vec<char>)
    requires
        selected_level_index < usize::MAX,
    ensures
        label@ == level_label(selected_level_index as int, level_count as int),
        label@.len() <= 50,
{
    let mut label = text_chars("NIVEL ");
    push_decimal(&mut label, (selected_level_index + 1) as u64);
    let separator = text_chars(" DE ");
    let mut i: usize = 0;
    let ghost start = label@;
    while i < separator.len()
        invariant
            i <= separator@.len(),
            label@ == start + separator@.take(i as int),
        decreases separator@.len() - i,
    {
        label.push(separator[i]);
        proof {
            assert(separator@.take(i + 1) =~= separator@.take(i as int).push(separator@[i as int]));
        }
        i = i + 1;
    }
    assert(separator@.take(separator@.len() as int) =~= separator@);
    push_decimal(&mut label, level_count as u64);
    proof {
        reveal_strlit("NIVEL ");
        reveal_strlit(" DE ");
        lemma_decimal_len((selected_level_index + 1) as nat);
        lemma_decimal_len(level_count as nat);
    }
    label
}

/// The screen border of the menus: a line 24 pixels inside each edge.
pub open spec fn menu_border_layers(frame_width: int, frame_height: int, accent: u32) -> Seq<Layer> {
    let right = frame_width - 24;
    let bottom = frame_height - 24;
    seq![
        line_layer(24, 24, right, 24, accent),
        line_layer(24, bottom, right, bottom, accent),
        line_layer(24, 24, 24, bottom, accent),
        line_layer(right, 24, right, bottom, accent),
    ]
}

/// The background shared by the menu screens: a dark fill, the colored
/// stripes, the maze picture, and a border in `accent`.
pub open spec fn menu_frame_layers(
    rows: Seq<Seq<char>>,
    frame_width: int,
    frame_height: int,
    accent: u32,
    limit: int,
    bottom_margin: int,
) -> Seq<Layer> {
    seq![rect_layer(0, 0, frame_width, frame_height, VICTORY_BACKGROUND_COLOR)] + menu_band_layers(
        frame_width,
        frame_height,
    ) + motif_layers(rows, frame_width, frame_height, limit, bottom_margin) + menu_border_layers(
        frame_width,
        frame_height,
        accent,
    )
}

/// A list of layers that starts with a layer covering the whole grid paints
/// every pixel of the grid the same, whatever it held.
proof fn lemma_full_first_layer(first: Layer, rest: Seq<Layer>, width: int, height: int, x: int, y: int, base: u32)
    requires
        forall|px: int, py: int| 0 <= px < width && 0 <= py < height ==> #[trigger] (first.0)(px, py),
        0 <= x < width,
        0 <= y < height,
    ensures
        layered_color(seq![first] + rest, x, y, base) == layered_color(rest, x, y, first.1),
{
    crate::framebuffer::lemma_layered_color_concat(seq![first], rest, x, y, base);
    crate::framebuffer::lemma_layered_single(first, x, y, base);
}

/// The menu background repaints the whole screen: two framebuffers of the
/// same size, whatever they held, end up alike. Its border lines, 24 pixels
/// inside the edges, hold the accent color.
pub proof fn lemma_menu_frame_repaints_screen(
    rows: Seq<Seq<char>>,
    width: int,
    height: int,
    accent: u32,
    limit: int,
    bottom_margin: int,
    first_before: Seq<u32>,
    first_after: Seq<u32>,
    second_before: Seq<u32>,
    second_after: Seq<u32>,
)
    requires
        width >= 48,
        height >= 48,
        first_before.len() == width * height,
        second_before.len() == width * height,
        frame_drawn(first_before, first_after, width, height, menu_frame_layers(rows, width, height, accent, limit, bottom_margin)),
        frame_drawn(second_before, second_after, width, height, menu_frame_layers(rows, width, height, accent, limit, bottom_margin)),
    ensures
        first_after == second_after,
        forall|x: int|
            24 <= x <= width - 24 ==> first_after[#[trigger] pixel_index(width, x, 24)] == accent
                && first_after[pixel_index(width, x, height - 24)] == accent,
        forall|y: int|
            24 <= y <= height - 24 ==> first_after[#[trigger] pixel_index(width, 24, y)] == accent
                && first_after[pixel_index(width, width - 24, y)] == accent,
{
    let layers = menu_frame_layers(rows, width, height, accent, limit, bottom_margin);
    let background = rect_layer(0, 0, width, height, VICTORY_BACKGROUND_COLOR);
    let rest = menu_band_layers(width, height) + motif_layers(rows, width, height, limit, bottom_margin)
        + menu_border_layers(width, height, accent);
    assert(layers =~= seq![background] + rest);
    let front = seq![background] + menu_band_layers(width, height) + motif_layers(rows, width, height, limit, bottom_margin);
    let border = menu_border_layers(width, height, accent);
    assert(layers =~= front + border);
    assert forall|i: int| 0 <= i < first_after.len() implies first_after[i] == second_after[i] by {
        let x = i % width;
        let y = i / width;
        lemma_fundamental_div_mod(i, width);
        lemma_mod_bound(i, width);
        assert(0 <= y < height) by (nonlinear_arith)
            requires
                0 <= i < width * height,
                i == width * y + x,
                0 <= x < width,
        ;
        assert(pixel_index(width, x, y) == i) by (nonlinear_arith)
            requires
                i == width * y + x,
        ;
        lemma_full_first_layer(background, rest, width, height, x, y, first_before[i]);
        lemma_full_first_layer(background, rest, width, height, x, y, second_before[i]);
    }
    assert(first_after =~= second_after);
    assert forall|x: int| 24 <= x <= width - 24 implies first_after[#[trigger] pixel_index(width, x, 24)]
        == accent && first_after[pixel_index(width, x, height - 24)] == accent by {
        lemma_axis_line_covers(24, 24, width - 24, 24, accent, x, 24);
        lemma_axis_line_covers(24, height - 24, width - 24, height - 24, accent, x, height - 24);
        lemma_border_color(front, border, width, height, accent, x, 24, first_before[pixel_index(width, x, 24)]);
        lemma_border_color(front, border, width, height, accent, x, height - 24, first_before[pixel_index(width, x, height - 24)]);
    }
    assert forall|y: int| 24 <= y <= height - 24 implies first_after[#[trigger] pixel_index(width, 24, y)]
        == accent && first_after[pixel_index(width, width - 24, y)] == accent by {
        lemma_axis_line_covers(24, 24, 24, height - 24, accent, 24, y);
        lemma_axis_line_covers(width - 24, 24, width - 24, height - 24, accent, width - 24, y);
        lemma_border_color(front, border, width, height, accent, 24, y, first_before[pixel_index(width, 24, y)]);
        lemma_border_color(front, border, width, height, accent, width - 24, y, first_before[pixel_index(width, width - 24, y)]);
    }
}

/// A pixel that one of the border lines covers ends up in the accent color.
proof fn lemma_border_color(front: Seq<Layer>, border: Seq<Layer>, width: int, height: int, accent: u32, x: int, y: int, base: u32)
    requires
        border == menu_border_layers(width, height, accent),
        (border[0].0)(x, y) || (border[1].0)(x, y) || (border[2].0)(x, y) || (border[3].0)(x, y),
    ensures
        layered_color(front + border, x, y, base) == accent,
{
    crate::framebuffer::lemma_layered_color_concat(front, border, x, y, base);
    reveal_with_fuel(layered_color, 5);
    assert(border.drop_last().drop_last().drop_last().drop_last() =~= Seq::<Layer>::empty());
}

/// Draws the background of a menu screen; `accent` becomes the current color.
fn render_menu_frame(
    framebuffer: &mut Framebuffer,
    maze: &Maze,
    accent_color: u32,
    motif_cell_size: usize,
    motif_bottom_margin: usize,
)
    requires
        old(framebuffer).wf(),
        motif_maze_fits(maze_rows(maze@), motif_bottom_margin as int),
    ensures
        final(framebuffer).wf(),
        final(framebuffer).width == old(framebuffer).width,
        final(framebuffer).height == old(framebuffer).height,
        final(framebuffer).current_color == accent_color,
        frame_drawn(
            old(framebuffer).buffer@,
            final(framebuffer).buffer@,
            old(framebuffer).width as int,
            old(framebuffer).height as int,
            menu_frame_layers(
                maze_rows(maze@),
                old(framebuffer).width as int,
                old(framebuffer).height as int,
                accent_color,
                motif_cell_size as int,
                motif_bottom_margin as int,
            ),
        ),
{
    let ghost s0 = framebuffer.buffer@;
    let ghost w = framebuffer.width as int;
    let ghost h = framebuffer.height as int;
    fill_screen(framebuffer, VICTORY_BACKGROUND_COLOR);
    let ghost s1 = framebuffer.buffer@;
    draw_menu_wall_bands(framebuffer);
    let ghost s2 = framebuffer.buffer@;
    draw_menu_maze_motif(framebuffer, maze, motif_cell_size, motif_bottom_margin);
    let ghost s3 = framebuffer.buffer@;
    let margin: isize = 24;
    let right = framebuffer.width as isize - margin;
    let bottom = framebuffer.height as isize - margin;
    framebuffer.set_current_color(accent_color);
    line(framebuffer, margin, margin, right, margin);
    let ghost s4 = framebuffer.buffer@;
    line(framebuffer, margin, bottom, right, bottom);
    let ghost s5 = framebuffer.buffer@;
    line(framebuffer, margin, margin, margin, bottom);
    let ghost s6 = framebuffer.buffer@;
    line(framebuffer, right, margin, right, bottom);
    proof {
        let background = seq![rect_layer(0, 0, w, h, VICTORY_BACKGROUND_COLOR)];
        let bands = menu_band_layers(w, h);
        let motif = motif_layers(maze_rows(maze@), w, h, motif_cell_size as int, motif_bottom_margin as int);
        let l0 = line_layer(24, 24, right as int, 24, accent_color);
        let l1 = line_layer(24, bottom as int, right as int, bottom as int, accent_color);
        let l2 = line_layer(24, 24, 24, bottom as int, accent_color);
        let l3 = line_layer(right as int, 24, right as int, bottom as int, accent_color);
        lemma_frame_drawn_concat(s0, s1, s2, w, h, background, bands);
        lemma_frame_drawn_concat(s0, s2, s3, w, h, background + bands, motif);
        lemma_frame_drawn_concat(s0, s3, s4, w, h, background + bands + motif, seq![l0]);
        lemma_frame_drawn_concat(s0, s4, s5, w, h, background + bands + motif + seq![l0], seq![l1]);
        lemma_frame_drawn_concat(
            s0,
            s5,
            s6,
            w,
            h,
            background + bands + motif + seq![l0] + seq![l1],
            seq![l2],
        );
        lemma_frame_drawn_concat(
            s0,
            s6,
            framebuffer.buffer@,
            w,
            h,
            background + bands + motif + seq![l0] + seq![l1] + seq![l2],
            seq![l3],
        );
        assert(background + bands + motif + seq![l0] + seq![l1] + seq![l2] + seq![l3]
            =~= menu_frame_layers(
            maze_rows(maze@),
            w,
            h,
            accent_color,
            motif_cell_size as int,
            motif_bottom_margin as int,
        ));
    }
}

/// Vertical distance between menu entries drawn at factor `scale`.
pub open spec fn option_gap(scale: int) -> int {
    7 * scale + 18
}

/// The first `n` entries of a menu: entry `i` centered at row
/// `start_y + i * option_gap(scale)`, the selected one in the accent color
/// and the others in the text color.
pub open spec fn options_layers(
    frame_width: int,
    options: Seq<Seq<char>>,
    selected: int,
    start_y: int,
    scale: int,
    n: int,
) -> Seq<Layer>
    decreases n,
{
    if n <= 0 {
        Seq::empty()
    } else {
        options_layers(frame_width, options, selected, start_y, scale, n - 1) + centered_text_layers(
            frame_width,
            options[n - 1],
            start_y + (n - 1) * option_gap(scale),
            scale,
            if n - 1 == selected {
                VICTORY_ACCENT_COLOR
            } else {
                VICTORY_TEXT_COLOR
            },
        )
    }
}

/// The texts of `options`.
pub open spec fn option_texts(options: Seq<&str>) -> Seq<Seq<char>> {
    Seq::new(options.len(), |i: int| options[i]@)
}

/// Menu entries fit the drawing bounds.
pub open spec fn options_fit(options: Seq<&str>, start_y: int, scale: int) -> bool {
    &&& options.len() <= 16
    &&& -0x80_0000 <= start_y <= 0x80_0000
    &&& scale_ok(scale)
    &&& forall|i: int| 0 <= i < options.len() ==> text_len_ok(#[trigger] options[i]@.len() as int)
}

/// Draws the entries of a menu, one below the other and centered, the
/// selected one highlighted; the last entry's color becomes the current
/// color.
fn draw_menu_options(
    framebuffer: &mut Framebuffer,
    options: &[&str],
    selected_option_index: usize,
    start_y: isize,
    scale: isize,
)
    requires
        old(framebuffer).wf(),
        options_fit(options@, start_y as int, scale as int),
    ensures
        final(framebuffer).wf(),
        final(framebuffer).width == old(framebuffer).width,
        final(framebuffer).height == old(framebuffer).height,
        options@.len() == 0 ==> final(framebuffer).current_color == old(framebuffer).current_color,
        options@.len() > 0 ==> final(framebuffer).current_color == (if options@.len() - 1
            == selected_option_index {
            VICTORY_ACCENT_COLOR
        } else {
            VICTORY_TEXT_COLOR
        }),
        frame_drawn(
            old(framebuffer).buffer@,
            final(framebuffer).buffer@,
            old(framebuffer).width as int,
            old(framebuffer).height as int,
            options_layers(
                old(framebuffer).width as int,
                option_texts(options@),
                selected_option_index as int,
                start_y as int,
                scale as int,
                options@.len() as int,
            ),
        ),
{
    let ghost before = framebuffer.buffer@;
    let ghost w = framebuffer.width as int;
    let ghost h = framebuffer.height as int;
    let ghost first_color = framebuffer.current_color;
    let ghost texts = option_texts(options@);
    let row_gap = GLYPH_HEIGHT_ROWS * scale + 18;
    proof {
        lemma_frame_drawn_nothing(before, w, h);
    }
    let mut index: usize = 0;
    while index < options.len()
        invariant
            framebuffer.wf(),
            framebuffer.width == w,
            framebuffer.height == h,
            texts == option_texts(options@),
            options_fit(options@, start_y as int, scale as int),
            row_gap == option_gap(scale as int),
            index <= options@.len(),
            index == 0 ==> framebuffer.current_color == first_color,
            index > 0 ==> framebuffer.current_color == (if index - 1 == selected_option_index {
                VICTORY_ACCENT_COLOR
            } else {
                VICTORY_TEXT_COLOR
            }),
            frame_drawn(
                before,
                framebuffer.buffer@,
                w,
                h,
                options_layers(w, texts, selected_option_index as int, start_y as int, scale as int, index as int),
            ),
        decreases options@.len() - index,
    {
        assert(-0x2_0000 <= index as isize * row_gap <= 0x2_0000) by (nonlinear_arith)
            requires
                0 <= index < 16,
                -0x400 * 7 + 18 <= row_gap <= 0x400 * 7 + 18,
        ;
        let y = start_y + index as isize * row_gap;
        let color = if index == selected_option_index {
            VICTORY_ACCENT_COLOR
        } else {
            VICTORY_TEXT_COLOR
        };
        let chars = text_chars(options[index]);
        proof {
            assert(texts[index as int] == options@[index as int]@);
            assert(text_len_ok(options@[index as int]@.len() as int));
        }
        let ghost mid = framebuffer.buffer@;
        draw_text_centered_chars(framebuffer, &chars, y, scale, color);
        proof {
            lemma_frame_drawn_concat(
                before,
                mid,
                framebuffer.buffer@,
                w,
                h,
                options_layers(w, texts, selected_option_index as int, start_y as int, scale as int, index as int),
                centered_text_layers(w, chars@, y as int, scale as int, color),
            );
        }
        index = index + 1;
    }
}

/// Rows of a glyph, as the factor of the gap between menu entries.
const GLYPH_HEIGHT_ROWS: isize = 7;

/// A titled menu background: the frame, the title at row 135 (factor 8)
/// and, when there is one, a detail line at row 245 (factor 5).
pub open spec fn welcome_menu_layers(
    rows: Seq<Seq<char>>,
    frame_width: int,
    frame_height: int,
    title: Seq<char>,
    detail: Option<Seq<char>>,
    accent: u32,
    limit: int,
    bottom_margin: int,
) -> Seq<Layer> {
    menu_frame_layers(rows, frame_width, frame_height, accent, limit, bottom_margin)
        + centered_text_layers(frame_width, title, 135, 8, VICTORY_TEXT_COLOR) + match detail {
        Some(d) => centered_text_layers(frame_width, d, 245, 5, VICTORY_TEXT_COLOR),
        None => Seq::empty(),
    }
}

/// Draws a titled menu background.
fn render_welcome_menu_screen(
    framebuffer: &mut Framebuffer,
    maze: &Maze,
    title: &Vec<char>,
    detail: Option<&Vec<char>>,
    accent_color: u32,
    motif_cell_size: usize,
    motif_bottom_margin: usize,
)
    requires
        old(framebuffer).wf(),
        motif_maze_fits(maze_rows(maze@), motif_bottom_margin as int),
        text_len_ok(title@.len() as int),
        detail matches Some(d) ==> text_len_ok(d@.len() as int),
    ensures
        final(framebuffer).wf(),
        final(framebuffer).width == old(framebuffer).width,
        final(framebuffer).height == old(framebuffer).height,
        final(framebuffer).current_color == VICTORY_TEXT_COLOR,
        frame_drawn(
            old(framebuffer).buffer@,
            final(framebuffer).buffer@,
            old(framebuffer).width as int,
            old(framebuffer).height as int,
            welcome_menu_layers(
                maze_rows(maze@),
                old(framebuffer).width as int,
                old(framebuffer).height as int,
                title@,
                match detail {
                    Some(d) => Some(d@),
                    None => None,
                },
                accent_color,
                motif_cell_size as int,
                motif_bottom_margin as int,
            ),
        ),
{
    let ghost s0 = framebuffer.buffer@;
    let ghost w = framebuffer.width as int;
    let ghost h = framebuffer.height as int;
    render_menu_frame(framebuffer, maze, accent_color, motif_cell_size, motif_bottom_margin);
    let ghost s1 = framebuffer.buffer@;
    draw_text_centered_chars(framebuffer, title, 135, 8, VICTORY_TEXT_COLOR);
    let ghost s2 = framebuffer.buffer@;
    let ghost frame = menu_frame_layers(
        maze_rows(maze@),
        w,
        h,
        accent_color,
        motif_cell_size as int,
        motif_bottom_margin as int,
    );
    let ghost title_layers = centered_text_layers(w, title@, 135, 8, VICTORY_TEXT_COLOR);
    proof {
        lemma_frame_drawn_concat(s0, s1, s2, w, h, frame, title_layers);
    }
    match detail {
        Some(d) => {
            draw_text_centered_chars(framebuffer, d, 245, 5, VICTORY_TEXT_COLOR);
            proof {
                lemma_frame_drawn_concat(
                    s0,
                    s2,
                    framebuffer.buffer@,
                    w,
                    h,
                    frame + title_layers,
                    centered_text_layers(w, d@, 245, 5, VICTORY_TEXT_COLOR),
                );
            }
        },
        None => {
            proof {
                assert(frame + title_layers + Seq::<Layer>::empty() =~= frame + title_layers);
            }
        },
    }
}

/// The welcome screen: the titled menu background with the title
/// "RAYCASTING" and the selected level, then the entries start, change
/// level and exit.
pub open spec fn welcome_layers(
    rows: Seq<Seq<char>>,
    frame_width: int,
    frame_height: int,
    selected_level_index: int,
    level_count: int,
    selected_option_index: int,
) -> Seq<Layer> {
    welcome_menu_layers(
        rows,
        frame_width,
        frame_height,
        "RAYCASTING"@,
        Some(level_label(selected_level_index, level_count)),
        VICTORY_ACCENT_COLOR,
        7,
        20,
    ) + options_layers(
        frame_width,
        seq!["INICIAR"@, "CAMBIAR NIVEL"@, "SALIR"@],
        selected_option_index,
        325,
        4,
        3,
    )
}

/// Draws the welcome screen.
pub fn render_welcome_screen(
    framebuffer: &mut Framebuffer,
    maze: &Maze,
    selected_level_index: usize,
    level_count: usize,
    selected_option_index: usize,
)
    requires
        old(framebuffer).wf(),
        motif_maze_fits(maze_rows(maze@), 20),
        selected_level_index < usize::MAX,
    ensures
        final(framebuffer).wf(),
        final(framebuffer).width == old(framebuffer).width,
        final(framebuffer).height == old(framebuffer).height,
        final(framebuffer).current_color == (if selected_option_index == 2 {
            VICTORY_ACCENT_COLOR
        } else {
            VICTORY_TEXT_COLOR
        }),
        frame_drawn(
            old(framebuffer).buffer@,
            final(framebuffer).buffer@,
            old(framebuffer).width as int,
            old(framebuffer).height as int,
            welcome_layers(
                maze_rows(maze@),
                old(framebuffer).width as int,
                old(framebuffer).height as int,
                selected_level_index as int,
                level_count as int,
                selected_option_index as int,
            ),
        ),
{
    let ghost s0 = framebuffer.buffer@;
    let ghost w = framebuffer.width as int;
    let ghost h = framebuffer.height as int;
    let level_text = level_label_chars(selected_level_index, level_count);
    let title = text_chars("RAYCASTING");
    proof {
        reveal_strlit("RAYCASTING");
    }
    render_welcome_menu_screen(
        framebuffer,
        maze,
        &title,
        Some(&level_text),
        VICTORY_ACCENT_COLOR,
        7,
        20,
    );
    let ghost s1 = framebuffer.buffer@;
    let options: [&str; 3] = ["INICIAR", "CAMBIAR NIVEL", "SALIR"];
    proof {
        reveal_strlit("INICIAR");
        reveal_strlit("CAMBIAR NIVEL");
        reveal_strlit("SALIR");
        assert(option_texts(options@) =~= seq!["INICIAR"@, "CAMBIAR NIVEL"@, "SALIR"@]);
    }
    draw_menu_options(framebuffer, &options, selected_option_index, 325, 4);
    proof {
        lemma_frame_drawn_concat(
            s0,
            s1,
            framebuffer.buffer@,
            w,
            h,
            welcome_menu_layers(
                maze_rows(maze@),
                w,
                h,
                "RAYCASTING"@,
                Some(level_label(selected_level_index as int, level_count as int)),
                VICTORY_ACCENT_COLOR,
                7,
                20,
            ),
            options_layers(
                w,
                seq!["INICIAR"@, "CAMBIAR NIVEL"@, "SALIR"@],
                selected_option_index as int,
                325,
                4,
                3,
            ),
        );
    }
}

/// A menu screen with a title (row 135, factor 8), an optional detail line
/// (row 255), a primary line in the accent color (row 315) and a secondary
/// line (row 380), the last three at factor 5.
pub open spec fn menu_screen_layers(
    rows: Seq<Seq<char>>,
    frame_width: int,
    frame_height: int,
    title: Seq<char>,
    detail: Option<Seq<char>>,
    primary: Seq<char>,
    secondary: Seq<char>,
    accent: u32,
    limit: int,
    bottom_margin: int,
) -> Seq<Layer> {
    menu_frame_layers(rows, frame_width, frame_height, accent, limit, bottom_margin)
        + centered_text_layers(frame_width, title, 135, 8, VICTORY_TEXT_COLOR) + match detail {
        Some(d) => centered_text_layers(frame_width, d, 255, 5, VICTORY_TEXT_COLOR),
        None => Seq::empty(),
    } + centered_text_layers(frame_width, primary, 315, 5, accent) + centered_text_layers(
        frame_width,
        secondary,
        380,
        5,
        VICTORY_TEXT_COLOR,
    )
}

/// Draws a menu screen with title, detail, primary and secondary lines.
fn render_menu_screen_with_motif(
    framebuffer: &mut Framebuffer,
    maze: &Maze,
    title: &Vec<char>,
    detail: Option<&Vec<char>>,
    primary_action: &Vec<char>,
    secondary_action: &Vec<char>,
    accent_color: u32,
    motif_cell_size: usize,
    motif_bottom_margin: usize,
)
    requires
        old(framebuffer).wf(),
        motif_maze_fits(maze_rows(maze@), motif_bottom_margin as int),
        text_len_ok(title@.len() as int),
        detail matches Some(d) ==> text_len_ok(d@.len() as int),
        text_len_ok(primary_action@.len() as int),
        text_len_ok(secondary_action@.len() as int),
    ensures
        final(framebuffer).wf(),
        final(framebuffer).width == old(framebuffer).width,
        final(framebuffer).height == old(framebuffer).height,
        final(framebuffer).current_color == VICTORY_TEXT_COLOR,
        frame_drawn(
            old(framebuffer).buffer@,
            final(framebuffer).buffer@,
            old(framebuffer).width as int,
            old(framebuffer).height as int,
            menu_screen_layers(
                maze_rows(maze@),
                old(framebuffer).width as int,
                old(framebuffer).height as int,
                title@,
                match detail {
                    Some(d) => Some(d@),
                    None => None,
                },
                primary_action@,
                secondary_action@,
                accent_color,
                motif_cell_size as int,
                motif_bottom_margin as int,
            ),
        ),
{
    let ghost s0 = framebuffer.buffer@;
    let ghost w = framebuffer.width as int;
    let ghost h = framebuffer.height as int;
    let ghost frame = menu_frame_layers(
        maze_rows(maze@),
        w,
        h,
        accent_color,
        motif_cell_size as int,
        motif_bottom_margin as int,
    );
    let ghost title_layers = centered_text_layers(w, title@, 135, 8, VICTORY_TEXT_COLOR);
    let ghost detail_layers = match detail {
        Some(d) => centered_text_layers(w, d@, 255, 5, VICTORY_TEXT_COLOR),
        None => Seq::<Layer>::empty(),
    };
    let ghost primary_layers = centered_text_layers(w, primary_action@, 315, 5, accent_color);
    let ghost secondary_layers = centered_text_layers(w, secondary_action@, 380, 5, VICTORY_TEXT_COLOR);
    render_menu_frame(framebuffer, maze, accent_color, motif_cell_size, motif_bottom_margin);
    let ghost s1 = framebuffer.buffer@;
    draw_text_centered_chars(framebuffer, title, 135, 8, VICTORY_TEXT_COLOR);
    let ghost s2 = framebuffer.buffer@;
    proof {
        lemma_frame_drawn_concat(s0, s1, s2, w, h, frame, title_layers);
    }
    match detail {
        Some(d) => {
            draw_text_centered_chars(framebuffer, d, 255, 5, VICTORY_TEXT_COLOR);
        },
        None => {
            proof {
                lemma_frame_drawn_nothing(s2, w, h);
            }
        },
    }
    let ghost s3 = framebuffer.buffer@;
    proof {
        lemma_frame_drawn_concat(s0, s2, s3, w, h, frame + title_layers, detail_layers);
    }
    draw_text_centered_chars(framebuffer, primary_action, 315, 5, accent_color);
    let ghost s4 = framebuffer.buffer@;
    draw_text_centered_chars(framebuffer, secondary_action, 380, 5, VICTORY_TEXT_COLOR);
    proof {
        lemma_frame_drawn_concat(
            s0,
            s3,
            s4,
            w,
            h,
            frame + title_layers + detail_layers,
            primary_layers,
        );
        lemma_frame_drawn_concat(
            s0,
            s4,
            framebuffer.buffer@,
            w,
            h,
            frame + title_layers + detail_layers + primary_layers,
            secondary_layers,
        );
    }
}

/// Draws a menu screen with the standard maze picture (10-pixel cells, 30
/// rows above the bottom).
pub fn render_menu_screen(
    framebuffer: &mut Framebuffer,
    maze: &Maze,
    title: &Vec<char>,
    detail: Option<&Vec<char>>,
    primary_action: &Vec<char>,
    secondary_action: &Vec<char>,
    accent_color: u32,
)
    requires
        old(framebuffer).wf(),
        motif_maze_fits(maze_rows(maze@), MENU_MAZE_BOTTOM_MARGIN as int),
        text_len_ok(title@.len() as int),
        detail matches Some(d) ==> text_len_ok(d@.len() as int),
        text_len_ok(primary_action@.len() as int),
        text_len_ok(secondary_action@.len() as int),
    ensures
        final(framebuffer).wf(),
        final(framebuffer).width == old(framebuffer).width,
        final(framebuffer).height == old(framebuffer).height,
        final(framebuffer).current_color == VICTORY_TEXT_COLOR,
        frame_drawn(
            old(framebuffer).buffer@,
            final(framebuffer).buffer@,
            old(framebuffer).width as int,
            old(framebuffer).height as int,
            menu_screen_layers(
                maze_rows(maze@),
                old(framebuffer).width as int,
                old(framebuffer).height as int,
                title@,
                match detail {
                    Some(d) => Some(d@),
                    None => None,
                },
                primary_action@,
                secondary_action@,
                accent_color,
                MENU_MAZE_CELL_SIZE as int,
                MENU_MAZE_BOTTOM_MARGIN as int,
            ),
        ),
{
    render_menu_screen_with_motif(
        framebuffer,
        maze,
        title,
        detail,
        primary_action,
        secondary_action,
        accent_color,
        MENU_MAZE_CELL_SIZE,
        MENU_MAZE_BOTTOM_MARGIN,
    );
}

/// The victory screen: "GANASTE" over the menu background, then restart,
/// next level (only when a level follows) and main menu.
pub open spec fn victory_layers(
    rows: Seq<Seq<char>>,
    frame_width: int,
    frame_height: int,
    selected_level_index: int,
    level_count: int,
    selected_option_index: int,
) -> Seq<Layer> {
    menu_screen_layers(
        rows,
        frame_width,
        frame_height,
        "GANASTE"@,
        None,
        ""@,
        ""@,
        VICTORY_ACCENT_COLOR,
        10,
        30,
    ) + if selected_level_index + 1 < level_count {
        options_layers(
            frame_width,
            seq!["REINICIAR"@, "SIGUIENTE NIVEL"@, "MENU PRINCIPAL"@],
            selected_option_index,
            285,
            5,
            3,
        )
    } else {
        options_layers(
            frame_width,
            seq!["REINICIAR"@, "MENU PRINCIPAL"@],
            selected_option_index,
            310,
            5,
            2,
        )
    }
}

/// Draws the victory screen.
pub fn render_victory_screen(
    framebuffer: &mut Framebuffer,
    maze: &Maze,
    selected_level_index: usize,
    level_count: usize,
    selected_option_index: usize,
)
    requires
        old(framebuffer).wf(),
        motif_maze_fits(maze_rows(maze@), 30),
        selected_level_index < usize::MAX,
    ensures
        final(framebuffer).wf(),
        final(framebuffer).width == old(framebuffer).width,
        final(framebuffer).height == old(framebuffer).height,
        final(framebuffer).current_color == (if selected_option_index as int == (if selected_level_index
            + 1 < level_count {
            2int
        } else {
            1int
        }) {
            VICTORY_ACCENT_COLOR
        } else {
            VICTORY_TEXT_COLOR
        }),
        frame_drawn(
            old(framebuffer).buffer@,
            final(framebuffer).buffer@,
            old(framebuffer).width as int,
            old(framebuffer).height as int,
            victory_layers(
                maze_rows(maze@),
                old(framebuffer).width as int,
                old(framebuffer).height as int,
                selected_level_index as int,
                level_count as int,
                selected_option_index as int,
            ),
        ),
{
    let ghost s0 = framebuffer.buffer@;
    let ghost w = framebuffer.width as int;
    let ghost h = framebuffer.height as int;
    let title = text_chars("GANASTE");
    let empty = text_chars("");
    proof {
        reveal_strlit("GANASTE");
        reveal_strlit("");
    }
    render_menu_screen(framebuffer, maze, &title, None, &empty, &empty, VICTORY_ACCENT_COLOR);
    let ghost s1 = framebuffer.buffer@;
    let ghost background = menu_screen_layers(
        maze_rows(maze@),
        w,
        h,
        "GANASTE"@,
        None,
        ""@,
        ""@,
        VICTORY_ACCENT_COLOR,
        10,
        30,
    );
    if selected_level_index + 1 < level_count {
        let options: [&str; 3] = ["REINICIAR", "SIGUIENTE NIVEL", "MENU PRINCIPAL"];
        proof {
            reveal_strlit("REINICIAR");
            reveal_strlit("SIGUIENTE NIVEL");
            reveal_strlit("MENU PRINCIPAL");
            assert(option_texts(options@) =~= seq!["REINICIAR"@, "SIGUIENTE NIVEL"@, "MENU PRINCIPAL"@]);
        }
        draw_menu_options(framebuffer, &options, selected_option_index, 285, 5);
        proof {
            lemma_frame_drawn_concat(
                s0,
                s1,
                framebuffer.buffer@,
                w,
                h,
                background,
                options_layers(
                    w,
                    seq!["REINICIAR"@, "SIGUIENTE NIVEL"@, "MENU PRINCIPAL"@],
                    selected_option_index as int,
                    285,
                    5,
                    3,
                ),
            );
        }
    } else {
        let options: [&str; 2] = ["REINICIAR", "MENU PRINCIPAL"];
        proof {
            reveal_strlit("REINICIAR");
            reveal_strlit("MENU PRINCIPAL");
            assert(option_texts(options@) =~= seq!["REINICIAR"@, "MENU PRINCIPAL"@]);
        }
        draw_menu_options(framebuffer, &options, selected_option_index, 310, 5);
        proof {
            lemma_frame_drawn_concat(
                s0,
                s1,
                framebuffer.buffer@,
                w,
                h,
                background,
                options_layers(
                    w,
                    seq!["REINICIAR"@, "MENU PRINCIPAL"@],
                    selected_option_index as int,
                    310,
                    5,
                    2,
                ),
            );
        }
    }
}

/// The pause menu: "PAUSA" and the selected level over the menu
/// background, then continue, change level and main menu.
pub open spec fn pause_layers(
    rows: Seq<Seq<char>>,
    frame_width: int,
    frame_height: int,
    selected_level_index: int,
    level_count: int,
    selected_option_index: int,
) -> Seq<Layer> {
    menu_frame_layers(rows, frame_width, frame_height, VICTORY_ACCENT_COLOR, 7, 20)
        + centered_text_layers(frame_width, "PAUSA"@, 135, 8, VICTORY_TEXT_COLOR)
        + centered_text_layers(
        frame_width,
        level_label(selected_level_index, level_count),
        235,
        5,
        VICTORY_TEXT_COLOR,
    ) + options_layers(
        frame_width,
        seq!["CONTINUAR"@, "CAMBIAR NIVEL"@, "MENU PRINCIPAL"@],
        selected_option_index,
        320,
        4,
        3,
    )
}

/// Draws the pause menu.
pub fn render_pause_menu(
    framebuffer: &mut Framebuffer,
    maze: &Maze,
    selected_level_index: usize,
    level_count: usize,
    selected_option_index: usize,
)
    requires
        old(framebuffer).wf(),
        motif_maze_fits(maze_rows(maze@), 20),
        selected_level_index < usize::MAX,
    ensures
        final(framebuffer).wf(),
        final(framebuffer).width == old(framebuffer).width,
        final(framebuffer).height == old(framebuffer).height,
        final(framebuffer).current_color == (if selected_option_index == 2 {
            VICTORY_ACCENT_COLOR
        } else {
            VICTORY_TEXT_COLOR
        }),
        frame_drawn(
            old(framebuffer).buffer@,
            final(framebuffer).buffer@,
            old(framebuffer).width as int,
            old(framebuffer).height as int,
            pause_layers(
                maze_rows(maze@),
                old(framebuffer).width as int,
                old(framebuffer).height as int,
                selected_level_index as int,
                level_count as int,
                selected_option_index as int,
            ),
        ),
{
    let ghost s0 = framebuffer.buffer@;
    let ghost w = framebuffer.width as int;
    let ghost h = framebuffer.height as int;
    let level_text = level_label_chars(selected_level_index, level_count);
    let title = text_chars("PAUSA");
    proof {
        reveal_strlit("PAUSA");
    }
    render_menu_frame(framebuffer, maze, VICTORY_ACCENT_COLOR, 7, 20);
    let ghost s1 = framebuffer.buffer@;
    draw_text_centered_chars(framebuffer, &title, 135, 8, VICTORY_TEXT_COLOR);
    let ghost s2 = framebuffer.buffer@;
    draw_text_centered_chars(framebuffer, &level_text, 235, 5, VICTORY_TEXT_COLOR);
    let ghost s3 = framebuffer.buffer@;
    let options: [&str; 3] = ["CONTINUAR", "CAMBIAR NIVEL", "MENU PRINCIPAL"];
    proof {
        reveal_strlit("CONTINUAR");
        reveal_strlit("CAMBIAR NIVEL");
        reveal_strlit("MENU PRINCIPAL");
        assert(option_texts(options@) =~= seq!["CONTINUAR"@, "CAMBIAR NIVEL"@, "MENU PRINCIPAL"@]);
    }
    draw_menu_options(framebuffer, &options, selected_option_index, 320, 4);
    proof {
        let frame = menu_frame_layers(maze_rows(maze@), w, h, VICTORY_ACCENT_COLOR, 7, 20);
        let title_layers = centered_text_layers(w, "PAUSA"@, 135, 8, VICTORY_TEXT_COLOR);
        let level_layers = centered_text_layers(
            w,
            level_label(selected_level_index as int, level_count as int),
            235,
            5,
            VICTORY_TEXT_COLOR,
        );
        lemma_frame_drawn_concat(s0, s1, s2, w, h, frame, title_layers);
        lemma_frame_drawn_concat(s0, s2, s3, w, h, frame + title_layers, level_layers);
        lemma_frame_drawn_concat(
            s0,
            s3,
            framebuffer.buffer@,
            w,
            h,
            frame + title_layers + level_layers,
            options_layers(
                w,
                seq!["CONTINUAR"@, "CAMBIAR NIVEL"@, "MENU PRINCIPAL"@],
                selected_option_index as int,
                320,
                4,
                3,
            ),
        );
    }
}

/// The frames-per-second counter's text.
pub open spec fn fps_label(fps: u32) -> Seq<char> {
    "FPS: "@ + decimal(fps as nat)
}

/// The frames-per-second counter: a dark box six pixels larger than the
/// text on each side, then the text at `(10, 10)` at factor 3.
pub open spec fn fps_overlay_layers(fps: u32) -> Seq<Layer> {
    let text = fps_label(fps);
    seq![
        rect_layer(4, 4, text_width_of(text, 3) + 12, 33, FPS_OVERLAY_BACKGROUND_COLOR),
        text_layer(text, 10, 10, 3, FPS_OVERLAY_TEXT_COLOR),
    ]
}

/// Draws the frames-per-second counter in the top-left corner; the text
/// color becomes the current color.
pub fn render_fps_overlay(framebuffer: &mut Framebuffer, fps: u32)
    requires
        old(framebuffer).wf(),
    ensures
        final(framebuffer).wf(),
        final(framebuffer).width == old(framebuffer).width,
        final(framebuffer).height == old(framebuffer).height,
        final(framebuffer).current_color == FPS_OVERLAY_TEXT_COLOR,
        frame_drawn(
            old(framebuffer).buffer@,
            final(framebuffer).buffer@,
            old(framebuffer).width as int,
            old(framebuffer).height as int,
            fps_overlay_layers(fps),
        ),
{
    let ghost s0 = framebuffer.buffer@;
    let ghost w = framebuffer.width as int;
    let ghost h = framebuffer.height as int;
    let mut text = text_chars("FPS: ");
    push_decimal(&mut text, fps as u64);
    proof {
        reveal_strlit("FPS: ");
        lemma_decimal_len(fps as nat);
        assert(text@ == fps_label(fps));
    }
    let width = text_width_chars(&text, FPS_OVERLAY_SCALE);
    proof {
        crate::text::lemma_text_width_bound(text@, 3);
    }
    let text_height = GLYPH_HEIGHT_ROWS * FPS_OVERLAY_SCALE;
    let background_x = FPS_OVERLAY_X - FPS_OVERLAY_PADDING;
    let background_y = FPS_OVERLAY_Y - FPS_OVERLAY_PADDING;
    let background_width = width + FPS_OVERLAY_PADDING * 2;
    let background_height = text_height + FPS_OVERLAY_PADDING * 2;
    fill_rect(
        framebuffer,
        background_x,
        background_y,
        background_width,
        background_height,
        FPS_OVERLAY_BACKGROUND_COLOR,
    );
    let ghost s1 = framebuffer.buffer@;
    draw_text_chars(framebuffer, &text, FPS_OVERLAY_X, FPS_OVERLAY_Y, FPS_OVERLAY_SCALE, FPS_OVERLAY_TEXT_COLOR);
    proof {
        lemma_frame_drawn_concat(
            s0,
            s1,
            framebuffer.buffer@,
            w,
            h,
            seq![rect_layer(4, 4, width + 12, 33, FPS_OVERLAY_BACKGROUND_COLOR)],
            seq![text_layer(text@, 10, 10, 3, FPS_OVERLAY_TEXT_COLOR)],
        );
        assert(seq![rect_layer(4, 4, width + 12, 33, FPS_OVERLAY_BACKGROUND_COLOR)] + seq![
            text_layer(text@, 10, 10, 3, FPS_OVERLAY_TEXT_COLOR),
        ] =~= fps_overlay_layers(fps));
    }
}

/// On the 2D map the goal is the only cell drawn in the goal color, and it
/// stands apart from the floor and the start, which share the path color.
pub proof fn lemma_goal_cells_stand_out(cell: char)
    ensures
        (map_cell_color(cell) == GOAL_COLOR) <==> cell == 'g',
        (cell == ' ' || cell == 'p') ==> map_cell_color(cell) == PATH_COLOR,
        GOAL_COLOR != PATH_COLOR,
{
}

/// The level line of the menus counts levels from one: for the level at
/// index `i` of `n` it reads "NIVEL m DE n" with `m == i + 1`, so `m` lies in
/// `1..=n`, the first level reads one and the last one reads `n`.
pub proof fn lemma_level_label_counts_from_one(i: nat, n: nat)
    requires
        i < n,
    ensures
        exists|m: nat|
            1 <= m <= n && m == i + 1 && level_label(i as int, n as int) == "NIVEL "@ + decimal(m)
                + " DE "@ + decimal(n),
        i == 0 ==> level_label(i as int, n as int) == "NIVEL "@ + decimal(1) + " DE "@ + decimal(n),
        i + 1 == n ==> level_label(i as int, n as int) == "NIVEL "@ + decimal(n) + " DE "@ + decimal(
            n,
        ),
{
    let m = (i + 1) as nat;
    assert(level_label(i as int, n as int) == "NIVEL "@ + decimal(m) + " DE "@ + decimal(n));
}

/// On the 2D map the six wall symbols have six different colors, none of
/// them the floor's or the goal's; unknown symbols are magenta.
pub proof fn lemma_map_colors_distinct()
    ensures
        forall|a: char, b: char|
            crate::maze::wall_cell(a) && crate::maze::wall_cell(b) && a != b ==> #[trigger] map_cell_color(a)
                != #[trigger] map_cell_color(b),
        forall|a: char|
            crate::maze::wall_cell(a) ==> #[trigger] map_cell_color(a) != PATH_COLOR && map_cell_color(a)
                != GOAL_COLOR,
        forall|a: char|
            !crate::maze::wall_cell(a) && a != ' ' && a != 'p' && a != 'g' ==> #[trigger] map_cell_color(a)
                == 0xff00ff,
{
}

/// On the minimap walls, paths and the goal have three different colors:
/// every wall symbol shares one color, floor and start another, the goal a
/// third.
pub proof fn lemma_minimap_colors(cell: char)
    ensures
        crate::maze::wall_cell(cell) ==> minimap_color_of(cell) == MINIMAP_WALL_COLOR,
        (cell == ' ' || cell == 'p') ==> minimap_color_of(cell) == MINIMAP_PATH_COLOR,
        cell == 'g' ==> minimap_color_of(cell) == MINIMAP_GOAL_COLOR,
        MINIMAP_WALL_COLOR != MINIMAP_PATH_COLOR,
        MINIMAP_WALL_COLOR != MINIMAP_GOAL_COLOR,
        MINIMAP_PATH_COLOR != MINIMAP_GOAL_COLOR,
{
}

/// The 2D map is centered: when it fits, the margins on its two sides
/// differ by at most one pixel (the right one being the wider); when it
/// does not fit, it starts at the edge.
pub proof fn lemma_map_is_centered(frame_side: int, map_side: int)
    requires
        map_side >= 0,
    ensures
        frame_side >= map_side ==> {
            let left = centered_offset(frame_side, map_side);
            let right = frame_side - map_side - left;
            0 <= left <= right <= left + 1
        },
        frame_side < map_side ==> centered_offset(frame_side, map_side) == 0,
{
}

/// The number that decimal digits write, most significant first.
pub open spec fn digits_value(digits: Seq<char>) -> int
    decreases digits.len(),
{
    if digits.len() == 0 {
        0
    } else {
        digits_value(digits.drop_last()) * 10 + (digits.last() as int - '0' as int)
    }
}

/// A digit character stands for its digit.
proof fn lemma_digit_char_value(d: int)
    requires
        0 <= d < 10,
    ensures
        digit_char(d) as int - '0' as int == d,
        '0' <= digit_char(d) <= '9',
{
    assert('0' as int == 48);
    assert('9' as int == 57);
    if d == 0 { assert(digit_char(d) as int == 48); }
    else if d == 1 { assert(digit_char(d) as int == 49); }
    else if d == 2 { assert(digit_char(d) as int == 50); }
    else if d == 3 { assert(digit_char(d) as int == 51); }
    else if d == 4 { assert(digit_char(d) as int == 52); }
    else if d == 5 { assert(digit_char(d) as int == 53); }
    else if d == 6 { assert(digit_char(d) as int == 54); }
    else if d == 7 { assert(digit_char(d) as int == 55); }
    else if d == 8 { assert(digit_char(d) as int == 56); }
    else { assert(digit_char(d) as int == 57); }
}

/// The decimal digits of a number read back the number, are all digits,
/// and start with a zero only for zero itself.
pub proof fn lemma_decimal_reads_back(n: nat)
    ensures
        digits_value(decimal(n)) == n,
        forall|i: int| 0 <= i < decimal(n).len() ==> '0' <= #[trigger] decimal(n)[i] <= '9',
        n > 0 ==> decimal(n)[0] != '0',
        decimal(n).len() > 0,
    decreases n,
{
    if n >= 10 {
        lemma_decimal_reads_back(n / 10);
        let head = decimal(n / 10);
        let d = digit_char((n % 10) as int);
        lemma_digit_char_value((n % 10) as int);
        lemma_fundamental_div_mod(n as int, 10);
        let all = head.push(d);
        assert(all.drop_last() =~= head);
        assert(all.last() == d);
        assert(decimal(n) == all);
        assert(digits_value(all) == digits_value(head) * 10 + (d as int - '0' as int));
        assert(digits_value(all) == (n / 10) * 10 + n % 10);
        assert forall|i: int| 0 <= i < all.len() implies '0' <= #[trigger] all[i] <= '9' by {
            if i < head.len() {
                assert(all[i] == head[i]);
            }
        }
        assert(all[0] == head[0]);
    } else {
        lemma_digit_char_value(n as int);
        let one = seq![digit_char(n as int)];
        assert(one.drop_last() =~= Seq::<char>::empty());
        assert(decimal(n) == one);
        assert(digits_value(one) == digits_value(one.drop_last()) * 10 + (one.last() as int - '0' as int));
    }
}

/// The level line of a menu screen ends with the number of levels, and the
/// frames-per-second counter shows the count it is given: their digits read
/// back those numbers.
pub proof fn lemma_labels_show_their_numbers(i: nat, n: nat, fps: u32)
    requires
        i < n,
    ensures
        exists|shown: Seq<char>, total: Seq<char>|
            level_label(i as int, n as int) == "NIVEL "@ + shown + " DE "@ + total && digits_value(shown)
                == i + 1 && digits_value(total) == n,
        exists|shown: Seq<char>| fps_label(fps) == "FPS: "@ + shown && digits_value(shown) == fps,
{
    lemma_decimal_reads_back((i + 1) as nat);
    lemma_decimal_reads_back(n);
    lemma_decimal_reads_back(fps as nat);
    assert(level_label(i as int, n as int) == "NIVEL "@ + decimal((i + 1) as nat) + " DE "@ + decimal(n));
    assert(fps_label(fps) == "FPS: "@ + decimal(fps as nat));
}

} // verus!
