//! Filled and outlined rectangles.
use vstd::prelude::*;

use crate::framebuffer::{
    frame_drawn, lemma_frame_drawn_concat, lemma_frame_drawn_nothing, lemma_frame_drawn_same_colors,
    lemma_layered_single, layered_color, rect_layer, Framebuffer, Layer,
};
use crate::line::{line, line_fits, line_layer};

verus! {

/// Clamps `v` into `0..=limit`.
fn clamp_to(v: isize, limit: usize) -> (c: usize)
    requires
        limit <= isize::MAX,
    ensures
        c == (if v < 0 {
            0
        } else if v > limit {
            limit as int
        } else {
            v as int
        }),
{
    if v < 0 {
        0
    } else if v as usize > limit {
        limit
    } else {
        v as usize
    }
}

/// Paints, with the current color, the `w` x `h` rectangle whose top-left
/// pixel is `(x, y)`; the part outside the framebuffer is skipped.
fn paint_rect(framebuffer: &mut Framebuffer, x: isize, y: isize, w: isize, h: isize)
    requires
        old(framebuffer).wf(),
        w > 0 && h > 0 ==> x + w <= isize::MAX && y + h <= isize::MAX,
    ensures
        final(framebuffer).wf(),
        final(framebuffer).width == old(framebuffer).width,
        final(framebuffer).height == old(framebuffer).height,
        final(framebuffer).current_color == old(framebuffer).current_color,
        frame_drawn(
            old(framebuffer).buffer@,
            final(framebuffer).buffer@,
            old(framebuffer).width as int,
            old(framebuffer).height as int,
            seq![rect_layer(x as int, y as int, w as int, h as int, old(framebuffer).current_color)],
        ),
{
    let ghost before = framebuffer.buffer@;
    let ghost wd = framebuffer.width as int;
    let ghost ht = framebuffer.height as int;
    let color = framebuffer.current_color;
    let ghost target = rect_layer(x as int, y as int, w as int, h as int, color);
    if w <= 0 || h <= 0 {
        proof {
            lemma_frame_drawn_nothing(before, wd, ht);
            assert forall|px: int, py: int, base: u32|
                0 <= px < wd && 0 <= py < ht implies #[trigger] layered_color(
                Seq::<Layer>::empty(),
                px,
                py,
                base,
            ) == layered_color(seq![target], px, py, base) by {
                lemma_layered_single(target, px, py, base);
            }
            lemma_frame_drawn_same_colors(before, before, wd, ht, Seq::<Layer>::empty(), seq![target]);
        }
        return;
    }
    let x0 = clamp_to(x, framebuffer.width);
    let x1 = clamp_to(x + w, framebuffer.width);
    let y0 = clamp_to(y, framebuffer.height);
    let y1 = clamp_to(y + h, framebuffer.height);
    framebuffer.fill_block(x0, x1, y0, y1);
    proof {
        let drawn = rect_layer(x0 as int, y0 as int, x1 - x0, y1 - y0, color);
        assert forall|px: int, py: int, base: u32|
            0 <= px < wd && 0 <= py < ht implies #[trigger] layered_color(
            seq![drawn],
            px,
            py,
            base,
        ) == layered_color(seq![target], px, py, base) by {
            lemma_layered_single(target, px, py, base);
            lemma_layered_single(drawn, px, py, base);
        }
        lemma_frame_drawn_same_colors(before, framebuffer.buffer@, wd, ht, seq![drawn], seq![target]);
    }
}

/// The rectangle `w` wide and `h` high at `(x, y)` fits the coordinate type.
pub open spec fn rect_fits(x: isize, y: isize, w: isize, h: isize) -> bool {
    w > 0 && h > 0 ==> x + w <= isize::MAX && y + h <= isize::MAX
}

/// Fills the `width` x `height` rectangle with top-left pixel `(x, y)`
/// with `color`, which becomes the current color; an empty rectangle changes
/// nothing, not even the current color.
pub fn fill_rect(
    framebuffer: &mut Framebuffer,
    x: isize,
    y: isize,
    width: isize,
    height: isize,
    color: u32,
)
    requires
        old(framebuffer).wf(),
        rect_fits(x, y, width, height),
    ensures
        final(framebuffer).wf(),
        final(framebuffer).width == old(framebuffer).width,
        final(framebuffer).height == old(framebuffer).height,
        final(framebuffer).current_color == (if width <= 0 || height <= 0 {
            old(framebuffer).current_color
        } else {
            color
        }),
        frame_drawn(
            old(framebuffer).buffer@,
            final(framebuffer).buffer@,
            old(framebuffer).width as int,
            old(framebuffer).height as int,
            seq![rect_layer(x as int, y as int, width as int, height as int, color)],
        ),
{
    if width <= 0 || height <= 0 {
        let ghost before = framebuffer.buffer@;
        proof {
            let wd = framebuffer.width as int;
            let ht = framebuffer.height as int;
            let target = rect_layer(x as int, y as int, width as int, height as int, color);
            lemma_frame_drawn_nothing(before, wd, ht);
            assert forall|px: int, py: int, base: u32|
                0 <= px < wd && 0 <= py < ht implies #[trigger] layered_color(
                Seq::<Layer>::empty(),
                px,
                py,
                base,
            ) == layered_color(seq![target], px, py, base) by {
                lemma_layered_single(target, px, py, base);
            }
            lemma_frame_drawn_same_colors(before, before, wd, ht, Seq::<Layer>::empty(), seq![target]);
        }
        return;
    }
    framebuffer.set_current_color(color);
    paint_rect(framebuffer, x, y, width, height);
}

/// Fills the whole framebuffer with `color`, which becomes the current color.
pub fn fill_screen(framebuffer: &mut Framebuffer, color: u32)
    requires
        old(framebuffer).wf(),
    ensures
        final(framebuffer).wf(),
        final(framebuffer).width == old(framebuffer).width,
        final(framebuffer).height == old(framebuffer).height,
        final(framebuffer).current_color == color,
        frame_drawn(
            old(framebuffer).buffer@,
            final(framebuffer).buffer@,
            old(framebuffer).width as int,
            old(framebuffer).height as int,
            seq![
                rect_layer(
                    0,
                    0,
                    old(framebuffer).width as int,
                    old(framebuffer).height as int,
                    color,
                ),
            ],
        ),
{
    framebuffer.set_current_color(color);
    let w = framebuffer.width;
    let h = framebuffer.height;
    framebuffer.fill_block(0, w, 0, h);
}

/// Paints, with the current color, the `scale` x `scale` square whose
/// top-left pixel is `(x, y)`: one enlarged pixel of a glyph.
pub fn draw_scaled_pixel(framebuffer: &mut Framebuffer, x: isize, y: isize, scale: isize)
    requires
        old(framebuffer).wf(),
        rect_fits(x, y, scale, scale),
    ensures
        final(framebuffer).wf(),
        final(framebuffer).width == old(framebuffer).width,
        final(framebuffer).height == old(framebuffer).height,
        final(framebuffer).current_color == old(framebuffer).current_color,
        frame_drawn(
            old(framebuffer).buffer@,
            final(framebuffer).buffer@,
            old(framebuffer).width as int,
            old(framebuffer).height as int,
            seq![
                rect_layer(
                    x as int,
                    y as int,
                    scale as int,
                    scale as int,
                    old(framebuffer).current_color,
                ),
            ],
        ),
{
    paint_rect(framebuffer, x, y, scale, scale);
}

/// The four edges of the outline of the `width` x `height` rectangle at
/// `(x, y)`, in drawing order: top, right, bottom, left.
pub open spec fn outline_layers(x: int, y: int, width: int, height: int, color: u32) -> Seq<Layer> {
    let right = x + width - 1;
    let bottom = y + height - 1;
    if width <= 0 || height <= 0 {
        Seq::empty()
    } else {
        seq![
            line_layer(x, y, right, y, color),
            line_layer(right, y, right, bottom, color),
            line_layer(right, bottom, x, bottom, color),
            line_layer(x, bottom, x, y, color),
        ]
    }
}

/// Draws the one-pixel outline of the `width` x `height` rectangle at
/// `(x, y)` in `color`, which becomes the current color; an empty rectangle
/// changes nothing.
pub fn draw_rect_outline(
    framebuffer: &mut Framebuffer,
    x: isize,
    y: isize,
    width: isize,
    height: isize,
    color: u32,
)
    requires
        old(framebuffer).wf(),
        rect_fits(x, y, width, height),
    ensures
        final(framebuffer).wf(),
        final(framebuffer).width == old(framebuffer).width,
        final(framebuffer).height == old(framebuffer).height,
        final(framebuffer).current_color == (if width <= 0 || height <= 0 {
            old(framebuffer).current_color
        } else {
            color
        }),
        frame_drawn(
            old(framebuffer).buffer@,
            final(framebuffer).buffer@,
            old(framebuffer).width as int,
            old(framebuffer).height as int,
            outline_layers(x as int, y as int, width as int, height as int, color),
        ),
{
    let ghost before = framebuffer.buffer@;
    let ghost wd = framebuffer.width as int;
    let ghost ht = framebuffer.height as int;
    if width <= 0 || height <= 0 {
        proof {
            lemma_frame_drawn_nothing(before, wd, ht);
        }
        return;
    }
    let right = x + width - 1;
    let bottom = y + height - 1;
    framebuffer.set_current_color(color);
    let ghost s0 = framebuffer.buffer@;
    line(framebuffer, x, y, right, y);
    let ghost s1 = framebuffer.buffer@;
    line(framebuffer, right, y, right, bottom);
    let ghost s2 = framebuffer.buffer@;
    line(framebuffer, right, bottom, x, bottom);
    let ghost s3 = framebuffer.buffer@;
    line(framebuffer, x, bottom, x, y);
    proof {
        let (xi, yi, ri, bi) = (x as int, y as int, right as int, bottom as int);
        let l0 = line_layer(xi, yi, ri, yi, color);
        let l1 = line_layer(ri, yi, ri, bi, color);
        let l2 = line_layer(ri, bi, xi, bi, color);
        let l3 = line_layer(xi, bi, xi, yi, color);
        lemma_frame_drawn_concat(s0, s1, s2, wd, ht, seq![l0], seq![l1]);
        lemma_frame_drawn_concat(s0, s2, s3, wd, ht, seq![l0] + seq![l1], seq![l2]);
        lemma_frame_drawn_concat(
            s0,
            s3,
            framebuffer.buffer@,
            wd,
            ht,
            seq![l0] + seq![l1] + seq![l2],
            seq![l3],
        );
        assert(seq![l0] + seq![l1] + seq![l2] + seq![l3] =~= outline_layers(
            xi,
            yi,
            width as int,
            height as int,
            color,
        ));
    }
}

} // verus!
