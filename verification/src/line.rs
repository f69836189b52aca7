//! Bresenham line rasterization.
use vstd::prelude::*;
use vstd::arithmetic::div_mod::{
    lemma_fundamental_div_mod, lemma_fundamental_div_mod_converse, lemma_mod_bound,
};

use crate::framebuffer::{
    frame_drawn, lemma_frame_drawn_concat, lemma_frame_drawn_nothing, layered_color, rect_layer,
    Framebuffer, Layer,
};

verus! {

/// Absolute value.
pub open spec fn abs_int(v: int) -> int {
    if v < 0 {
        -v
    } else {
        v
    }
}

/// The direction a coordinate moves in to go from `from` to `to`
/// (`-1` when they are equal: that coordinate never moves then).
pub open spec fn step_toward(from: int, to: int) -> int {
    if from < to {
        1
    } else {
        -1
    }
}

/// Number of pixels of the line from `(x0, y0)` to `(x1, y1)`: one per
/// position along its longer axis, both ends included.
pub open spec fn line_len(x0: int, y0: int, x1: int, y1: int) -> int {
    let a = abs_int(x1 - x0);
    let b = abs_int(y1 - y0);
    if a >= b {
        a + 1
    } else {
        b + 1
    }
}

/// The `k`-th pixel of the line from `(x0, y0)` to `(x1, y1)`. Along the
/// longer axis the line advances one pixel per step; along the other it takes
/// the exact line's position rounded to the nearest pixel, halves rounding
/// away from the start.
pub open spec fn line_point(x0: int, y0: int, x1: int, y1: int, k: int) -> (int, int) {
    let a = abs_int(x1 - x0);
    let b = abs_int(y1 - y0);
    let sx = step_toward(x0, x1);
    let sy = step_toward(y0, y1);
    if a >= b {
        let v = if a == 0 {
            0
        } else {
            (2 * b * k + a) / (2 * a)
        };
        (x0 + sx * k, y0 + sy * v)
    } else {
        (x0 + sx * ((2 * a * k + b) / (2 * b)), y0 + sy * k)
    }
}

/// The layer covering the pixels of the line, painted with `color`.
pub open spec fn line_layer(x0: int, y0: int, x1: int, y1: int, color: u32) -> Layer {
    (
        |px: int, py: int|
            exists|k: int|
                0 <= k < line_len(x0, y0, x1, y1) && #[trigger] line_point(x0, y0, x1, y1, k) == (
                px,
                py,
            ),
        color,
    )
}

/// One single-pixel layer per line pixel, pixel `k` painted with `colors[k]`.
pub open spec fn shaded_line_layers(
    x0: int,
    y0: int,
    x1: int,
    y1: int,
    colors: Seq<u32>,
) -> Seq<Layer> {
    Seq::new(
        colors.len(),
        |k: int|
            {
                let p = line_point(x0, y0, x1, y1, k);
                rect_layer(p.0, p.1, 1, 1, colors[k])
            },
    )
}

/// The coordinate differences of the line fit in `isize`.
pub open spec fn line_fits(x0: isize, y0: isize, x1: isize, y1: isize) -> bool {
    &&& isize::MIN < x1 - x0 <= isize::MAX
    &&& isize::MIN < y1 - y0 <= isize::MAX
}

/// `(2 * b * k + a) / (2 * a)` is `v` exactly when `v` is within half a pixel
/// of the exact line, `d` being `v * a - k * b`.
proof fn lemma_rounded_minor(a: int, b: int, k: int, v: int, d: int)
    requires
        a > 0,
        d == v * a - k * b,
        -a < 2 * d <= a,
    ensures
        (2 * b * k + a) / (2 * a) == v,
{
    let n = 2 * b * k + a;
    let r = n - v * (2 * a);
    assert(2 * b * k + a == 2 * (k * b) + a) by (nonlinear_arith);
    assert(v * (2 * a) == 2 * (v * a)) by (nonlinear_arith);
    assert(0 <= r < 2 * a);
    lemma_fundamental_div_mod_converse(n, 2 * a, v, r);
}

/// Multiplying by a step of `1` or `-1`.
proof fn lemma_signed_step(s: int, k: int)
    requires
        s == 1 || s == -1,
    ensures
        s * k == (if s == 1 {
            k
        } else {
            -k
        }),
{
    if s == 1 {
        assert(s * k == k) by (nonlinear_arith)
            requires
                s == 1,
        ;
    } else {
        assert(s * k == -k) by (nonlinear_arith)
            requires
                s == -1,
        ;
    }
}

/// Adding at most `d` to `n` raises `n / d` by at most one.
proof fn lemma_floor_step(n: int, step: int, d: int)
    requires
        d > 0,
        0 <= step <= d,
    ensures
        0 <= (n + step) / d - n / d <= 1,
{
    lemma_fundamental_div_mod(n, d);
    lemma_fundamental_div_mod(n + step, d);
    lemma_mod_bound(n, d);
    lemma_mod_bound(n + step, d);
    let q1 = n / d;
    let q2 = (n + step) / d;
    let r1 = n % d;
    let r2 = (n + step) % d;
    assert(0 <= q2 - q1 <= 1) by (nonlinear_arith)
        requires
            n == d * q1 + r1,
            n + step == d * q2 + r2,
            0 <= r1 < d,
            0 <= r2 < d,
            0 <= step <= d,
    ;
}

/// `(2 * b * k + a) / (2 * a)` is within half a step of `k * b / a`.
proof fn lemma_rounded_minor_bound(a: int, b: int, k: int)
    requires
        a > 0,
    ensures
        -a <= 2 * (b * k - a * ((2 * b * k + a) / (2 * a))) < a,
{
    let n = 2 * b * k + a;
    let v = n / (2 * a);
    lemma_fundamental_div_mod(n, 2 * a);
    lemma_mod_bound(n, 2 * a);
    let r = n % (2 * a);
    assert(-a <= 2 * (b * k - a * v) < a) by (nonlinear_arith)
        requires
            n == 2 * b * k + a,
            n == (2 * a) * v + r,
            0 <= r < 2 * a,
    ;
}

/// The first pixel of a line is its start point and the last its end point.
pub proof fn lemma_line_ends(x0: int, y0: int, x1: int, y1: int)
    ensures
        line_point(x0, y0, x1, y1, 0) == (x0, y0),
        line_point(x0, y0, x1, y1, line_len(x0, y0, x1, y1) - 1) == (x1, y1),
{
    let a = abs_int(x1 - x0);
    let b = abs_int(y1 - y0);
    let sx = step_toward(x0, x1);
    let sy = step_toward(y0, y1);
    lemma_signed_step(sx, 0);
    lemma_signed_step(sy, 0);
    lemma_signed_step(sx, a);
    lemma_signed_step(sy, b);
    assert(b * a == a * b) by (nonlinear_arith);
    if a >= b {
        if a > 0 {
            lemma_rounded_minor(a, b, 0, 0, 0);
            lemma_rounded_minor(a, b, a, b, 0);
        }
    } else {
        lemma_rounded_minor(b, a, 0, 0, 0);
        lemma_rounded_minor(b, a, b, a, 0);
    }
}

/// Consecutive pixels of a line touch: each step moves exactly one pixel
/// along the longer axis and at most one along the other, so the line has
/// no gaps.
pub proof fn lemma_line_steps_touch(x0: int, y0: int, x1: int, y1: int, k: int)
    requires
        0 <= k,
        k + 1 < line_len(x0, y0, x1, y1),
    ensures
        abs_int(x1 - x0) >= abs_int(y1 - y0) ==> abs_int(
            line_point(x0, y0, x1, y1, k + 1).0 - line_point(x0, y0, x1, y1, k).0,
        ) == 1 && abs_int(
            line_point(x0, y0, x1, y1, k + 1).1 - line_point(x0, y0, x1, y1, k).1,
        ) <= 1,
        abs_int(x1 - x0) < abs_int(y1 - y0) ==> abs_int(
            line_point(x0, y0, x1, y1, k + 1).1 - line_point(x0, y0, x1, y1, k).1,
        ) == 1 && abs_int(
            line_point(x0, y0, x1, y1, k + 1).0 - line_point(x0, y0, x1, y1, k).0,
        ) <= 1,
{
    let a = abs_int(x1 - x0);
    let b = abs_int(y1 - y0);
    let sx = step_toward(x0, x1);
    let sy = step_toward(y0, y1);
    if a >= b {
        let v0 = (2 * b * k + a) / (2 * a);
        let v1 = (2 * b * (k + 1) + a) / (2 * a);
        assert(2 * b * (k + 1) + a == (2 * b * k + a) + 2 * b) by (nonlinear_arith);
        lemma_floor_step(2 * b * k + a, 2 * b, 2 * a);
        lemma_signed_step(sx, k);
        lemma_signed_step(sx, k + 1);
        lemma_signed_step(sy, v0);
        lemma_signed_step(sy, v1);
    } else {
        let u0 = (2 * a * k + b) / (2 * b);
        let u1 = (2 * a * (k + 1) + b) / (2 * b);
        assert(2 * a * (k + 1) + b == (2 * a * k + b) + 2 * a) by (nonlinear_arith);
        lemma_floor_step(2 * a * k + b, 2 * a, 2 * b);
        lemma_signed_step(sy, k);
        lemma_signed_step(sy, k + 1);
        lemma_signed_step(sx, u0);
        lemma_signed_step(sx, u1);
    }
}

/// Every pixel of a line lies within half a pixel of the exact segment,
/// measured across its longer axis: twice the cross product of the pixel's
/// offset from the start with the segment's direction is at most the
/// length of the longer side.
pub proof fn lemma_line_pixels_near_segment(x0: int, y0: int, x1: int, y1: int, k: int)
    requires
        0 <= k < line_len(x0, y0, x1, y1),
    ensures
        abs_int(
            2 * ((line_point(x0, y0, x1, y1, k).0 - x0) * (y1 - y0) - (line_point(x0, y0, x1, y1, k).1
                - y0) * (x1 - x0)),
        ) <= line_len(x0, y0, x1, y1) - 1,
{
    let a = abs_int(x1 - x0);
    let b = abs_int(y1 - y0);
    let sx = step_toward(x0, x1);
    let sy = step_toward(y0, y1);
    let p = line_point(x0, y0, x1, y1, k);
    let dx = p.0 - x0;
    let dy = p.1 - y0;
    lemma_signed_step(sx, a);
    lemma_signed_step(sy, b);
    assert(x1 - x0 == sx * a);
    assert(y1 - y0 == sy * b);
    if a >= b {
        if a == 0 {
            assert(k == 0);
            lemma_signed_step(sx, 0);
            lemma_signed_step(sy, 0);
            assert(dx == 0 && dy == 0);
            assert(2 * (dx * (y1 - y0) - dy * (x1 - x0)) == 0) by (nonlinear_arith)
                requires
                    dx == 0,
                    dy == 0,
            ;
        } else {
            let v = (2 * b * k + a) / (2 * a);
            lemma_rounded_minor_bound(a, b, k);
            assert(dx == sx * k && dy == sy * v);
            assert(abs_int(2 * (dx * (y1 - y0) - dy * (x1 - x0))) <= a) by (nonlinear_arith)
                requires
                    dx == sx * k,
                    dy == sy * v,
                    x1 - x0 == sx * a,
                    y1 - y0 == sy * b,
                    sx == 1 || sx == -1,
                    sy == 1 || sy == -1,
                    -a <= 2 * (b * k - a * v) < a,
            ;
        }
    } else {
        let u = (2 * a * k + b) / (2 * b);
        lemma_rounded_minor_bound(b, a, k);
        assert(dx == sx * u && dy == sy * k);
        assert(abs_int(2 * (dx * (y1 - y0) - dy * (x1 - x0))) <= b) by (nonlinear_arith)
            requires
                dx == sx * u,
                dy == sy * k,
                x1 - x0 == sx * a,
                y1 - y0 == sy * b,
                sx == 1 || sx == -1,
                sy == 1 || sy == -1,
                -b <= 2 * (a * k - b * u) < b,
        ;
    }
}

/// A horizontal or vertical line covers every pixel between its ends.
pub proof fn lemma_axis_line_covers(x0: int, y0: int, x1: int, y1: int, color: u32, x: int, y: int)
    requires
        (y0 == y1 && y == y0 && (x0 <= x <= x1 || x1 <= x <= x0)) || (x0 == x1 && x == x0 && (y0
            <= y <= y1 || y1 <= y <= y0)),
    ensures
        (line_layer(x0, y0, x1, y1, color).0)(x, y),
{
    let a = abs_int(x1 - x0);
    let b = abs_int(y1 - y0);
    let sx = step_toward(x0, x1);
    let sy = step_toward(y0, y1);
    lemma_line_ends(x0, y0, x1, y1);
    if a == 0 && b == 0 {
        assert(line_point(x0, y0, x1, y1, 0) == (x, y));
    } else if b == 0 {
        let k = abs_int(x - x0);
        lemma_rounded_minor(a, 0, k, 0, 0);
        lemma_signed_step(sx, k);
        lemma_signed_step(sy, 0);
        assert(0 * a - k * 0 == 0) by (nonlinear_arith);
        assert(2 * 0 * k + a == a) by (nonlinear_arith);
        assert(line_point(x0, y0, x1, y1, k) == (x, y));
    } else {
        let k = abs_int(y - y0);
        lemma_rounded_minor(b, 0, k, 0, 0);
        lemma_signed_step(sy, k);
        lemma_signed_step(sx, 0);
        assert(0 * b - k * 0 == 0) by (nonlinear_arith);
        assert(2 * 0 * k + b == b) by (nonlinear_arith);
        assert(line_point(x0, y0, x1, y1, k) == (x, y));
    }
}

/// A walk along the pixels of a line: the current pixel, its index, and the
/// Bresenham error term.
struct LineWalk {
    x: isize,
    y: isize,
    x0: isize,
    y0: isize,
    x1: isize,
    y1: isize,
    sx: isize,
    sy: isize,
    a: i128,
    b: i128,
    error: i128,
    k: Ghost<int>,
    d: Ghost<int>,
}

impl LineWalk {
    /// Progress along the x axis.
    spec fn u(&self) -> int {
        if self.sx == 1 {
            self.x - self.x0
        } else {
            self.x0 - self.x
        }
    }

    /// Progress along the y axis.
    spec fn v(&self) -> int {
        if self.sy == 1 {
            self.y - self.y0
        } else {
            self.y0 - self.y
        }
    }

    spec fn inv(&self) -> bool {
        let a = self.a as int;
        let b = self.b as int;
        let d = self.d@;
        &&& line_fits(self.x0, self.y0, self.x1, self.y1)
        &&& a == abs_int(self.x1 - self.x0)
        &&& b == abs_int(self.y1 - self.y0)
        &&& self.sx == step_toward(self.x0 as int, self.x1 as int)
        &&& self.sy == step_toward(self.y0 as int, self.y1 as int)
        &&& 0 <= self.k@ < line_len(self.x0 as int, self.y0 as int, self.x1 as int, self.y1 as int)
        &&& (self.x as int, self.y as int) == line_point(
            self.x0 as int,
            self.y0 as int,
            self.x1 as int,
            self.y1 as int,
            self.k@,
        )
        &&& 0 <= self.u() <= a
        &&& 0 <= self.v() <= b
        &&& d == self.v() * a - self.u() * b
        &&& self.error == d + a - b
        &&& if a >= b {
            &&& self.u() == self.k@
            &&& a > 0 ==> -a < 2 * d <= a
            &&& a == 0 ==> self.v() == 0
        } else {
            &&& self.v() == self.k@
            &&& -b <= 2 * d < b
        }
    }

    spec fn len(&self) -> int {
        line_len(self.x0 as int, self.y0 as int, self.x1 as int, self.y1 as int)
    }

    fn new(x0: isize, y0: isize, x1: isize, y1: isize) -> (w: LineWalk)
        requires
            line_fits(x0, y0, x1, y1),
        ensures
            w.inv(),
            w.k@ == 0,
            w.x0 == x0 && w.y0 == y0 && w.x1 == x1 && w.y1 == y1,
    {
        let dx = x1 - x0;
        let dy = y1 - y0;
        let a: i128 = if dx < 0 {
            -(dx as i128)
        } else {
            dx as i128
        };
        let b: i128 = if dy < 0 {
            -(dy as i128)
        } else {
            dy as i128
        };
        let sx: isize = if x0 < x1 {
            1
        } else {
            -1
        };
        let sy: isize = if y0 < y1 {
            1
        } else {
            -1
        };
        let w = LineWalk {
            x: x0,
            y: y0,
            x0,
            y0,
            x1,
            y1,
            sx,
            sy,
            a,
            b,
            error: a - b,
            k: Ghost(0),
            d: Ghost(0),
        };
        proof {
            let ai = a as int;
            let bi = b as int;
            assert(w.u() == 0 && w.v() == 0);
            assert(0 * ai - 0 * bi == 0) by (nonlinear_arith);
            if ai >= bi && ai > 0 {
                assert((2 * bi * 0 + ai) / (2 * ai) == 0) by {
                    lemma_rounded_minor(ai, bi, 0, 0, 0);
                }
            } else if ai < bi {
                assert((2 * ai * 0 + bi) / (2 * bi) == 0) by {
                    lemma_rounded_minor(bi, ai, 0, 0, 0);
                }
            }
        }
        w
    }

    fn at_end(&self) -> (end: bool)
        requires
            self.inv(),
        ensures
            end == (self.k@ == self.len() - 1),
    {
        proof {
            self.lemma_end();
        }
        self.x == self.x1 && self.y == self.y1
    }

    /// The walk is at the last pixel exactly when that pixel is the end point.
    proof fn lemma_end(&self)
        requires
            self.inv(),
        ensures
            (self.x == self.x1 && self.y == self.y1) == (self.k@ == self.len() - 1),
    {
        let a = self.a as int;
        let b = self.b as int;
        let d = self.d@;
        let u = self.u();
        let v = self.v();
        if a >= b {
            if self.k@ == a && a > 0 {
                // at the far end along x the rounded y is exactly b
                assert(v == b) by (nonlinear_arith)
                    requires
                        a > 0,
                        d == v * a - a * b,
                        -a < 2 * d <= a,
                {
                    assert(d == a * (v - b));
                    if v > b {
                        assert(a * (v - b) >= a);
                    } else if v < b {
                        assert(a * (v - b) <= -a);
                    }
                }
            }
        } else {
            if self.k@ == b {
                assert(u == a) by (nonlinear_arith)
                    requires
                        b > 0,
                        d == b * a - u * b,
                        -b <= 2 * d < b,
                {
                    assert(d == b * (a - u));
                    if u > a {
                        assert(b * (a - u) <= -b);
                    } else if u < a {
                        assert(b * (a - u) >= b);
                    }
                }
            }
        }
    }

    fn advance(&mut self)
        requires
            old(self).inv(),
            old(self).k@ < old(self).len() - 1,
        ensures
            final(self).inv(),
            final(self).k@ == old(self).k@ + 1,
            final(self).x0 == old(self).x0 && final(self).y0 == old(self).y0,
            final(self).x1 == old(self).x1 && final(self).y1 == old(self).y1,
    {
        let ghost a = self.a as int;
        let ghost b = self.b as int;
        let ghost d = self.d@;
        let ghost u = self.u();
        let ghost v = self.v();
        let ghost k = self.k@;
        let dx = self.a;
        let dy = -self.b;
        let e2 = 2 * self.error;
        let step_x = e2 >= dy;
        let step_y = e2 <= dx;
        let ghost u2 = if step_x {
            u + 1
        } else {
            u
        };
        let ghost v2 = if step_y {
            v + 1
        } else {
            v
        };
        let ghost d2 = v2 * a - u2 * b;
        proof {
            assert(d2 == d + (if step_y {
                a
            } else {
                0
            }) - (if step_x {
                b
            } else {
                0
            })) by (nonlinear_arith)
                requires
                    d == v * a - u * b,
                    d2 == v2 * a - u2 * b,
                    u2 == u + (if step_x {
                        1int
                    } else {
                        0
                    }),
                    v2 == v + (if step_y {
                        1int
                    } else {
                        0
                    }),
            ;
            if a >= b {
                assert(a > 0);
                assert(step_x);
                assert(-a < 2 * d2 <= a);
                lemma_rounded_minor(a, b, k + 1, v2, d2);
                // the rounded y never passes the end
                assert(v2 <= b) by (nonlinear_arith)
                    requires
                        a > 0,
                        a >= b,
                        b >= 0,
                        k + 1 <= a,
                        d2 == v2 * a - (k + 1) * b,
                        2 * d2 <= a,
                {
                    assert((k + 1) * b <= a * b);
                    if v2 > b {
                        assert(v2 * a >= (b + 1) * a);
                    }
                }
            } else {
                assert(step_y);
                assert(-b <= 2 * d2 < b);
                lemma_rounded_minor(b, a, k + 1, u2, -d2);
                assert(u2 <= a) by (nonlinear_arith)
                    requires
                        b > 0,
                        a >= 0,
                        k + 1 <= b,
                        d2 == (k + 1) * a - u2 * b,
                        -b <= 2 * d2,
                {
                    assert((k + 1) * a <= b * a);
                    if u2 > a {
                        assert(u2 * b >= (a + 1) * b);
                    }
                }
            }
        }
        if step_x {
            self.error = self.error + dy;
            self.x = self.x + self.sx;
        }
        if step_y {
            self.error = self.error + dx;
            self.y = self.y + self.sy;
        }
        self.k = Ghost(k + 1);
        self.d = Ghost(d2);
        proof {
            lemma_signed_step(self.sx as int, k + 1);
            lemma_signed_step(self.sy as int, k + 1);
            lemma_signed_step(self.sx as int, u2);
            lemma_signed_step(self.sy as int, v2);
        }
    }
}

/// Folding one more single-colored pixel into the line-so-far layer.
proof fn lemma_line_prefix_extend(
    before: Seq<u32>,
    mid: Seq<u32>,
    after: Seq<u32>,
    width: int,
    height: int,
    x0: int,
    y0: int,
    x1: int,
    y1: int,
    k: int,
    color: u32,
)
    requires
        0 <= k < line_len(x0, y0, x1, y1),
        frame_drawn(before, mid, width, height, seq![line_prefix_layer(x0, y0, x1, y1, k, color)]),
        frame_drawn(
            mid,
            after,
            width,
            height,
            seq![
                rect_layer(
                    line_point(x0, y0, x1, y1, k).0,
                    line_point(x0, y0, x1, y1, k).1,
                    1,
                    1,
                    color,
                ),
            ],
        ),
    ensures
        frame_drawn(before, after, width, height, seq![line_prefix_layer(x0, y0, x1, y1, k + 1, color)]),
{
    let p = line_point(x0, y0, x1, y1, k);
    let lp = line_prefix_layer(x0, y0, x1, y1, k, color);
    let lq = rect_layer(p.0, p.1, 1, 1, color);
    let lr = line_prefix_layer(x0, y0, x1, y1, k + 1, color);
    lemma_frame_drawn_concat(before, mid, after, width, height, seq![lp], seq![lq]);
    assert forall|x: int, y: int| 0 <= x < width && 0 <= y < height implies #[trigger] after[
        crate::framebuffer::pixel_index(width, x, y)
    ] == layered_color(seq![lr], x, y, before[crate::framebuffer::pixel_index(width, x, y)]) by {
        let base = before[crate::framebuffer::pixel_index(width, x, y)];
        assert(seq![lp] + seq![lq] =~= seq![lp, lq]);
        assert(seq![lp, lq].drop_last() =~= seq![lp]);
        assert(seq![lp].drop_last() =~= Seq::<Layer>::empty());
        assert(seq![lr].drop_last() =~= Seq::<Layer>::empty());
        if (lr.0)(x, y) {
            let j = choose|j: int| 0 <= j < k + 1 && #[trigger] line_point(x0, y0, x1, y1, j) == (x, y);
            if j < k {
                assert((lp.0)(x, y));
            }
        } else {
            if (lp.0)(x, y) {
                let j = choose|j: int| 0 <= j < k && #[trigger] line_point(x0, y0, x1, y1, j) == (x, y);
                assert((lr.0)(x, y));
            }
            if (lq.0)(x, y) {
                assert(line_point(x0, y0, x1, y1, k) == (x, y));
                assert((lr.0)(x, y));
            }
        }
    }
}

/// The layer covering the first `k` pixels of the line.
pub open spec fn line_prefix_layer(x0: int, y0: int, x1: int, y1: int, k: int, color: u32) -> Layer {
    (
        |px: int, py: int|
            exists|j: int| 0 <= j < k && #[trigger] line_point(x0, y0, x1, y1, j) == (px, py),
        color,
    )
}

/// Draws the line from `(x0, y0)` to `(x1, y1)` with the current color,
/// both ends included; pixels outside the framebuffer are skipped.
pub fn line(framebuffer: &mut Framebuffer, x0: isize, y0: isize, x1: isize, y1: isize)
    requires
        old(framebuffer).wf(),
        line_fits(x0, y0, x1, y1),
    ensures
        final(framebuffer).wf(),
        final(framebuffer).width == old(framebuffer).width,
        final(framebuffer).height == old(framebuffer).height,
        final(framebuffer).current_color == old(framebuffer).current_color,
        frame_drawn(
            old(framebuffer).buffer@,
            final(framebuffer).buffer@,
            old(framebuffer).width as int,
            old(framebuffer).height as int,
            seq![line_layer(x0 as int, y0 as int, x1 as int, y1 as int, old(framebuffer).current_color)],
        ),
{
    let ghost before = framebuffer.buffer@;
    let ghost w = framebuffer.width as int;
    let ghost h = framebuffer.height as int;
    let ghost color = framebuffer.current_color;
    let ghost (gx0, gy0, gx1, gy1) = (x0 as int, y0 as int, x1 as int, y1 as int);
    let mut walk = LineWalk::new(x0, y0, x1, y1);
    proof {
        assert forall|x: int, y: int| 0 <= x < w && 0 <= y < h implies #[trigger] framebuffer.buffer@[
            crate::framebuffer::pixel_index(w, x, y)
        ] == layered_color(
            seq![line_prefix_layer(gx0, gy0, gx1, gy1, 0, color)],
            x,
            y,
            before[crate::framebuffer::pixel_index(w, x, y)],
        ) by {
            crate::framebuffer::lemma_layered_single(
                line_prefix_layer(gx0, gy0, gx1, gy1, 0, color),
                x,
                y,
                before[crate::framebuffer::pixel_index(w, x, y)],
            );
        }
    }
    loop
        invariant_except_break
            frame_drawn(
                before,
                framebuffer.buffer@,
                w,
                h,
                seq![line_prefix_layer(gx0, gy0, gx1, gy1, walk.k@, color)],
            ),
        invariant
            walk.inv(),
            walk.x0 == x0 && walk.y0 == y0 && walk.x1 == x1 && walk.y1 == y1,
            gx0 == x0 as int && gy0 == y0 as int && gx1 == x1 as int && gy1 == y1 as int,
            framebuffer.wf(),
            framebuffer.width == w,
            framebuffer.height == h,
            framebuffer.current_color == color,
        ensures
            frame_drawn(
                before,
                framebuffer.buffer@,
                w,
                h,
                seq![line_prefix_layer(gx0, gy0, gx1, gy1, line_len(gx0, gy0, gx1, gy1), color)],
            ),
            framebuffer.wf(),
            framebuffer.width == w,
            framebuffer.height == h,
            framebuffer.current_color == color,
        decreases walk.len() - walk.k@,
    {
        let ghost mid = framebuffer.buffer@;
        framebuffer.point(walk.x, walk.y);
        proof {
            assert(0 <= walk.k@ < line_len(gx0, gy0, gx1, gy1));
            lemma_line_prefix_extend(
                before,
                mid,
                framebuffer.buffer@,
                w,
                h,
                gx0,
                gy0,
                gx1,
                gy1,
                walk.k@,
                color,
            );
        }
        if walk.at_end() {
            break;
        }
        walk.advance();
    }
    proof {
        let n = line_len(gx0, gy0, gx1, gy1);
        let full = line_prefix_layer(gx0, gy0, gx1, gy1, n, color);
        let target = line_layer(gx0, gy0, gx1, gy1, color);
        assert forall|x: int, y: int| 0 <= x < w && 0 <= y < h implies #[trigger] framebuffer.buffer@[
            crate::framebuffer::pixel_index(w, x, y)
        ] == layered_color(seq![target], x, y, before[crate::framebuffer::pixel_index(w, x, y)]) by {
            let base = before[crate::framebuffer::pixel_index(w, x, y)];
            crate::framebuffer::lemma_layered_single(full, x, y, base);
            crate::framebuffer::lemma_layered_single(target, x, y, base);
            assert((full.0)(x, y) == (target.0)(x, y));
        }
    }
}

/// Draws the line from `(x0, y0)` to `(x1, y1)`, coloring each pixel with
/// what `shader` returns for it. The shader is called once per line pixel,
/// in drawing order, also for pixels outside the framebuffer.
pub fn line_with_shader<F>(
    framebuffer: &mut Framebuffer,
    x0: isize,
    y0: isize,
    x1: isize,
    y1: isize,
    shader: F,
) where F: Fn(isize, isize) -> u32
    requires
        old(framebuffer).wf(),
        line_fits(x0, y0, x1, y1),
        forall|x: isize, y: isize| #[trigger] shader.requires((x, y)),
    ensures
        final(framebuffer).wf(),
        final(framebuffer).width == old(framebuffer).width,
        final(framebuffer).height == old(framebuffer).height,
        exists|colors: Seq<u32>|
            {
                &&& colors.len() == line_len(x0 as int, y0 as int, x1 as int, y1 as int)
                &&& forall|k: int|
                    0 <= k < colors.len() ==> shader.ensures(
                        (
                            line_point(x0 as int, y0 as int, x1 as int, y1 as int, k).0 as isize,
                            line_point(x0 as int, y0 as int, x1 as int, y1 as int, k).1 as isize,
                        ),
                        #[trigger] colors[k],
                    )
                &&& final(framebuffer).current_color == colors.last()
                &&& frame_drawn(
                    old(framebuffer).buffer@,
                    final(framebuffer).buffer@,
                    old(framebuffer).width as int,
                    old(framebuffer).height as int,
                    shaded_line_layers(x0 as int, y0 as int, x1 as int, y1 as int, colors),
                )
            },
{
    let ghost before = framebuffer.buffer@;
    let ghost w = framebuffer.width as int;
    let ghost h = framebuffer.height as int;
    let ghost (gx0, gy0, gx1, gy1) = (x0 as int, y0 as int, x1 as int, y1 as int);
    let ghost mut colors: Seq<u32> = Seq::empty();
    let mut walk = LineWalk::new(x0, y0, x1, y1);
    proof {
        lemma_frame_drawn_nothing(before, w, h);
        assert(shaded_line_layers(gx0, gy0, gx1, gy1, colors) =~= Seq::<Layer>::empty());
    }
    loop
        invariant_except_break
            colors.len() == walk.k@,
        invariant
            walk.inv(),
            walk.x0 == x0 && walk.y0 == y0 && walk.x1 == x1 && walk.y1 == y1,
            gx0 == x0 as int && gy0 == y0 as int && gx1 == x1 as int && gy1 == y1 as int,
            framebuffer.wf(),
            framebuffer.width == w,
            framebuffer.height == h,
            forall|x: isize, y: isize| #[trigger] shader.requires((x, y)),
            forall|k: int|
                0 <= k < colors.len() ==> shader.ensures(
                    (
                        line_point(gx0, gy0, gx1, gy1, k).0 as isize,
                        line_point(gx0, gy0, gx1, gy1, k).1 as isize,
                    ),
                    #[trigger] colors[k],
                ),
            frame_drawn(before, framebuffer.buffer@, w, h, shaded_line_layers(gx0, gy0, gx1, gy1, colors)),
        ensures
            framebuffer.wf(),
            framebuffer.width == w,
            framebuffer.height == h,
            colors.len() == line_len(gx0, gy0, gx1, gy1),
            forall|k: int|
                0 <= k < colors.len() ==> shader.ensures(
                    (
                        line_point(gx0, gy0, gx1, gy1, k).0 as isize,
                        line_point(gx0, gy0, gx1, gy1, k).1 as isize,
                    ),
                    #[trigger] colors[k],
                ),
            framebuffer.current_color == colors.last(),
            frame_drawn(before, framebuffer.buffer@, w, h, shaded_line_layers(gx0, gy0, gx1, gy1, colors)),
        decreases walk.len() - walk.k@,
    {
        let x = walk.x;
        let y = walk.y;
        let color = shader(x, y);
        framebuffer.set_current_color(color);
        let ghost mid = framebuffer.buffer@;
        framebuffer.point(x, y);
        proof {
            let old_colors = colors;
            colors = colors.push(color);
            assert(line_point(gx0, gy0, gx1, gy1, walk.k@) == (x as int, y as int));
            lemma_frame_drawn_concat(
                before,
                mid,
                framebuffer.buffer@,
                w,
                h,
                shaded_line_layers(gx0, gy0, gx1, gy1, old_colors),
                seq![rect_layer(x as int, y as int, 1, 1, color)],
            );
            let lhs = shaded_line_layers(gx0, gy0, gx1, gy1, old_colors) + seq![
                rect_layer(x as int, y as int, 1, 1, color),
            ];
            let rhs = shaded_line_layers(gx0, gy0, gx1, gy1, colors);
            assert forall|j: int| 0 <= j < rhs.len() implies lhs[j] == rhs[j] by {
                if j < old_colors.len() {
                    assert(colors[j] == old_colors[j]);
                } else {
                    assert(j == old_colors.len());
                }
            }
            assert(lhs =~= rhs);
            assert forall|k: int| 0 <= k < colors.len() implies shader.ensures(
                (
                    line_point(gx0, gy0, gx1, gy1, k).0 as isize,
                    line_point(gx0, gy0, gx1, gy1, k).1 as isize,
                ),
                #[trigger] colors[k],
            ) by {
                if k < old_colors.len() {
                    assert(colors[k] == old_colors[k]);
                } else {
                    assert(k == walk.k@);
                    assert(line_point(gx0, gy0, gx1, gy1, k).0 as isize == x);
                    assert(line_point(gx0, gy0, gx1, gy1, k).1 as isize == y);
                }
            }
        }
        if walk.at_end() {
            break;
        }
        walk.advance();
    }
}

} // verus!
