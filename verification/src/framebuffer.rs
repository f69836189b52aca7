//! The pixel buffer that every renderer draws into, and the layer model in
//! which drawing routines are specified.
use vstd::prelude::*;

verus! {

/// Value of a pixel nothing has been drawn on.
pub const BACKGROUND_COLOR: u32 = 0x000000;

/// Color a new framebuffer draws with until another one is set.
pub const DEFAULT_DRAW_COLOR: u32 = 0xffffff;

/// Largest width or height of a framebuffer.
pub const MAX_FRAME_SIDE: usize = 0x10_0000;

/// A drawing layer: the pixels it covers (by column and row) and the color it
/// paints them.
pub type Layer = (spec_fn(int, int) -> bool, u32);

/// Position of the pixel at column `x`, row `y` in a row-major buffer.
pub open spec fn pixel_index(width: int, x: int, y: int) -> int {
    y * width + x
}

/// The color a pixel ends up with when `layers` are painted, in order, over
/// a pixel that held `base`: the color of the last layer covering it.
pub open spec fn layered_color(layers: Seq<Layer>, x: int, y: int, base: u32) -> u32
    decreases layers.len(),
{
    if layers.len() == 0 {
        base
    } else if (layers.last().0)(x, y) {
        layers.last().1
    } else {
        layered_color(layers.drop_last(), x, y, base)
    }
}

/// `after` is `before` with `layers` painted over it, on a `width` x `height` grid.
pub open spec fn frame_drawn(
    before: Seq<u32>,
    after: Seq<u32>,
    width: int,
    height: int,
    layers: Seq<Layer>,
) -> bool {
    &&& after.len() == before.len()
    &&& forall|x: int, y: int|
        0 <= x < width && 0 <= y < height ==> #[trigger] after[pixel_index(width, x, y)]
            == layered_color(layers, x, y, before[pixel_index(width, x, y)])
}

/// The layer covering the axis-aligned rectangle with top-left corner
/// `(x, y)`, `w` columns wide and `h` rows high.
pub open spec fn rect_layer(x: int, y: int, w: int, h: int, color: u32) -> Layer {
    (|px: int, py: int| x <= px < x + w && y <= py < y + h, color)
}

/// Distinct pixels of the grid sit at distinct buffer positions.
pub proof fn lemma_pixel_index_injective(width: int, height: int, x1: int, y1: int, x2: int, y2: int)
    requires
        0 <= x1 < width,
        0 <= y1 < height,
        0 <= x2 < width,
        0 <= y2 < height,
        pixel_index(width, x1, y1) == pixel_index(width, x2, y2),
    ensures
        x1 == x2,
        y1 == y2,
{
    assert(y1 == y2) by (nonlinear_arith)
        requires
            0 <= x1 < width,
            0 <= x2 < width,
            y1 * width + x1 == y2 * width + x2,
    {
        if y1 < y2 {
            assert(y1 * width + width <= y2 * width);
        } else if y1 > y2 {
            assert(y2 * width + width <= y1 * width);
        }
    }
}

/// Every pixel of the grid lies inside the buffer.
pub proof fn lemma_pixel_index_in_buffer(width: int, height: int, x: int, y: int)
    requires
        0 <= x < width,
        0 <= y < height,
    ensures
        0 <= pixel_index(width, x, y) < width * height,
{
    assert(0 <= y * width + x < width * height) by (nonlinear_arith)
        requires
            0 <= x < width,
            0 <= y < height,
    {
        assert(y * width + width <= height * width);
    }
}

/// Painting `l1` and then `l2` is painting `l1 + l2`.
pub proof fn lemma_layered_color_concat(l1: Seq<Layer>, l2: Seq<Layer>, x: int, y: int, base: u32)
    ensures
        layered_color(l1 + l2, x, y, base) == layered_color(l2, x, y, layered_color(l1, x, y, base)),
    decreases l2.len(),
{
    if l2.len() == 0 {
        assert(l1 + l2 == l1);
    } else {
        assert((l1 + l2).drop_last() == l1 + l2.drop_last());
        assert((l1 + l2).last() == l2.last());
        lemma_layered_color_concat(l1, l2.drop_last(), x, y, base);
    }
}

/// Drawing `l1` and then `l2` is drawing `l1 + l2`.
pub proof fn lemma_frame_drawn_concat(
    a: Seq<u32>,
    b: Seq<u32>,
    c: Seq<u32>,
    width: int,
    height: int,
    l1: Seq<Layer>,
    l2: Seq<Layer>,
)
    requires
        frame_drawn(a, b, width, height, l1),
        frame_drawn(b, c, width, height, l2),
    ensures
        frame_drawn(a, c, width, height, l1 + l2),
{
    assert forall|x: int, y: int| 0 <= x < width && 0 <= y < height implies #[trigger] c[pixel_index(
        width,
        x,
        y,
    )] == layered_color(l1 + l2, x, y, a[pixel_index(width, x, y)]) by {
        lemma_layered_color_concat(l1, l2, x, y, a[pixel_index(width, x, y)]);
    }
}

/// The color a single layer leaves a pixel with.
pub proof fn lemma_layered_single(l: Layer, x: int, y: int, base: u32)
    ensures
        layered_color(seq![l], x, y, base) == (if (l.0)(x, y) {
            l.1
        } else {
            base
        }),
{
    reveal_with_fuel(layered_color, 2);
    assert(seq![l].last() == l);
    assert(seq![l].drop_last() =~= Seq::<Layer>::empty());
}

/// Drawing no layer leaves the buffer as it is.
pub proof fn lemma_frame_drawn_nothing(a: Seq<u32>, width: int, height: int)
    ensures
        frame_drawn(a, a, width, height, Seq::<Layer>::empty()),
{
}

/// A buffer that one layer leaves unchanged is drawn by the empty layer list.
pub proof fn lemma_frame_drawn_single(a: Seq<u32>, b: Seq<u32>, width: int, height: int, l: Layer)
    requires
        b.len() == a.len(),
        forall|x: int, y: int|
            0 <= x < width && 0 <= y < height ==> #[trigger] b[pixel_index(width, x, y)] == (if (l.0)(
                x,
                y,
            ) {
                l.1
            } else {
                a[pixel_index(width, x, y)]
            }),
    ensures
        frame_drawn(a, b, width, height, seq![l]),
{
    assert forall|x: int, y: int| 0 <= x < width && 0 <= y < height implies #[trigger] b[pixel_index(
        width,
        x,
        y,
    )] == layered_color(seq![l], x, y, a[pixel_index(width, x, y)]) by {
        let base = a[pixel_index(width, x, y)];
        assert(seq![l].last() == l);
        assert(seq![l].drop_last() =~= Seq::<Layer>::empty());
        assert(layered_color(seq![l].drop_last(), x, y, base) == base);
    }
}

/// Painting the pixels of `first` and then those of `second`, both with
/// `color`, paints the pixels of their union.
pub proof fn lemma_frame_drawn_union(
    a: Seq<u32>,
    b: Seq<u32>,
    c: Seq<u32>,
    width: int,
    height: int,
    first: spec_fn(int, int) -> bool,
    second: spec_fn(int, int) -> bool,
    union: spec_fn(int, int) -> bool,
    color: u32,
)
    requires
        frame_drawn(a, b, width, height, seq![(first, color)]),
        frame_drawn(b, c, width, height, seq![(second, color)]),
        forall|x: int, y: int| #[trigger] union(x, y) == (first(x, y) || second(x, y)),
    ensures
        frame_drawn(a, c, width, height, seq![(union, color)]),
{
    assert forall|x: int, y: int| 0 <= x < width && 0 <= y < height implies #[trigger] c[pixel_index(
        width,
        x,
        y,
    )] == layered_color(seq![(union, color)], x, y, a[pixel_index(width, x, y)]) by {
        let i = pixel_index(width, x, y);
        lemma_layered_single((first, color), x, y, a[i]);
        lemma_layered_single((second, color), x, y, b[i]);
        lemma_layered_single((union, color), x, y, a[i]);
    }
}

/// Two layer lists that color every pixel alike draw the same thing.
pub proof fn lemma_frame_drawn_same_colors(
    a: Seq<u32>,
    b: Seq<u32>,
    width: int,
    height: int,
    l1: Seq<Layer>,
    l2: Seq<Layer>,
)
    requires
        frame_drawn(a, b, width, height, l1),
        forall|x: int, y: int, base: u32|
            0 <= x < width && 0 <= y < height ==> #[trigger] layered_color(l1, x, y, base)
                == layered_color(l2, x, y, base),
    ensures
        frame_drawn(a, b, width, height, l2),
{
    assert forall|x: int, y: int| 0 <= x < width && 0 <= y < height implies #[trigger] b[pixel_index(
        width,
        x,
        y,
    )] == layered_color(l2, x, y, a[pixel_index(width, x, y)]) by {
        assert(layered_color(l1, x, y, a[pixel_index(width, x, y)]) == layered_color(
            l2,
            x,
            y,
            a[pixel_index(width, x, y)],
        ));
    }
}

/// Reading back what a rectangle layer drew: a pixel of the grid inside the
/// rectangle holds its color, and every other pixel of the grid keeps the
/// value it had.
pub proof fn lemma_rect_reads_back(
    before: Seq<u32>,
    after: Seq<u32>,
    width: int,
    height: int,
    rx: int,
    ry: int,
    rw: int,
    rh: int,
    color: u32,
    x: int,
    y: int,
)
    requires
        frame_drawn(before, after, width, height, seq![rect_layer(rx, ry, rw, rh, color)]),
        0 <= x < width,
        0 <= y < height,
    ensures
        (rx <= x < rx + rw && ry <= y < ry + rh) ==> after[pixel_index(width, x, y)] == color,
        !(rx <= x < rx + rw && ry <= y < ry + rh) ==> after[pixel_index(width, x, y)] == before[pixel_index(
            width,
            x,
            y,
        )],
{
    lemma_layered_single(rect_layer(rx, ry, rw, rh, color), x, y, before[pixel_index(width, x, y)]);
}

/// A row-major grid of `0xRRGGBB` pixels, and the color the next point is
/// drawn with.
pub struct Framebuffer {
    pub width: usize,
    pub height: usize,
    pub buffer: Vec<u32>,
    pub current_color: u32,
}

impl Framebuffer {
    /// The buffer holds exactly one pixel per column and row, and no side is
    /// longer than `MAX_FRAME_SIDE`.
    pub open spec fn wf(&self) -> bool {
        &&& self.buffer@.len() == self.width * self.height
        &&& self.width <= MAX_FRAME_SIDE
        &&& self.height <= MAX_FRAME_SIDE
    }

    /// The pixels, as a sequence.
    pub open spec fn pixels(&self) -> Seq<u32> {
        self.buffer@
    }

    /// A `width` x `height` framebuffer whose pixels all hold the background
    /// color.
    pub fn new(width: usize, height: usize) -> (fb: Framebuffer)
        requires
            width * height <= usize::MAX,
            width <= MAX_FRAME_SIDE,
            height <= MAX_FRAME_SIDE,
        ensures
            fb.wf(),
            fb.width == width,
            fb.height == height,
            forall|i: int| 0 <= i < fb.buffer@.len() ==> fb.buffer@[i] == BACKGROUND_COLOR,
            fb.current_color == DEFAULT_DRAW_COLOR,
    {
        let size = width * height;
        let mut buffer: Vec<u32> = Vec::with_capacity(size);
        let mut i: usize = 0;
        while i < size
            invariant
                i <= size,
                buffer@.len() == i,
                forall|j: int| 0 <= j < i ==> buffer@[j] == BACKGROUND_COLOR,
            decreases size - i,
        {
            buffer.push(BACKGROUND_COLOR);
            i = i + 1;
        }
        Framebuffer { width, height, buffer, current_color: DEFAULT_DRAW_COLOR }
    }

    /// Sets every pixel back to the background color.
    pub fn clear(&mut self)
        requires
            old(self).wf(),
        ensures
            final(self).wf(),
            final(self).width == old(self).width,
            final(self).height == old(self).height,
            final(self).current_color == old(self).current_color,
            final(self).buffer@.len() == old(self).buffer@.len(),
            forall|i: int| 0 <= i < final(self).buffer@.len() ==> final(self).buffer@[i] == BACKGROUND_COLOR,
    {
        let n = self.buffer.len();
        let mut i: usize = 0;
        while i < n
            invariant
                i <= n,
                n == self.buffer@.len(),
                self.buffer@.len() == old(self).buffer@.len(),
                self.width == old(self).width,
                self.height == old(self).height,
                self.current_color == old(self).current_color,
                forall|j: int| 0 <= j < i ==> self.buffer@[j] == BACKGROUND_COLOR,
            decreases n - i,
        {
            self.buffer.set(i, BACKGROUND_COLOR);
            i = i + 1;
        }
    }

    /// Chooses the color the following points are drawn with.
    pub fn set_current_color(&mut self, color: u32)
        ensures
            final(self).current_color == color,
            final(self).width == old(self).width,
            final(self).height == old(self).height,
            final(self).buffer@ == old(self).buffer@,
    {
        self.current_color = color;
    }

    /// Paints the pixel at column `x`, row `y` with the current color; a point
    /// outside the grid changes nothing.
    pub fn point(&mut self, x: isize, y: isize)
        requires
            old(self).wf(),
        ensures
            final(self).wf(),
            final(self).width == old(self).width,
            final(self).height == old(self).height,
            final(self).current_color == old(self).current_color,
            frame_drawn(
                old(self).buffer@,
                final(self).buffer@,
                old(self).width as int,
                old(self).height as int,
                seq![rect_layer(x as int, y as int, 1, 1, old(self).current_color)],
            ),
    {
        let ghost w = self.width as int;
        let ghost h = self.height as int;
        let ghost before = self.buffer@;
        let ghost layer = rect_layer(x as int, y as int, 1, 1, self.current_color);
        if x >= 0 && y >= 0 && (x as usize) < self.width && (y as usize) < self.height {
            let xu = x as usize;
            let yu = y as usize;
            let n = self.buffer.len();
            proof {
                lemma_pixel_index_in_buffer(w, h, xu as int, yu as int);
            }
            let index = yu * self.width + xu;
            let color = self.current_color;
            self.buffer.set(index, color);
            proof {
                assert forall|px: int, py: int| 0 <= px < w && 0 <= py < h implies #[trigger] self.buffer@[pixel_index(
                    w,
                    px,
                    py,
                )] == (if (layer.0)(px, py) {
                    layer.1
                } else {
                    before[pixel_index(w, px, py)]
                }) by {
                    lemma_pixel_index_in_buffer(w, h, px, py);
                    if pixel_index(w, px, py) == index as int {
                        lemma_pixel_index_injective(w, h, px, py, xu as int, yu as int);
                    }
                }
                lemma_frame_drawn_single(before, self.buffer@, w, h, layer);
            }
        } else {
            proof {
                lemma_frame_drawn_single(before, self.buffer@, w, h, layer);
            }
        }
    }

    /// Paints, with the current color, the pixels of columns `x0..x1` in rows
    /// `y0..y1` (a block inside the grid).
    pub fn fill_block(&mut self, x0: usize, x1: usize, y0: usize, y1: usize)
        requires
            old(self).wf(),
            x0 <= x1 <= old(self).width,
            y0 <= y1 <= old(self).height,
        ensures
            final(self).wf(),
            final(self).width == old(self).width,
            final(self).height == old(self).height,
            final(self).current_color == old(self).current_color,
            frame_drawn(
                old(self).buffer@,
                final(self).buffer@,
                old(self).width as int,
                old(self).height as int,
                seq![
                    rect_layer(
                        x0 as int,
                        y0 as int,
                        x1 - x0,
                        y1 - y0,
                        old(self).current_color,
                    ),
                ],
            ),
    {
        let ghost w = self.width as int;
        let ghost h = self.height as int;
        let ghost before = self.buffer@;
        let color = self.current_color;
        let width = self.width;
        let n = self.buffer.len();
        let mut row = y0;
        while row < y1
            invariant
                self.wf(),
                self.width == width,
                width == w,
                self.height == h,
                self.current_color == color,
                self.buffer@.len() == before.len(),
                before.len() == w * h,
                n == before.len(),
                y0 <= row <= y1,
                x0 <= x1 <= w,
                y1 <= h,
                forall|px: int, py: int|
                    0 <= px < w && 0 <= py < h ==> #[trigger] self.buffer@[pixel_index(w, px, py)]
                        == (if x0 <= px < x1 && y0 <= py < row {
                        color
                    } else {
                        before[pixel_index(w, px, py)]
                    }),
            decreases y1 - row,
        {
            let mut column = x0;
            while column < x1
                invariant
                    self.wf(),
                    self.width == width,
                    width == w,
                    self.height == h,
                    self.current_color == color,
                    self.buffer@.len() == before.len(),
                    before.len() == w * h,
                    n == before.len(),
                    y0 <= row < y1,
                    x0 <= column <= x1,
                    x1 <= w,
                    y1 <= h,
                    forall|px: int, py: int|
                        0 <= px < w && 0 <= py < h ==> #[trigger] self.buffer@[pixel_index(w, px, py)]
                            == (if (x0 <= px < x1 && y0 <= py < row) || (x0 <= px < column && py
                            == row) {
                            color
                        } else {
                            before[pixel_index(w, px, py)]
                        }),
                decreases x1 - column,
            {
                proof {
                    lemma_pixel_index_in_buffer(w, h, column as int, row as int);
                }
                let index = row * width + column;
                let ghost mid = self.buffer@;
                self.buffer.set(index, color);
                proof {
                    assert forall|px: int, py: int| 0 <= px < w && 0 <= py < h implies #[trigger] self.buffer@[pixel_index(
                        w,
                        px,
                        py,
                    )] == (if (x0 <= px < x1 && y0 <= py < row) || (x0 <= px < column + 1 && py
                        == row) {
                        color
                    } else {
                        before[pixel_index(w, px, py)]
                    }) by {
                        lemma_pixel_index_in_buffer(w, h, px, py);
                        if pixel_index(w, px, py) == index as int {
                            lemma_pixel_index_injective(w, h, px, py, column as int, row as int);
                        } else {
                            assert(self.buffer@[pixel_index(w, px, py)] == mid[pixel_index(w, px, py)]);
                        }
                    }
                }
                column = column + 1;
            }
            row = row + 1;
        }
        proof {
            let layer = rect_layer(x0 as int, y0 as int, x1 - x0, y1 - y0, color);
            lemma_frame_drawn_single(before, self.buffer@, w, h, layer);
        }
    }
}

} // verus!
