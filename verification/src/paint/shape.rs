//! Shapes given by their coverage, and the text cursor.
use crate::canvas::{self, Canvas, PixelRect};
use crate::paint::clip::Clip;
use crate::pixel::{self, Blend, BlendMode};
use crate::theme;
use vstd::prelude::*;

verus! {

/// The box of a shape, in pixels; the end columns and rows are not part of it.
#[derive(Clone, Copy, Debug, PartialEq, Eq, Structural)]
pub struct ShapeBox {
    pub x_min: i32,
    pub x_max: i32,
    pub y_min: i32,
    pub y_max: i32,
}

impl ShapeBox {
    /// How many columns the box has.
    pub open spec fn cols(self) -> int {
        self.x_max - self.x_min
    }

    /// How many cells the box has, 0 where a side is not positive.
    pub open spec fn cells(self) -> int {
        if self.x_max > self.x_min && self.y_max > self.y_min {
            self.cols() * (self.y_max - self.y_min)
        } else {
            0
        }
    }

    /// The part of the box inside the buffer and the clip, as `(x0, y0, x1, y1)`.
    pub open spec fn visible(self, c: Clip, w: int, h: int) -> (int, int, int, int) {
        (
            vstd::math::max(vstd::math::max(self.x_min as int, 0), c.x_start as int),
            vstd::math::max(vstd::math::max(self.y_min as int, 0), c.y_start as int),
            vstd::math::min(
                vstd::math::min(vstd::math::max(self.x_max as int, 0), w),
                c.x_end as int,
            ),
            vstd::math::min(
                vstd::math::min(vstd::math::max(self.y_max as int, 0), h),
                c.y_end as int,
            ),
        )
    }
}

/// Pixel `i` after a shape went under it.
pub open spec fn shape_px(
    p: u32,
    i: int,
    w: int,
    v: (int, int, int, int),
    b: ShapeBox,
    colour: u32,
    opacity: Seq<u8>,
) -> u32 {
    if canvas::in_rect(i, w, v.0, v.1, v.2, v.3) {
        let at = (canvas::row_of(i, w) - b.y_min) * b.cols() + (canvas::col_of(i, w) - b.x_min);
        pixel::under_px(
            p,
            pixel::argb(
                opacity[at] as int,
                pixel::red(colour),
                pixel::green(colour),
                pixel::blue(colour),
            ),
            BlendMode::Normal,
        )
    } else {
        p
    }
}

/// The buffer after a shape went under it.
pub open spec fn with_shape(
    pixels: Seq<u32>,
    w: int,
    h: int,
    b: ShapeBox,
    colour: u32,
    c: Clip,
    opacity: Seq<u8>,
) -> Seq<u32> {
    let v = b.visible(c, w, h);
    Seq::new(pixels.len(), |i: int| shape_px(pixels[i], i, w, v, b, colour, opacity))
}

/// The damage after a shape was drawn.
pub open spec fn shape_damage(
    d: Option<PixelRect>,
    w: int,
    h: int,
    b: ShapeBox,
    c: Clip,
) -> Option<PixelRect> {
    let v = b.visible(c, w, h);
    canvas::joined(
        d,
        PixelRect { x0: v.0 as usize, y0: v.1 as usize, x1: v.2 as usize, y1: v.3 as usize },
    )
}

/// A rasterised shape: its box and the opacity of the colour in each cell, row by row.
#[derive(Debug)]
pub struct Coverage {
    pub shape: ShapeBox,
    pub opacity: Vec<u8>,
}

impl Coverage {
    /// One value for each cell.
    pub open spec fn wf(&self) -> bool {
        self.opacity@.len() == self.shape.cells()
    }

    /// The buffer after the shape went under it.
    pub open spec fn over(
        &self,
        pixels: Seq<u32>,
        w: int,
        h: int,
        colour: u32,
        c: Clip,
    ) -> Seq<u32> {
        with_shape(pixels, w, h, self.shape, colour, c, self.opacity@)
    }

    /// Lays the shape under the canvas.
    pub fn draw(&self, canvas: &mut Canvas, colour: u32, clip: Option<Clip>)
        requires
            old(canvas).fits(),
            self.wf(),
        ensures
            final(canvas).pixels@ == self.over(
                old(canvas).pixels@,
                old(canvas).width as int,
                old(canvas).height as int,
                colour,
                Clip::resolved(clip, old(canvas).width, old(canvas).height),
            ),
            final(canvas).pixels@.len() == old(canvas).pixels@.len(),
            final(canvas).damage.rect() == shape_damage(
                old(canvas).damage.rect(),
                old(canvas).width as int,
                old(canvas).height as int,
                self.shape,
                Clip::resolved(clip, old(canvas).width, old(canvas).height),
            ),
            final(canvas).width == old(canvas).width,
            final(canvas).height == old(canvas).height,
            final(final(canvas).pixels)@ == final(old(canvas).pixels)@,
            *final(final(canvas).damage) == *final(old(canvas).damage),
    {
        let ghost before = canvas.pixels@;
        let ghost c = Clip::resolved(clip, canvas.width, canvas.height);
        draw_coverage(canvas, self.shape, colour, clip, self.opacity.as_slice());
        assert(canvas.pixels@ =~= self.over(
            before,
            canvas.width as int,
            canvas.height as int,
            colour,
            c,
        ));
    }
}

/// Lays a shape under the canvas. `opacity` holds, row by row, the opacity of the colour in each cell
/// of the shape's box.
pub fn draw_coverage(
    canvas: &mut Canvas,
    shape: ShapeBox,
    colour: u32,
    clip: Option<Clip>,
    opacity: &[u8],
)
    requires
        old(canvas).fits(),
        opacity@.len() == shape.cells(),
    ensures
        final(canvas).pixels@.len() == old(canvas).pixels@.len(),
        ({
            let v = shape.visible(
                Clip::resolved(clip, old(canvas).width, old(canvas).height),
                old(canvas).width as int,
                old(canvas).height as int,
            );
            &&& forall|i: int|
                0 <= i < old(canvas).pixels@.len() ==> #[trigger] final(canvas).pixels@[i]
                    == shape_px(
                    old(canvas).pixels@[i],
                    i,
                    old(canvas).width as int,
                    v,
                    shape,
                    colour,
                    opacity@,
                )
            &&& final(canvas).damage.rect() == canvas::joined(
                old(canvas).damage.rect(),
                (PixelRect {
                    x0: v.0 as usize,
                    y0: v.1 as usize,
                    x1: v.2 as usize,
                    y1: v.3 as usize,
                }),
            )
        }),
        final(canvas).width == old(canvas).width,
        final(canvas).height == old(canvas).height,
        final(final(canvas).pixels)@ == final(old(canvas).pixels)@,
        *final(final(canvas).damage) == *final(old(canvas).damage),
{
    let w: usize = canvas.width;
    let h: usize = canvas.height;
    let part = Clip::intersect_bbox(
        clip,
        w,
        h,
        shape.x_min,
        shape.x_max,
        shape.y_min,
        shape.y_max,
    );
    let (x0, y0, x1, y1) = match part {
        None => {
            return;
        },
        Some(r) => r,
    };
    canvas.damage.add_bounds(x0, y0, x1, y1);
    let n: usize = opacity.len();
    let ghost cols = shape.cols();
    proof {
        canvas::lemma_grid(w as int);
        assert(w * y1 <= w * h) by (nonlinear_arith)
            requires
                y1 <= h,
        ;
    }
    let paint = |p: u32, x: usize, y: usize| -> (q: u32)
        requires
            x0 <= x < x1,
            y0 <= y < y1,
        ensures
            q == pixel::under_px(
                p,
                pixel::argb(
                    opacity@[(y - shape.y_min) * shape.cols() + (x - shape.x_min)] as int,
                    pixel::red(colour),
                    pixel::green(colour),
                    pixel::blue(colour),
                ),
                BlendMode::Normal,
            ),
    {
        let dx: usize = (x as i128 - shape.x_min as i128) as usize;
        let dy: usize = (y as i128 - shape.y_min as i128) as usize;
        let across: usize = (shape.x_max as i128 - shape.x_min as i128) as usize;
        proof {
            canvas::lemma_cell_bound(
                dx as int,
                dy as int,
                shape.cols(),
                (shape.y_max - shape.y_min) as int,
            );
        }
        let a: u8 = opacity[dy * across + dx];
        p.under(pixel::with_alpha(colour, a as u32), BlendMode::Normal)
    };
    canvas::map_rect(canvas.pixels, w, x0, y0, x1, y1, paint);
}

/// How far the cursor wave reaches to each side.
pub const BLINKEY_REACH: usize = 7;

/// `v - k`, at least 0.
pub open spec fn floor_sub(v: int, k: int) -> int {
    if v > k {
        v - k
    } else {
        0
    }
}

/// A pixel with `k` taken from the darkness of each channel.
pub open spec fn lightened(p: u32, k: int) -> u32 {
    pixel::argb(
        pixel::alpha(p),
        floor_sub(pixel::red(p), k),
        floor_sub(pixel::green(p), k),
        floor_sub(pixel::blue(p), k),
    )
}

/// The distance between two columns.
pub open spec fn apart(a: int, b: int) -> int {
    if a > b {
        a - b
    } else {
        b - a
    }
}

/// The strength of the cursor wave in a row of a cursor `height` rows high: the brightness times
/// `(1 - t^2)(1 - t)^2`, where `t` runs from -1 at the top to 1 at the bottom, or upside down where
/// the bottom is the bright end.
pub open spec fn wave_at(row: int, height: int, top_bright: bool) -> int {
    let half = height / 2;
    let d = row - half;
    let side = if top_bright {
        half - d
    } else {
        half + d
    };
    if half == 0 {
        0
    } else {
        (theme::CURSOR_BRIGHTNESS * ((half * half - d * d) * (side * side))) / ((half * half) * (half
            * half))
    }
}

/// The tallest cursor.
pub const MAX_CURSOR: usize = 0x1000_0000;

/// The strength of the cursor wave in a row.
fn wave_of(row: usize, height: usize, top_bright: bool) -> (k: u32)
    requires
        row < height <= MAX_CURSOR,
    ensures
        k as int == wave_at(row as int, height as int, top_bright),
{
    let half: i128 = (height / 2) as i128;
    let d: i128 = row as i128 - half;
    let side: i128 = if top_bright {
        half - d
    } else {
        half + d
    };
    if half == 0 {
        return 0;
    }
    proof {
        lemma_wave(d as int, side as int, half as int);
    }
    let num: u128 = ((half * half - d * d) * (side * side)) as u128;
    let den: u128 = ((half * half) * (half * half)) as u128;
    ((100 * num) / den) as u32
}

proof fn lemma_wave(d: int, side: int, half: int)
    requires
        0 < half <= 0x1000_0000,
        -half <= d <= half,
        0 <= side <= 2 * half,
    ensures
        0 <= d * d <= half * half,
        0 < half * half <= 0x100_0000_0000_0000,
        0 <= side * side <= 4 * (half * half),
        0 <= (half * half - d * d) * (side * side) <= 4 * ((half * half) * (half * half)),
        0 < (half * half) * (half * half) <= 0x1_0000_0000_0000_0000_0000_0000_0000,
        0 <= (100 * ((half * half - d * d) * (side * side))) / ((half * half) * (half * half))
            <= 400,
{
    let q = half * half;
    assert(0 <= d * d <= q) by (nonlinear_arith)
        requires
            -half <= d <= half,
            q == half * half,
    ;
    assert(0 < q <= 0x100_0000_0000_0000) by (nonlinear_arith)
        requires
            0 < half <= 0x1000_0000,
            q == half * half,
    ;
    assert(0 <= side * side <= 4 * q) by (nonlinear_arith)
        requires
            0 <= side <= 2 * half,
            q == half * half,
    ;
    let s = side * side;
    let r = q - d * d;
    let n = r * s;
    assert(0 <= n <= 4 * (q * q)) by (nonlinear_arith)
        requires
            0 <= r <= q,
            0 <= s <= 4 * q,
            n == r * s,
    ;
    assert(0 < q * q <= 0x1_0000_0000_0000_0000_0000_0000_0000) by (nonlinear_arith)
        requires
            0 < q <= 0x100_0000_0000_0000,
    ;
    let den = q * q;
    assert(0 <= (100 * n) / den <= 400) by (nonlinear_arith)
        requires
            0 <= n <= 4 * den,
            den > 0,
    ;
}

/// Pixel `i` after the cursor at column `bx`, from row `by` down, was drawn: the strength of its row
/// is halved with each column away from the cursor.
pub open spec fn blinkey_px(
    p: u32,
    i: int,
    w: int,
    bx: int,
    by: int,
    height: int,
    top_bright: bool,
) -> u32 {
    let x = canvas::col_of(i, w);
    let y = canvas::row_of(i, w);
    if by <= y < by + height && apart(x, bx) <= BLINKEY_REACH {
        lightened(
            p,
            ((wave_at(y - by, height, top_bright) as u32) >> (apart(x, bx) as u32)) as int,
        )
    } else {
        p
    }
}

/// The buffer after the cursor was drawn.
pub open spec fn with_blinkey(
    pixels: Seq<u32>,
    w: int,
    bx: int,
    by: int,
    height: int,
    top_bright: bool,
) -> Seq<u32> {
    Seq::new(pixels.len(), |i: int| blinkey_px(pixels[i], i, w, bx, by, height, top_bright))
}

/// The damage after the cursor was drawn.
pub open spec fn blinkey_damage(
    d: Option<PixelRect>,
    bx: int,
    by: int,
    height: int,
) -> Option<PixelRect> {
    canvas::joined(
        d,
        PixelRect {
            x0: (bx - BLINKEY_REACH) as usize,
            y0: by as usize,
            x1: (bx + BLINKEY_REACH + 1) as usize,
            y1: (by + height) as usize,
        },
    )
}

/// `v - k`, at least 0.
fn sub_floor(v: u32, k: u32) -> (r: u32)
    ensures
        r as int == floor_sub(v as int, k as int),
{
    if v > k {
        v - k
    } else {
        0
    }
}

/// Brightens the pixels around column `bx` by the cursor wave, from row `by` down.
pub fn paint_wave(
    pixels: &mut [u32],
    w: usize,
    h: usize,
    bx: usize,
    by: usize,
    height: usize,
    top_bright: bool,
)
    requires
        w * h <= old(pixels)@.len(),
        BLINKEY_REACH <= bx,
        bx + BLINKEY_REACH < w,
        by + height <= h,
        height <= MAX_CURSOR,
    ensures
        final(pixels)@ == with_blinkey(
            old(pixels)@,
            w as int,
            bx as int,
            by as int,
            height as int,
            top_bright,
        ),
{
    let n: usize = pixels.len();
    let x0: usize = bx - BLINKEY_REACH;
    let x1: usize = bx + BLINKEY_REACH + 1;
    let y1: usize = by + height;
    proof {
        canvas::lemma_grid(w as int);
        assert(w * y1 <= w * h) by (nonlinear_arith)
            requires
                y1 <= h,
        ;
    }
    let paint = |p: u32, x: usize, y: usize| -> (q: u32)
        requires
            x0 <= x < x1,
            by <= y < y1,
        ensures
            q == lightened(
                p,
                ((wave_at(y - by, height as int, top_bright) as u32) >> (apart(
                    x as int,
                    bx as int,
                ) as u32)) as int,
            ),
    {
        let d: usize = if x > bx {
            x - bx
        } else {
            bx - x
        };
        let k: u32 = wave_of(y - by, height, top_bright) >> (d as u32);
        let a: u32 = pixel::alpha_of(p);
        let (r, g, b) = pixel::rgb_of(p);
        pixel::assemble(a, sub_floor(r, k), sub_floor(g, k), sub_floor(b, k))
    };
    canvas::map_rect(pixels, w, x0, by, x1, y1, paint);
    proof {
        let after = pixels@;
        assert(after =~= with_blinkey(
            old(pixels)@,
            w as int,
            bx as int,
            by as int,
            height as int,
            top_bright,
        ));
    }
}

/// Draws the text cursor: a bright wave at column `bx`, `height` rows high from row `by` down, with
/// its bright end at the top or at the bottom.
pub fn draw_blinkey(canvas: &mut Canvas, bx: usize, by: usize, height: usize, top_bright: bool)
    requires
        old(canvas).fits(),
        BLINKEY_REACH <= bx,
        bx + BLINKEY_REACH < old(canvas).width,
        by + height <= old(canvas).height,
        height <= MAX_CURSOR,
    ensures
        final(canvas).pixels@ == with_blinkey(
            old(canvas).pixels@,
            old(canvas).width as int,
            bx as int,
            by as int,
            height as int,
            top_bright,
        ),
        final(canvas).damage.rect() == blinkey_damage(
            old(canvas).damage.rect(),
            bx as int,
            by as int,
            height as int,
        ),
        final(canvas).width == old(canvas).width,
        final(canvas).height == old(canvas).height,
        final(final(canvas).pixels)@ == final(old(canvas).pixels)@,
        *final(final(canvas).damage) == *final(old(canvas).damage),
{
    let w: usize = canvas.width;
    let h: usize = canvas.height;
    canvas.damage.add_bounds(bx - BLINKEY_REACH, by, bx + BLINKEY_REACH + 1, by + height);
    paint_wave(canvas.pixels, w, h, bx, by, height, top_bright);
}

/// A shape puts its colour where its box has opacity: cell `(cx, cy)` of the box lands as far right and
/// down of its corner, at the opacity given for it. Outside the box, the buffer and the clip nothing
/// changes.
pub proof fn law_shape_inks_its_cells(
    pixels: Seq<u32>,
    w: usize,
    h: usize,
    b: ShapeBox,
    colour: u32,
    c: Clip,
    opacity: Seq<u8>,
    x: int,
    y: int,
)
    requires
        0 <= x < w,
        0 <= y < h,
        w * h <= pixels.len(),
    ensures
        ({
            let cx = x - b.x_min;
            let cy = y - b.y_min;
            let inside = 0 <= cx && x < b.x_max && 0 <= cy && y < b.y_max && c.x_start <= x
                < c.x_end && c.y_start <= y < c.y_end;
            with_shape(pixels, w as int, h as int, b, colour, c, opacity)[y * w + x] == (if inside {
                pixel::under_px(
                    pixels[y * w + x],
                    pixel::argb(
                        opacity[cy * (b.x_max - b.x_min) + cx] as int,
                        pixel::red(colour),
                        pixel::green(colour),
                        pixel::blue(colour),
                    ),
                    BlendMode::Normal,
                )
            } else {
                pixels[y * w + x]
            })
        }),
{
    canvas::lemma_cell(x, y, w as int);
    canvas::lemma_cell_bound(x, y, w as int, h as int);
}

/// The cursor's wave has its full brightness in the middle row, is brighter at its bright end than as
/// far from the middle at the other end, and turns upside down with it.
pub proof fn law_wave_leans_to_its_bright_end(height: int, d: int)
    requires
        2 <= height <= MAX_CURSOR,
        0 <= d <= height / 2,
    ensures
        wave_at(height / 2, height, true) == theme::CURSOR_BRIGHTNESS,
        wave_at(height / 2 - d, height, true) == wave_at(height / 2 + d, height, false),
        wave_at(height / 2 + d, height, true) == wave_at(height / 2 - d, height, false),
        wave_at(height / 2 - d, height, true) >= wave_at(height / 2 + d, height, true),
        0 <= wave_at(height / 2 + d, height, true),
{
    let half = height / 2;
    let q = half * half;
    let den = q * q;
    lemma_wave(d, half - d, half);
    lemma_wave(-d, half + d, half);
    lemma_wave(0, half, half);
    assert((-d) * (-d) == d * d && 0 * 0 == 0) by (nonlinear_arith);
    let r = q - d * d;
    let lo = (half - d) * (half - d);
    let hi = (half + d) * (half + d);
    assert(lo <= hi) by (nonlinear_arith)
        requires
            lo == (half - d) * (half - d),
            hi == (half + d) * (half + d),
            0 <= d,
            0 <= half,
    ;
    assert(r * lo <= r * hi) by (nonlinear_arith)
        requires
            0 <= r,
            lo <= hi,
    ;
    vstd::arithmetic::div_mod::lemma_div_is_ordered(100 * (r * lo), 100 * (r * hi), den);
    assert((100 * den) / den == 100) by (nonlinear_arith)
        requires
            den > 0,
    ;
    assert(half - 0 == half && half + 0 == half);
}

/// The cursor brightens and never darkens: opacity stays, each darkness falls by the strength of the
/// wave or to 0. It reaches as far left as right, weaker with each column, and no further.
pub proof fn law_cursor_brightens(
    p: u32,
    w: usize,
    bx: int,
    by: int,
    height: int,
    top_bright: bool,
    x: int,
    y: int,
)
    requires
        0 <= x < w,
        0 <= y,
    ensures
        ({
            let q = blinkey_px(p, y * w + x, w as int, bx, by, height, top_bright);
            &&& pixel::alpha(q) == pixel::alpha(p)
            &&& pixel::red(q) <= pixel::red(p)
            &&& pixel::green(q) <= pixel::green(p)
            &&& pixel::blue(q) <= pixel::blue(p)
            &&& x < bx - BLINKEY_REACH || x > bx + BLINKEY_REACH || y < by || y >= by + height ==> q
                == p
            &&& 0 <= 2 * bx - x < w ==> blinkey_px(
                p,
                y * w + (2 * bx - x),
                w as int,
                bx,
                by,
                height,
                top_bright,
            ) == q
            &&& x == bx && by <= y < by + height && 0 <= wave_at(y - by, height, top_bright)
                <= u32::MAX ==> pixel::red(q) == vstd::math::max(
                pixel::red(p) - wave_at(y - by, height, top_bright),
                0,
            )
        }),
{
    canvas::lemma_cell(x, y, w as int);
    if 0 <= 2 * bx - x < w {
        canvas::lemma_cell(2 * bx - x, y, w as int);
    }
    pixel::lemma_channels(p);
    let k = ((wave_at(y - by, height, top_bright) as u32) >> (apart(x, bx) as u32)) as int;
    pixel::lemma_argb(
        pixel::alpha(p),
        floor_sub(pixel::red(p), k),
        floor_sub(pixel::green(p), k),
        floor_sub(pixel::blue(p), k),
    );
    let v = wave_at(y - by, height, top_bright) as u32;
    assert(v >> 0u32 == v) by (bit_vector);
}

/// Drawing a shape damages every pixel of its box that lies in the buffer and in the clip, and keeps
/// what was damaged.
pub proof fn law_shape_damages_its_box(
    d: Option<PixelRect>,
    w: int,
    h: int,
    b: ShapeBox,
    c: Clip,
    x: int,
    y: int,
)
    requires
        0 <= x < w <= usize::MAX,
        0 <= y < h <= usize::MAX,
        (b.x_min <= x < b.x_max && b.y_min <= y < b.y_max && c.x_start <= x < c.x_end && c.y_start
            <= y < c.y_end) || d is Some && (d->0).holds(x, y),
    ensures
        shape_damage(d, w, h, b, c) is Some,
        (shape_damage(d, w, h, b, c)->0).holds(x, y),
{
}

/// Drawing the cursor damages every pixel that it changes, and keeps what was damaged.
pub proof fn law_cursor_damages_what_it_changes(
    d: Option<PixelRect>,
    p: u32,
    w: int,
    bx: int,
    by: int,
    height: int,
    top_bright: bool,
    x: int,
    y: int,
)
    requires
        0 <= x < w,
        0 <= y,
        BLINKEY_REACH <= bx,
        bx + BLINKEY_REACH < w <= usize::MAX,
        0 <= by,
        0 <= height,
        by + height <= usize::MAX,
        blinkey_px(p, y * w + x, w, bx, by, height, top_bright) != p || d is Some && (d->0).holds(x, y),
    ensures
        blinkey_damage(d, bx, by, height) is Some,
        (blinkey_damage(d, bx, by, height)->0).holds(x, y),
{
    canvas::lemma_cell(x, y, w);
}

} // verus!
