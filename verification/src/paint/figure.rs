//! Anti-aliased figures: rectangles, circles and ellipses with a place and a size finer than a pixel.
//!
//! A figure goes under what is there, at an opacity scaled by how much of the pixel it covers.
use crate::canvas::{self, Canvas, PixelRect};
use crate::coord::{self, Coord, Ratio, PX};
use crate::paint::clip::{self, Clip};
use crate::paint::shape::{self, ShapeBox};
use crate::pixel::{self, Blend, BlendMode};
use vstd::prelude::*;

verus! {

/// Half a pixel.
pub const HALF: Coord = 0x8000;

/// The sine and the cosine of half a right angle.
pub const DIAGONAL: Ratio = 0xB504_F334;

/// A pixel after a colour, at opacity `a`, went under it; opacity 0 leaves it as it is.
pub open spec fn inked(p: u32, colour: u32, a: int) -> u32 {
    if a == 0 {
        p
    } else {
        pixel::under_px(
            p,
            pixel::argb(a, pixel::red(colour), pixel::green(colour), pixel::blue(colour)),
            BlendMode::Normal,
        )
    }
}

/// The buffer after a figure, whose opacity at each column and row is `alpha`, went under it.
pub open spec fn with_figure(
    pixels: Seq<u32>,
    w: int,
    h: int,
    b: ShapeBox,
    colour: u32,
    c: Clip,
    alpha: spec_fn(int, int) -> int,
) -> Seq<u32> {
    let v = b.visible(c, w, h);
    Seq::new(
        pixels.len(),
        |i: int|
            if canvas::in_rect(i, w, v.0, v.1, v.2, v.3) {
                inked(pixels[i], colour, alpha(canvas::col_of(i, w), canvas::row_of(i, w)))
            } else {
                pixels[i]
            },
    )
}

/// Pixel `q` is `p` with the figure under it.
spec fn inked_by<F: Fn(usize, usize) -> u32>(
    alpha: F,
    x: usize,
    y: usize,
    p: u32,
    q: u32,
    colour: u32,
) -> bool {
    exists|a: u32| #[trigger] alpha.ensures((x, y), a) && q == inked(p, colour, a as int)
}

/// Lays a figure under the canvas: `alpha` gives its opacity in each pixel of its box.
fn paint_figure<F: Fn(usize, usize) -> u32>(
    canvas: &mut Canvas,
    b: ShapeBox,
    colour: u32,
    clip: Option<Clip>,
    alpha: &F,
)
    requires
        old(canvas).fits(),
        forall|x: usize, y: usize|
            b.x_min <= x < b.x_max && b.y_min <= y < b.y_max ==> #[trigger] alpha.requires((x, y)),
        forall|x: usize, y: usize, a: u32| #[trigger] alpha.ensures((x, y), a) ==> a <= 255,
    ensures
        final(canvas).pixels@.len() == old(canvas).pixels@.len(),
        ({
            let w = old(canvas).width as int;
            let v = b.visible(
                Clip::resolved(clip, old(canvas).width, old(canvas).height),
                w,
                old(canvas).height as int,
            );
            forall|i: int|
                #![trigger final(canvas).pixels@[i]]
                0 <= i < old(canvas).pixels@.len() ==> if canvas::in_rect(
                    i,
                    w,
                    v.0,
                    v.1,
                    v.2,
                    v.3,
                ) {
                    inked_by(
                        *alpha,
                        canvas::col_of(i, w) as usize,
                        canvas::row_of(i, w) as usize,
                        old(canvas).pixels@[i],
                        final(canvas).pixels@[i],
                        colour,
                    )
                } else {
                    final(canvas).pixels@[i] == old(canvas).pixels@[i]
                }
        }),
        final(canvas).damage.rect() == shape::shape_damage(
            old(canvas).damage.rect(),
            old(canvas).width as int,
            old(canvas).height as int,
            b,
            Clip::resolved(clip, old(canvas).width, old(canvas).height),
        ),
        final(canvas).width == old(canvas).width,
        final(canvas).height == old(canvas).height,
        final(final(canvas).pixels)@ == final(old(canvas).pixels)@,
        *final(final(canvas).damage) == *final(old(canvas).damage),
{
    let w: usize = canvas.width;
    let h: usize = canvas.height;
    let part = Clip::intersect_bbox(clip, w, h, b.x_min, b.x_max, b.y_min, b.y_max);
    let (x0, y0, x1, y1) = match part {
        None => {
            return;
        },
        Some(r) => r,
    };
    canvas.damage.add_bounds(x0, y0, x1, y1);
    proof {
        canvas::lemma_grid(w as int);
        assert(w * y1 <= w * h) by (nonlinear_arith)
            requires
                y1 <= h,
        ;
    }
    let paint = |p: u32, x: usize, y: usize| -> (q: u32)
        requires
            x0 <= x < x1,
            y0 <= y < y1,
        ensures
            inked_by(*alpha, x, y, p, q, colour),
    {
        let a: u32 = alpha(x, y);
        if a == 0 {
            p
        } else {
            p.under(pixel::with_alpha(colour, a), BlendMode::Normal)
        }
    };
    canvas::map_rect(canvas.pixels, w, x0, y0, x1, y1, paint);
}

/// The distance of two numbers.
pub open spec fn gap(a: int, b: int) -> int {
    if a >= b {
        a - b
    } else {
        b - a
    }
}

/// The middle of pixel `p`.
pub open spec fn middle(p: int) -> int {
    p * PX + HALF
}

/// Half of a side, at least half a pixel: a side of 0 is a line one pixel wide.
pub open spec fn half_side(side: int) -> int {
    vstd::math::max(coord::truncated(side, 2), HALF as int)
}

/// How much of a pixel lies inside an edge, where its middle is `d` inside.
pub open spec fn edge_cover(d: int) -> int {
    clip::clamp_int(HALF + d, 0, PX as int)
}

/// The box of pixels that a figure with these half sides around a centre can touch.
pub open spec fn box_around(cx: int, cy: int, hw: int, hh: int) -> ShapeBox {
    ShapeBox {
        x_min: coord::truncated(cx - hw - HALF, PX as int) as i32,
        x_max: coord::truncated(cx + hw + 3 * HALF, PX as int) as i32,
        y_min: coord::truncated(cy - hh - HALF, PX as int) as i32,
        y_max: coord::truncated(cy + hh + 3 * HALF, PX as int) as i32,
    }
}

/// A coordinate or a size of a figure.
pub open spec fn drawable(v: int) -> bool {
    -0x2000_0000_0000 <= v <= 0x2000_0000_0000
}

/// A radius of a figure.
pub open spec fn radial(v: int) -> bool {
    -0x1000_0000_0000 <= v <= 0x1000_0000_0000
}

/// The box of pixels that a figure with these half sides around a centre can touch.
fn box_of(cx: Coord, cy: Coord, hw: Coord, hh: Coord) -> (b: ShapeBox)
    requires
        drawable(cx as int),
        drawable(cy as int),
        -0x2000_0000_0000 <= hw <= 0x2000_0000_0000,
        -0x2000_0000_0000 <= hh <= 0x2000_0000_0000,
    ensures
        b == box_around(cx as int, cy as int, hw as int, hh as int),
        -0x4800_0000 <= b.x_min <= 0x4800_0000,
        -0x4800_0000 <= b.x_max <= 0x4800_0000,
        -0x4800_0000 <= b.y_min <= 0x4800_0000,
        -0x4800_0000 <= b.y_max <= 0x4800_0000,
{
    ShapeBox {
        x_min: coord::truncate((cx - hw - HALF) as i128, 0x1_0000) as i32,
        x_max: coord::truncate((cx + hw + 3 * HALF) as i128, 0x1_0000) as i32,
        y_min: coord::truncate((cy - hh - HALF) as i128, 0x1_0000) as i32,
        y_max: coord::truncate((cy + hh + 3 * HALF) as i128, 0x1_0000) as i32,
    }
}

/// The opacity of a rectangle in a pixel.
pub open spec fn rect_alpha(
    x: int,
    y: int,
    cx: int,
    cy: int,
    hw: int,
    hh: int,
    colour: u32,
) -> int {
    let inside = vstd::math::min(hw - gap(middle(x), cx), hh - gap(middle(y), cy));
    (pixel::alpha(colour) * edge_cover(inside)) / (PX as int)
}

/// A colour's opacity scaled by `cover` parts of a pixel.
fn scaled_alpha(a: u32, cover: i128) -> (r: u32)
    requires
        a <= 255,
        0 <= cover <= 0x1_0000,
    ensures
        r as int == (a * cover) / (PX as int),
        r <= 255,
{
    proof {
        assert(0 <= a * cover <= 255 * 0x1_0000) by (nonlinear_arith)
            requires
                0 <= a <= 255,
                0 <= cover <= 0x1_0000,
        ;
    }
    ((a as u128 * cover as u128) / 0x1_0000) as u32
}

/// `v` limited to a whole pixel and not less than nothing.
fn cover_of(v: i128) -> (c: i128)
    requires
        v <= i128::MAX - 0x8000,
    ensures
        c as int == edge_cover(v as int),
{
    if v < -0x8000 {
        0
    } else if v > 0x8000 {
        0x1_0000
    } else {
        v + 0x8000
    }
}

/// The distance of the middle of pixel `p` from `c`.
fn gap_to(p: usize, c: Coord) -> (d: i128)
    ensures
        d as int == gap(middle(p as int), c as int),
{
    let m: i128 = p as i128 * 0x1_0000 + 0x8000;
    if m >= c as i128 {
        m - c as i128
    } else {
        c as i128 - m
    }
}

/// Half of a side, at least half a pixel.
fn half_of_side(side: Coord) -> (h: Coord)
    requires
        drawable(side as int),
    ensures
        h as int == half_side(side as int),
        0 <= h <= 0x1000_0000_0000,
{
    let h: Coord = coord::half(side);
    if h >= HALF {
        h
    } else {
        HALF
    }
}

/// A figure: the pixels that it can touch, and its opacity in each of them; one that does not show
/// draws nothing.
pub struct Figure {
    pub shows: bool,
    pub b: ShapeBox,
    pub alpha: spec_fn(int, int) -> int,
}

impl Figure {
    /// The buffer after the figure went under it.
    pub open spec fn over(
        self,
        pixels: Seq<u32>,
        w: usize,
        h: usize,
        colour: u32,
        c: Clip,
    ) -> Seq<u32> {
        if self.shows {
            with_figure(pixels, w as int, h as int, self.b, colour, c, self.alpha)
        } else {
            pixels
        }
    }

    /// The damage after the figure was drawn.
    pub open spec fn damage(
        self,
        d: Option<PixelRect>,
        w: usize,
        h: usize,
        c: Clip,
    ) -> Option<PixelRect> {
        if self.shows {
            shape::shape_damage(d, w as int, h as int, self.b, c)
        } else {
            d
        }
    }
}

/// A rectangle around a centre.
pub open spec fn rect_figure(cx: int, cy: int, w: int, h: int, colour: u32) -> Figure {
    let hw = half_side(w);
    let hh = half_side(h);
    Figure {
        shows: w >= 0 && h >= 0,
        b: box_around(cx, cy, hw, hh),
        alpha: |x: int, y: int| rect_alpha(x, y, cx, cy, hw, hh, colour),
    }
}

/// A rectangle around a centre, turned by the angle with this sine and cosine.
pub open spec fn turned_rect_figure(
    cx: int,
    cy: int,
    w: int,
    h: int,
    sin: int,
    cos: int,
    colour: u32,
) -> Figure {
    let hw = coord::truncated(w, 2);
    let hh = coord::truncated(h, 2);
    Figure {
        shows: w > 0 && h > 0,
        b: turned_box(cx, cy, hw, hh, sin, cos),
        alpha: |x: int, y: int| turned_rect_alpha(x, y, cx, cy, hw, hh, sin, cos, colour),
    }
}

/// A circle around a centre.
pub open spec fn circle_figure(cx: int, cy: int, r: int, colour: u32) -> Figure {
    Figure {
        shows: r > 0,
        b: box_around(cx, cy, r, r),
        alpha: |x: int, y: int| circle_alpha(x, y, cx, cy, r, colour),
    }
}

/// An ellipse around a centre.
pub open spec fn ellipse_figure(cx: int, cy: int, rx: int, ry: int, colour: u32) -> Figure {
    Figure {
        shows: rx > 0 && ry > 0,
        b: box_around(cx, cy, rx, ry),
        alpha: |x: int, y: int|
            ellipse_alpha(middle(x) - cx, middle(y) - cy, rx, ry, pixel::alpha(colour)),
    }
}

/// An ellipse around a centre, turned by the angle with this sine and cosine.
pub open spec fn turned_ellipse_figure(
    cx: int,
    cy: int,
    rx: int,
    ry: int,
    sin: int,
    cos: int,
    colour: u32,
) -> Figure {
    Figure {
        shows: rx > 0 && ry > 0,
        b: turned_box(cx, cy, rx, ry, sin, cos),
        alpha: |x: int, y: int| turned_ellipse_alpha(x, y, cx, cy, rx, ry, sin, cos, colour),
    }
}

/// Draws a filled rectangle around a centre. A side of 0 draws a line one pixel wide; a negative one
/// draws nothing.
pub fn draw_rect(
    canvas: &mut Canvas,
    cx: Coord,
    cy: Coord,
    rect_w: Coord,
    rect_h: Coord,
    colour: u32,
    clip: Option<Clip>,
)
    requires
        old(canvas).fits(),
        drawable(cx as int),
        drawable(cy as int),
        drawable(rect_w as int),
        drawable(rect_h as int),
    ensures
        ({
            let c = Clip::resolved(clip, old(canvas).width, old(canvas).height);
            let f = rect_figure(cx as int, cy as int, rect_w as int, rect_h as int, colour);
            &&& final(canvas).pixels@ == f.over(
                old(canvas).pixels@,
                old(canvas).width,
                old(canvas).height,
                colour,
                c,
            )
            &&& final(canvas).damage.rect() == f.damage(
                old(canvas).damage.rect(),
                old(canvas).width,
                old(canvas).height,
                c,
            )
        }),
        final(canvas).pixels@.len() == old(canvas).pixels@.len(),
        final(canvas).width == old(canvas).width,
        final(canvas).height == old(canvas).height,
        final(final(canvas).pixels)@ == final(old(canvas).pixels)@,
        *final(final(canvas).damage) == *final(old(canvas).damage),
{
    if rect_w < 0 || rect_h < 0 {
        return;
    }
    let hw: Coord = half_of_side(rect_w);
    let hh: Coord = half_of_side(rect_h);
    let b = box_of(cx, cy, hw, hh);
    let a: u32 = pixel::alpha_of(colour);
    let alpha = |x: usize, y: usize| -> (r: u32)
        ensures
            r as int == rect_alpha(
                x as int,
                y as int,
                cx as int,
                cy as int,
                hw as int,
                hh as int,
                colour,
            ),
            r <= 255,
    {
        let dx: i128 = hw as i128 - gap_to(x, cx);
        let dy: i128 = hh as i128 - gap_to(y, cy);
        scaled_alpha(
            a,
            cover_of(
                if dx <= dy {
                    dx
                } else {
                    dy
                },
            ),
        )
    };
    let ghost before = canvas.pixels@;
    let ghost w = canvas.width;
    let ghost h = canvas.height;
    proof {
        if w > 0 {
            canvas::lemma_grid(w as int);
        }
    }
    paint_figure(canvas, b, colour, clip, &alpha);
    proof {
        let f = rect_figure(cx as int, cy as int, rect_w as int, rect_h as int, colour);
        assert(canvas.pixels@ =~= with_figure(
            before,
            w as int,
            h as int,
            b,
            colour,
            Clip::resolved(clip, w, h),
            f.alpha,
        ));
    }
}

/// A point `(dx, dy)` turned back by the angle with this sine and cosine.
pub open spec fn turned(dx: int, dy: int, sin: int, cos: int) -> (int, int) {
    (
        coord::truncated(dx * cos + dy * sin, coord::RU_ONE as int),
        coord::truncated(dy * cos - dx * sin, coord::RU_ONE as int),
    )
}

/// A sine or a cosine.
pub open spec fn unit(v: int) -> bool {
    -coord::RU_ONE <= v <= coord::RU_ONE
}

/// The half side of the box around a turned figure.
pub open spec fn turned_half(a: int, b: int, ca: int, cb: int) -> int {
    coord::truncated(a * gap(ca, 0) + b * gap(cb, 0), coord::RU_ONE as int)
}

/// A point turned back, for a pixel and a centre.
fn turn(x: usize, y: usize, cx: Coord, cy: Coord, sin: Ratio, cos: Ratio) -> (p: (i128, i128))
    requires
        x <= 0x4800_0000,
        y <= 0x4800_0000,
        drawable(cx as int),
        drawable(cy as int),
        unit(sin as int),
        unit(cos as int),
    ensures
        (p.0 as int, p.1 as int) == turned(
            middle(x as int) - cx,
            middle(y as int) - cy,
            sin as int,
            cos as int,
        ),
        -0xF000_0000_0000 <= p.0 <= 0xF000_0000_0000,
        -0xF000_0000_0000 <= p.1 <= 0xF000_0000_0000,
{
    let dx: i128 = x as i128 * 0x1_0000 + 0x8000 - cx as i128;
    let dy: i128 = y as i128 * 0x1_0000 + 0x8000 - cy as i128;
    proof {
        lemma_turn_part(dx as int, cos as int);
        lemma_turn_part(dy as int, sin as int);
        lemma_turn_part(dy as int, cos as int);
        lemma_turn_part(dx as int, sin as int);
    }
    (
        coord::truncate(dx * cos as i128 + dy * sin as i128, 0x1_0000_0000),
        coord::truncate(dy * cos as i128 - dx * sin as i128, 0x1_0000_0000),
    )
}

proof fn lemma_turn_part(d: int, c: int)
    requires
        -0x7800_0000_0000 <= d <= 0x7800_0000_0000,
        unit(c),
    ensures
        -0x7800_0000_0000 * 0x1_0000_0000 <= d * c <= 0x7800_0000_0000 * 0x1_0000_0000,
{
    assert(-0x7800_0000_0000 * 0x1_0000_0000 <= d * c <= 0x7800_0000_0000 * 0x1_0000_0000)
        by (nonlinear_arith)
        requires
            -0x7800_0000_0000 <= d <= 0x7800_0000_0000,
            -0x1_0000_0000 <= c <= 0x1_0000_0000,
    ;
}

/// The half side of the box around a turned figure.
fn turned_half_of(a: Coord, b: Coord, ca: Ratio, cb: Ratio) -> (h: Coord)
    requires
        0 <= a <= 0x1000_0000_0000,
        0 <= b <= 0x1000_0000_0000,
        unit(ca as int),
        unit(cb as int),
    ensures
        h as int == turned_half(a as int, b as int, ca as int, cb as int),
        0 <= h <= 0x2000_0000_0000,
{
    let ga: i128 = if ca >= 0 {
        ca as i128
    } else {
        -(ca as i128)
    };
    let gb: i128 = if cb >= 0 {
        cb as i128
    } else {
        -(cb as i128)
    };
    proof {
        assert(0 <= a * ga <= 0x1000_0000_0000 * 0x1_0000_0000 && 0 <= b * gb <= 0x1000_0000_0000
            * 0x1_0000_0000) by (nonlinear_arith)
            requires
                0 <= a <= 0x1000_0000_0000,
                0 <= b <= 0x1000_0000_0000,
                0 <= ga <= 0x1_0000_0000,
                0 <= gb <= 0x1_0000_0000,
        ;
    }
    coord::truncate(a as i128 * ga + b as i128 * gb, 0x1_0000_0000) as i64
}

/// The opacity of a turned rectangle in a pixel: the product of what its four edges cover.
pub open spec fn turned_rect_alpha(
    x: int,
    y: int,
    cx: int,
    cy: int,
    hw: int,
    hh: int,
    sin: int,
    cos: int,
    colour: u32,
) -> int {
    let (lx, ly) = turned(middle(x) - cx, middle(y) - cy, sin, cos);
    let across = edge_cover(hw - lx) * edge_cover(lx + hw);
    let along = edge_cover(hh - ly) * edge_cover(ly + hh);
    (pixel::alpha(colour) * (across * along)) / 0x1_0000_0000_0000_0000
}

/// A colour's opacity scaled by what four edges cover.
fn four_edges(a: u32, r: i128, l: i128, t: i128, b: i128) -> (n: u32)
    requires
        a <= 255,
        0 <= r <= 0x1_0000,
        0 <= l <= 0x1_0000,
        0 <= t <= 0x1_0000,
        0 <= b <= 0x1_0000,
    ensures
        n as int == (a * ((r * l) * (t * b))) / 0x1_0000_0000_0000_0000,
        n <= 255,
{
    proof {
        assert(0 <= r * l <= 0x1_0000_0000 && 0 <= t * b <= 0x1_0000_0000) by (nonlinear_arith)
            requires
                0 <= r <= 0x1_0000,
                0 <= l <= 0x1_0000,
                0 <= t <= 0x1_0000,
                0 <= b <= 0x1_0000,
        ;
        let p = r * l;
        let q = t * b;
        assert(0 <= p * q <= 0x1_0000_0000_0000_0000) by (nonlinear_arith)
            requires
                0 <= p <= 0x1_0000_0000,
                0 <= q <= 0x1_0000_0000,
        ;
        let m = p * q;
        assert(0 <= a * m <= 255 * 0x1_0000_0000_0000_0000) by (nonlinear_arith)
            requires
                0 <= a <= 255,
                0 <= m <= 0x1_0000_0000_0000_0000,
        ;
    }
    let across: u128 = (r * l) as u128;
    let along: u128 = (t * b) as u128;
    ((a as u128 * (across * along)) / 0x1_0000_0000_0000_0000) as u32
}

/// Draws a filled rectangle around a centre, turned by the angle with this sine and cosine. A side that
/// is not positive draws nothing.
pub fn draw_rect_rotated(
    canvas: &mut Canvas,
    cx: Coord,
    cy: Coord,
    rect_w: Coord,
    rect_h: Coord,
    sin: Ratio,
    cos: Ratio,
    colour: u32,
    clip: Option<Clip>,
)
    requires
        old(canvas).fits(),
        drawable(cx as int),
        drawable(cy as int),
        drawable(rect_w as int),
        drawable(rect_h as int),
        unit(sin as int),
        unit(cos as int),
    ensures
        ({
            let c = Clip::resolved(clip, old(canvas).width, old(canvas).height);
            let f = turned_rect_figure(
                cx as int,
                cy as int,
                rect_w as int,
                rect_h as int,
                sin as int,
                cos as int,
                colour,
            );
            &&& final(canvas).pixels@ == f.over(
                old(canvas).pixels@,
                old(canvas).width,
                old(canvas).height,
                colour,
                c,
            )
            &&& final(canvas).damage.rect() == f.damage(
                old(canvas).damage.rect(),
                old(canvas).width,
                old(canvas).height,
                c,
            )
        }),
        final(canvas).pixels@.len() == old(canvas).pixels@.len(),
        final(canvas).width == old(canvas).width,
        final(canvas).height == old(canvas).height,
        final(final(canvas).pixels)@ == final(old(canvas).pixels)@,
        *final(final(canvas).damage) == *final(old(canvas).damage),
{
    if rect_w <= 0 || rect_h <= 0 {
        return;
    }
    let hw: Coord = coord::half(rect_w);
    let hh: Coord = coord::half(rect_h);
    let b = turned_box_of(cx, cy, hw, hh, sin, cos);
    let a: u32 = pixel::alpha_of(colour);
    let alpha = |x: usize, y: usize| -> (r: u32)
        requires
            x <= 0x4800_0000,
            y <= 0x4800_0000,
        ensures
            r as int == turned_rect_alpha(
                x as int,
                y as int,
                cx as int,
                cy as int,
                hw as int,
                hh as int,
                sin as int,
                cos as int,
                colour,
            ),
            r <= 255,
    {
        let (lx, ly) = turn(x, y, cx, cy, sin, cos);
        four_edges(
            a,
            cover_of(hw as i128 - lx),
            cover_of(lx + hw as i128),
            cover_of(hh as i128 - ly),
            cover_of(ly + hh as i128),
        )
    };
    let ghost before = canvas.pixels@;
    let ghost w = canvas.width;
    let ghost h = canvas.height;
    proof {
        if w > 0 {
            canvas::lemma_grid(w as int);
        }
    }
    paint_figure(canvas, b, colour, clip, &alpha);
    proof {
        let f = turned_rect_figure(
                cx as int,
                cy as int,
                rect_w as int,
                rect_h as int,
                sin as int,
                cos as int,
                colour,
            );
        assert(canvas.pixels@ =~= with_figure(
            before,
            w as int,
            h as int,
            b,
            colour,
            Clip::resolved(clip, w, h),
            f.alpha,
        ));
    }
}

/// The box of pixels that a turned figure can touch.
pub open spec fn turned_box(cx: int, cy: int, hw: int, hh: int, sin: int, cos: int) -> ShapeBox {
    box_around(cx, cy, turned_half(hw, hh, cos, sin), turned_half(hw, hh, sin, cos))
}

/// The box of pixels that a turned figure can touch.
fn turned_box_of(cx: Coord, cy: Coord, hw: Coord, hh: Coord, sin: Ratio, cos: Ratio) -> (b:
    ShapeBox)
    requires
        drawable(cx as int),
        drawable(cy as int),
        0 <= hw <= 0x1000_0000_0000,
        0 <= hh <= 0x1000_0000_0000,
        unit(sin as int),
        unit(cos as int),
    ensures
        b == turned_box(cx as int, cy as int, hw as int, hh as int, sin as int, cos as int),
        b.x_max <= 0x4800_0000,
        b.y_max <= 0x4800_0000,
{
    box_of(cx, cy, turned_half_of(hw, hh, cos, sin), turned_half_of(hw, hh, sin, cos))
}

/// The opacity of a circle in a pixel: full up to half a pixel inside its edge, then a ramp in the
/// squared distance down to nothing half a pixel outside.
pub open spec fn circle_alpha(x: int, y: int, cx: int, cy: int, r: int, colour: u32) -> int {
    let dx = gap(middle(x), cx);
    let dy = gap(middle(y), cy);
    let d2 = dx * dx + dy * dy;
    let inner = vstd::math::max(r - HALF, 0);
    let outer = r + HALF;
    if d2 <= inner * inner {
        pixel::alpha(colour)
    } else if d2 < outer * outer {
        (pixel::alpha(colour) * (outer * outer - d2)) / (outer * outer - inner * inner)
    } else {
        0
    }
}

/// The opacity of a circle at a squared distance.
fn circle_alpha_at(a: u32, dx: i128, dy: i128, r: Coord) -> (n: u32)
    requires
        a <= 255,
        0 <= dx <= 0x1_0000_0000_0000,
        0 <= dy <= 0x1_0000_0000_0000,
        0 < r <= 0x1000_0000_0000,
    ensures
        ({
            let d2 = dx * dx + dy * dy;
            let inner = vstd::math::max(r - HALF, 0);
            let outer = r + HALF;
            n as int == (if d2 <= inner * inner {
                a as int
            } else if d2 < outer * outer {
                (a * (outer * outer - d2)) / (outer * outer - inner * inner)
            } else {
                0
            })
        }),
        n <= 255,
{
    let inner: i128 = if r >= HALF {
        r as i128 - 0x8000
    } else {
        0
    };
    let outer: i128 = r as i128 + 0x8000;
    proof {
        lemma_square(dx as int, 0x1_0000_0000_0000);
        lemma_square(dy as int, 0x1_0000_0000_0000);
        lemma_square(inner as int, 0x1_0000_0000_0000);
        lemma_square(outer as int, 0x1_0000_0000_0000);
    }
    let d2: i128 = dx * dx + dy * dy;
    let in2: i128 = inner * inner;
    let out2: i128 = outer * outer;
    if d2 <= in2 {
        a
    } else if d2 < out2 {
        proof {
            let p = out2 - d2;
            let q = out2 - in2;
            assert(0 <= a * p <= 255 * p) by (nonlinear_arith)
                requires
                    0 <= a <= 255,
                    p > 0,
            ;
            assert((a * p) / q <= 255) by (nonlinear_arith)
                requires
                    0 <= a * p <= 255 * p,
                    0 < p <= q,
            ;
            assert(0 <= (a * p) / q) by (nonlinear_arith)
                requires
                    0 <= a * p,
                    0 < q,
            ;
        }
        ((a as u128 * (out2 - d2) as u128) / (out2 - in2) as u128) as u32
    } else {
        0
    }
}

proof fn lemma_square(v: int, bound: int)
    requires
        0 <= v <= bound,
        bound == 0x1_0000_0000_0000,
    ensures
        0 <= v * v <= 0x1_0000_0000_0000_0000_0000_0000,
{
    assert(0 <= v * v <= 0x1_0000_0000_0000 * 0x1_0000_0000_0000) by (nonlinear_arith)
        requires
            0 <= v <= 0x1_0000_0000_0000,
    ;
}

/// Draws a filled circle around a centre. A radius that is not positive draws nothing.
pub fn draw_circle(
    canvas: &mut Canvas,
    cx: Coord,
    cy: Coord,
    r: Coord,
    colour: u32,
    clip: Option<Clip>,
)
    requires
        old(canvas).fits(),
        drawable(cx as int),
        drawable(cy as int),
        radial(r as int),
    ensures
        ({
            let c = Clip::resolved(clip, old(canvas).width, old(canvas).height);
            let f = circle_figure(cx as int, cy as int, r as int, colour);
            &&& final(canvas).pixels@ == f.over(
                old(canvas).pixels@,
                old(canvas).width,
                old(canvas).height,
                colour,
                c,
            )
            &&& final(canvas).damage.rect() == f.damage(
                old(canvas).damage.rect(),
                old(canvas).width,
                old(canvas).height,
                c,
            )
        }),
        final(canvas).pixels@.len() == old(canvas).pixels@.len(),
        final(canvas).width == old(canvas).width,
        final(canvas).height == old(canvas).height,
        final(final(canvas).pixels)@ == final(old(canvas).pixels)@,
        *final(final(canvas).damage) == *final(old(canvas).damage),
{
    if r <= 0 {
        return;
    }
    let b = box_of(cx, cy, r, r);
    let a: u32 = pixel::alpha_of(colour);
    let alpha = |x: usize, y: usize| -> (n: u32)
        requires
            x <= 0x4800_0000,
            y <= 0x4800_0000,
        ensures
            n as int == circle_alpha(x as int, y as int, cx as int, cy as int, r as int, colour),
            n <= 255,
    {
        circle_alpha_at(a, gap_to(x, cx), gap_to(y, cy), r)
    };
    let ghost before = canvas.pixels@;
    let ghost w = canvas.width;
    let ghost h = canvas.height;
    proof {
        if w > 0 {
            canvas::lemma_grid(w as int);
        }
    }
    paint_figure(canvas, b, colour, clip, &alpha);
    proof {
        let f = circle_figure(cx as int, cy as int, r as int, colour);
        assert(canvas.pixels@ =~= with_figure(
            before,
            w as int,
            h as int,
            b,
            colour,
            Clip::resolved(clip, w, h),
            f.alpha,
        ));
    }
}

/// The square root of `n`, rounded down.
pub open spec fn is_root(n: int, r: int) -> bool {
    0 <= r && r * r <= n < (r + 1) * (r + 1)
}

/// The square root of `n`, rounded down.
pub open spec fn root(n: int) -> int {
    choose|r: int| is_root(n, r)
}

/// There is one square root.
proof fn lemma_root(n: int, r: int)
    requires
        is_root(n, r),
    ensures
        root(n) == r,
{
    let q = root(n);
    assert(is_root(n, q));
    if q < r {
        assert((q + 1) * (q + 1) <= r * r) by (nonlinear_arith)
            requires
                0 <= q < r,
        ;
    }
    if r < q {
        assert((r + 1) * (r + 1) <= q * q) by (nonlinear_arith)
            requires
                0 <= r < q,
        ;
    }
}

/// The square root, by bisection.
fn root_of(n: u128) -> (r: u128)
    ensures
        r as int == root(n as int),
        is_root(n as int, r as int),
        r <= 0xFFFF_FFFF_FFFF_FFFF,
{
    let mut lo: u128 = 0;
    let mut hi: u128 = 0x1_0000_0000_0000_0000;
    proof {
        assert(0x1_0000_0000_0000_0000int * 0x1_0000_0000_0000_0000int > n);
    }
    while lo + 1 < hi
        invariant
            0 <= lo < hi <= 0x1_0000_0000_0000_0000,
            lo * lo <= n,
            n < hi * hi,
        decreases hi - lo,
    {
        let mid: u128 = lo + (hi - lo) / 2;
        proof {
            assert(0 <= mid * mid <= 0xFFFF_FFFF_FFFF_FFFF * 0xFFFF_FFFF_FFFF_FFFF)
                by (nonlinear_arith)
                requires
                    0 <= mid <= 0xFFFF_FFFF_FFFF_FFFF,
            ;
        }
        if mid * mid <= n {
            lo = mid;
        } else {
            hi = mid;
        }
    }
    proof {
        lemma_root(n as int, lo as int);
    }
    lo
}

/// `(d / r)^2` with 32 fractional bits.
pub open spec fn ratio2(d: int, r: int) -> int {
    (d * d * 0x1_0000_0000) / (r * r)
}

/// Farther out than that, in units of the squared radius, counts as outside.
pub const FAR_OUT: u128 = 0x1000_0000_0000_0000;

/// The opacity of an ellipse at `(dx, dy)` from its centre, its axes along the coordinates. With
/// `f = (dx/rx)^2 + (dy/ry)^2 - 1`, the distance to the edge is about `f` over the length of its
/// gradient: full from half a pixel inside, then a ramp down to nothing half a pixel outside.
pub open spec fn ellipse_alpha(dx: int, dy: int, rx: int, ry: int, a: int) -> int {
    let p = ratio2(dx, rx);
    let q = ratio2(dy, ry);
    let f = p + q - 0x1_0000_0000;
    let grad2 = 4 * ((p * 0x1_0000_0000_0000_0000) / (rx * rx) + (q * 0x1_0000_0000_0000_0000) / (ry
        * ry));
    if p >= FAR_OUT || q >= FAR_OUT {
        0
    } else if f <= 0 && 4 * (f * f) >= grad2 {
        a
    } else if f < 0 || 4 * (f * f) < grad2 {
        (a * clip::clamp_int(
            HALF - coord::truncated(f * PX, root(grad2)),
            0,
            PX as int,
        )) / (PX as int)
    } else {
        0
    }
}

/// `(d / r)^2` with 32 fractional bits.
fn ratio2_of(d: i128, r: Coord) -> (q: u128)
    requires
        -0xF000_0000_0000 <= d <= 0xF000_0000_0000,
        0 < r <= 0x1000_0000_0000,
    ensures
        q as int == ratio2(d as int, r as int),
{
    proof {
        assert(0 <= d * d <= 0xF000_0000_0000 * 0xF000_0000_0000) by (nonlinear_arith)
            requires
                -0xF000_0000_0000 <= d <= 0xF000_0000_0000,
        ;
        assert(0 < r * r <= 0x1000_0000_0000 * 0x1000_0000_0000) by (nonlinear_arith)
            requires
                0 < r <= 0x1000_0000_0000,
        ;
    }
    let num: u128 = (d * d) as u128 * 0x1_0000_0000;
    let den: u128 = (r as i128 * r as i128) as u128;
    num / den
}

/// The opacity of an ellipse at `(dx, dy)` from its centre.
fn ellipse_alpha_at(dx: i128, dy: i128, rx: Coord, ry: Coord, a: u32) -> (n: u32)
    requires
        -0xF000_0000_0000 <= dx <= 0xF000_0000_0000,
        -0xF000_0000_0000 <= dy <= 0xF000_0000_0000,
        0 < rx <= 0x1000_0000_0000,
        0 < ry <= 0x1000_0000_0000,
        a <= 255,
    ensures
        n as int == ellipse_alpha(dx as int, dy as int, rx as int, ry as int, a as int),
        n <= 255,
{
    let p: u128 = ratio2_of(dx, rx);
    let q: u128 = ratio2_of(dy, ry);
    if p >= FAR_OUT || q >= FAR_OUT {
        return 0;
    }
    let f: i128 = p as i128 + q as i128 - 0x1_0000_0000;
    proof {
        assert(0 < rx * rx <= 0x1000_0000_0000 * 0x1000_0000_0000 && 0 < ry * ry <= 0x1000_0000_0000
            * 0x1000_0000_0000) by (nonlinear_arith)
            requires
                0 < rx <= 0x1000_0000_0000,
                0 < ry <= 0x1000_0000_0000,
        ;
        vstd::arithmetic::div_mod::lemma_div_nonincreasing(p * 0x1_0000_0000_0000_0000, rx * rx);
        vstd::arithmetic::div_mod::lemma_div_nonincreasing(q * 0x1_0000_0000_0000_0000, ry * ry);
        vstd::arithmetic::div_mod::lemma_div_pos_is_pos(p * 0x1_0000_0000_0000_0000, rx * rx);
        vstd::arithmetic::div_mod::lemma_div_pos_is_pos(q * 0x1_0000_0000_0000_0000, ry * ry);
        assert(0 <= f * f <= 0x2000_0000_0000_0000 * 0x2000_0000_0000_0000) by (nonlinear_arith)
            requires
                -0x2000_0000_0000_0000 <= f <= 0x2000_0000_0000_0000,
        ;
    }
    let gx: u128 = (p * 0x1_0000_0000_0000_0000) / ((rx as i128 * rx as i128) as u128);
    let gy: u128 = (q * 0x1_0000_0000_0000_0000) / ((ry as i128 * ry as i128) as u128);
    let grad2: u128 = 4 * (gx + gy);
    let f4: u128 = 4 * ((f * f) as u128);
    if f <= 0 && f4 >= grad2 {
        a
    } else if f < 0 || f4 < grad2 {
        let g: u128 = root_of(grad2);
        proof {
            if g == 0 {
                assert(grad2 < 1 * 1);
            }
        }
        let d: i128 = coord::truncate(f * 0x1_0000, g as i128);
        let cover: i128 = if d > 0x8000 {
            0
        } else if d < -0x8000 {
            0x1_0000
        } else {
            0x8000 - d
        };
        scaled_alpha(a, cover)
    } else {
        0
    }
}

/// Draws a filled ellipse around a centre. A radius that is not positive draws nothing.
pub fn draw_ellipse(
    canvas: &mut Canvas,
    cx: Coord,
    cy: Coord,
    rx: Coord,
    ry: Coord,
    colour: u32,
    clip: Option<Clip>,
)
    requires
        old(canvas).fits(),
        drawable(cx as int),
        drawable(cy as int),
        radial(rx as int),
        radial(ry as int),
    ensures
        ({
            let c = Clip::resolved(clip, old(canvas).width, old(canvas).height);
            let f = ellipse_figure(cx as int, cy as int, rx as int, ry as int, colour);
            &&& final(canvas).pixels@ == f.over(
                old(canvas).pixels@,
                old(canvas).width,
                old(canvas).height,
                colour,
                c,
            )
            &&& final(canvas).damage.rect() == f.damage(
                old(canvas).damage.rect(),
                old(canvas).width,
                old(canvas).height,
                c,
            )
        }),
        final(canvas).pixels@.len() == old(canvas).pixels@.len(),
        final(canvas).width == old(canvas).width,
        final(canvas).height == old(canvas).height,
        final(final(canvas).pixels)@ == final(old(canvas).pixels)@,
        *final(final(canvas).damage) == *final(old(canvas).damage),
{
    if rx <= 0 || ry <= 0 {
        return;
    }
    let b = box_of(cx, cy, rx, ry);
    let a: u32 = pixel::alpha_of(colour);
    let alpha = |x: usize, y: usize| -> (n: u32)
        requires
            x <= 0x4800_0000,
            y <= 0x4800_0000,
        ensures
            n as int == ellipse_alpha(
                middle(x as int) - cx,
                middle(y as int) - cy,
                rx as int,
                ry as int,
                pixel::alpha(colour),
            ),
            n <= 255,
    {
        let dx: i128 = x as i128 * 0x1_0000 + 0x8000 - cx as i128;
        let dy: i128 = y as i128 * 0x1_0000 + 0x8000 - cy as i128;
        ellipse_alpha_at(dx, dy, rx, ry, a)
    };
    let ghost before = canvas.pixels@;
    let ghost w = canvas.width;
    let ghost h = canvas.height;
    proof {
        if w > 0 {
            canvas::lemma_grid(w as int);
        }
    }
    paint_figure(canvas, b, colour, clip, &alpha);
    proof {
        let f = ellipse_figure(cx as int, cy as int, rx as int, ry as int, colour);
        assert(canvas.pixels@ =~= with_figure(
            before,
            w as int,
            h as int,
            b,
            colour,
            Clip::resolved(clip, w, h),
            f.alpha,
        ));
    }
}

/// Draws a filled ellipse around a centre, turned by the angle with this sine and cosine. A radius that
/// is not positive draws nothing.
pub fn draw_ellipse_rotated(
    canvas: &mut Canvas,
    cx: Coord,
    cy: Coord,
    rx: Coord,
    ry: Coord,
    sin: Ratio,
    cos: Ratio,
    colour: u32,
    clip: Option<Clip>,
)
    requires
        old(canvas).fits(),
        drawable(cx as int),
        drawable(cy as int),
        radial(rx as int),
        radial(ry as int),
        unit(sin as int),
        unit(cos as int),
    ensures
        ({
            let c = Clip::resolved(clip, old(canvas).width, old(canvas).height);
            let f = turned_ellipse_figure(
                cx as int,
                cy as int,
                rx as int,
                ry as int,
                sin as int,
                cos as int,
                colour,
            );
            &&& final(canvas).pixels@ == f.over(
                old(canvas).pixels@,
                old(canvas).width,
                old(canvas).height,
                colour,
                c,
            )
            &&& final(canvas).damage.rect() == f.damage(
                old(canvas).damage.rect(),
                old(canvas).width,
                old(canvas).height,
                c,
            )
        }),
        final(canvas).pixels@.len() == old(canvas).pixels@.len(),
        final(canvas).width == old(canvas).width,
        final(canvas).height == old(canvas).height,
        final(final(canvas).pixels)@ == final(old(canvas).pixels)@,
        *final(final(canvas).damage) == *final(old(canvas).damage),
{
    if rx <= 0 || ry <= 0 {
        return;
    }
    let b = turned_box_of(cx, cy, rx, ry, sin, cos);
    let a: u32 = pixel::alpha_of(colour);
    let alpha = |x: usize, y: usize| -> (n: u32)
        requires
            x <= 0x4800_0000,
            y <= 0x4800_0000,
        ensures
            n as int == turned_ellipse_alpha(
                x as int,
                y as int,
                cx as int,
                cy as int,
                rx as int,
                ry as int,
                sin as int,
                cos as int,
                colour,
            ),
            n <= 255,
    {
        let (lx, ly) = turn(x, y, cx, cy, sin, cos);
        ellipse_alpha_at(lx, ly, rx, ry, a)
    };
    let ghost before = canvas.pixels@;
    let ghost w = canvas.width;
    let ghost h = canvas.height;
    proof {
        if w > 0 {
            canvas::lemma_grid(w as int);
        }
    }
    paint_figure(canvas, b, colour, clip, &alpha);
    proof {
        let f = turned_ellipse_figure(
                cx as int,
                cy as int,
                rx as int,
                ry as int,
                sin as int,
                cos as int,
                colour,
            );
        assert(canvas.pixels@ =~= with_figure(
            before,
            w as int,
            h as int,
            b,
            colour,
            Clip::resolved(clip, w, h),
            f.alpha,
        ));
    }
}

/// The opacity of a turned ellipse in a pixel.
pub open spec fn turned_ellipse_alpha(
    x: int,
    y: int,
    cx: int,
    cy: int,
    rx: int,
    ry: int,
    sin: int,
    cos: int,
    colour: u32,
) -> int {
    let (lx, ly) = turned(middle(x) - cx, middle(y) - cy, sin, cos);
    ellipse_alpha(lx, ly, rx, ry, pixel::alpha(colour))
}

/// A side of 0 makes a line one pixel wide: the pixel whose middle lies on it is covered as a whole,
/// and those a pixel or more away are not covered.
pub proof fn law_flat_rect_is_a_line(x: int, y: int, cx: int, hw: int, row: int, colour: u32)
    requires
        hw >= gap(middle(x), cx) + HALF,
    ensures
        rect_alpha(x, row, cx, middle(row), hw, half_side(0), colour) == pixel::alpha(colour),
        y != row ==> rect_alpha(x, y, cx, middle(row), hw, half_side(0), colour) == 0,
{
    assert((pixel::alpha(colour) * PX) / (PX as int) == pixel::alpha(colour));
    if y != row {
        assert(gap(middle(y), middle(row)) >= PX);
        assert(pixel::alpha(colour) * 0 == 0);
    }
}

/// What is opaque stays as it is: no figure can paint over it.
pub proof fn law_figures_keep_opaque_pixels(
    f: Figure,
    pixels: Seq<u32>,
    w: usize,
    h: usize,
    colour: u32,
    c: Clip,
    i: int,
)
    requires
        0 <= i < pixels.len(),
        pixel::alpha(pixels[i]) == 255,
    ensures
        f.over(pixels, w, h, colour, c)[i] == pixels[i],
{
}

/// A figure changes nothing outside the clip, and nothing outside its box.
pub proof fn law_figures_stay_in_the_clip(
    f: Figure,
    pixels: Seq<u32>,
    w: usize,
    h: usize,
    colour: u32,
    c: Clip,
    i: int,
)
    requires
        0 <= i < pixels.len(),
        !canvas::in_rect(
            i,
            w as int,
            c.x_start as int,
            c.y_start as int,
            c.x_end as int,
            c.y_end as int,
        ),
    ensures
        f.over(pixels, w, h, colour, c)[i] == pixels[i],
{
}

/// A rectangle covers in full what lies half a pixel or more inside all its edges, and nothing that
/// lies half a pixel or more outside one: its width goes along the columns and its height along the
/// rows. In between the cover falls towards the edge.
pub proof fn law_rect_covers_its_inside(
    x: int,
    y: int,
    cx: int,
    cy: int,
    w: int,
    h: int,
    colour: u32,
)
    requires
        w >= 2 * PX,
        h >= 2 * PX,
        w % 2 == 0,
        h % 2 == 0,
    ensures
        ({
            let a = (rect_figure(cx, cy, w, h, colour).alpha)(x, y);
            let left = 2 * middle(x) - (2 * cx - w);
            let right = (2 * cx + w) - 2 * middle(x);
            let above = 2 * middle(y) - (2 * cy - h);
            let below = (2 * cy + h) - 2 * middle(y);
            &&& left >= PX && right >= PX && above >= PX && below >= PX ==> a == pixel::alpha(
                colour,
            )
            &&& left <= -PX || right <= -PX || above <= -PX || below <= -PX ==> a == 0
            &&& 0 <= a <= pixel::alpha(colour)
        }),
{
    pixel::lemma_channels(colour);
    let a = pixel::alpha(colour);
    let hw = half_side(w);
    let hh = half_side(h);
    let inside = vstd::math::min(hw - gap(middle(x), cx), hh - gap(middle(y), cy));
    let k = edge_cover(inside);
    assert(0 <= a * k <= a * PX) by (nonlinear_arith)
        requires
            0 <= a,
            0 <= k <= PX,
    ;
    assert((a * PX) / (PX as int) == a);
    assert(k == 0 ==> a * k == 0) by (nonlinear_arith);
}

/// A circle covers in full what lies half a pixel or more inside its rim, nothing that lies half a pixel
/// or more outside, and in between less with each step out. It covers alike in all directions.
pub proof fn law_circle_is_round(
    x: int,
    y: int,
    cx: int,
    cy: int,
    r: int,
    colour: u32,
    x2: int,
    y2: int,
)
    requires
        r >= HALF,
    ensures
        ({
            let a = circle_alpha(x, y, cx, cy, r, colour);
            let dx = middle(x) - cx;
            let dy = middle(y) - cy;
            let ex = middle(x2) - cx;
            let ey = middle(y2) - cy;
            &&& dx * dx + dy * dy <= (r - HALF) * (r - HALF) ==> a == pixel::alpha(colour)
            &&& dx * dx + dy * dy >= (r + HALF) * (r + HALF) ==> a == 0
            &&& 0 <= a <= pixel::alpha(colour)
            &&& dx * dx + dy * dy <= ex * ex + ey * ey ==> circle_alpha(
                x2,
                y2,
                cx,
                cy,
                r,
                colour,
            ) <= a
        }),
{
    lemma_circle(x, y, cx, cy, r, colour);
    lemma_circle(x2, y2, cx, cy, r, colour);
    let dx = middle(x) - cx;
    let dy = middle(y) - cy;
    let ex = middle(x2) - cx;
    let ey = middle(y2) - cy;
    let d2 = dx * dx + dy * dy;
    let e2 = ex * ex + ey * ey;
    let inner = (r - HALF) * (r - HALF);
    let outer = (r + HALF) * (r + HALF);
    let a = pixel::alpha(colour);
    pixel::lemma_channels(colour);
    if d2 <= e2 && inner < d2 && e2 < outer {
        assert(a * (outer - e2) <= a * (outer - d2)) by (nonlinear_arith)
            requires
                0 <= a,
                d2 <= e2,
        ;
        vstd::arithmetic::div_mod::lemma_div_is_ordered(
            a * (outer - e2),
            a * (outer - d2),
            outer - inner,
        );
    }
}

/// The opacity of a circle by the squared distance.
proof fn lemma_circle(x: int, y: int, cx: int, cy: int, r: int, colour: u32)
    requires
        r >= HALF,
    ensures
        ({
            let dx = middle(x) - cx;
            let dy = middle(y) - cy;
            let d2 = dx * dx + dy * dy;
            let inner = (r - HALF) * (r - HALF);
            let outer = (r + HALF) * (r + HALF);
            let a = circle_alpha(x, y, cx, cy, r, colour);
            &&& d2 <= inner ==> a == pixel::alpha(colour)
            &&& d2 >= outer ==> a == 0
            &&& inner < d2 < outer ==> a == (pixel::alpha(colour) * (outer - d2)) / (outer - inner)
            &&& 0 <= a <= pixel::alpha(colour)
            &&& inner < outer
        }),
{
    let dx = middle(x) - cx;
    let dy = middle(y) - cy;
    let gx = gap(middle(x), cx);
    let gy = gap(middle(y), cy);
    assert((-dx) * (-dx) == dx * dx && (-dy) * (-dy) == dy * dy) by (nonlinear_arith);
    assert(gx * gx == dx * dx && gy * gy == dy * dy);
    let d2 = dx * dx + dy * dy;
    let inner = (r - HALF) * (r - HALF);
    let outer = (r + HALF) * (r + HALF);
    assert(inner < outer) by (nonlinear_arith)
        requires
            inner == (r - HALF) * (r - HALF),
            outer == (r + HALF) * (r + HALF),
            r >= HALF,
            HALF == 0x8000,
    ;
    pixel::lemma_channels(colour);
    let a = pixel::alpha(colour);
    if inner < d2 < outer {
        assert(0 <= a * (outer - d2) <= a * (outer - inner)) by (nonlinear_arith)
            requires
                0 <= a,
                inner < d2 < outer,
        ;
        vstd::arithmetic::div_mod::lemma_div_is_ordered(
            a * (outer - d2),
            a * (outer - inner),
            outer - inner,
        );
        vstd::arithmetic::div_mod::lemma_div_multiples_vanish(a, outer - inner);
        assert((outer - inner) * a == a * (outer - inner)) by (nonlinear_arith);
        vstd::arithmetic::div_mod::lemma_div_pos_is_pos(a * (outer - d2), outer - inner);
    }
}

/// A turned rectangle covers in full what lies half a pixel or more inside all its edges once it is
/// turned back, and nothing that lies half a pixel or more outside one.
pub proof fn law_turned_rect_covers_its_inside(
    x: int,
    y: int,
    cx: int,
    cy: int,
    hw: int,
    hh: int,
    sin: int,
    cos: int,
    colour: u32,
)
    ensures
        ({
            let a = turned_rect_alpha(x, y, cx, cy, hw, hh, sin, cos, colour);
            let (lx, ly) = turned(middle(x) - cx, middle(y) - cy, sin, cos);
            &&& HALF - hw <= lx <= hw - HALF && HALF - hh <= ly <= hh - HALF ==> a == pixel::alpha(
                colour,
            )
            &&& lx <= -hw - HALF || lx >= hw + HALF || ly <= -hh - HALF || ly >= hh + HALF ==> a
                == 0
        }),
{
    pixel::lemma_channels(colour);
    let a = pixel::alpha(colour);
    let (lx, ly) = turned(middle(x) - cx, middle(y) - cy, sin, cos);
    let across = edge_cover(hw - lx) * edge_cover(lx + hw);
    let along = edge_cover(hh - ly) * edge_cover(ly + hh);
    if HALF - hw <= lx <= hw - HALF && HALF - hh <= ly <= hh - HALF {
        assert(edge_cover(hw - lx) == 0x1_0000 && edge_cover(lx + hw) == 0x1_0000);
        assert(edge_cover(hh - ly) == 0x1_0000 && edge_cover(ly + hh) == 0x1_0000);
        assert(across == 0x1_0000_0000 && along == 0x1_0000_0000);
        assert(across * along == 0x1_0000_0000_0000_0000) by (nonlinear_arith)
            requires
                across == 0x1_0000_0000,
                along == 0x1_0000_0000,
        ;
    }
    if lx <= -hw - HALF || lx >= hw + HALF || ly <= -hh - HALF || ly >= hh + HALF {
        let r = edge_cover(hw - lx);
        let l = edge_cover(lx + hw);
        let t = edge_cover(hh - ly);
        let b = edge_cover(ly + hh);
        assert(r == 0 || l == 0 || t == 0 || b == 0);
        assert(a * (across * along) == 0) by (nonlinear_arith)
            requires
                across == r * l,
                along == t * b,
                r == 0 || l == 0 || t == 0 || b == 0,
        ;
    }
}

/// Turning back undoes the turn: the point that lies `d` along the turned axis, which points down and
/// to the right for positive sine and cosine, comes to lie `d` to the right, up to dropped fractions;
/// no turn leaves a point where it is, and a quarter turn brings what lies below to the right.
pub proof fn law_turning_back_finds_the_axis(dx: int, dy: int)
    ensures
        turned(dx, dy, 0, coord::RU_ONE as int) == (dx, dy),
        turned(dx, dy, coord::RU_ONE as int, 0) == (dy, -dx),
        turned(dx, dy, 0, -coord::RU_ONE) == (-dx, -dy),
{
    assert(dx * 0 == 0 && dy * 0 == 0);
    let one = coord::RU_ONE as int;
    assert(coord::truncated(dx * one, one) == dx);
    assert(coord::truncated(dy * one, one) == dy);
    assert(dx * -one == -(dx * one) && dy * -one == -(dy * one));
    assert(coord::truncated(-(dx * one), one) == -dx);
    assert(coord::truncated(-(dy * one), one) == -dy);
}

/// A figure puts its colour where its box, the buffer and the clip agree, at its opacity there.
pub proof fn law_figure_inks_by_its_opacity(
    f: Figure,
    pixels: Seq<u32>,
    w: usize,
    h: usize,
    colour: u32,
    c: Clip,
    x: int,
    y: int,
)
    requires
        0 <= x < w,
        0 <= y < h,
        w * h <= pixels.len(),
    ensures
        ({
            let inside = f.shows && f.b.x_min <= x < f.b.x_max && f.b.y_min <= y < f.b.y_max
                && c.x_start <= x < c.x_end && c.y_start <= y < c.y_end && (f.alpha)(x, y) != 0;
            f.over(pixels, w, h, colour, c)[y * w + x] == (if inside {
                pixel::under_px(
                    pixels[y * w + x],
                    pixel::argb(
                        (f.alpha)(x, y),
                        pixel::red(colour),
                        pixel::green(colour),
                        pixel::blue(colour),
                    ),
                    BlendMode::Normal,
                )
            } else {
                pixels[y * w + x]
            })
        }),
{
    canvas::lemma_cell(x, y, w as int);
    canvas::lemma_cell_bound(x, y, w as int, h as int);
}

/// Climbs to the square root.
proof fn lemma_climb(n: int, r: int)
    requires
        0 <= r,
        r * r <= n,
    ensures
        exists|q: int| is_root(n, q),
    decreases n - r,
{
    if (r + 1) * (r + 1) <= n {
        assert(r + 1 <= (r + 1) * (r + 1)) by (nonlinear_arith)
            requires
                0 <= r,
        ;
        lemma_climb(n, r + 1);
    } else {
        assert(is_root(n, r));
    }
}

/// The root of a number from 0 on is its square root, rounded down.
pub proof fn law_root_is_the_square_root(n: int)
    requires
        n >= 0,
    ensures
        root(n) >= 0,
        root(n) * root(n) <= n < (root(n) + 1) * (root(n) + 1),
{
    lemma_climb(n, 0);
    assert(is_root(n, root(n)));
}

/// An ellipse is as opaque left of its centre as right of it and as much above as below, and turned by
/// a right angle when its radii change places.
pub proof fn law_ellipse_is_symmetric(dx: int, dy: int, rx: int, ry: int, a: int)
    ensures
        ellipse_alpha(-dx, dy, rx, ry, a) == ellipse_alpha(dx, dy, rx, ry, a),
        ellipse_alpha(dx, -dy, rx, ry, a) == ellipse_alpha(dx, dy, rx, ry, a),
        ellipse_alpha(dy, dx, ry, rx, a) == ellipse_alpha(dx, dy, rx, ry, a),
{
    assert((-dx) * (-dx) == dx * dx && (-dy) * (-dy) == dy * dy) by (nonlinear_arith);
}

/// The parts of a quotient of squares.
proof fn lemma_ratio2(d: int, r: int)
    requires
        r > 0,
    ensures
        r * r > 0,
        ratio2(d, r) >= 0,
        ratio2(d, r) * (r * r) <= d * d * 0x1_0000_0000 < ratio2(d, r) * (r * r) + r * r,
{
    assert(r * r > 0 && d * d * 0x1_0000_0000 >= 0) by (nonlinear_arith)
        requires
            r > 0,
    ;
    let n = d * d * 0x1_0000_0000;
    vstd::arithmetic::div_mod::lemma_fundamental_div_mod(n, r * r);
    vstd::arithmetic::div_mod::lemma_mod_bound(n, r * r);
    vstd::arithmetic::div_mod::lemma_div_pos_is_pos(n, r * r);
    assert((r * r) * (n / (r * r)) == (n / (r * r)) * (r * r)) by (nonlinear_arith);
}

/// An ellipse is at least half as opaque as its colour inside its curve, and at most half outside, as
/// soon as the point lies outside by one part in `0x1_0000_0000`; never more than its colour.
pub proof fn law_ellipse_lies_inside_its_curve(dx: int, dy: int, rx: int, ry: int, a: int)
    requires
        rx > 0,
        ry > 0,
        a >= 0,
    ensures
        ({
            let q = ellipse_alpha(dx, dy, rx, ry, a);
            &&& 0 <= q <= a
            &&& (dx * dx) * (ry * ry) + (dy * dy) * (rx * rx) <= (rx * rx) * (ry * ry) ==> 2 * q
                >= a - 1
            &&& (dx * dx - rx * rx) * 0x1_0000_0000 >= rx * rx || (dy * dy - ry * ry)
                * 0x1_0000_0000 >= ry * ry ==> 2 * q <= a
        }),
{
    let one: int = 0x1_0000_0000;
    lemma_ratio2(dx, rx);
    lemma_ratio2(dy, ry);
    let p = ratio2(dx, rx);
    let q = ratio2(dy, ry);
    let r2 = rx * rx;
    let s2 = ry * ry;
    let (d2, e2) = (dx * dx, dy * dy);
    let f = p + q - one;
    if d2 * s2 + e2 * r2 <= r2 * s2 {
        assert(p + q <= one) by (nonlinear_arith)
            requires
                p * r2 <= d2 * one,
                q * s2 <= e2 * one,
                d2 * s2 + e2 * r2 <= r2 * s2,
                r2 > 0,
                s2 > 0,
                one == 0x1_0000_0000,
        {
            assert((p * r2) * s2 <= (d2 * one) * s2);
            assert((q * s2) * r2 <= (e2 * one) * r2);
            assert((p * r2) * s2 + (q * s2) * r2 == (p + q) * (r2 * s2));
            assert((d2 * one) * s2 + (e2 * one) * r2 == one * (d2 * s2 + e2 * r2));
            assert(one * (d2 * s2 + e2 * r2) <= one * (r2 * s2));
            assert((p + q) * (r2 * s2) <= one * (r2 * s2));
            assert(r2 * s2 > 0);
        };
    }
    if (d2 - r2) * one >= r2 {
        assert(p > one) by (nonlinear_arith)
            requires
                d2 * one < p * r2 + r2,
                (d2 - r2) * one >= r2,
                r2 > 0,
                one == 0x1_0000_0000,
        ;
    }
    if (e2 - s2) * one >= s2 {
        assert(q > one) by (nonlinear_arith)
            requires
                e2 * one < q * s2 + s2,
                (e2 - s2) * one >= s2,
                s2 > 0,
                one == 0x1_0000_0000,
        ;
    }
    let wide: int = 0x1_0000_0000_0000_0000;
    let grad2 = 4 * ((p * wide) / r2 + (q * wide) / s2);
    vstd::arithmetic::div_mod::lemma_div_pos_is_pos(p * wide, r2);
    vstd::arithmetic::div_mod::lemma_div_pos_is_pos(q * wide, s2);
    assert(f * f >= 0) by (nonlinear_arith);
    let inner = 4 * (f * f) < grad2;
    if inner {
        law_root_is_the_square_root(grad2);
        let g = root(grad2);
        assert(f != 0 ==> f * f >= 1) by (nonlinear_arith);
        assert(g > 0) by (nonlinear_arith)
            requires
                g >= 0,
                grad2 > 0,
                grad2 < (g + 1) * (g + 1),
        ;
        coord::lemma_truncated(f * PX, g);
        let t = coord::truncated(f * PX, g);
        let k = clip::clamp_int(HALF - t, 0, PX as int);
        assert(0 <= a * k <= a * PX && (2 * k <= PX ==> 2 * (a * k) <= a * PX) && (2 * k >= PX ==> 2
            * (a * k) >= a * PX)) by (nonlinear_arith)
            requires
                0 <= a,
                0 <= k <= PX,
        ;
    }
    assert(f == 0 ==> f * f == 0) by (nonlinear_arith);
}

/// On its axes, an ellipse is as opaque as its colour where it is half a pixel or more inside its end,
/// and transparent where it is a pixel or more beyond it.
pub proof fn law_ellipse_ends_with_its_radius(d: int, rx: int, ry: int, a: int)
    requires
        0 < rx <= 0x1_0000_0000_0000,
        ry > 0,
        d >= 0,
    ensures
        d + HALF <= rx ==> ellipse_alpha(d, 0, rx, ry, a) == a && ellipse_alpha(0, d, ry, rx, a) == a,
        d >= rx + PX ==> ellipse_alpha(d, 0, rx, ry, a) == 0 && ellipse_alpha(0, d, ry, rx, a) == 0,
{
    law_ellipse_is_symmetric(d, 0, rx, ry, a);
    lemma_ratio2(d, rx);
    lemma_ratio2(0, ry);
    let one: int = 0x1_0000_0000;
    let wide: int = 0x1_0000_0000_0000_0000;
    let p = ratio2(d, rx);
    let r2 = rx * rx;
    let d2 = d * d;
    assert(ratio2(0, ry) == 0) by {
        assert(0int * 0int * 0x1_0000_0000 == 0) by (nonlinear_arith);
        vstd::arithmetic::div_mod::lemma_div_of0(ry * ry);
    }
    assert((0int * wide) == 0) by (nonlinear_arith);
    vstd::arithmetic::div_mod::lemma_div_of0(ry * ry);
    let f = p - one;
    let g = (p * wide) / r2;
    vstd::arithmetic::div_mod::lemma_fundamental_div_mod(p * wide, r2);
    vstd::arithmetic::div_mod::lemma_mod_bound(p * wide, r2);
    assert(g * r2 <= p * wide) by (nonlinear_arith)
        requires
            p * wide == r2 * g + (p * wide) % r2,
            0 <= (p * wide) % r2,
    ;
    assert(g * (r2 * r2) <= d2 * one * wide) by (nonlinear_arith)
        requires
            g * r2 <= p * wide,
            p * r2 <= d2 * one,
            r2 > 0,
            wide > 0,
    {
        assert((g * r2) * r2 <= (p * wide) * r2);
        assert((p * wide) * r2 == (p * r2) * wide);
        assert((p * r2) * wide <= (d2 * one) * wide);
        assert((g * r2) * r2 == g * (r2 * r2));
    };
    if d + HALF <= rx || d >= rx + PX {
        let far = if d + HALF <= rx {
            -f
        } else {
            f
        };
        if d + HALF <= rx {
            assert(r2 - d2 >= PX * d && r2 - d2 >= 0) by (nonlinear_arith)
                requires
                    r2 == rx * rx,
                    d2 == d * d,
                    0 <= d,
                    d + HALF <= rx,
                    HALF == 0x8000,
                    PX == 0x1_0000,
            ;
            assert(far * r2 >= one * (PX * d)) by (nonlinear_arith)
                requires
                    far == one - p,
                    p * r2 <= d2 * one,
                    r2 - d2 >= PX * d,
                    one == 0x1_0000_0000,
            ;
            assert(f < 0) by (nonlinear_arith)
                requires
                    f == p - one,
                    p * r2 <= d2 * one,
                    r2 == rx * rx,
                    d2 == d * d,
                    0 <= d < rx,
                    one == 0x1_0000_0000,
            ;
        } else {
            assert(d2 - r2 >= PX * d + PX * rx) by (nonlinear_arith)
                requires
                    r2 == rx * rx,
                    d2 == d * d,
                    0 < rx,
                    d >= rx + PX,
                    PX == 0x1_0000,
            ;
            assert(r2 <= one * (PX * rx)) by (nonlinear_arith)
                requires
                    r2 == rx * rx,
                    0 < rx <= 0x1_0000_0000_0000,
                    one == 0x1_0000_0000,
                    PX == 0x1_0000,
            ;
            assert(far * r2 >= one * (PX * d)) by (nonlinear_arith)
                requires
                    far == p - one,
                    d2 * one < p * r2 + r2,
                    d2 - r2 >= PX * d + PX * rx,
                    r2 <= one * (PX * rx),
                    one == 0x1_0000_0000,
            ;
            assert(f > 0) by (nonlinear_arith)
                requires
                    f * r2 >= one * (PX * d),
                    r2 > 0,
                    d > 0,
                    one == 0x1_0000_0000,
                    PX == 0x1_0000,
            ;
        }
        assert(far * far >= g) by (nonlinear_arith)
            requires
                far * r2 >= one * (PX * d),
                far >= 0,
                d >= 0,
                d2 == d * d,
                g * (r2 * r2) <= d2 * one * wide,
                r2 > 0,
                one == 0x1_0000_0000,
                PX == 0x1_0000,
                wide == 0x1_0000_0000_0000_0000,
        {
            let v = one * (PX * d);
            assert(v >= 0);
            assert((far * r2) * (far * r2) >= v * v);
            assert(v * v == d2 * one * wide);
            assert((far * r2) * (far * r2) == (far * far) * (r2 * r2));
            assert((far * far) * (r2 * r2) >= g * (r2 * r2));
            assert(r2 * r2 > 0);
        };
        assert(far * far == f * f) by (nonlinear_arith)
            requires
                far == f || far == -f,
        ;
    }
}

/// The box of a figure holds every pixel of the buffer whose middle lies less than half a pixel outside
/// the sides of the figure.
pub proof fn law_box_holds_the_figure(cx: int, cy: int, hw: int, hh: int, x: int, y: int)
    requires
        drawable(cx),
        drawable(cy),
        0 <= hw <= 0x2000_0000_0000,
        0 <= hh <= 0x2000_0000_0000,
        0 <= x,
        0 <= y,
    ensures
        ({
            let b = box_around(cx, cy, hw, hh);
            &&& cx - hw - HALF < middle(x) < cx + hw + HALF ==> b.x_min <= x < b.x_max
            &&& cy - hh - HALF < middle(y) < cy + hh + HALF ==> b.y_min <= y < b.y_max
        }),
{
    coord::lemma_truncated(cx - hw - HALF, PX as int);
    coord::lemma_truncated(cx + hw + 3 * HALF, PX as int);
    coord::lemma_truncated(cy - hh - HALF, PX as int);
    coord::lemma_truncated(cy + hh + 3 * HALF, PX as int);
}

/// A circle and an ellipse are drawn around their centres, each at its own opacity, and not at all
/// without a radius.
pub proof fn law_round_figures_lie_around_their_centre(
    cx: int,
    cy: int,
    r: int,
    s: int,
    colour: u32,
    x: int,
    y: int,
)
    ensures
        (circle_figure(cx, cy, r, colour).alpha)(x, y) == circle_alpha(x, y, cx, cy, r, colour),
        (ellipse_figure(cx, cy, r, s, colour).alpha)(x, y) == ellipse_alpha(
            x * PX + HALF - cx,
            y * PX + HALF - cy,
            r,
            s,
            pixel::alpha(colour),
        ),
        (turned_ellipse_figure(cx, cy, r, s, 0, coord::RU_ONE as int, colour).alpha)(x, y) == (
        ellipse_figure(cx, cy, r, s, colour).alpha)(x, y),
        circle_figure(cx, cy, r, colour).shows == (r > 0),
        ellipse_figure(cx, cy, r, s, colour).shows == (r > 0 && s > 0),
        circle_figure(cx, cy, r, colour).b == ellipse_figure(cx, cy, r, r, colour).b,
{
    law_turning_back_finds_the_axis(middle(x) - cx, middle(y) - cy);
}

} // verus!
