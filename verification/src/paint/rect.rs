//! Axis-aligned rectangles and circles.
use crate::canvas::{self, Canvas, PixelRect};
use crate::paint::clip::{self, clip_rect, AlphaMask, Clip};
use crate::pixel::{self, Blend, BlendMode};
use vstd::prelude::*;

verus! {

/// A pixel after `colour` went under it, its opacity scaled by the mask value in parts of 256.
pub open spec fn masked_under(p: u32, colour: u32, mask: Option<u8>) -> u32 {
    match mask {
        None => pixel::under_px(p, colour, BlendMode::Normal),
        Some(m) => {
            let a = (pixel::alpha(colour) * m) / 256;
            if a == 0 {
                p
            } else {
                pixel::under_px(
                    p,
                    pixel::argb(a, pixel::red(colour), pixel::green(colour), pixel::blue(colour)),
                    BlendMode::Normal,
                )
            }
        },
    }
}

/// The side of a rectangle, where 0 stands for a line one pixel thick.
pub open spec fn hairline(side: int) -> int {
    if side == 0 {
        1
    } else {
        side
    }
}

/// What `fill_rect` makes of pixel `i` of a buffer `buf_w` wide.
pub open spec fn filled_px(
    p: u32,
    i: int,
    buf_w: int,
    x: int,
    y: int,
    rect_w: int,
    rect_h: int,
    colour: u32,
    clip: Clip,
    mask: Option<Seq<u8>>,
) -> u32 {
    let (x0, y0, x1, y1) = clip::clipped(clip, x, y, hairline(rect_w), hairline(rect_h));
    if canvas::in_rect(i, buf_w, x0, y0, x1, y1) {
        masked_under(p, colour, clip::mask_at(mask, i))
    } else {
        p
    }
}

/// The buffer after `fill_rect`.
pub open spec fn with_fill(
    pixels: Seq<u32>,
    buf_w: int,
    x: int,
    y: int,
    rect_w: int,
    rect_h: int,
    colour: u32,
    clip: Clip,
    mask: Option<Seq<u8>>,
) -> Seq<u32> {
    Seq::new(
        pixels.len(),
        |i: int| filled_px(pixels[i], i, buf_w, x, y, rect_w, rect_h, colour, clip, mask),
    )
}

/// Scales a colour by a mask value and lays it under a pixel.
fn under_masked(p: u32, colour: u32, m: u8) -> (q: u32)
    ensures
        q == masked_under(p, colour, Some(m)),
{
    let a: u32 = pixel::alpha_of(colour);
    let k: u32 = m as u32;
    proof {
        pixel::lemma_scaled(a as int, k as int, 255);
    }
    let effective: u32 = pixel::scale(a, k);
    if effective == 0 {
        p
    } else {
        p.under(pixel::with_alpha(colour, effective), BlendMode::Normal)
    }
}

/// Fills a rectangle that may lie far outside the canvas: lays `colour` under every pixel of it. A
/// width or height of 0 draws a line one pixel thick; a negative one draws nothing.
pub fn fill_area(
    canvas: &mut Canvas,
    x: i128,
    y: i128,
    rect_w: i128,
    rect_h: i128,
    colour: u32,
    clip: Option<Clip>,
    mask: Option<&AlphaMask>,
)
    requires
        old(canvas).fits(),
        Clip::resolved(clip, old(canvas).width, old(canvas).height).within(
            old(canvas).width,
            old(canvas).height,
        ),
        clip::mask_fits(mask, old(canvas).width, old(canvas).height),
        i128::MIN <= x + hairline(rect_w as int) <= i128::MAX,
        i128::MIN <= y + hairline(rect_h as int) <= i128::MAX,
    ensures
        final(canvas).pixels@.len() == old(canvas).pixels@.len(),
        forall|i: int|
            0 <= i < old(canvas).pixels@.len() ==> #[trigger] final(canvas).pixels@[i] == filled_px(
                old(canvas).pixels@[i],
                i,
                old(canvas).width as int,
                x as int,
                y as int,
                rect_w as int,
                rect_h as int,
                colour,
                Clip::resolved(clip, old(canvas).width, old(canvas).height),
                clip::mask_values(mask),
            ),
        final(canvas).damage.rect() == canvas::joined(
            old(canvas).damage.rect(),
            clip::clipped_rect(
                Clip::resolved(clip, old(canvas).width, old(canvas).height),
                x as int,
                y as int,
                hairline(rect_w as int),
                hairline(rect_h as int),
            ),
        ),
        final(canvas).width == old(canvas).width,
        final(canvas).height == old(canvas).height,
        final(final(canvas).pixels)@ == final(old(canvas).pixels)@,
        *final(final(canvas).damage) == *final(old(canvas).damage),
{
    let rect_w: i128 = if rect_w == 0 {
        1
    } else {
        rect_w
    };
    let rect_h: i128 = if rect_h == 0 {
        1
    } else {
        rect_h
    };
    let buf_w: usize = canvas.width;
    let buf_h: usize = canvas.height;
    let clip = Clip::resolve(clip, buf_w, buf_h);
    let (x0, y0, x1, y1) = clip::clip_area(clip, x, y, rect_w, rect_h);
    canvas.damage.add_bounds(x0, y0, x1, y1);
    let ghost before = canvas.pixels@;
    let n: usize = canvas.pixels.len();
    proof {
        assert(y1 <= buf_h ==> buf_w * y1 <= buf_w * buf_h) by (nonlinear_arith);
        if 0 < buf_w {
            canvas::lemma_grid(buf_w as int);
        }
    }
    match mask {
        None => {
            let paint = |p: u32, px: usize, py: usize| -> (q: u32)
                ensures
                    q == pixel::under_px(p, colour, BlendMode::Normal),
            {
                p.under(colour, BlendMode::Normal)
            };
            canvas::map_rect(canvas.pixels, buf_w, x0, y0, x1, y1, paint);
        },
        Some(m) => {
            let paint = |p: u32, px: usize, py: usize| -> (q: u32)
                requires
                    px < buf_w,
                    py < buf_h,
                ensures
                    q == masked_under(p, colour, Some(m.pixels@[py * buf_w + px])),
            {
                proof {
                    canvas::lemma_cell_bound(px as int, py as int, buf_w as int, buf_h as int);
                }
                let at: usize = py * buf_w + px;
                under_masked(p, colour, m.pixels[at])
            };
            canvas::map_rect(canvas.pixels, buf_w, x0, y0, x1, y1, paint);
        },
    }
}

/// Fills a rectangle: lays `colour` under every pixel of it. A width or height of 0 draws a line one
/// pixel thick; a negative one draws nothing.
pub fn fill_rect(
    canvas: &mut Canvas,
    x: isize,
    y: isize,
    rect_w: isize,
    rect_h: isize,
    colour: u32,
    clip: Option<Clip>,
    mask: Option<&AlphaMask>,
)
    requires
        old(canvas).fits(),
        Clip::resolved(clip, old(canvas).width, old(canvas).height).within(
            old(canvas).width,
            old(canvas).height,
        ),
        clip::mask_fits(mask, old(canvas).width, old(canvas).height),
        isize::MIN <= x + hairline(rect_w as int) <= isize::MAX,
        isize::MIN <= y + hairline(rect_h as int) <= isize::MAX,
    ensures
        final(canvas).pixels@.len() == old(canvas).pixels@.len(),
        forall|i: int|
            0 <= i < old(canvas).pixels@.len() ==> #[trigger] final(canvas).pixels@[i] == filled_px(
                old(canvas).pixels@[i],
                i,
                old(canvas).width as int,
                x as int,
                y as int,
                rect_w as int,
                rect_h as int,
                colour,
                Clip::resolved(clip, old(canvas).width, old(canvas).height),
                clip::mask_values(mask),
            ),
        final(canvas).damage.rect() == canvas::joined(
            old(canvas).damage.rect(),
            clip::clipped_rect(
                Clip::resolved(clip, old(canvas).width, old(canvas).height),
                x as int,
                y as int,
                hairline(rect_w as int),
                hairline(rect_h as int),
            ),
        ),
        final(canvas).width == old(canvas).width,
        final(canvas).height == old(canvas).height,
        final(final(canvas).pixels)@ == final(old(canvas).pixels)@,
        *final(final(canvas).damage) == *final(old(canvas).damage),
{
    fill_area(canvas, x as i128, y as i128, rect_w as i128, rect_h as i128, colour, clip, mask);
}

/// The four edges of an outline `stroke` thick: top, bottom, left, right, each as
/// `(x, y, width, height)`.
pub open spec fn outline_edge(n: int, x: int, y: int, w: int, h: int, stroke: int) -> (
    int,
    int,
    int,
    int,
) {
    if n == 0 {
        (x, y, w, stroke)
    } else if n == 1 {
        (x, y + h - stroke, w, stroke)
    } else if n == 2 {
        (x, y + stroke, stroke, h - 2 * stroke)
    } else {
        (x + w - stroke, y + stroke, stroke, h - 2 * stroke)
    }
}

/// A pixel after the first `n` edges of the outline were filled.
pub open spec fn stroked_px(
    p: u32,
    i: int,
    buf_w: int,
    x: int,
    y: int,
    rect_w: int,
    rect_h: int,
    stroke: int,
    colour: u32,
    clip: Clip,
    mask: Option<Seq<u8>>,
    n: nat,
) -> u32
    decreases n,
{
    if n == 0 {
        p
    } else {
        let k = (n - 1) as nat;
        let (ex, ey, ew, eh) = outline_edge(k as int, x, y, rect_w, rect_h, stroke);
        filled_px(
            stroked_px(p, i, buf_w, x, y, rect_w, rect_h, stroke, colour, clip, mask, k),
            i,
            buf_w,
            ex,
            ey,
            ew,
            eh,
            colour,
            clip,
            mask,
        )
    }
}

/// The damage after the first `n` edges of the outline were filled.
pub open spec fn stroked_damage(
    d: Option<PixelRect>,
    x: int,
    y: int,
    rect_w: int,
    rect_h: int,
    stroke: int,
    clip: Clip,
    n: nat,
) -> Option<PixelRect>
    decreases n,
{
    if n == 0 {
        d
    } else {
        let k = (n - 1) as nat;
        let (ex, ey, ew, eh) = outline_edge(k as int, x, y, rect_w, rect_h, stroke);
        canvas::joined(
            stroked_damage(d, x, y, rect_w, rect_h, stroke, clip, k),
            clip::clipped_rect(clip, ex, ey, hairline(ew), hairline(eh)),
        )
    }
}

/// Outlines a rectangle with four filled strips along its edges. Draws nothing where the stroke or a
/// side is not positive.
pub fn stroke_rect(
    canvas: &mut Canvas,
    x: isize,
    y: isize,
    rect_w: isize,
    rect_h: isize,
    stroke: isize,
    colour: u32,
    clip: Option<Clip>,
    mask: Option<&AlphaMask>,
)
    requires
        old(canvas).fits(),
        Clip::resolved(clip, old(canvas).width, old(canvas).height).within(
            old(canvas).width,
            old(canvas).height,
        ),
        clip::mask_fits(mask, old(canvas).width, old(canvas).height),
        stroke > 0 && rect_w > 0 && rect_h > 0 ==> {
            &&& 2 * stroke <= isize::MAX
            &&& x + rect_w <= isize::MAX
            &&& y + rect_h <= isize::MAX
            &&& x + stroke <= isize::MAX
            &&& y + stroke <= isize::MAX
            &&& isize::MIN <= x + rect_w - stroke
            &&& isize::MIN <= y + rect_h - stroke
        },
    ensures
        final(canvas).pixels@.len() == old(canvas).pixels@.len(),
        forall|i: int|
            0 <= i < old(canvas).pixels@.len() ==> #[trigger] final(canvas).pixels@[i]
                == stroked_px(
                old(canvas).pixels@[i],
                i,
                old(canvas).width as int,
                x as int,
                y as int,
                rect_w as int,
                rect_h as int,
                stroke as int,
                colour,
                Clip::resolved(clip, old(canvas).width, old(canvas).height),
                clip::mask_values(mask),
                if stroke > 0 && rect_w > 0 && rect_h > 0 {
                    4
                } else {
                    0
                },
            ),
        final(canvas).damage.rect() == stroked_damage(
            old(canvas).damage.rect(),
            x as int,
            y as int,
            rect_w as int,
            rect_h as int,
            stroke as int,
            Clip::resolved(clip, old(canvas).width, old(canvas).height),
            if stroke > 0 && rect_w > 0 && rect_h > 0 {
                4
            } else {
                0
            },
        ),
        final(canvas).width == old(canvas).width,
        final(canvas).height == old(canvas).height,
        final(final(canvas).pixels)@ == final(old(canvas).pixels)@,
        *final(final(canvas).damage) == *final(old(canvas).damage),
{
    if stroke <= 0 || rect_w <= 0 || rect_h <= 0 {
        return;
    }
    let inner_h: isize = rect_h - 2 * stroke;
    proof {
        reveal_with_fuel(stroked_px, 5);
        reveal_with_fuel(stroked_damage, 5);
    }
    fill_rect(canvas, x, y, rect_w, stroke, colour, clip, mask);
    fill_rect(canvas, x, y + rect_h - stroke, rect_w, stroke, colour, clip, mask);
    fill_rect(canvas, x, y + stroke, stroke, inner_h, colour, clip, mask);
    fill_rect(canvas, x + rect_w - stroke, y + stroke, stroke, inner_h, colour, clip, mask);
}

/// How much of a pixel at squared distance `d2` from the centre a disc of radius `r` covers, in
/// parts of 256: everything up to radius `r - 1`, then a ramp down to nothing at `r`.
pub open spec fn disc_coverage(d2: int, r: int) -> int {
    if d2 <= (r - 1) * (r - 1) {
        256
    } else {
        ((r * r - d2) * 256) / (r * r - (r - 1) * (r - 1))
    }
}

/// A pixel at squared distance `d2` from the centre of a disc of radius `r`, after the disc went
/// under it.
pub open spec fn disc_px(p: u32, d2: int, r: int, colour: u32, mask: Option<u8>) -> u32 {
    if d2 > r * r {
        p
    } else {
        let a = (pixel::alpha(colour) * disc_coverage(d2, r)) / 256;
        let b = match mask {
            None => a,
            Some(m) => (a * m) / 256,
        };
        pixel::under_px(
            p,
            pixel::argb(b, pixel::red(colour), pixel::green(colour), pixel::blue(colour)),
            BlendMode::Normal,
        )
    }
}

/// What `circle_filled` makes of pixel `i` of a buffer `buf_w` wide.
pub open spec fn circle_px(
    p: u32,
    i: int,
    buf_w: int,
    cx: int,
    cy: int,
    r: int,
    colour: u32,
    clip: Clip,
    mask: Option<Seq<u8>>,
) -> u32 {
    let (x0, y0, x1, y1) = clip::clipped(clip, cx - r, cy - r, 2 * r + 1, 2 * r + 1);
    if canvas::in_rect(i, buf_w, x0, y0, x1, y1) {
        let dx = canvas::col_of(i, buf_w) - cx;
        let dy = canvas::row_of(i, buf_w) - cy;
        disc_px(p, dx * dx + dy * dy, r, colour, clip::mask_at(mask, i))
    } else {
        p
    }
}

/// The buffer after `circle_filled`.
pub open spec fn with_circle(
    pixels: Seq<u32>,
    buf_w: int,
    cx: int,
    cy: int,
    r: int,
    colour: u32,
    clip: Clip,
    mask: Option<Seq<u8>>,
) -> Seq<u32> {
    Seq::new(
        pixels.len(),
        |i: int|
            if r > 0 {
                circle_px(pixels[i], i, buf_w, cx, cy, r, colour, clip, mask)
            } else {
                pixels[i]
            },
    )
}

/// The squared distance of two offsets, each at most `r` away.
proof fn lemma_dist2(dx: int, dy: int, r: int)
    requires
        -r <= dx <= r,
        -r <= dy <= r,
    ensures
        0 <= dx * dx <= r * r,
        0 <= dy * dy <= r * r,
{
    assert(0 <= dx * dx <= r * r) by (nonlinear_arith)
        requires
            -r <= dx <= r,
    ;
    assert(0 <= dy * dy <= r * r) by (nonlinear_arith)
        requires
            -r <= dy <= r,
    ;
}

/// Lays one pixel of a disc under `p`.
fn under_disc(p: u32, d2: isize, r: isize, colour: u32, mask: Option<u8>) -> (q: u32)
    requires
        0 <= d2,
        0 < r,
        2 * r * r <= isize::MAX,
    ensures
        q == disc_px(p, d2 as int, r as int, colour, mask),
{
    let inner: isize = r - 1;
    proof {
        lemma_dist2(inner as int, r as int, r as int);
        assert(r * r - inner * inner == 2 * r - 1) by (nonlinear_arith)
            requires
                inner == r - 1,
        ;
        assert(2 * r * r == r * r + r * r) by (nonlinear_arith);
    }
    if d2 > r * r {
        return p;
    }
    let a: u32 = pixel::alpha_of(colour);
    let coverage: u32 = if d2 <= inner * inner {
        256
    } else {
        let gap: isize = r * r - d2;
        let range: isize = r * r - inner * inner;
        proof {
            lemma_ramp(gap as int, range as int, r as int);
        }
        ((gap as i128 * 256) / (range as i128)) as u32
    };
    proof {
        pixel::lemma_scaled(a as int, coverage as int, 255);
    }
    let scaled: u32 = pixel::scale(a, coverage);
    let opacity: u32 = match mask {
        None => scaled,
        Some(m) => {
            proof {
                pixel::lemma_scaled(scaled as int, m as int, 255);
            }
            pixel::scale(scaled, m as u32)
        },
    };
    p.under(pixel::with_alpha(colour, opacity), BlendMode::Normal)
}

/// The edge ramp stays within 256.
proof fn lemma_ramp(gap: int, range: int, r: int)
    requires
        0 <= gap < range,
        range == 2 * r - 1,
    ensures
        0 <= (gap * 256) / range <= 256,
{
    assert((gap * 256) / range <= 256) by (nonlinear_arith)
        requires
            0 <= gap < range,
    ;
    assert(0 <= (gap * 256) / range) by (nonlinear_arith)
        requires
            0 <= gap < range,
    ;
}

/// Fills a disc with an edge ramp one pixel wide. The coverage scales the colour's opacity, and so
/// does the mask, where there is one.
pub fn circle_filled(
    canvas: &mut Canvas,
    cx: isize,
    cy: isize,
    radius: isize,
    colour: u32,
    clip: Option<Clip>,
    mask: Option<&AlphaMask>,
)
    requires
        old(canvas).fits(),
        Clip::resolved(clip, old(canvas).width, old(canvas).height).within(
            old(canvas).width,
            old(canvas).height,
        ),
        clip::mask_fits(mask, old(canvas).width, old(canvas).height),
        radius > 0 ==> {
            &&& 2 * radius * radius <= isize::MAX
            &&& 2 * radius + 1 <= isize::MAX
            &&& isize::MIN <= cx - radius
            &&& isize::MIN <= cy - radius
            &&& cx + radius + 1 <= isize::MAX
            &&& cy + radius + 1 <= isize::MAX
        },
    ensures
        final(canvas).pixels@.len() == old(canvas).pixels@.len(),
        forall|i: int|
            0 <= i < old(canvas).pixels@.len() ==> #[trigger] final(canvas).pixels@[i] == (if radius
                > 0 {
                circle_px(
                    old(canvas).pixels@[i],
                    i,
                    old(canvas).width as int,
                    cx as int,
                    cy as int,
                    radius as int,
                    colour,
                    Clip::resolved(clip, old(canvas).width, old(canvas).height),
                    clip::mask_values(mask),
                )
            } else {
                old(canvas).pixels@[i]
            }),
        final(canvas).damage.rect() == (if radius > 0 {
            canvas::joined(
                old(canvas).damage.rect(),
                clip::clipped_rect(
                    Clip::resolved(clip, old(canvas).width, old(canvas).height),
                    cx - radius,
                    cy - radius,
                    2 * radius + 1,
                    2 * radius + 1,
                ),
            )
        } else {
            old(canvas).damage.rect()
        }),
        final(canvas).width == old(canvas).width,
        final(canvas).height == old(canvas).height,
        final(final(canvas).pixels)@ == final(old(canvas).pixels)@,
        *final(final(canvas).damage) == *final(old(canvas).damage),
{
    if radius <= 0 {
        return;
    }
    let buf_w: usize = canvas.width;
    let buf_h: usize = canvas.height;
    let clip = Clip::resolve(clip, buf_w, buf_h);
    let side: isize = 2 * radius + 1;
    let (x0, y0, x1, y1) = clip_rect(clip, cx - radius, cy - radius, side, side);
    canvas.damage.add_bounds(x0, y0, x1, y1);
    let n: usize = canvas.pixels.len();
    proof {
        assert(y1 <= buf_h ==> buf_w * y1 <= buf_w * buf_h) by (nonlinear_arith);
        if 0 < buf_w {
            canvas::lemma_grid(buf_w as int);
        }
    }
    let paint = |p: u32, px: usize, py: usize| -> (q: u32)
        requires
            px < buf_w,
            py < buf_h,
            cx - radius <= px <= cx + radius,
            cy - radius <= py <= cy + radius,
        ensures
            q == disc_px(
                p,
                (px - cx) * (px - cx) + (py - cy) * (py - cy),
                radius as int,
                colour,
                clip::mask_at(clip::mask_values(mask), py * buf_w + px),
            ),
    {
        proof {
            canvas::lemma_cell_bound(px as int, py as int, buf_w as int, buf_h as int);
            lemma_dist2(px - cx, py - cy, radius as int);
            assert(2 * radius * radius == radius * radius + radius * radius) by (nonlinear_arith);
        }
        let dx: isize = (px as i128 - cx as i128) as isize;
        let dy: isize = (py as i128 - cy as i128) as isize;
        let m: Option<u8> = match mask {
            None => None,
            Some(mk) => Some(mk.pixels[py * buf_w + px]),
        };
        under_disc(p, dx * dx + dy * dy, radius, colour, m)
    };
    canvas::map_rect(canvas.pixels, buf_w, x0, y0, x1, y1, paint);
}

/// The colour of the damage outline, in visible RGB.
pub const MAGENTA: u32 = 0xFFFF_00FF;

/// Pixel `i` lies on the border of the rectangle.
pub open spec fn on_border(i: int, w: int, x0: int, y0: int, x1: int, y1: int) -> bool {
    canvas::in_rect(i, w, x0, y0, x1, y1) && (canvas::row_of(i, w) == y0 || canvas::row_of(i, w)
        == y1 - 1 || canvas::col_of(i, w) == x0 || canvas::col_of(i, w) == x1 - 1)
}

/// Draws a magenta line one pixel wide along the border of `bbox`, moved by the offset and cut down
/// to the screen.
pub fn stamp_damage_outline_visible(
    buf: &mut [u32],
    scr_w: usize,
    scr_h: usize,
    bbox: PixelRect,
    offset_x: i32,
    offset_y: i32,
)
    requires
        !bbox.empty() ==> {
            &&& scr_w * scr_h <= old(buf)@.len()
            &&& bbox.x1 <= i32::MAX && bbox.y1 <= i32::MAX
            &&& offset_x + bbox.x1 <= i32::MAX && offset_y + bbox.y1 <= i32::MAX
        },
    ensures
        final(buf)@.len() == old(buf)@.len(),
        forall|i: int|
            0 <= i < old(buf)@.len() ==> #[trigger] final(buf)@[i] == ({
                let x0 = vstd::math::max(offset_x + bbox.x0, 0);
                let y0 = vstd::math::max(offset_y + bbox.y0, 0);
                let x1 = vstd::math::min(offset_x + bbox.x1, scr_w as int);
                let y1 = vstd::math::min(offset_y + bbox.y1, scr_h as int);
                if !bbox.empty() && scr_w > 0 && on_border(i, scr_w as int, x0, y0, x1, y1) {
                    MAGENTA
                } else {
                    old(buf)@[i]
                }
            }),
{
    if bbox.is_empty() || scr_w == 0 || scr_h == 0 {
        return;
    }
    let sx0: i32 = offset_x + bbox.x0 as i32;
    let sy0: i32 = offset_y + bbox.y0 as i32;
    let sx1: i32 = offset_x + bbox.x1 as i32;
    let sy1: i32 = offset_y + bbox.y1 as i32;
    let x0: usize = if sx0 < 0 { 0 } else { sx0 as usize };
    let y0: usize = if sy0 < 0 { 0 } else { sy0 as usize };
    let x1: usize = canvas::lesser(if sx1 < 0 { 0 } else { sx1 as usize }, scr_w);
    let y1: usize = canvas::lesser(if sy1 < 0 { 0 } else { sy1 as usize }, scr_h);
    proof {
        canvas::lemma_grid(scr_w as int);
        assert(forall|r: usize| r <= scr_h ==> #[trigger] (scr_w * r) <= scr_w * scr_h)
            by (nonlinear_arith);
    }
    if x0 >= x1 || y0 >= y1 {
        return;
    }
    let stamp = |p: u32, px: usize, py: usize| -> (q: u32)
        ensures
            q == MAGENTA,
    {
        MAGENTA
    };
    let right: usize = x1 - 1;
    let bottom: usize = y1 - 1;
    canvas::map_rect(buf, scr_w, x0, y0, x1, y0 + 1, stamp);
    canvas::map_rect(buf, scr_w, x0, bottom, x1, y1, stamp);
    canvas::map_rect(buf, scr_w, x0, y0, x0 + 1, y1, stamp);
    canvas::map_rect(buf, scr_w, right, y0, x1, y1, stamp);
}

/// What is opaque stays as it is: neither a rectangle nor a disc can paint over it.
pub proof fn law_fills_keep_opaque_pixels(
    pixels: Seq<u32>,
    w: int,
    x: int,
    y: int,
    a: int,
    b: int,
    colour: u32,
    clip: Clip,
    mask: Option<Seq<u8>>,
    i: int,
)
    requires
        0 <= i < pixels.len(),
        pixel::alpha(pixels[i]) == 255,
    ensures
        with_fill(pixels, w, x, y, a, b, colour, clip, mask)[i] == pixels[i],
        with_circle(pixels, w, x, y, a, colour, clip, mask)[i] == pixels[i],
{
}

/// An empty mask lets nothing through, and otherwise the opacity is the exact share of 255, to within
/// one below.
pub proof fn law_mask_scales_opacity(p: u32, colour: u32, m: u8)
    ensures
        masked_under(p, colour, Some(0)) == p,
        ({
            let got = (pixel::alpha(colour) * m) / 256;
            let exact = (pixel::alpha(colour) * m) / 255;
            exact - 1 <= got <= exact
        }),
{
    pixel::lemma_channels(colour);
    let a = pixel::alpha(colour);
    assert(a * 0u8 == 0);
    assert(0 <= a * m <= 255 * 255) by (nonlinear_arith)
        requires
            0 <= a <= 255,
            0 <= m <= 255,
    ;
}

/// A filled rectangle covers the columns from its left edge and the rows from its top edge on, as many
/// as its sides say, one where a side is 0. There the colour goes under what was drawn; nothing else
/// changes.
pub proof fn law_fill_covers_its_rectangle(
    pixels: Seq<u32>,
    w: usize,
    h: usize,
    x: int,
    y: int,
    rect_w: int,
    rect_h: int,
    colour: u32,
    clip: Clip,
    px: int,
    py: int,
)
    requires
        0 <= px < w,
        0 <= py < h,
        w * h <= pixels.len(),
        clip.x_start <= clip.x_end,
        clip.y_start <= clip.y_end,
    ensures
        ({
            let across = x <= px && (px < x + rect_w || rect_w == 0 && px == x);
            let along = y <= py && (py < y + rect_h || rect_h == 0 && py == y);
            let shown = clip.x_start <= px < clip.x_end && clip.y_start <= py < clip.y_end;
            with_fill(pixels, w as int, x, y, rect_w, rect_h, colour, clip, None)[py * w + px] == (
            if across && along && shown {
                pixel::under_px(pixels[py * w + px], colour, BlendMode::Normal)
            } else {
                pixels[py * w + px]
            })
        }),
{
    canvas::lemma_cell(px, py, w as int);
    canvas::lemma_cell_bound(px, py, w as int, h as int);
}

/// An outline is a frame: each pixel within `stroke` of an edge of the rectangle gets the colour once,
/// and neither the inside nor the outside changes.
pub proof fn law_outline_is_a_frame(
    p: u32,
    w: usize,
    x: int,
    y: int,
    rect_w: int,
    rect_h: int,
    stroke: int,
    colour: u32,
    clip: Clip,
    px: int,
    py: int,
)
    requires
        0 <= px < w,
        0 <= py,
        0 < stroke,
        2 * stroke < rect_w,
        2 * stroke < rect_h,
        clip.x_start <= px < clip.x_end,
        clip.y_start <= py < clip.y_end,
    ensures
        ({
            let inside = x <= px < x + rect_w && y <= py < y + rect_h;
            let hollow = x + stroke <= px < x + rect_w - stroke && y + stroke <= py < y + rect_h
                - stroke;
            stroked_px(
                p,
                py * w + px,
                w as int,
                x,
                y,
                rect_w,
                rect_h,
                stroke,
                colour,
                clip,
                None,
                4,
            ) == (if inside && !hollow {
                pixel::under_px(p, colour, BlendMode::Normal)
            } else {
                p
            })
        }),
{
    canvas::lemma_cell(px, py, w as int);
    reveal_with_fuel(stroked_px, 5);
}

/// A disc is round and solid: its cover is full up to a pixel from its rim, falls from there to nothing
/// on the rim, and depends on the distance from the centre alone.
pub proof fn law_disc_is_round(d2: int, e2: int, r: int)
    requires
        0 <= d2 <= e2 <= r * r,
        r >= 1,
    ensures
        disc_coverage(e2, r) <= disc_coverage(d2, r) <= 256,
        0 <= disc_coverage(e2, r),
        d2 <= (r - 1) * (r - 1) ==> disc_coverage(d2, r) == 256,
        disc_coverage(r * r, r) == 0,
{
    let den = r * r - (r - 1) * (r - 1);
    assert(den == 2 * r - 1) by (nonlinear_arith)
        requires
            den == r * r - (r - 1) * (r - 1),
    ;
    assert((r - 1) * (r - 1) < r * r);
    let a = (r * r - d2) * 256;
    let b = (r * r - e2) * 256;
    vstd::arithmetic::div_mod::lemma_div_is_ordered(b, a, den);
    vstd::arithmetic::div_mod::lemma_div_pos_is_pos(b, den);
    if d2 > (r - 1) * (r - 1) {
        assert(a <= 256 * den);
        vstd::arithmetic::div_mod::lemma_div_is_ordered(a, 256 * den, den);
        vstd::arithmetic::div_mod::lemma_div_multiples_vanish(256, den);
        assert(den * 256 == 256 * den);
    }
    if e2 > (r - 1) * (r - 1) {
        assert(b <= 256 * den);
        vstd::arithmetic::div_mod::lemma_div_is_ordered(b, 256 * den, den);
        vstd::arithmetic::div_mod::lemma_div_multiples_vanish(256, den);
        assert(den * 256 == 256 * den);
    }
    assert(((r * r - r * r) * 256) / den == 0) by (nonlinear_arith)
        requires
            den > 0,
    ;
}

/// A disc puts its colour around its centre: the pixel at the centre gets it in full, pixels further
/// away than the radius stay, and a pixel as far to the other side, or as far along the other axis, is
/// treated alike.
pub proof fn law_disc_lies_around_its_centre(
    p: u32,
    w: usize,
    cx: int,
    cy: int,
    r: int,
    colour: u32,
    clip: Clip,
    px: int,
    py: int,
)
    requires
        0 <= px < w,
        0 <= py,
        r >= 1,
        clip.x_start <= px < clip.x_end,
        clip.y_start <= py < clip.y_end,
    ensures
        ({
            let dx = px - cx;
            let dy = py - cy;
            let q = circle_px(p, py * w + px, w as int, cx, cy, r, colour, clip, None);
            &&& dx * dx + dy * dy > r * r ==> q == p
            &&& dx == 0 && dy == 0 ==> q == pixel::under_px(p, colour, BlendMode::Normal)
            &&& dx * dx + dy * dy <= (r - 1) * (r - 1) ==> q == pixel::under_px(
                p,
                colour,
                BlendMode::Normal,
            )
            &&& forall|mx: int, my: int|
                0 <= mx < w && 0 <= my && clip.x_start <= mx < clip.x_end && clip.y_start <= my
                    < clip.y_end && (mx - cx == dx || mx - cx == -dx) && (my - cy == dy || my - cy
                    == -dy) ==> #[trigger] circle_px(
                    p,
                    my * w + mx,
                    w as int,
                    cx,
                    cy,
                    r,
                    colour,
                    clip,
                    None,
                ) == q
        }),
{
    let dx = px - cx;
    let dy = py - cy;
    canvas::lemma_cell(px, py, w as int);
    pixel::lemma_channels(colour);
    assert(dx * dx >= 0 && dy * dy >= 0) by (nonlinear_arith);
    assert(dx > r || dx < -r ==> dx * dx > r * r) by (nonlinear_arith)
        requires
            r >= 1,
    ;
    assert(dy > r || dy < -r ==> dy * dy > r * r) by (nonlinear_arith)
        requires
            r >= 1,
    ;
    assert(dx == 0 && dy == 0 ==> dx * dx + dy * dy <= (r - 1) * (r - 1)) by (nonlinear_arith);
    assert((r - 1) * (r - 1) <= r * r) by (nonlinear_arith)
        requires
            r >= 1,
    ;
    assert((pixel::alpha(colour) * 256) / 256 == pixel::alpha(colour));
    assert forall|mx: int, my: int|
        0 <= mx < w && 0 <= my && clip.x_start <= mx < clip.x_end && clip.y_start <= my
            < clip.y_end && (mx - cx == dx || mx - cx == -dx) && (my - cy == dy || my - cy
            == -dy) implies #[trigger] circle_px(
        p,
        my * w + mx,
        w as int,
        cx,
        cy,
        r,
        colour,
        clip,
        None,
    ) == circle_px(p, py * w + px, w as int, cx, cy, r, colour, clip, None) by {
        canvas::lemma_cell(mx, my, w as int);
        assert((-dx) * (-dx) == dx * dx && (-dy) * (-dy) == dy * dy) by (nonlinear_arith);
    }
}

/// A fill and a disc change nothing outside the pixels that they damage.
pub proof fn law_fills_stay_in_their_damage(
    pixels: Seq<u32>,
    w: usize,
    h: usize,
    x: int,
    y: int,
    a: int,
    b: int,
    colour: u32,
    clip: Clip,
    mask: Option<Seq<u8>>,
    px: int,
    py: int,
)
    requires
        clip.within(w, h),
        0 <= px < w,
        0 <= py < h,
        w * h <= pixels.len(),
    ensures
        with_fill(pixels, w as int, x, y, a, b, colour, clip, mask)[py * w + px] != pixels[py * w + px]
            ==> clip::clipped_rect(clip, x, y, hairline(a), hairline(b)).holds(px, py),
        with_circle(pixels, w as int, x, y, a, colour, clip, mask)[py * w + px] != pixels[py * w + px]
            ==> clip::clipped_rect(clip, x - a, y - a, 2 * a + 1, 2 * a + 1).holds(px, py),
{
    canvas::lemma_cell(px, py, w as int);
    canvas::lemma_cell_bound(px, py, w as int, h as int);
}

} // verus!
