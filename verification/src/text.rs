//! Text: how shaped glyphs are rasterised, and how the bitmaps go onto pixel buffers.
//!
//! A glyph is drawn from a coverage bitmap with its place in the buffer. [`raster`] gets the bitmaps
//! for shaped glyphs; shaping itself is done elsewhere.
pub mod additive;
pub mod measure;
pub mod raster;

use crate::canvas;
use crate::coord::{self, Coord, PX};
use crate::paint::clip::{self, AlphaMask, Clip};
use crate::paint::swar;
use crate::pixel;
use vstd::prelude::*;

verus! {

/// A rasterised glyph: `w` by `h` coverage values, row by row, at column `x` and row `y`.
#[derive(Debug)]
pub struct GlyphImage {
    pub x: i32,
    pub y: i32,
    pub w: usize,
    pub h: usize,
    pub coverage: Vec<u8>,
}

impl GlyphImage {
    /// One coverage value for each cell, and every cell at a column and a row that fit 32 bits.
    pub open spec fn wf(&self) -> bool {
        &&& self.coverage@.len() == self.w * self.h
        &&& self.w <= i32::MAX
        &&& self.h <= i32::MAX
        &&& self.x + self.w <= i32::MAX
        &&& self.y + self.h <= i32::MAX
    }

    /// The glyph covers column `x` of row `y`.
    pub open spec fn covers(&self, x: int, y: int) -> bool {
        self.x <= x < self.x + self.w && self.y <= y < self.y + self.h
    }

    /// The coverage at column `x` of row `y` of the buffer, 0 outside the glyph.
    pub open spec fn at(&self, x: int, y: int) -> int {
        if self.covers(x, y) {
            self.coverage@[(y - self.y) * self.w + (x - self.x)] as int
        } else {
            0
        }
    }

    /// The glyph whose bitmap has its left edge `left` columns right of the pen and its top edge
    /// `top` rows above the baseline.
    pub fn placed(
        pen_x: i32,
        baseline: i32,
        left: i32,
        top: i32,
        w: usize,
        h: usize,
        coverage: Vec<u8>,
    ) -> (g: GlyphImage)
        requires
            coverage@.len() == w * h,
            w <= i32::MAX,
            h <= i32::MAX,
            i32::MIN <= pen_x + left,
            i32::MIN <= baseline - top,
            pen_x + left + w <= i32::MAX,
            baseline - top + h <= i32::MAX,
        ensures
            g.wf(),
            g.x == pen_x + left,
            g.y == baseline - top,
            g.w == w,
            g.h == h,
            g.coverage@ == coverage@,
    {
        GlyphImage { x: pen_x + left, y: baseline - top, w, h, coverage }
    }

    /// The coverage at a cell that the glyph covers.
    fn value(&self, x: usize, y: usize) -> (c: u8)
        requires
            self.wf(),
            self.covers(x as int, y as int),
        ensures
            c == self.at(x as int, y as int),
    {
        let n: usize = self.coverage.len();
        let cx: usize = (x as i128 - self.x as i128) as usize;
        let cy: usize = (y as i128 - self.y as i128) as usize;
        proof {
            canvas::lemma_cell_bound(cx as int, cy as int, self.w as int, self.h as int);
        }
        self.coverage[cy * self.w + cx]
    }

    /// The part of the glyph inside the clip, as `(x0, y0, x1, y1)`.
    fn visible(&self, c: Clip) -> (v: (usize, usize, usize, usize))
        requires
            self.wf(),
            c.x_start <= c.x_end,
            c.y_start <= c.y_end,
        ensures
            v.0 as int == clip::clamp_int(self.x as int, c.x_start as int, c.x_end as int),
            v.1 as int == clip::clamp_int(self.y as int, c.y_start as int, c.y_end as int),
            v.2 as int == clip::clamp_int(self.x + self.w, c.x_start as int, c.x_end as int),
            v.3 as int == clip::clamp_int(self.y + self.h, c.y_start as int, c.y_end as int),
    {
        clip::clip_rect(c, self.x as isize, self.y as isize, self.w as isize, self.h as isize)
    }
}

/// The weight of a glyph in a pixel: its coverage, scaled by the mask where there is one.
pub open spec fn glyph_weight(coverage: int, mask: Option<u8>) -> int {
    match mask {
        None => coverage,
        Some(m) => (coverage * m) / 256,
    }
}

/// Pixel `i` of a buffer `w` wide after a glyph was drawn on it.
pub open spec fn glyph_px(
    p: u32,
    i: int,
    w: int,
    glyph: &GlyphImage,
    colour: u32,
    c: Clip,
    mask: Option<Seq<u8>>,
) -> u32 {
    let x = canvas::col_of(i, w);
    let y = canvas::row_of(i, w);
    let coverage = glyph.at(x, y);
    if coverage > 0 && canvas::in_rect(
        i,
        w,
        c.x_start as int,
        c.y_start as int,
        c.x_end as int,
        c.y_end as int,
    ) {
        let a = glyph_weight(coverage, clip::mask_at(mask, i));
        swar::weighted_px(p, colour, 255 - a, a)
    } else {
        p
    }
}

/// A buffer after a glyph was drawn on it.
pub open spec fn with_glyph(
    pixels: Seq<u32>,
    w: int,
    glyph: &GlyphImage,
    colour: u32,
    c: Clip,
    mask: Option<Seq<u8>>,
) -> Seq<u32> {
    Seq::new(pixels.len(), |i: int| glyph_px(pixels[i], i, w, glyph, colour, c, mask))
}

/// A buffer after the first `n` glyphs were drawn on it.
pub open spec fn with_glyphs(
    pixels: Seq<u32>,
    w: int,
    glyphs: Seq<GlyphImage>,
    colour: u32,
    c: Clip,
    mask: Option<Seq<u8>>,
    n: int,
) -> Seq<u32>
    decreases n,
{
    if n <= 0 {
        pixels
    } else {
        with_glyph(
            with_glyphs(pixels, w, glyphs, colour, c, mask, n - 1),
            w,
            &glyphs[n - 1],
            colour,
            c,
            mask,
        )
    }
}

/// Drawing glyphs keeps the size of the buffer.
pub proof fn lemma_glyphs_len(
    pixels: Seq<u32>,
    w: int,
    glyphs: Seq<GlyphImage>,
    colour: u32,
    c: Clip,
    mask: Option<Seq<u8>>,
    n: int,
)
    ensures
        with_glyphs(pixels, w, glyphs, colour, c, mask, n).len() == pixels.len(),
    decreases n,
{
    if n > 0 {
        lemma_glyphs_len(pixels, w, glyphs, colour, c, mask, n - 1);
    }
}

/// Mixes a colour into a pixel, `a` parts in 256 against `255 - a` of what was there.
fn mix_glyph(p: u32, colour: u32, a: u8) -> (q: u32)
    ensures
        q == swar::weighted_px(p, colour, 255 - a, a as int),
{
    proof {
        swar::lemma_weighted(p, colour, 255 - a, a as int);
    }
    swar::mix_weighted(p, colour, (255 - a) as u64, a as u64)
}

/// Coverage scaled by a mask value.
fn masked_weight(coverage: u8, m: u8) -> (a: u8)
    ensures
        a as int == glyph_weight(coverage as int, Some(m)),
{
    proof {
        assert(0 <= coverage * m <= 255 * 255) by (nonlinear_arith)
            requires
                0 <= coverage <= 255,
                0 <= m <= 255,
        ;
    }
    ((coverage as u32 * m as u32) / 256) as u8
}

/// Draws a glyph: mixes `colour` into each pixel of the clip that it covers, by its coverage, which
/// the mask scales where there is one.
pub fn draw_glyph(
    pixels: &mut [u32],
    buf_w: usize,
    buf_h: usize,
    glyph: &GlyphImage,
    colour: u32,
    clip: Option<Clip>,
    mask: Option<&AlphaMask>,
)
    requires
        buf_w * buf_h <= old(pixels)@.len(),
        glyph.wf(),
        Clip::resolved(clip, buf_w, buf_h).within(buf_w, buf_h),
        clip::mask_fits(mask, buf_w, buf_h),
    ensures
        final(pixels)@ == with_glyph(
            old(pixels)@,
            buf_w as int,
            glyph,
            colour,
            Clip::resolved(clip, buf_w, buf_h),
            clip::mask_values(mask),
        ),
{
    let c = Clip::resolve(clip, buf_w, buf_h);
    let (x0, y0, x1, y1) = glyph.visible(c);
    let n: usize = pixels.len();
    proof {
        assert(y1 <= buf_h ==> buf_w * y1 <= buf_w * buf_h) by (nonlinear_arith);
        if 0 < buf_w {
            canvas::lemma_grid(buf_w as int);
        }
    }
    match mask {
        None => {
            let paint = |p: u32, x: usize, y: usize| -> (q: u32)
                requires
                    glyph.covers(x as int, y as int),
                ensures
                    q == (if glyph.at(x as int, y as int) > 0 {
                        swar::weighted_px(
                            p,
                            colour,
                            255 - glyph.at(x as int, y as int),
                            glyph.at(x as int, y as int),
                        )
                    } else {
                        p
                    }),
            {
                let a: u8 = glyph.value(x, y);
                if a == 0 {
                    p
                } else {
                    mix_glyph(p, colour, a)
                }
            };
            canvas::map_rect(pixels, buf_w, x0, y0, x1, y1, paint);
        },
        Some(m) => {
            let paint = |p: u32, x: usize, y: usize| -> (q: u32)
                requires
                    glyph.covers(x as int, y as int),
                    x < buf_w,
                    y < buf_h,
                ensures
                    ({
                        let a = glyph_weight(
                            glyph.at(x as int, y as int),
                            Some(m.pixels@[y * buf_w + x]),
                        );
                        q == (if glyph.at(x as int, y as int) > 0 {
                            swar::weighted_px(p, colour, 255 - a, a)
                        } else {
                            p
                        })
                    }),
            {
                let a: u8 = glyph.value(x, y);
                if a == 0 {
                    p
                } else {
                    proof {
                        canvas::lemma_cell_bound(x as int, y as int, buf_w as int, buf_h as int);
                    }
                    mix_glyph(p, colour, masked_weight(a, m.pixels[y * buf_w + x]))
                }
            };
            canvas::map_rect(pixels, buf_w, x0, y0, x1, y1, paint);
        },
    }
    proof {
        let after = pixels@;
        assert(after =~= with_glyph(
            old(pixels)@,
            buf_w as int,
            glyph,
            colour,
            c,
            clip::mask_values(mask),
        ));
    }
}

/// Draws glyphs one after the other.
pub fn draw_glyphs(
    pixels: &mut [u32],
    buf_w: usize,
    buf_h: usize,
    glyphs: &[GlyphImage],
    colour: u32,
    clip: Option<Clip>,
    mask: Option<&AlphaMask>,
)
    requires
        buf_w * buf_h <= old(pixels)@.len(),
        forall|i: int| 0 <= i < glyphs@.len() ==> (#[trigger] glyphs@[i]).wf(),
        Clip::resolved(clip, buf_w, buf_h).within(buf_w, buf_h),
        clip::mask_fits(mask, buf_w, buf_h),
    ensures
        final(pixels)@ == with_glyphs(
            old(pixels)@,
            buf_w as int,
            glyphs@,
            colour,
            Clip::resolved(clip, buf_w, buf_h),
            clip::mask_values(mask),
            glyphs@.len() as int,
        ),
{
    let ghost before = pixels@;
    let mut i: usize = 0;
    while i < glyphs.len()
        invariant
            0 <= i <= glyphs@.len(),
            buf_w * buf_h <= pixels@.len(),
            forall|i: int| 0 <= i < glyphs@.len() ==> (#[trigger] glyphs@[i]).wf(),
            Clip::resolved(clip, buf_w, buf_h).within(buf_w, buf_h),
            clip::mask_fits(mask, buf_w, buf_h),
            pixels@ == with_glyphs(
                before,
                buf_w as int,
                glyphs@,
                colour,
                Clip::resolved(clip, buf_w, buf_h),
                clip::mask_values(mask),
                i as int,
            ),
        decreases glyphs@.len() - i,
    {
        draw_glyph(pixels, buf_w, buf_h, &glyphs[i], colour, clip, mask);
        i = i + 1;
    }
}

/// A colour scaled by `a` parts in 256, with no opacity.
pub open spec fn contribution(colour: u32, a: int) -> u32 {
    pixel::argb(
        0,
        (pixel::red(colour) * a) / 256,
        (pixel::green(colour) * a) / 256,
        (pixel::blue(colour) * a) / 256,
    )
}

/// Scales a colour.
fn contribution_of(colour: u32, a: u8) -> (p: u32)
    ensures
        p == contribution(colour, a as int),
{
    let (r, g, b) = pixel::rgb_of(colour);
    let k: u32 = a as u32;
    proof {
        pixel::lemma_scaled(r as int, k as int, 255);
        pixel::lemma_scaled(g as int, k as int, 255);
        pixel::lemma_scaled(b as int, k as int, 255);
    }
    pixel::assemble(0, pixel::scale(r, k), pixel::scale(g, k), pixel::scale(b, k))
}

/// A pixel with a contribution added or taken away, wrapping.
pub open spec fn toggled(p: u32, c: u32, add_mode: bool) -> u32 {
    if add_mode {
        p.wrapping_add(c)
    } else {
        p.wrapping_sub(c)
    }
}

/// A buffer `w` wide after a glyph was added to it or taken away.
pub open spec fn with_additive(
    pixels: Seq<u32>,
    w: int,
    glyph: &GlyphImage,
    colour: u32,
    add_mode: bool,
) -> Seq<u32> {
    Seq::new(
        pixels.len(),
        |i: int|
            {
                let a = glyph.at(canvas::col_of(i, w), canvas::row_of(i, w));
                if w > 0 && a > 0 {
                    toggled(pixels[i], contribution(colour, a), add_mode)
                } else {
                    pixels[i]
                }
            },
    )
}

/// Adds a glyph to the buffer, or takes it away, by wrapping arithmetic on whole pixels. What lies
/// outside the buffer is not drawn.
pub fn draw_glyph_additive(
    pixels: &mut [u32],
    width: usize,
    glyph: &GlyphImage,
    colour: u32,
    add_mode: bool,
)
    requires
        glyph.wf(),
    ensures
        final(pixels)@ == with_additive(old(pixels)@, width as int, glyph, colour, add_mode),
{
    let x0: usize = at_least_zero(glyph.x as i64);
    let y0: usize = at_least_zero(glyph.y as i64);
    let x1: usize = canvas::lesser(at_least_zero(glyph.x as i64 + glyph.w as i64), width);
    let y1: usize = at_least_zero(glyph.y as i64 + glyph.h as i64);
    let n: usize = pixels.len();
    proof {
        if 0 < width {
            canvas::lemma_grid(width as int);
        }
    }
    let paint = |p: u32, x: usize, y: usize| -> (q: u32)
        requires
            glyph.covers(x as int, y as int),
        ensures
            q == (if glyph.at(x as int, y as int) > 0 {
                toggled(p, contribution(colour, glyph.at(x as int, y as int)), add_mode)
            } else {
                p
            }),
    {
        let a: u8 = glyph.value(x, y);
        if a == 0 {
            p
        } else if add_mode {
            p.wrapping_add(contribution_of(colour, a))
        } else {
            p.wrapping_sub(contribution_of(colour, a))
        }
    };
    canvas::map_cells(pixels, width, x0, y0, x1, y1, paint);
    proof {
        let after = pixels@;
        assert(after =~= with_additive(old(pixels)@, width as int, glyph, colour, add_mode));
    }
}

/// `v`, or 0 where it is negative.
fn at_least_zero(v: i64) -> (r: usize)
    requires
        v <= i32::MAX,
    ensures
        r as int == vstd::math::max(v as int, 0),
{
    if v < 0 {
        0
    } else {
        v as usize
    }
}

/// A buffer `w` wide after a glyph, scaled by a mask as wide as the buffer, was added to it or taken
/// away. Only whole rows are drawn on.
pub open spec fn with_masked_additive(
    pixels: Seq<u32>,
    w: int,
    glyph: &GlyphImage,
    colour: u32,
    mask: Seq<u8>,
    add_mode: bool,
) -> Seq<u32> {
    Seq::new(
        pixels.len(),
        |i: int|
            {
                let x = canvas::col_of(i, w);
                let y = canvas::row_of(i, w);
                if y < (pixels.len() as int) / w && glyph.covers(x, y) {
                    let a = glyph_weight(glyph.at(x, y), Some(mask[i]));
                    toggled(pixels[i], contribution(colour, a), add_mode)
                } else {
                    pixels[i]
                }
            },
    )
}

/// Adds a glyph to the buffer, or takes it away, its coverage scaled by the mask.
pub fn draw_glyph_masked_additive(
    pixels: &mut [u32],
    width: usize,
    glyph: &GlyphImage,
    colour: u32,
    textbox_mask: &[u8],
    add_mode: bool,
)
    requires
        glyph.wf(),
        width > 0,
        textbox_mask@.len() >= (old(pixels)@.len() / width as nat) * width,
    ensures
        final(pixels)@ == with_masked_additive(
            old(pixels)@,
            width as int,
            glyph,
            colour,
            textbox_mask@,
            add_mode,
        ),
{
    let n: usize = pixels.len();
    let height: usize = n / width;
    let x0: usize = at_least_zero(glyph.x as i64);
    let y0: usize = at_least_zero(glyph.y as i64);
    let x1: usize = canvas::lesser(at_least_zero(glyph.x as i64 + glyph.w as i64), width);
    let y1: usize = canvas::lesser(at_least_zero(glyph.y as i64 + glyph.h as i64), height);
    let m: usize = textbox_mask.len();
    proof {
        canvas::lemma_grid(width as int);
        vstd::arithmetic::div_mod::lemma_fundamental_div_mod(n as int, width as int);
        assert(width * y1 <= width * height) by (nonlinear_arith)
            requires
                y1 <= height,
        ;
        assert(width * height == height * width) by (nonlinear_arith);
    }
    let paint = |p: u32, x: usize, y: usize| -> (q: u32)
        requires
            glyph.covers(x as int, y as int),
            x < width,
            y < height,
        ensures
            q == toggled(
                p,
                contribution(
                    colour,
                    glyph_weight(
                        glyph.at(x as int, y as int),
                        Some(textbox_mask@[y * width + x]),
                    ),
                ),
                add_mode,
            ),
    {
        proof {
            canvas::lemma_cell_bound(x as int, y as int, width as int, height as int);
        }
        let a: u8 = masked_weight(glyph.value(x, y), textbox_mask[y * width + x]);
        if add_mode {
            p.wrapping_add(contribution_of(colour, a))
        } else {
            p.wrapping_sub(contribution_of(colour, a))
        }
    };
    canvas::map_rect(pixels, width, x0, y0, x1, y1, paint);
    proof {
        let after = pixels@;
        assert(after =~= with_masked_additive(
            old(pixels)@,
            width as int,
            glyph,
            colour,
            textbox_mask@,
            add_mode,
        ));
    }
}

/// A mask `width` columns wide with its corner at `(x, y)`.
pub struct BoxMask<'a> {
    pub values: &'a [u8],
    pub x: usize,
    pub y: usize,
    pub width: usize,
}

impl<'a> BoxMask<'a> {
    /// The mask value at column `px` of row `py`, 0 outside the box.
    pub open spec fn at(&self, px: int, py: int) -> int {
        if self.x <= px < self.x + self.width && self.y <= py < self.y + (self.values@.len() as int)
            / (self.width as int) {
            self.values@[(py - self.y) * self.width + (px - self.x)] as int
        } else {
            0
        }
    }

    /// The mask value at column `px` of row `py`, 0 outside the box.
    fn value(&self, px: usize, py: usize) -> (m: u8)
        ensures
            m as int == self.at(px as int, py as int),
    {
        if px < self.x || px - self.x >= self.width || py < self.y {
            return 0;
        }
        let cx: usize = px - self.x;
        let cy: usize = py - self.y;
        let n: usize = self.values.len();
        if cy >= n / self.width {
            return 0;
        }
        proof {
            let rows = n as int / self.width as int;
            vstd::arithmetic::div_mod::lemma_fundamental_div_mod(n as int, self.width as int);
            canvas::lemma_cell_bound(cx as int, cy as int, self.width as int, rows);
        }
        self.values[cy * self.width + cx]
    }
}

/// A byte with a value added or taken away, wrapping.
pub open spec fn toggled_byte(p: u8, v: int, add_mode: bool) -> u8 {
    if add_mode {
        p.wrapping_add(v as u8)
    } else {
        p.wrapping_sub(v as u8)
    }
}

/// Byte `j` of a buffer `w` pixels wide, four bytes to the pixel, after a masked glyph was added to it
/// or taken away. The fourth byte of a pixel stays.
pub open spec fn additive_byte(
    p: u8,
    j: int,
    w: int,
    h: int,
    glyph: &GlyphImage,
    colour: Seq<u8>,
    mask: &BoxMask,
    add_mode: bool,
) -> u8 {
    let x = canvas::col_of(j, 4 * w) / 4;
    let c = canvas::col_of(j, 4 * w) % 4;
    let y = canvas::row_of(j, 4 * w);
    if w > 0 && y < h && c < 3 && glyph.at(x, y) > 0 && mask.at(x, y) > 0 {
        let a = (glyph.at(x, y) * mask.at(x, y)) / 256;
        toggled_byte(p, (colour[c] * a) / 256, add_mode)
    } else {
        p
    }
}

/// Adds a glyph to a buffer of four bytes to the pixel, or takes it away, inside a masked box.
pub fn draw_glyph_masked_bytes(
    pixels: &mut [u8],
    width: u32,
    height: u32,
    glyph: &GlyphImage,
    colour: [u8; 4],
    mask: &BoxMask,
    add_mode: bool,
)
    requires
        glyph.wf(),
        4 * (width * height) <= old(pixels)@.len(),
        4 * width <= usize::MAX,
    ensures
        final(pixels)@.len() == old(pixels)@.len(),
        forall|j: int|
            0 <= j < old(pixels)@.len() ==> #[trigger] final(pixels)@[j] == additive_byte(
                old(pixels)@[j],
                j,
                width as int,
                height as int,
                glyph,
                colour@,
                mask,
                add_mode,
            ),
{
    let w: usize = width as usize;
    let x0: usize = at_least_zero(glyph.x as i64);
    let y0: usize = at_least_zero(glyph.y as i64);
    let x1: usize = canvas::lesser(at_least_zero(glyph.x as i64 + glyph.w as i64), w);
    let y1: usize = canvas::lesser(
        at_least_zero(glyph.y as i64 + glyph.h as i64),
        height as usize,
    );
    let n: usize = pixels.len();
    if x0 >= x1 || y0 >= y1 {
        proof {
            if 0 < width {
                canvas::lemma_grid(4 * width as int);
            }
        }
        return;
    }
    let stride: usize = 4 * w;
    proof {
        canvas::lemma_grid(stride as int);
        assert(stride * y1 <= 4 * (width * height)) by (nonlinear_arith)
            requires
                stride == 4 * width,
                y1 <= height,
        ;
    }
    let paint = |p: u8, bx: usize, y: usize| -> (q: u8)
        requires
            glyph.covers(bx as int / 4, y as int),
        ensures
            ({
                let x = bx as int / 4;
                let c = bx as int % 4;
                q == (if c < 3 && glyph.at(x, y as int) > 0 && mask.at(x, y as int) > 0 {
                    let a = (glyph.at(x, y as int) * mask.at(x, y as int)) / 256;
                    toggled_byte(p, (colour@[c] * a) / 256, add_mode)
                } else {
                    p
                })
            }),
    {
        let x: usize = bx / 4;
        let c: usize = bx % 4;
        let cov: u8 = glyph.value(x, y);
        let m: u8 = mask.value(x, y);
        if c == 3 || cov == 0 || m == 0 {
            p
        } else {
            let v: u8 = masked_weight(colour[c], masked_weight(cov, m));
            if add_mode {
                p.wrapping_add(v)
            } else {
                p.wrapping_sub(v)
            }
        }
    };
    canvas::map_rect(pixels, stride, 4 * x0, y0, 4 * x1, y1, paint);
}

/// Where a cell at column `x` of row `y` goes when the text is turned about its anchor by `rotation`
/// degrees, a multiple of 90; any other number turns nothing.
pub open spec fn rotated(x: int, y: int, ax: int, ay: int, rotation: u16) -> (int, int) {
    let rx = x * PX - ax;
    let ry = y * PX - ay;
    let (tx, ty) = if rotation == 90 {
        (ry, -rx)
    } else if rotation == 180 {
        (-rx, -ry)
    } else if rotation == 270 {
        (-ry, rx)
    } else {
        (rx, ry)
    };
    (coord::truncated(ax + tx, PX as int), coord::truncated(ay + ty, PX as int))
}

/// Where a cell goes when the text is turned about its anchor.
fn rotate_cell(x: i32, y: i32, ax: Coord, ay: Coord, rotation: u16) -> (p: (i128, i128))
    requires
        coord::in_range(ax as int),
        coord::in_range(ay as int),
    ensures
        (p.0 as int, p.1 as int) == rotated(x as int, y as int, ax as int, ay as int, rotation),
        -0x4_0000_0000 <= p.0 <= 0x4_0000_0000,
        -0x4_0000_0000 <= p.1 <= 0x4_0000_0000,
{
    let rx: i128 = x as i128 * 0x1_0000 - ax as i128;
    let ry: i128 = y as i128 * 0x1_0000 - ay as i128;
    let (tx, ty): (i128, i128) = if rotation == 90 {
        (ry, -rx)
    } else if rotation == 180 {
        (-rx, -ry)
    } else if rotation == 270 {
        (-ry, rx)
    } else {
        (rx, ry)
    };
    (coord::truncate(ax as i128 + tx, 0x1_0000), coord::truncate(ay as i128 + ty, 0x1_0000))
}

/// The first byte of the pixel that cell `k` of a glyph goes to.
pub open spec fn cell_offset(
    glyph: &GlyphImage,
    k: int,
    w: int,
    channels: int,
    ax: int,
    ay: int,
    rotation: u16,
) -> int {
    let (x, y) = rotated(
        glyph.x + k % (glyph.w as int),
        glyph.y + k / (glyph.w as int),
        ax,
        ay,
        rotation,
    );
    (y * w + x) * channels
}

/// Cell `k` of a glyph goes to a pixel of the buffer.
pub open spec fn cell_fits(
    glyph: &GlyphImage,
    k: int,
    w: int,
    channels: int,
    len: int,
    ax: int,
    ay: int,
    rotation: u16,
) -> bool {
    let (x, y) = rotated(
        glyph.x + k % (glyph.w as int),
        glyph.y + k / (glyph.w as int),
        ax,
        ay,
        rotation,
    );
    x >= 0 && y >= 0 && cell_offset(glyph, k, w, channels, ax, ay, rotation) + channels <= len
}

/// Bytes after `colour` was mixed in from `offset` on, `a` parts in 256.
pub open spec fn with_mixed_bytes(bytes: Seq<u8>, offset: int, colour: Seq<u8>, a: int) -> Seq<u8> {
    Seq::new(
        bytes.len(),
        |j: int|
            if offset <= j < offset + colour.len() {
                ((bytes[j] * (256 - a) + colour[j - offset] * a) / 256) as u8
            } else {
                bytes[j]
            },
    )
}

/// Bytes after the first `n` cells of a glyph were drawn on them.
pub open spec fn with_glyph_bytes(
    bytes: Seq<u8>,
    w: int,
    glyph: &GlyphImage,
    colour: Seq<u8>,
    ax: int,
    ay: int,
    rotation: u16,
    n: int,
) -> Seq<u8>
    decreases n,
{
    if n <= 0 {
        bytes
    } else {
        let before = with_glyph_bytes(bytes, w, glyph, colour, ax, ay, rotation, n - 1);
        let a = glyph.coverage@[n - 1] as int;
        if a == 0 {
            before
        } else {
            with_mixed_bytes(
                before,
                cell_offset(glyph, n - 1, w, colour.len() as int, ax, ay, rotation),
                colour,
                a,
            )
        }
    }
}

/// Mixes `colour` into the bytes from `offset` on.
fn mix_bytes(bytes: &mut [u8], offset: usize, colour: &Vec<u8>, a: u8)
    requires
        offset + colour@.len() <= old(bytes)@.len(),
    ensures
        final(bytes)@ == with_mixed_bytes(old(bytes)@, offset as int, colour@, a as int),
{
    let n: usize = bytes.len();
    let ghost before = bytes@;
    let mut c: usize = 0;
    while c < colour.len()
        invariant
            0 <= c <= colour@.len(),
            offset + colour@.len() <= n,
            bytes@.len() == n,
            before.len() == n,
            forall|j: int|
                #![trigger bytes@[j]]
                0 <= j < n ==> bytes@[j] == (if offset <= j < offset + c {
                    with_mixed_bytes(before, offset as int, colour@, a as int)[j]
                } else {
                    before[j]
                }),
        decreases colour@.len() - c,
    {
        let old_value: u32 = bytes[offset + c] as u32;
        let new_value: u32 = colour[c] as u32;
        let wf: u32 = a as u32;
        proof {
            assert(0 <= old_value * (256 - wf) <= 255 * (256 - wf) && 0 <= new_value * wf <= 255
                * wf) by (nonlinear_arith)
                requires
                    0 <= old_value <= 255,
                    0 <= new_value <= 255,
                    0 <= wf <= 255,
            ;
        }
        bytes[offset + c] = ((old_value * (256 - wf) + new_value * wf) / 256) as u8;
        c = c + 1;
    }
    proof {
        let after = bytes@;
        assert(after =~= with_mixed_bytes(before, offset as int, colour@, a as int));
    }
}

/// Draws a glyph on a buffer with as many bytes to the pixel as `colour` has, turned about the anchor.
pub fn draw_glyph_bytes(
    pixels: &mut [u8],
    width: u32,
    glyph: &GlyphImage,
    colour: &Vec<u8>,
    anchor_x: Coord,
    anchor_y: Coord,
    rotation: u16,
)
    requires
        glyph.wf(),
        coord::in_range(anchor_x as int),
        coord::in_range(anchor_y as int),
        forall|k: int|
            0 <= k < glyph.coverage@.len() && #[trigger] glyph.coverage@[k] > 0 ==> cell_fits(
                glyph,
                k,
                width as int,
                colour@.len() as int,
                old(pixels)@.len() as int,
                anchor_x as int,
                anchor_y as int,
                rotation,
            ),
    ensures
        final(pixels)@ == with_glyph_bytes(
            old(pixels)@,
            width as int,
            glyph,
            colour@,
            anchor_x as int,
            anchor_y as int,
            rotation,
            glyph.coverage@.len() as int,
        ),
{
    let ghost before = pixels@;
    let len: usize = pixels.len();
    let cells: usize = glyph.coverage.len();
    let channels: usize = colour.len();
    let mut k: usize = 0;
    while k < cells
        invariant
            0 <= k <= cells,
            cells == glyph.coverage@.len(),
            channels == colour@.len(),
            pixels@.len() == len,
            glyph.wf(),
            coord::in_range(anchor_x as int),
            coord::in_range(anchor_y as int),
            forall|k: int|
                0 <= k < glyph.coverage@.len() && #[trigger] glyph.coverage@[k] > 0 ==> cell_fits(
                    glyph,
                    k,
                    width as int,
                    colour@.len() as int,
                    len as int,
                    anchor_x as int,
                    anchor_y as int,
                    rotation,
                ),
            pixels@ == with_glyph_bytes(
                before,
                width as int,
                glyph,
                colour@,
                anchor_x as int,
                anchor_y as int,
                rotation,
                k as int,
            ),
        decreases cells - k,
    {
        let a: u8 = glyph.coverage[k];
        if a > 0 && channels > 0 {
            proof {
                lemma_cell_of(k as int, glyph.w as int, glyph.h as int);
            }
            let cx: usize = k % glyph.w;
            let cy: usize = k / glyph.w;
            let (fx, fy) = rotate_cell(
                (glyph.x as i64 + cx as i64) as i32,
                (glyph.y as i64 + cy as i64) as i32,
                anchor_x,
                anchor_y,
                rotation,
            );
            proof {
                assert(cell_fits(
                    glyph,
                    k as int,
                    width as int,
                    colour@.len() as int,
                    len as int,
                    anchor_x as int,
                    anchor_y as int,
                    rotation,
                ));
                lemma_offset_parts(fx as int, fy as int, width as int, channels as int, len as int);
            }
            let place: usize = if width == 0 {
                fx as usize
            } else {
                fy as usize * width as usize + fx as usize
            };
            mix_bytes(pixels, place * channels, colour, a);
        } else {
            proof {
                if a > 0 {
                    let at = cell_offset(
                        glyph,
                        k as int,
                        width as int,
                        colour@.len() as int,
                        anchor_x as int,
                        anchor_y as int,
                        rotation,
                    );
                    assert(with_mixed_bytes(pixels@, at, colour@, a as int) =~= pixels@);
                }
            }
        }
        k = k + 1;
    }
}

/// The column and row of cell `k` of a glyph.
pub proof fn lemma_cell_of(k: int, w: int, h: int)
    requires
        0 <= k < w * h,
        w >= 0,
        h >= 0,
    ensures
        w > 0,
        0 <= k % w < w,
        0 <= k / w < h,
{
    assert(w > 0) by (nonlinear_arith)
        requires
            0 <= k < w * h,
            w >= 0,
            h >= 0,
    ;
    vstd::arithmetic::div_mod::lemma_fundamental_div_mod(k, w);
    assert(k / w < h) by (nonlinear_arith)
        requires
            k == w * (k / w) + k % w,
            0 <= k % w,
            k < w * h,
            w > 0,
    ;
}

/// Each step to the byte offset of a pixel stays below the buffer's length.
proof fn lemma_offset_parts(x: int, y: int, w: int, channels: int, len: int)
    requires
        x >= 0,
        y >= 0,
        w >= 0,
        channels > 0,
        (y * w + x) * channels + channels <= len,
    ensures
        0 <= y * w + x <= len,
        0 <= y * w,
        w > 0 ==> y <= len,
        x <= len,
        (y * w + x) * channels <= len,
        w == 0 ==> y * w == 0,
{
    assert(0 <= y * w) by (nonlinear_arith)
        requires
            y >= 0,
            w >= 0,
    ;
    let p = y * w + x;
    assert(p <= p * channels) by (nonlinear_arith)
        requires
            p >= 0,
            channels > 0,
    ;
    if w > 0 {
        assert(y <= y * w) by (nonlinear_arith)
            requires
                y >= 0,
                w > 0,
        ;
    }
    if w == 0 {
        assert(y * 0 == 0);
    }
}

/// How text stands to its anchor point.
#[derive(Clone, Copy, Debug, PartialEq, Eq, Structural)]
pub enum Alignment {
    Center,
    Left,
    Right,
}

/// The corner of a text box that stands to its anchor as asked; the box is centred on the anchor's row.
pub open spec fn aligned(alignment: Alignment, ax: int, ay: int, w: int, h: int) -> (int, int) {
    (
        ax - (match alignment {
            Alignment::Center => coord::truncated(w, 2),
            Alignment::Left => 0,
            Alignment::Right => w,
        }),
        ay - coord::truncated(h, 2),
    )
}

/// The corner of a text box that stands to its anchor as asked; the box is centred on the anchor's row.
pub fn text_offset(
    alignment: Alignment,
    anchor_x: Coord,
    anchor_y: Coord,
    text_width: Coord,
    text_height: Coord,
) -> (p: (Coord, Coord))
    requires
        coord::in_range(anchor_x as int),
        coord::in_range(anchor_y as int),
        coord::in_range(text_width as int),
        coord::in_range(text_height as int),
    ensures
        (p.0 as int, p.1 as int) == aligned(
            alignment,
            anchor_x as int,
            anchor_y as int,
            text_width as int,
            text_height as int,
        ),
{
    let x: Coord = match alignment {
        Alignment::Center => anchor_x - coord::half(text_width),
        Alignment::Left => anchor_x,
        Alignment::Right => anchor_x - text_width,
    };
    (x, anchor_y - coord::half(text_height))
}

/// Turning by 0 degrees leaves a cell where it is.
pub proof fn law_no_rotation_keeps_cells(x: int, y: int, ax: int, ay: int)
    ensures
        rotated(x, y, ax, ay, 0) == (x, y),
{
    assert(coord::truncated(x * PX, PX as int) == x);
    assert(coord::truncated(y * PX, PX as int) == y);
}

/// Taking a glyph away undoes adding it, and adding it undoes taking it away.
pub proof fn law_additive_text_is_reversible(
    pixels: Seq<u32>,
    w: int,
    glyph: &GlyphImage,
    colour: u32,
    add_mode: bool,
)
    ensures
        with_additive(
            with_additive(pixels, w, glyph, colour, add_mode),
            w,
            glyph,
            colour,
            !add_mode,
        ) == pixels,
{
    let there = with_additive(pixels, w, glyph, colour, add_mode);
    let back = with_additive(there, w, glyph, colour, !add_mode);
    assert forall|i: int| 0 <= i < pixels.len() implies back[i] == pixels[i] by {
        let a = glyph.at(canvas::col_of(i, w), canvas::row_of(i, w));
        let c = contribution(colour, a);
        let p = pixels[i];
        assert(p.wrapping_add(c).wrapping_sub(c) == p);
        assert(p.wrapping_sub(c).wrapping_add(c) == p);
    }
    assert(back =~= pixels);
}

/// A text box stands to its anchor as its alignment says: it starts there, ends there, or has as much of
/// its width on either side; its height lies half above and half below. Halves are rounded.
pub proof fn law_text_stands_to_its_anchor(ax: int, ay: int, w: int, h: int)
    requires
        w >= 0,
        h >= 0,
    ensures
        aligned(Alignment::Left, ax, ay, w, h).0 == ax,
        aligned(Alignment::Right, ax, ay, w, h).0 + w == ax,
        ({
            let x = aligned(Alignment::Center, ax, ay, w, h).0;
            -1 <= (ax - x) - (x + w - ax) <= 1
        }),
        forall|a: Alignment|
            ({
                let y = (#[trigger] aligned(a, ax, ay, w, h)).1;
                -1 <= (ay - y) - (y + h - ay) <= 1
            }),
{
}

/// A glyph puts ink where its bitmap has coverage and nowhere else: cell `(cx, cy)` of it lands as far
/// right and down of its corner. There each channel becomes the coverage's parts of the colour and
/// the other parts, of 255, of what was there, in parts of 256; a full mask takes nothing off but a
/// rounding. Outside its bitmap and outside the clip nothing changes.
pub proof fn law_glyph_inks_its_cells(
    p: u32,
    w: int,
    glyph: &GlyphImage,
    colour: u32,
    c: Clip,
    x: int,
    y: int,
)
    requires
        glyph.wf(),
        0 <= x < w,
        0 <= y,
    ensures
        ({
            let q = glyph_px(p, y * w + x, w, glyph, colour, c, None);
            let cx = x - glyph.x;
            let cy = y - glyph.y;
            let inside = 0 <= cx < glyph.w && 0 <= cy < glyph.h && c.x_start <= x < c.x_end
                && c.y_start <= y < c.y_end;
            let a = glyph.coverage@[cy * glyph.w + cx] as int;
            &&& !inside || a == 0 ==> q == p
            &&& inside && a > 0 ==> swar::blends(
                pixel::red(q),
                pixel::red(p),
                pixel::red(colour),
                255 - a,
                a,
            ) && swar::blends(
                pixel::green(q),
                pixel::green(p),
                pixel::green(colour),
                255 - a,
                a,
            ) && swar::blends(
                pixel::blue(q),
                pixel::blue(p),
                pixel::blue(colour),
                255 - a,
                a,
            ) && swar::blends(
                pixel::alpha(q),
                pixel::alpha(p),
                pixel::alpha(colour),
                255 - a,
                a,
            )
        }),
{
    canvas::lemma_cell(x, y, w);
    if glyph.covers(x, y) {
        let a = glyph.at(x, y);
        swar::law_weighted_mix_blends_channels(p, colour, 255 - a, a);
    }
}

/// A mask takes coverage off in parts of 256: none is left where it is 0, and never more than there
/// was.
pub proof fn law_mask_takes_coverage_off(coverage: int, m: u8)
    requires
        0 <= coverage <= 255,
    ensures
        256 * glyph_weight(coverage, Some(m)) <= coverage * m < 256 * glyph_weight(
            coverage,
            Some(m),
        ) + 256,
        0 <= glyph_weight(coverage, Some(m)) <= coverage,
        m == 0 ==> glyph_weight(coverage, Some(m)) == 0,
        glyph_weight(coverage, None) == coverage,
{
    assert(0 <= coverage * m <= coverage * 255) by (nonlinear_arith)
        requires
            0 <= coverage,
            0 <= m <= 255,
    ;
    assert(m == 0 ==> coverage * m == 0) by (nonlinear_arith);
}

/// What a glyph adds to a pixel is its colour by its coverage, in parts of 256, and no opacity; it is
/// added to the pixel as it is, or taken from it.
pub proof fn law_added_glyph_is_its_colour(p: u32, colour: u32, a: int)
    requires
        0 <= a <= 255,
    ensures
        ({
            let c = contribution(colour, a);
            &&& pixel::alpha(c) == 0
            &&& 256 * pixel::red(c) <= pixel::red(colour) * a < 256 * pixel::red(c) + 256
            &&& 256 * pixel::green(c) <= pixel::green(colour) * a < 256 * pixel::green(c) + 256
            &&& 256 * pixel::blue(c) <= pixel::blue(colour) * a < 256 * pixel::blue(c) + 256
            &&& (toggled(p, c, true) - p - c) % 0x1_0000_0000 == 0
            &&& (p - toggled(p, c, false) - c) % 0x1_0000_0000 == 0
        }),
{
    pixel::lemma_channels(colour);
    pixel::lemma_scaled(pixel::red(colour), a, 255);
    pixel::lemma_scaled(pixel::green(colour), a, 255);
    pixel::lemma_scaled(pixel::blue(colour), a, 255);
    pixel::lemma_argb(
        0,
        (pixel::red(colour) * a) / 256,
        (pixel::green(colour) * a) / 256,
        (pixel::blue(colour) * a) / 256,
    );
}

/// Text turns about its anchor by right angles: a quarter turn takes a cell right of the anchor to one
/// as far above it, two quarter turns make a half turn, and a quarter turn and three quarters lead
/// back. The anchor is at the corner of a cell here.
pub proof fn law_quarter_turns_add_up(x: int, y: int, cx: int, cy: int)
    ensures
        ({
            let ax = cx * PX;
            let ay = cy * PX;
            let quarter = rotated(x, y, ax, ay, 90);
            let half = rotated(x, y, ax, ay, 180);
            let three = rotated(x, y, ax, ay, 270);
            &&& quarter.0 - cx == y - cy && cy - quarter.1 == x - cx
            &&& rotated(quarter.0, quarter.1, ax, ay, 90) == half
            &&& rotated(half.0, half.1, ax, ay, 90) == three
            &&& rotated(three.0, three.1, ax, ay, 90) == (x, y)
            &&& rotated(half.0, half.1, ax, ay, 180) == (x, y)
            &&& rotated(three.0, three.1, ax, ay, 270) == half
        }),
{
    lemma_turned_cell(x, y, cx, cy);
    let ax = cx * PX;
    let ay = cy * PX;
    let quarter = rotated(x, y, ax, ay, 90);
    let half = rotated(x, y, ax, ay, 180);
    let three = rotated(x, y, ax, ay, 270);
    lemma_turned_cell(quarter.0, quarter.1, cx, cy);
    lemma_turned_cell(half.0, half.1, cx, cy);
    lemma_turned_cell(three.0, three.1, cx, cy);
}

/// Where a cell goes when it is turned about the corner of another.
proof fn lemma_turned_cell(x: int, y: int, cx: int, cy: int)
    ensures
        rotated(x, y, cx * PX, cy * PX, 90) == (cx + (y - cy), cy - (x - cx)),
        rotated(x, y, cx * PX, cy * PX, 180) == (cx - (x - cx), cy - (y - cy)),
        rotated(x, y, cx * PX, cy * PX, 270) == (cx - (y - cy), cy + (x - cx)),
{
    assert(coord::truncated((cx + (y - cy)) * PX, PX as int) == cx + (y - cy));
    assert(coord::truncated((cy - (x - cx)) * PX, PX as int) == cy - (x - cx));
    assert(coord::truncated((cx - (x - cx)) * PX, PX as int) == cx - (x - cx));
    assert(coord::truncated((cy - (y - cy)) * PX, PX as int) == cy - (y - cy));
    assert(coord::truncated((cx - (y - cy)) * PX, PX as int) == cx - (y - cy));
    assert(coord::truncated((cy + (x - cx)) * PX, PX as int) == cy + (x - cx));
}

/// A masked glyph changes the three colour bytes of the pixels that it and the mask cover, and never
/// the fourth: byte `c` of the pixel at column `x` of row `y` grows, or shrinks, by the colour's byte
/// in parts of 256 of what the mask leaves of the coverage.
pub proof fn law_masked_bytes_take_the_colour(
    p: u8,
    w: int,
    h: int,
    glyph: &GlyphImage,
    colour: Seq<u8>,
    mask: &BoxMask,
    add_mode: bool,
    x: int,
    y: int,
    c: int,
)
    requires
        glyph.wf(),
        0 <= x < w,
        0 <= y < h,
        0 <= c < 4,
    ensures
        ({
            let q = additive_byte(p, 4 * (y * w + x) + c, w, h, glyph, colour, mask, add_mode);
            let a = (glyph.at(x, y) * mask.at(x, y)) / 256;
            let v = (colour[c] * a) / 256;
            &&& c == 3 || glyph.at(x, y) == 0 || mask.at(x, y) == 0 ==> q == p
            &&& c < 3 && glyph.at(x, y) > 0 && mask.at(x, y) > 0 ==> {
                &&& 0 <= v <= colour[c]
                &&& add_mode ==> q == (if p + v > 255 {
                    p + v - 256
                } else {
                    p + v
                })
                &&& !add_mode ==> q == (if p < v {
                    p - v + 256
                } else {
                    p - v
                })
            }
        }),
{
    let j = 4 * (y * w + x) + c;
    assert(j == y * (4 * w) + (4 * x + c)) by (nonlinear_arith)
        requires
            j == 4 * (y * w + x) + c,
    ;
    canvas::lemma_cell(4 * x + c, y, 4 * w);
    if c < 3 && glyph.at(x, y) > 0 && mask.at(x, y) > 0 {
        let g = glyph.at(x, y);
        let m = mask.at(x, y);
        assert(0 <= g * m <= 255 * 256) by (nonlinear_arith)
            requires
                0 <= g <= 255,
                0 <= m <= 255,
        ;
        let a = (g * m) / 256;
        pixel::lemma_scaled(colour[c] as int, a, colour[c] as int);
    }
}

/// Drawing on bytes mixes: where a cell has coverage `a`, each byte of its pixel becomes `a` parts of
/// 256 of the colour and the other parts of what was there, rounded down; other bytes stay.
pub proof fn law_bytes_are_mixed_by_coverage(
    bytes: Seq<u8>,
    offset: int,
    colour: Seq<u8>,
    a: int,
    j: int,
)
    requires
        0 <= j < bytes.len(),
        0 <= a <= 255,
    ensures
        ({
            let q = with_mixed_bytes(bytes, offset, colour, a)[j] as int;
            if offset <= j < offset + colour.len() {
                let mix = bytes[j] * 256 + (colour[j - offset] - bytes[j]) * a;
                256 * q <= mix < 256 * q + 256
            } else {
                q == bytes[j]
            }
        }),
{
    if offset <= j < offset + colour.len() {
        let p = bytes[j] as int;
        let c = colour[j - offset] as int;
        assert(p * (256 - a) + c * a == p * 256 + (c - p) * a && 0 <= p * (256 - a) + c * a
            <= 255 * 256) by (nonlinear_arith)
            requires
                0 <= a <= 255,
                0 <= p <= 255,
                0 <= c <= 255,
        ;
    }
}

/// A glyph that is drawn on bytes unturned lands at its place: the bytes of the pixel that its cell
/// `(cx, cy)` lies on are mixed by the coverage of that cell, and no others change. The columns of the
/// glyph lie in the buffer.
pub proof fn law_glyph_bytes_land_at_their_place(
    bytes: Seq<u8>,
    w: int,
    glyph: &GlyphImage,
    colour: Seq<u8>,
    ax: int,
    ay: int,
    n: int,
    x: int,
    y: int,
    c: int,
)
    requires
        0 < glyph.w,
        0 <= n <= glyph.coverage@.len(),
        0 <= glyph.x,
        0 <= glyph.y,
        glyph.x + glyph.w <= w,
        0 <= x < w,
        0 <= y,
        0 <= c < colour.len(),
        0 <= (y * w + x) * colour.len() + c < bytes.len(),
    ensures
        ({
            let j = (y * w + x) * colour.len() + c;
            let q = with_glyph_bytes(bytes, w, glyph, colour, ax, ay, 0, n)[j];
            let k = (y - glyph.y) * glyph.w + (x - glyph.x);
            &&& with_glyph_bytes(bytes, w, glyph, colour, ax, ay, 0, n).len() == bytes.len()
            &&& if glyph.x <= x < glyph.x + glyph.w && glyph.y <= y && k < n {
                let a = glyph.coverage@[k] as int;
                256 * q <= bytes[j] * 256 + (colour[c] - bytes[j]) * a < 256 * q + 256
            } else {
                q == bytes[j]
            }
        }),
    decreases n,
{
    let j = (y * w + x) * colour.len() + c;
    let m = colour.len() as int;
    let k = (y - glyph.y) * glyph.w + (x - glyph.x);
    if n > 0 {
        law_glyph_bytes_land_at_their_place(bytes, w, glyph, colour, ax, ay, n - 1, x, y, c);
        let before = with_glyph_bytes(bytes, w, glyph, colour, ax, ay, 0, n - 1);
        let gw = glyph.w as int;
        let px = glyph.x + (n - 1) % gw;
        let py = glyph.y + (n - 1) / gw;
        vstd::arithmetic::div_mod::lemma_fundamental_div_mod(n - 1, gw);
        vstd::arithmetic::div_mod::lemma_mod_bound(n - 1, gw);
        vstd::arithmetic::div_mod::lemma_div_pos_is_pos(n - 1, gw);
        law_no_rotation_keeps_cells(px, py, ax, ay);
        let offset = cell_offset(glyph, n - 1, w, m, ax, ay, 0);
        assert(offset == (py * w + px) * m);
        let here = px == x && py == y;
        if here {
            assert(k == n - 1) by (nonlinear_arith)
                requires
                    n - 1 == gw * ((n - 1) / gw) + (n - 1) % gw,
                    px == glyph.x + (n - 1) % gw,
                    py == glyph.y + (n - 1) / gw,
                    px == x,
                    py == y,
                    gw == glyph.w as int,
                    k == (y - glyph.y) * glyph.w + (x - glyph.x),
            ;
            let a = glyph.coverage@[k] as int;
            if a > 0 {
                law_bytes_are_mixed_by_coverage(before, offset, colour, a, j);
            } else {
                assert((colour[c] - bytes[j]) * a == 0) by (nonlinear_arith)
                    requires
                        a == 0,
                ;
            }
        } else {
            let d = (y * w + x) - (py * w + px);
            assert(d != 0) by {
                if d == 0 {
                    vstd::arithmetic::div_mod::lemma_fundamental_div_mod_converse(
                        y * w + x,
                        w,
                        y,
                        x,
                    );
                    vstd::arithmetic::div_mod::lemma_fundamental_div_mod_converse(
                        py * w + px,
                        w,
                        py,
                        px,
                    );
                }
            }
            assert((y * w + x) * m - (py * w + px) * m == d * m) by (nonlinear_arith)
                requires
                    d == (y * w + x) - (py * w + px),
            ;
            assert(d * m >= m || d * m <= -m) by (nonlinear_arith)
                requires
                    d != 0,
                    m > 0,
            ;
            if glyph.x <= x < glyph.x + glyph.w && glyph.y <= y && k == n - 1 {
                vstd::arithmetic::div_mod::lemma_fundamental_div_mod_converse(
                    n - 1,
                    gw,
                    y - glyph.y,
                    x - glyph.x,
                );
            }
        }
    }
}

} // verus!
