//! The viewport: how relative units map to pixels.
use crate::coord::{self, RuVec2, RU_ONE};
use vstd::prelude::*;

verus! {

/// The largest scale of a viewport, in pixels per relative unit: with it, any coordinate can be scaled
/// in 128 bits.
pub const MAX_SCALE: i128 = 0x3FFF_FFFF_FFFF_FFFF;

/// A viewport in pixels with its zoom, in relative units.
#[derive(Clone, Copy, Debug, PartialEq, Eq, Structural)]
pub struct Viewport {
    pub width_px: u32,
    pub height_px: u32,
    pub ru: i64,
}

/// The harmonic mean of width and height, `2wh / (w + h)`, with 16 fractional bits.
pub open spec fn span_of(w: int, h: int) -> int {
    if w + h == 0 {
        0
    } else {
        (2 * (w * h) * 0x1_0000) / (w + h)
    }
}

/// `v` limited to the range of `isize`.
pub open spec fn to_isize(v: int) -> int {
    if v < isize::MIN {
        isize::MIN as int
    } else if v > isize::MAX {
        isize::MAX as int
    } else {
        v
    }
}

impl Viewport {
    /// The scale is not beyond the largest, to either side.
    pub open spec fn wf(self) -> bool {
        -MAX_SCALE <= self.scale() <= MAX_SCALE
    }

    /// Pixels per relative unit, with 16 fractional bits. A negative zoom turns both axes round.
    pub open spec fn scale(self) -> int {
        coord::truncated(
            span_of(self.width_px as int, self.height_px as int) * self.ru,
            RU_ONE as int,
        )
    }

    /// A length in pixels, the fraction dropped.
    pub open spec fn length_px(self, d: int) -> int {
        to_isize(coord::truncated(d * self.scale(), 0x1_0000_0000_0000))
    }

    /// A place on an axis of `side` pixels, counted from its middle, in pixels.
    pub open spec fn place_px(self, side: int, d: int) -> int {
        to_isize(
            coord::truncated(side * 0x8000_0000_0000 + d * self.scale(), 0x1_0000_0000_0000),
        )
    }

    /// A viewport with zoom 1.
    pub fn new(width_px: u32, height_px: u32) -> (v: Viewport)
        ensures
            v == (Viewport { width_px, height_px, ru: RU_ONE }),
            v.wf(),
    {
        proof {
            lemma_span(width_px as int, height_px as int);
        }
        Viewport { width_px, height_px, ru: RU_ONE }
    }

    /// The viewport with another zoom.
    pub fn with_ru(self, ru: i64) -> (v: Viewport)
        ensures
            v == (Viewport { width_px: self.width_px, height_px: self.height_px, ru }),
    {
        Viewport { width_px: self.width_px, height_px: self.height_px, ru }
    }

    /// Pixels per relative unit.
    fn scale_of(self) -> (s: i128)
        requires
            self.wf(),
        ensures
            s as int == self.scale(),
    {
        let w: u128 = self.width_px as u128;
        let h: u128 = self.height_px as u128;
        proof {
            lemma_span(w as int, h as int);
            assert(0 <= w * h <= 0xFFFF_FFFE_0000_0001) by (nonlinear_arith)
                requires
                    0 <= w <= 0xFFFF_FFFF,
                    0 <= h <= 0xFFFF_FFFF,
            ;
        }
        let span: u128 = if w + h == 0 {
            0
        } else {
            (2 * (w * h) * 0x1_0000) / (w + h)
        };
        let ru: i128 = self.ru as i128;
        proof {
            assert(-0x1_0000_0000_0000 * 0x8000_0000_0000_0000 <= span * ru <= 0x1_0000_0000_0000
                * 0x8000_0000_0000_0000) by (nonlinear_arith)
                requires
                    0 <= span <= 0x1_0000_0000_0000,
                    -0x8000_0000_0000_0000 <= ru <= 0x8000_0000_0000_0000,
            ;
        }
        coord::truncate(span as i128 * ru, 0x1_0000_0000)
    }

    /// A length in pixels.
    pub fn ru_to_px_d(self, d: i64) -> (p: isize)
        requires
            self.wf(),
        ensures
            p as int == self.length_px(d as int),
    {
        let s: i128 = self.scale_of();
        proof {
            lemma_scaled_bound(d as int, s as int);
        }
        let product: i128 = (d as i128) * s;
        saturate(coord::truncate(product, 0x1_0000_0000_0000))
    }

    /// A point in pixels, counted from the top left corner.
    pub fn ru_to_px(self, v: RuVec2) -> (p: (isize, isize))
        requires
            self.wf(),
        ensures
            p.0 as int == self.place_px(self.width_px as int, v.x as int),
            p.1 as int == self.place_px(self.height_px as int, v.y as int),
    {
        let s: i128 = self.scale_of();
        proof {
            lemma_scaled_bound(v.x as int, s as int);
            lemma_scaled_bound(v.y as int, s as int);
        }
        let x: i128 = (self.width_px as i128) * 0x8000_0000_0000 + (v.x as i128) * s;
        let y: i128 = (self.height_px as i128) * 0x8000_0000_0000 + (v.y as i128) * s;
        (
            saturate(coord::truncate(x, 0x1_0000_0000_0000)),
            saturate(coord::truncate(y, 0x1_0000_0000_0000)),
        )
    }
}

/// The span is at most the longer side.
proof fn lemma_span(w: int, h: int)
    requires
        0 <= w <= 0xFFFF_FFFF,
        0 <= h <= 0xFFFF_FFFF,
    ensures
        0 <= span_of(w, h) <= 0x1_0000_0000_0000,
{
    if w + h > 0 {
        let n = 2 * (w * h) * 0x1_0000;
        let d = w + h;
        assert(0 <= n <= 0x1_0000_0000_0000 * d) by (nonlinear_arith)
            requires
                n == 2 * (w * h) * 0x1_0000,
                d == w + h,
                0 <= w <= 0xFFFF_FFFF,
                0 <= h <= 0xFFFF_FFFF,
        ;
        assert(0 <= n / d <= 0x1_0000_0000_0000) by (nonlinear_arith)
            requires
                0 <= n <= 0x1_0000_0000_0000 * d,
                d > 0,
        ;
    }
}

/// A coordinate times a scale fits.
proof fn lemma_scaled_bound(d: int, s: int)
    requires
        i64::MIN <= d <= i64::MAX,
        -MAX_SCALE <= s <= MAX_SCALE,
    ensures
        -0x2000_0000_0000_0000_0000_0000_0000_0000 <= d * s
            <= 0x2000_0000_0000_0000_0000_0000_0000_0000,
{
    assert(-0x2000_0000_0000_0000_0000_0000_0000_0000 <= d * s
        <= 0x2000_0000_0000_0000_0000_0000_0000_0000) by (nonlinear_arith)
        requires
            -0x8000_0000_0000_0000 <= d <= 0x7FFF_FFFF_FFFF_FFFF,
            -0x3FFF_FFFF_FFFF_FFFF <= s <= 0x3FFF_FFFF_FFFF_FFFF,
    ;
}

/// `v` limited to the range of `isize`.
fn saturate(v: i128) -> (r: isize)
    ensures
        r as int == to_isize(v as int),
{
    if v < isize::MIN as i128 {
        isize::MIN
    } else if v > isize::MAX as i128 {
        isize::MAX
    } else {
        v as isize
    }
}

/// The origin is the centre of the viewport, whatever its size and its zoom.
pub proof fn law_origin_is_the_centre(v: Viewport)
    ensures
        v.place_px(v.width_px as int, 0) == v.width_px as int / 2,
        v.place_px(v.height_px as int, 0) == v.height_px as int / 2,
{
    assert(0 * v.scale() == 0);
}

/// Turning the viewport from landscape to portrait keeps the unit.
pub proof fn law_span_is_symmetric(w: int, h: int)
    ensures
        span_of(w, h) == span_of(h, w),
{
    assert(w * h == h * w) by (nonlinear_arith);
}

/// On a square viewport the unit is its side.
pub proof fn law_span_of_a_square(w: int)
    requires
        w > 0,
    ensures
        span_of(w, w) == w * 0x1_0000,
{
    assert(2 * (w * w) * 0x1_0000 == (w * 0x1_0000) * (w + w)) by (nonlinear_arith);
    vstd::arithmetic::div_mod::lemma_div_by_multiple(w * 0x1_0000, w + w);
}

/// The unit lies between the sides, and within twice the shorter one: it follows what is scarce.
pub proof fn law_span_favours_the_shorter_side(w: int, h: int)
    requires
        0 < w <= h,
    ensures
        w * 0x1_0000 <= span_of(w, h) <= h * 0x1_0000,
        span_of(w, h) <= 2 * w * 0x1_0000,
{
    let n = 2 * (w * h) * 0x1_0000;
    let d = w + h;
    assert((w * 0x1_0000) * d <= n && n <= (h * 0x1_0000) * d && n <= (2 * w * 0x1_0000) * d)
        by (nonlinear_arith)
        requires
            0 < w <= h,
            n == 2 * (w * h) * 0x1_0000,
            d == w + h,
    ;
    assert(w * 0x1_0000 <= n / d) by (nonlinear_arith)
        requires
            (w * 0x1_0000) * d <= n,
            d > 0,
    ;
    assert(n / d <= h * 0x1_0000) by (nonlinear_arith)
        requires
            n <= (h * 0x1_0000) * d,
            d > 0,
    ;
    assert(n / d <= 2 * w * 0x1_0000) by (nonlinear_arith)
        requires
            n <= (2 * w * 0x1_0000) * d,
            d > 0,
    ;
}

/// At zoom 1 a relative unit is as many pixels as the harmonic mean of the sides, and so are all
/// multiples of it.
pub proof fn law_unit_is_the_harmonic_mean(w: u32, h: u32, k: int)
    requires
        -0x4000_0000 <= k * span_of(w as int, h as int) / 0x1_0000 < 0x4000_0000,
        k >= 0,
    ensures
        ({
            let v = Viewport { width_px: w, height_px: h, ru: RU_ONE };
            let p = v.length_px(k * RU_ONE);
            &&& p * (w + h) <= k * (2 * (w * h))
            &&& p == k * span_of(w as int, h as int) / 0x1_0000
            &&& v.length_px(-(k * RU_ONE)) == -p
        }),
{
    let span = span_of(w as int, h as int);
    let v = Viewport { width_px: w, height_px: h, ru: RU_ONE };
    lemma_span(w as int, h as int);
    assert(span * RU_ONE >= 0) by (nonlinear_arith)
        requires
            span >= 0,
    ;
    assert((span * RU_ONE) / (RU_ONE as int) == span) by (nonlinear_arith);
    assert(v.scale() == span);
    let q = k * span;
    assert(q >= 0) by (nonlinear_arith)
        requires
            q == k * span,
            k >= 0,
            span >= 0,
    ;
    assert((k * RU_ONE) * span == q * 0x1_0000_0000) by (nonlinear_arith)
        requires
            q == k * span,
    ;
    assert((-(k * RU_ONE)) * span == -(q * 0x1_0000_0000)) by (nonlinear_arith)
        requires
            q == k * span,
    ;
    assert((q * 0x1_0000_0000) / 0x1_0000_0000_0000 == q / 0x1_0000);
    let p = q / 0x1_0000;
    let n = 2 * (w * h) * 0x1_0000;
    let d = w + h;
    if d > 0 {
        vstd::arithmetic::div_mod::lemma_fundamental_div_mod(n, d as int);
        vstd::arithmetic::div_mod::lemma_mod_bound(n, d as int);
        assert(span * d <= n) by (nonlinear_arith)
            requires
                n == d * span + n % (d as int),
                n % (d as int) >= 0,
        ;
        assert(0x1_0000 * (p * d) <= k * n) by (nonlinear_arith)
            requires
                p * 0x1_0000 <= q,
                q == k * span,
                span * d <= n,
                k >= 0,
                d > 0,
        ;
        assert(k * n == 0x1_0000 * (k * (2 * (w * h)))) by (nonlinear_arith)
            requires
                n == 2 * (w * h) * 0x1_0000,
        ;
    } else {
        assert(p * d == 0 && k * (2 * (w * h)) == 0) by (nonlinear_arith)
            requires
                d == 0,
                w == 0,
        ;
    }
}

/// Zooming in `z` times draws a length as a length `z` times as long was drawn before.
pub proof fn law_zoom_multiplies_lengths(w: u32, h: u32, z: int, d: int)
    requires
        i64::MIN <= z * RU_ONE <= i64::MAX,
    ensures
        (Viewport { width_px: w, height_px: h, ru: (z * RU_ONE) as i64 }).length_px(d) == (Viewport {
            width_px: w,
            height_px: h,
            ru: RU_ONE,
        }).length_px(z * d),
{
    let span = span_of(w as int, h as int);
    lemma_span(w as int, h as int);
    let zoomed = Viewport { width_px: w, height_px: h, ru: (z * RU_ONE) as i64 };
    let plain = Viewport { width_px: w, height_px: h, ru: RU_ONE };
    let q = span * z;
    assert(span * (z * RU_ONE) == q * 0x1_0000_0000) by (nonlinear_arith)
        requires
            q == span * z,
    ;
    assert(span * RU_ONE == span * 0x1_0000_0000);
    assert((q * 0x1_0000_0000) / 0x1_0000_0000 == q);
    assert((-(q * 0x1_0000_0000)) / 0x1_0000_0000 == -q);
    assert(zoomed.scale() == q);
    assert(plain.scale() == span);
    assert(d * (span * z) == (z * d) * span) by (nonlinear_arith);
}

/// A place is as far from the middle of its axis as its length says, give or take a pixel for the
/// dropped fractions: to the right and down for positive coordinates.
pub proof fn law_place_is_its_length_from_the_centre(v: Viewport, side: u32, d: int)
    requires
        isize::MIN < v.place_px(side as int, d) < isize::MAX,
        isize::MIN < v.length_px(d) < isize::MAX,
    ensures
        -1 <= v.place_px(side as int, d) - (side as int / 2 + v.length_px(d)) <= 1,
{
    coord::lemma_truncated_sum(side * 0x8000_0000_0000, d * v.scale(), 0x1_0000_0000_0000);
    assert((side * 0x8000_0000_0000) / 0x1_0000_0000_0000 == side as int / 2);
}

/// Lengths keep their order, and a length drawn the other way round is its negative.
pub proof fn law_lengths_keep_their_order(v: Viewport, a: int, b: int)
    requires
        v.scale() >= 0,
        a <= b,
        isize::MIN < v.length_px(a) < isize::MAX,
    ensures
        v.length_px(a) <= v.length_px(b),
        v.length_px(-a) == -v.length_px(a),
        v.length_px(0) == 0,
{
    assert(a * v.scale() <= b * v.scale()) by (nonlinear_arith)
        requires
            a <= b,
            v.scale() >= 0,
    ;
    assert((-a) * v.scale() == -(a * v.scale())) by (nonlinear_arith);
    assert(0 * v.scale() == 0);
    coord::lemma_truncated_order(a * v.scale(), b * v.scale(), 0x1_0000_0000_0000);
}

} // verus!
