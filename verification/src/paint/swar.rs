//! Weighted mixes of two pixels, all four channels in one 64-bit multiplication.
//!
//! A pixel is spread so that each channel has 16 bits to itself, channels are weighted and added
//! together, and the upper bytes of the four slots are gathered again.
use crate::pixel;
use vstd::prelude::*;

verus! {

/// A pixel with each channel in a 16-bit slot of its own, blue lowest.
pub open spec fn spread_of(p: u32) -> int {
    pixel::blue(p) + pixel::green(p) * 0x1_0000 + pixel::red(p) * 0x1_0000_0000 + pixel::alpha(p)
        * 0x1_0000_0000_0000
}

/// The pixel made of the upper bytes of the four slots of `x`.
pub open spec fn gathered(x: int) -> u32 {
    pixel::argb(
        (x / 0x100_0000_0000_0000) % 256,
        (x / 0x100_0000_0000) % 256,
        (x / 0x100_0000) % 256,
        (x / 0x100) % 256,
    )
}

/// The sum of both spread pixels, each times its weight.
pub open spec fn mixed_sum(bg: u32, fg: u32, wb: int, wf: int) -> int {
    spread_of(bg) * wb + spread_of(fg) * wf
}

/// One channel of a mix whose weights add up to 256.
pub open spec fn mix(b: int, f: int, a: int) -> int {
    (b * (256 - a) + f * a) / 256
}

/// All four channels of a mix: `256 - a` parts of `bg` and `a` parts of `fg`.
pub open spec fn mix_px(bg: u32, fg: u32, a: int) -> u32 {
    pixel::argb(
        mix(pixel::alpha(bg), pixel::alpha(fg), a),
        mix(pixel::red(bg), pixel::red(fg), a),
        mix(pixel::green(bg), pixel::green(fg), a),
        mix(pixel::blue(bg), pixel::blue(fg), a),
    )
}

/// One channel of a mix with weights in parts of 256.
pub open spec fn weighted(b: int, f: int, wb: int, wf: int) -> int {
    (b * wb + f * wf) / 256
}

/// All four channels of a mix: `wb` parts in 256 of `bg` and `wf` of `fg`.
pub open spec fn weighted_px(bg: u32, fg: u32, wb: int, wf: int) -> u32 {
    pixel::argb(
        weighted(pixel::alpha(bg), pixel::alpha(fg), wb, wf),
        weighted(pixel::red(bg), pixel::red(fg), wb, wf),
        weighted(pixel::green(bg), pixel::green(fg), wb, wf),
        weighted(pixel::blue(bg), pixel::blue(fg), wb, wf),
    )
}

/// Spreads the channels of a pixel.
fn spread(p: u32) -> (s: u64)
    ensures
        s as int == spread_of(p),
        s <= 0x00FF_00FF_00FF_00FF,
{
    let s0: u64 = p as u64;
    let s1: u64 = (s0 | (s0 << 16)) & 0x0000_FFFF_0000_FFFF;
    let s2: u64 = (s1 | (s1 << 8)) & 0x00FF_00FF_00FF_00FF;
    proof {
        let a: u64 = (p >> 24) as u64;
        let r: u64 = ((p >> 16) & 0xFF) as u64;
        let g: u64 = ((p >> 8) & 0xFF) as u64;
        let b: u64 = (p & 0xFF) as u64;
        assert(s2 == b + g * 0x1_0000 + r * 0x1_0000_0000 + a * 0x1_0000_0000_0000 && s2
            <= 0x00FF_00FF_00FF_00FF) by (bit_vector)
            requires
                s0 == p as u64,
                s1 == (s0 | (s0 << 16)) & 0x0000_FFFF_0000_FFFFu64,
                s2 == (s1 | (s1 << 8)) & 0x00FF_00FF_00FF_00FFu64,
                a == (p >> 24) as u64,
                r == ((p >> 16) & 0xFF) as u64,
                g == ((p >> 8) & 0xFF) as u64,
                b == (p & 0xFF) as u64,
        ;
    }
    s2
}

/// Gathers the upper bytes of the four slots.
fn gather(x: u64) -> (p: u32)
    ensures
        p == gathered(x as int),
{
    let x1: u64 = (x >> 8) & 0x00FF_00FF_00FF_00FF;
    let x2: u64 = (x1 | (x1 >> 8)) & 0x0000_FFFF_0000_FFFF;
    let x3: u64 = (x2 | (x2 >> 16)) & 0xFFFF_FFFF;
    proof {
        let a: u32 = ((x / 0x100_0000_0000_0000) % 256) as u32;
        let r: u32 = ((x / 0x100_0000_0000) % 256) as u32;
        let g: u32 = ((x / 0x100_0000) % 256) as u32;
        let b: u32 = ((x / 0x100) % 256) as u32;
        assert(x3 as u32 == ((a << 24) | (r << 16) | (g << 8) | b)) by (bit_vector)
            requires
                x1 == (x >> 8) & 0x00FF_00FF_00FF_00FFu64,
                x2 == (x1 | (x1 >> 8)) & 0x0000_FFFF_0000_FFFFu64,
                x3 == (x2 | (x2 >> 16)) & 0xFFFF_FFFFu64,
                a == ((x / 0x100_0000_0000_0000) % 256) as u32,
                r == ((x / 0x100_0000_0000) % 256) as u32,
                g == ((x / 0x100_0000) % 256) as u32,
                b == ((x / 0x100) % 256) as u32,
        ;
    }
    x3 as u32
}

/// Mixes two pixels with the given weights.
pub fn mix_weighted(bg: u32, fg: u32, wb: u64, wf: u64) -> (p: u32)
    requires
        mixed_sum(bg, fg, wb as int, wf as int) <= u64::MAX,
    ensures
        p == gathered(mixed_sum(bg, fg, wb as int, wf as int)),
{
    let b: u64 = spread(bg);
    let f: u64 = spread(fg);
    proof {
        assert(0 <= b * wb && 0 <= f * wf) by (nonlinear_arith);
    }
    gather(b * wb + f * wf)
}

/// Four slots that stay below 16 bits do not disturb each other.
proof fn lemma_gathered(s0: int, s1: int, s2: int, s3: int)
    requires
        0 <= s0 < 0x1_0000,
        0 <= s1 < 0x1_0000,
        0 <= s2 < 0x1_0000,
        0 <= s3 < 0x1_0000,
    ensures
        ({
            let x = s0 + s1 * 0x1_0000 + s2 * 0x1_0000_0000 + s3 * 0x1_0000_0000_0000;
            &&& 0 <= x <= u64::MAX
            &&& gathered(x) == pixel::argb(s3 / 256, s2 / 256, s1 / 256, s0 / 256)
        }),
{
    let x = s0 + s1 * 0x1_0000 + s2 * 0x1_0000_0000 + s3 * 0x1_0000_0000_0000;
    lemma_slot_byte(x, 0x100, s0 / 256, s1 + s2 * 0x1_0000 + s3 * 0x1_0000_0000, s0 % 256);
    lemma_slot_byte(
        x,
        0x100_0000,
        s1 / 256,
        s2 + s3 * 0x1_0000,
        s0 + (s1 % 256) * 0x1_0000,
    );
    lemma_slot_byte(
        x,
        0x100_0000_0000,
        s2 / 256,
        s3,
        s0 + s1 * 0x1_0000 + (s2 % 256) * 0x1_0000_0000,
    );
    lemma_slot_byte(
        x,
        0x100_0000_0000_0000,
        s3 / 256,
        0,
        s0 + s1 * 0x1_0000 + s2 * 0x1_0000_0000 + (s3 % 256) * 0x1_0000_0000_0000,
    );
}

/// The byte `q` above `unit`, with `hi` bytes above it and `lo` below.
proof fn lemma_slot_byte(x: int, unit: int, q: int, hi: int, lo: int)
    requires
        0 <= lo < unit,
        0 <= q < 256,
        x == (hi * 256 + q) * unit + lo,
    ensures
        (x / unit) % 256 == q,
{
    vstd::arithmetic::div_mod::lemma_fundamental_div_mod_converse(x, unit, hi * 256 + q, lo);
    vstd::arithmetic::div_mod::lemma_fundamental_div_mod_converse(hi * 256 + q, 256, hi, q);
}

/// Weights that add up to at most 256 mix every channel by itself.
pub proof fn lemma_weighted(bg: u32, fg: u32, wb: int, wf: int)
    requires
        0 <= wb,
        0 <= wf,
        wb + wf <= 256,
    ensures
        0 <= mixed_sum(bg, fg, wb, wf) <= u64::MAX,
        gathered(mixed_sum(bg, fg, wb, wf)) == weighted_px(bg, fg, wb, wf),
{
    pixel::lemma_channels(bg);
    pixel::lemma_channels(fg);
    let s0 = pixel::blue(bg) * wb + pixel::blue(fg) * wf;
    let s1 = pixel::green(bg) * wb + pixel::green(fg) * wf;
    let s2 = pixel::red(bg) * wb + pixel::red(fg) * wf;
    let s3 = pixel::alpha(bg) * wb + pixel::alpha(fg) * wf;
    lemma_slot(pixel::blue(bg), pixel::blue(fg), wb, wf);
    lemma_slot(pixel::green(bg), pixel::green(fg), wb, wf);
    lemma_slot(pixel::red(bg), pixel::red(fg), wb, wf);
    lemma_slot(pixel::alpha(bg), pixel::alpha(fg), wb, wf);
    lemma_gathered(s0, s1, s2, s3);
    lemma_distribute(bg, wb);
    lemma_distribute(fg, wf);
}

/// A slot of a mix stays below 16 bits.
proof fn lemma_slot(b: int, f: int, wb: int, wf: int)
    requires
        0 <= b <= 255,
        0 <= f <= 255,
        0 <= wb,
        0 <= wf,
        wb + wf <= 256,
    ensures
        0 <= b * wb + f * wf <= 65280,
{
    assert(0 <= b * wb <= 255 * wb) by (nonlinear_arith)
        requires
            0 <= b <= 255,
            0 <= wb,
    ;
    assert(0 <= f * wf <= 255 * wf) by (nonlinear_arith)
        requires
            0 <= f <= 255,
            0 <= wf,
    ;
}

/// Weighting a spread pixel weights each channel.
proof fn lemma_distribute(p: u32, w: int)
    ensures
        spread_of(p) * w == pixel::blue(p) * w + (pixel::green(p) * w) * 0x1_0000 + (pixel::red(p)
            * w) * 0x1_0000_0000 + (pixel::alpha(p) * w) * 0x1_0000_0000_0000,
{
    let a = pixel::alpha(p);
    let r = pixel::red(p);
    let g = pixel::green(p);
    let b = pixel::blue(p);
    assert((b + g * 0x1_0000 + r * 0x1_0000_0000 + a * 0x1_0000_0000_0000) * w == b * w + (g * w)
        * 0x1_0000 + (r * w) * 0x1_0000_0000 + (a * w) * 0x1_0000_0000_0000) by (nonlinear_arith);
}

/// Mixes two pixels: `256 - alpha` parts of `bg` and `alpha` parts of `fg`, in every channel.
pub fn blend_swar(bg: u32, fg: u32, alpha: u64) -> (p: u32)
    requires
        alpha <= 256,
    ensures
        p == mix_px(bg, fg, alpha as int),
{
    proof {
        lemma_weighted(bg, fg, 256 - alpha, alpha as int);
    }
    mix_weighted(bg, fg, 256 - alpha, alpha)
}

/// Mixes the RGB of two colours with explicit weights in parts of 256; the result is opaque. A slot
/// that grows past 16 bits carries into the next one.
pub fn blend_rgb_only(bg_colour: u32, fg_colour: u32, weight_bg: u8, weight_fg: u8) -> (p: u32)
    requires
        mixed_sum(bg_colour, fg_colour, weight_bg as int, weight_fg as int) <= u64::MAX,
    ensures
        ({
            let m = gathered(mixed_sum(bg_colour, fg_colour, weight_bg as int, weight_fg as int));
            p == pixel::argb(255, pixel::red(m), pixel::green(m), pixel::blue(m))
        }),
{
    pixel::with_alpha(
        mix_weighted(bg_colour, fg_colour, weight_bg as u64, weight_fg as u64),
        0xFF,
    )
}

/// Complementary weights mix each channel by itself: no part of a mix leaks into another channel,
/// and mixing a colour with itself gives the colour back.
pub proof fn law_complementary_mix(bg: u32, fg: u32, a: int)
    requires
        0 <= a <= 256,
    ensures
        gathered(mixed_sum(bg, fg, 256 - a, a)) == mix_px(bg, fg, a),
        mix_px(bg, bg, a) == bg,
        mix_px(bg, fg, 0) == bg,
        mix_px(bg, fg, 256) == fg,
{
    lemma_weighted(bg, fg, 256 - a, a);
    pixel::lemma_channels(bg);
    pixel::lemma_channels(fg);
    lemma_mix_same(pixel::alpha(bg), a);
    lemma_mix_same(pixel::red(bg), a);
    lemma_mix_same(pixel::green(bg), a);
    lemma_mix_same(pixel::blue(bg), a);
    assert(mix(pixel::alpha(bg), pixel::alpha(fg), 0) == pixel::alpha(bg));
    assert(mix(pixel::red(bg), pixel::red(fg), 0) == pixel::red(bg));
    assert(mix(pixel::green(bg), pixel::green(fg), 0) == pixel::green(bg));
    assert(mix(pixel::blue(bg), pixel::blue(fg), 0) == pixel::blue(bg));
    assert(mix(pixel::alpha(bg), pixel::alpha(fg), 256) == pixel::alpha(fg));
    assert(mix(pixel::red(bg), pixel::red(fg), 256) == pixel::red(fg));
    assert(mix(pixel::green(bg), pixel::green(fg), 256) == pixel::green(fg));
    assert(mix(pixel::blue(bg), pixel::blue(fg), 256) == pixel::blue(fg));
}

proof fn lemma_mix_same(b: int, a: int)
    requires
        0 <= b,
    ensures
        mix(b, b, a) == b,
{
    assert(b * (256 - a) + b * a == b * 256) by (nonlinear_arith);
}

/// A mix is the weighted average of both colours in each channel, in parts of 256 with the rest
/// dropped: it lies between the two.
pub proof fn law_mix_is_the_weighted_average(bg: u32, fg: u32, a: int)
    requires
        0 <= a <= 256,
    ensures
        ({
            let q = mix_px(bg, fg, a);
            &&& averages(pixel::alpha(q), pixel::alpha(bg), pixel::alpha(fg), a)
            &&& averages(pixel::red(q), pixel::red(bg), pixel::red(fg), a)
            &&& averages(pixel::green(q), pixel::green(bg), pixel::green(fg), a)
            &&& averages(pixel::blue(q), pixel::blue(bg), pixel::blue(fg), a)
        }),
{
    pixel::lemma_channels(bg);
    pixel::lemma_channels(fg);
    lemma_averages(pixel::alpha(bg), pixel::alpha(fg), a);
    lemma_averages(pixel::red(bg), pixel::red(fg), a);
    lemma_averages(pixel::green(bg), pixel::green(fg), a);
    lemma_averages(pixel::blue(bg), pixel::blue(fg), a);
    pixel::lemma_argb(
        mix(pixel::alpha(bg), pixel::alpha(fg), a),
        mix(pixel::red(bg), pixel::red(fg), a),
        mix(pixel::green(bg), pixel::green(fg), a),
        mix(pixel::blue(bg), pixel::blue(fg), a),
    );
}

/// `m` lies `a` parts in 256 of the way from `b` to `f`, the rest dropped.
pub open spec fn averages(m: int, b: int, f: int, a: int) -> bool {
    &&& 256 * (m - b) <= a * (f - b) < 256 * (m - b) + 256
    &&& vstd::math::min(b, f) <= m <= vstd::math::max(b, f)
}

proof fn lemma_averages(b: int, f: int, a: int)
    requires
        0 <= b <= 255,
        0 <= f <= 255,
        0 <= a <= 256,
    ensures
        averages(mix(b, f, a), b, f, a),
        0 <= mix(b, f, a) <= 255,
{
    assert(b * (256 - a) + f * a == 256 * b + a * (f - b)) by (nonlinear_arith);
    assert(f >= b ==> 0 <= a * (f - b) <= 256 * (f - b)) by (nonlinear_arith)
        requires
            0 <= a <= 256,
    ;
    assert(f <= b ==> 256 * (f - b) <= a * (f - b) <= 0) by (nonlinear_arith)
        requires
            0 <= a <= 256,
    ;
}

/// `m` is `wb` parts of `b` and `wf` parts of `f`, in parts of 256 with the rest dropped.
pub open spec fn blends(m: int, b: int, f: int, wb: int, wf: int) -> bool {
    256 * m <= b * wb + f * wf < 256 * m + 256
}

/// A weighted mix takes its parts of both colours in each channel, and nothing of another channel.
pub proof fn law_weighted_mix_blends_channels(bg: u32, fg: u32, wb: int, wf: int)
    requires
        0 <= wb,
        0 <= wf,
        wb + wf <= 256,
    ensures
        ({
            let q = weighted_px(bg, fg, wb, wf);
            &&& blends(pixel::alpha(q), pixel::alpha(bg), pixel::alpha(fg), wb, wf)
            &&& blends(pixel::red(q), pixel::red(bg), pixel::red(fg), wb, wf)
            &&& blends(pixel::green(q), pixel::green(bg), pixel::green(fg), wb, wf)
            &&& blends(pixel::blue(q), pixel::blue(bg), pixel::blue(fg), wb, wf)
        }),
{
    pixel::lemma_channels(bg);
    pixel::lemma_channels(fg);
    lemma_slot(pixel::alpha(bg), pixel::alpha(fg), wb, wf);
    lemma_slot(pixel::red(bg), pixel::red(fg), wb, wf);
    lemma_slot(pixel::green(bg), pixel::green(fg), wb, wf);
    lemma_slot(pixel::blue(bg), pixel::blue(fg), wb, wf);
    pixel::lemma_argb(
        weighted(pixel::alpha(bg), pixel::alpha(fg), wb, wf),
        weighted(pixel::red(bg), pixel::red(fg), wb, wf),
        weighted(pixel::green(bg), pixel::green(fg), wb, wf),
        weighted(pixel::blue(bg), pixel::blue(fg), wb, wf),
    );
}

} // verus!
