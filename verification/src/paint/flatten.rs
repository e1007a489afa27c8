//! Whole-buffer composition.
use crate::pixel::{self, Blend, BlendMode};
use crate::simd::{self, LANES};
use vstd::prelude::*;

verus! {

/// The run of `len` pixels from `at` on, each with a pixel of `src` laid under it in normal mode.
pub open spec fn run_under(dst: Seq<u32>, at: int, src: Seq<u32>, len: int) -> Seq<u32> {
    Seq::new(
        dst.len(),
        |i: int|
            if at <= i < at + len {
                pixel::under_px(dst[i], src[i - at], BlendMode::Normal)
            } else {
                dst[i]
            },
    )
}

/// Writes eight lanes back into a buffer.
pub(crate) fn store_lanes(dst: &mut [u32], at: usize, v: &[u32; 8])
    requires
        at + 8 <= old(dst)@.len(),
    ensures
        final(dst)@ == Seq::new(
            old(dst)@.len(),
            |i: int|
                if at <= i < at + 8 {
                    v@[i - at]
                } else {
                    old(dst)@[i]
                },
        ),
{
    let n: usize = dst.len();
    let ghost before = dst@;
    let mut k: usize = 0;
    while k < 8
        invariant
            k <= 8,
            at + 8 <= n,
            n == before.len(),
            dst@ == Seq::new(
                before.len(),
                |i: int|
                    if at <= i < at + k {
                        v@[i - at]
                    } else {
                        before[i]
                    },
            ),
        decreases 8 - k,
    {
        dst[at + k] = v[k];
        k += 1;
    }
}

/// Reads eight lanes out of a buffer.
pub(crate) fn load_lanes(src: &[u32], at: usize) -> (v: wide::u32x8)
    requires
        at + 8 <= src@.len(),
    ensures
        simd::lanes(v) == src@.subrange(at as int, at + 8),
{
    let a: [u32; 8] = [
        src[at],
        src[at + 1],
        src[at + 2],
        src[at + 3],
        src[at + 4],
        src[at + 5],
        src[at + 6],
        src[at + 7],
    ];
    assert(a@ =~= src@.subrange(at as int, at + 8));
    simd::from_array(a)
}

/// Lays `src[..len]` under `dst[at..at + len]` in normal mode, eight pixels at a time and the rest
/// one by one.
pub(crate) fn under_chunk_normal(dst: &mut [u32], at: usize, src: &[u32], len: usize)
    requires
        at + len <= old(dst)@.len(),
        len <= src@.len(),
    ensures
        final(dst)@ == run_under(old(dst)@, at as int, src@, len as int),
{
    let ghost before = dst@;
    let n: usize = dst.len();
    let mut i: usize = 0;
    while LANES <= len - i
        invariant
            n == before.len(),
            i <= len,
            at + len <= n,
            len <= src@.len(),
            dst@ == run_under(before, at as int, src@, i as int),
        decreases len - i,
    {
        let d = load_lanes(dst, at + i);
        let s = load_lanes(src, i);
        let out: [u32; 8] = simd::to_array(simd::under_x8_normal(d, s));
        store_lanes(dst, at + i, &out);
        assert(dst@ =~= run_under(before, at as int, src@, i + 8));
        i += LANES;
    }
    while i < len
        invariant
            n == before.len(),
            i <= len,
            at + len <= n,
            len <= src@.len(),
            dst@ == run_under(before, at as int, src@, i as int),
        decreases len - i,
    {
        dst[at + i] = dst[at + i].under(src[i], BlendMode::Normal);
        i += 1;
    }
}

/// The shorter of the two buffers.
fn shared_len(dst: &[u32], src: &[u32]) -> (n: usize)
    ensures
        n as int == vstd::math::min(dst@.len() as int, src@.len() as int),
{
    if dst.len() <= src.len() {
        dst.len()
    } else {
        src.len()
    }
}

/// Lays `src` under `dst`, pixel by pixel, as far as both reach.
pub fn flatten(dst: &mut [u32], src: &[u32], mode: BlendMode)
    ensures
        final(dst)@.len() == old(dst)@.len(),
        forall|i: int|
            0 <= i < old(dst)@.len() ==> #[trigger] final(dst)@[i] == (if i < src@.len() {
                pixel::under_px(old(dst)@[i], src@[i], mode)
            } else {
                old(dst)@[i]
            }),
{
    let n: usize = shared_len(dst, src);
    if mode == BlendMode::Normal {
        under_chunk_normal(dst, 0, src, n);
    } else {
        let ghost before = dst@;
        let mut i: usize = 0;
        while i < n
            invariant
                i <= n,
                dst@.len() == before.len(),
                n == vstd::math::min(dst@.len() as int, src@.len() as int),
                forall|k: int|
                    0 <= k < before.len() ==> #[trigger] dst@[k] == (if k < i {
                        pixel::under_px(before[k], src@[k], mode)
                    } else {
                        before[k]
                    }),
            decreases n - i,
        {
            dst[i] = dst[i].under(src[i], mode);
            i += 1;
        }
    }
}

/// A pixel with a ready-made composite laid under it. The source's darkness already carries its
/// opacity, so it is scaled by the budget that is left and by nothing else.
pub open spec fn premult_px(d: u32, s: u32) -> u32 {
    if pixel::alpha(d) == 255 {
        d
    } else {
        let k = 256 - pixel::alpha(d);
        pixel::argb(
            pixel::alpha(d) + (k * pixel::alpha(s)) / 256,
            pixel::red(d) + (k * pixel::red(s)) / 256,
            pixel::green(d) + (k * pixel::green(s)) / 256,
            pixel::blue(d) + (k * pixel::blue(s)) / 256,
        )
    }
}

/// Lays a ready-made composite pixel under another.
pub fn under_premult(d: u32, s: u32) -> (q: u32)
    ensures
        q == premult_px(d, s),
{
    proof {
        pixel::lemma_channels(d);
    }
    if d >= 0xFF00_0000 {
        return d;
    }
    let d_a: u32 = pixel::alpha_of(d);
    let (d_r, d_g, d_b) = pixel::rgb_of(d);
    let s_a: u32 = pixel::alpha_of(s);
    let (s_r, s_g, s_b) = pixel::rgb_of(s);
    let k: u32 = 256 - d_a;
    proof {
        pixel::lemma_consumed(d_a as int, s_a as int);
        pixel::lemma_consumed(d_a as int, s_r as int);
        pixel::lemma_consumed(d_a as int, s_g as int);
        pixel::lemma_consumed(d_a as int, s_b as int);
    }
    pixel::assemble(
        d_a + pixel::scale(k, s_a),
        d_r + pixel::scale(k, s_r),
        d_g + pixel::scale(k, s_g),
        d_b + pixel::scale(k, s_b),
    )
}

/// Lays the ready-made composite `src` under `dst`, as far as both reach.
pub fn flatten_premult(dst: &mut [u32], src: &[u32])
    ensures
        final(dst)@.len() == old(dst)@.len(),
        forall|i: int|
            0 <= i < old(dst)@.len() ==> #[trigger] final(dst)@[i] == (if i < src@.len() {
                premult_px(old(dst)@[i], src@[i])
            } else {
                old(dst)@[i]
            }),
{
    let n: usize = shared_len(dst, src);
    let ghost before = dst@;
    let mut i: usize = 0;
    while i < n
        invariant
            i <= n,
            dst@.len() == before.len(),
            n == vstd::math::min(dst@.len() as int, src@.len() as int),
            forall|k: int|
                0 <= k < before.len() ==> #[trigger] dst@[k] == (if k < i {
                    premult_px(before[k], src@[k])
                } else {
                    before[k]
                }),
        decreases n - i,
    {
        dst[i] = under_premult(dst[i], src[i]);
        i += 1;
    }
}

/// Laying a composite under the empty pixel gives the composite itself: a cached layer comes
/// through unchanged.
pub proof fn law_premult_on_empty_is_source(s: u32)
    ensures
        premult_px(0, s) == s,
{
    assert((0u32 >> 24) == 0 && ((0u32 >> 16) & 0xFF) == 0 && ((0u32 >> 8) & 0xFF) == 0 && (0u32
        & 0xFF) == 0) by (bit_vector);
    pixel::lemma_channels(s);
}

/// Laying one composite under another keeps darkness within opacity and opacity within a byte.
pub proof fn law_premult_stays_in_range(d: u32, s: u32)
    requires
        pixel::dark_within_alpha(d),
        pixel::dark_within_alpha(s),
    ensures
        pixel::dark_within_alpha(premult_px(d, s)),
        pixel::alpha(d) <= pixel::alpha(premult_px(d, s)),
{
    pixel::lemma_channels(d);
    pixel::lemma_channels(s);
    if pixel::alpha(d) < 255 {
        let k = 256 - pixel::alpha(d);
        pixel::lemma_consumed(pixel::alpha(d), pixel::alpha(s));
        lemma_share(k, pixel::red(s), pixel::alpha(s));
        lemma_share(k, pixel::green(s), pixel::alpha(s));
        lemma_share(k, pixel::blue(s), pixel::alpha(s));
        pixel::lemma_argb(
            pixel::alpha(d) + (k * pixel::alpha(s)) / 256,
            pixel::red(d) + (k * pixel::red(s)) / 256,
            pixel::green(d) + (k * pixel::green(s)) / 256,
            pixel::blue(d) + (k * pixel::blue(s)) / 256,
        );
    }
}

/// A smaller amount gets a smaller share.
proof fn lemma_share(k: int, x: int, y: int)
    requires
        0 <= k,
        0 <= x <= y,
    ensures
        0 <= (k * x) / 256 <= (k * y) / 256,
{
    assert(0 <= k * x <= k * y) by (nonlinear_arith)
        requires
            0 <= k,
            0 <= x <= y,
    ;
}

/// A composite fills what is left above it: opacity and darkness alike come through by the share of
/// the budget that is left, in parts of 256 with the rest dropped. Nothing comes through an opaque
/// pixel.
pub proof fn law_composite_fills_what_is_left(d: u32, s: u32)
    requires
        pixel::dark_within_alpha(d),
        pixel::dark_within_alpha(s),
    ensures
        ({
            let q = premult_px(d, s);
            let left = 256 - pixel::alpha(d);
            if left == 1 {
                q == d
            } else {
                &&& 256 * (pixel::alpha(q) - pixel::alpha(d)) <= left * pixel::alpha(s) < 256 * (
                pixel::alpha(q) - pixel::alpha(d)) + 256
                &&& 256 * (pixel::red(q) - pixel::red(d)) <= left * pixel::red(s) < 256 * (
                pixel::red(q) - pixel::red(d)) + 256
                &&& 256 * (pixel::green(q) - pixel::green(d)) <= left * pixel::green(s) < 256 * (
                pixel::green(q) - pixel::green(d)) + 256
                &&& 256 * (pixel::blue(q) - pixel::blue(d)) <= left * pixel::blue(s) < 256 * (
                pixel::blue(q) - pixel::blue(d)) + 256
            }
        }),
{
    pixel::lemma_channels(d);
    pixel::lemma_channels(s);
    if pixel::alpha(d) < 255 {
        let k = 256 - pixel::alpha(d);
        pixel::lemma_consumed(pixel::alpha(d), pixel::alpha(s));
        lemma_share(k, pixel::red(s), pixel::alpha(s));
        lemma_share(k, pixel::green(s), pixel::alpha(s));
        lemma_share(k, pixel::blue(s), pixel::alpha(s));
        pixel::lemma_argb(
            pixel::alpha(d) + (k * pixel::alpha(s)) / 256,
            pixel::red(d) + (k * pixel::red(s)) / 256,
            pixel::green(d) + (k * pixel::green(s)) / 256,
            pixel::blue(d) + (k * pixel::blue(s)) / 256,
        );
    }
}

} // verus!
