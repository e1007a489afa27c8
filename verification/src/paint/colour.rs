//! Packing, unpacking and tinting of pixels.
use crate::coord;
use crate::paint::clip::HitId;
use crate::pixel;
use vstd::prelude::*;

verus! {

/// Packs visible RGB and an opacity into a pixel: the darkness of a channel is its complement.
pub fn pack_argb(r: u8, g: u8, b: u8, a: u8) -> (p: u32)
    ensures
        p == pixel::argb(a as int, 255 - r, 255 - g, 255 - b),
        pixel::alpha(p) == a,
        pixel::red(p) == 255 - r,
        pixel::green(p) == 255 - g,
        pixel::blue(p) == 255 - b,
{
    proof {
        pixel::lemma_argb(a as int, 255 - r, 255 - g, 255 - b);
    }
    pixel::assemble(a as u32, 255 - r as u32, 255 - g as u32, 255 - b as u32)
}

/// The visible RGB and the opacity of a pixel, as `(r, g, b, a)`.
pub fn unpack_argb(packed: u32) -> (c: (u8, u8, u8, u8))
    ensures
        c.0 as int == 255 - pixel::red(packed),
        c.1 as int == 255 - pixel::green(packed),
        c.2 as int == 255 - pixel::blue(packed),
        c.3 as int == pixel::alpha(packed),
{
    let a: u32 = pixel::alpha_of(packed);
    let (r, g, b) = pixel::rgb_of(packed);
    ((255 - r) as u8, (255 - g) as u8, (255 - b) as u8, a as u8)
}

/// Unpacking what was packed gives the channels back.
pub proof fn law_unpack_of_pack(r: u8, g: u8, b: u8, a: u8)
    ensures
        ({
            let p = pixel::argb(a as int, 255 - r, 255 - g, 255 - b);
            &&& 255 - pixel::red(p) == r
            &&& 255 - pixel::green(p) == g
            &&& 255 - pixel::blue(p) == b
            &&& pixel::alpha(p) == a
        }),
{
    pixel::lemma_argb(a as int, 255 - r, 255 - g, 255 - b);
}

/// Packing what was unpacked gives the pixel back.
pub proof fn law_pack_of_unpack(p: u32)
    ensures
        ({
            let r = 255 - pixel::red(p);
            let g = 255 - pixel::green(p);
            let b = 255 - pixel::blue(p);
            pixel::argb(pixel::alpha(p), 255 - r, 255 - g, 255 - b) == p
        }),
{
    pixel::lemma_channels(p);
}

/// `p` with the RGB bytes of `delta` added, each byte modulo 256; the opacity stays.
pub open spec fn add_rgb(p: u32, delta: u32) -> u32 {
    pixel::argb(
        pixel::alpha(p),
        (pixel::red(p) + pixel::red(delta)) % 256,
        (pixel::green(p) + pixel::green(delta)) % 256,
        (pixel::blue(p) + pixel::blue(delta)) % 256,
    )
}

/// The RGB bytes of `a` minus those of `b`, each byte modulo 256, with opacity 0.
pub open spec fn sub_rgb(a: u32, b: u32) -> u32 {
    pixel::argb(
        0,
        (pixel::red(a) - pixel::red(b)) % 256,
        (pixel::green(a) - pixel::green(b)) % 256,
        (pixel::blue(a) - pixel::blue(b)) % 256,
    )
}

/// Adds the RGB bytes of `delta_rgb` to every pixel whose hit identifier is `target_id`.
pub fn wrap_add_rgb_where(pixels: &mut [u32], hit_map: &[HitId], target_id: HitId, delta_rgb: u32)
    ensures
        final(pixels)@.len() == old(pixels)@.len(),
        forall|i: int|
            0 <= i < old(pixels)@.len() ==> #[trigger] final(pixels)@[i] == (if i < hit_map@.len()
                && hit_map@[i] == target_id {
                add_rgb(old(pixels)@[i], delta_rgb)
            } else {
                old(pixels)@[i]
            }),
{
    let (dr, dg, db) = pixel::rgb_of(delta_rgb);
    let n: usize = if pixels.len() <= hit_map.len() {
        pixels.len()
    } else {
        hit_map.len()
    };
    let ghost before = pixels@;
    let mut i: usize = 0;
    while i < n
        invariant
            i <= n,
            n <= pixels@.len(),
            n <= hit_map@.len(),
            pixels@.len() == before.len(),
            n == before.len() || n == hit_map@.len(),
            dr == pixel::red(delta_rgb),
            dg == pixel::green(delta_rgb),
            db == pixel::blue(delta_rgb),
            dr <= 255,
            dg <= 255,
            db <= 255,
            forall|k: int|
                0 <= k < before.len() ==> #[trigger] pixels@[k] == (if k < i && hit_map@[k]
                    == target_id {
                    add_rgb(before[k], delta_rgb)
                } else {
                    before[k]
                }),
        decreases n - i,
    {
        if hit_map[i] == target_id {
            let p: u32 = pixels[i];
            let (r, g, b) = pixel::rgb_of(p);
            let a: u32 = pixel::alpha_of(p);
            pixels[i] = pixel::assemble(a, (r + dr) % 256, (g + dg) % 256, (b + db) % 256);
        }
        i += 1;
    }
}

/// The tint that, added to a pixel coloured `b`, gives the colour `a`.
pub fn wrap_sub_rgb(a: u32, b: u32) -> (d: u32)
    ensures
        d == sub_rgb(a, b),
{
    let (ar, ag, ab) = pixel::rgb_of(a);
    let (br, bg, bb) = pixel::rgb_of(b);
    pixel::assemble(0, wrap_sub(ar, br), wrap_sub(ag, bg), wrap_sub(ab, bb))
}

/// The difference of two channels, modulo 256.
fn wrap_sub(t: u32, b: u32) -> (d: u32)
    requires
        t <= 255,
        b <= 255,
    ensures
        d as int == (t - b) % 256,
        d <= 255,
{
    if t >= b {
        t - b
    } else {
        t + 256 - b
    }
}

/// One channel of a scaled tint: the signed difference times `num / den`, modulo 256.
pub open spec fn scaled_delta(t: int, b: int, num: int, den: int) -> int {
    coord::truncated((t - b) * num, den) % 256
}

/// One channel of a scaled tint.
fn scaled_channel(t: u32, b: u32, num: i32, den: i32) -> (d: u32)
    requires
        t <= 255,
        b <= 255,
        den != 0,
        i32::MIN <= (t - b) * num <= i32::MAX,
    ensures
        d as int == scaled_delta(t as int, b as int, num as int, den as int),
        d <= 255,
{
    let p: i64 = (t as i64 - b as i64) * (num as i64);
    let m: u64 = if p < 0 {
        (-p) as u64
    } else {
        p as u64
    };
    let q: u64 = if den < 0 {
        let k: u64 = (-(den as i64)) as u64;
        m / k
    } else {
        m / (den as u64)
    };
    proof {
        let mm = m as int;
        let dd = den as int;
        if dd < 0 {
            assert(mm / dd == -(mm / (-dd))) by (nonlinear_arith)
                requires
                    dd < 0,
                    mm >= 0,
            ;
        }
        assert(0 <= q <= m) by {
            let k = if dd < 0 {
                -dd
            } else {
                dd
            };
            assert(0 <= mm / k <= mm) by (nonlinear_arith)
                requires
                    k >= 1,
                    mm >= 0,
            ;
        }
    }
    let r: u64 = q % 256;
    if (p < 0) == (den < 0) {
        r as u32
    } else {
        ((256 - r) % 256) as u32
    }
}

/// The difference `d` times `num`, and its quotient by `den`, fit a signed 32-bit number.
pub open spec fn delta_fits(d: int, num: int, den: int) -> bool {
    i32::MIN <= d * num <= i32::MAX && (den == -1 ==> d * num != i32::MIN)
}

/// Like [`wrap_sub_rgb`], with the signed difference of each channel scaled by `num / den` first.
pub fn wrap_sub_rgb_scaled(target: u32, base: u32, num: i32, den: i32) -> (d: u32)
    requires
        den != 0,
        delta_fits(pixel::red(target) - pixel::red(base), num as int, den as int),
        delta_fits(pixel::green(target) - pixel::green(base), num as int, den as int),
        delta_fits(pixel::blue(target) - pixel::blue(base), num as int, den as int),
    ensures
        d == pixel::argb(
            0,
            scaled_delta(pixel::red(target), pixel::red(base), num as int, den as int),
            scaled_delta(pixel::green(target), pixel::green(base), num as int, den as int),
            scaled_delta(pixel::blue(target), pixel::blue(base), num as int, den as int),
        ),
{
    let (tr, tg, tb) = pixel::rgb_of(target);
    let (br, bg, bb) = pixel::rgb_of(base);
    let r: u32 = scaled_channel(tr, br, num, den);
    let g: u32 = scaled_channel(tg, bg, num, den);
    let b: u32 = scaled_channel(tb, bb, num, den);
    pixel::assemble(0, r, g, b)
}

/// Adding the difference of two colours to a pixel of the second colour gives the first colour.
pub proof fn law_tint_lands_on_target(target: u32, base: u32)
    ensures
        ({
            let q = add_rgb(base, sub_rgb(target, base));
            &&& pixel::alpha(q) == pixel::alpha(base)
            &&& pixel::red(q) == pixel::red(target)
            &&& pixel::green(q) == pixel::green(target)
            &&& pixel::blue(q) == pixel::blue(target)
        }),
{
    pixel::lemma_channels(target);
    pixel::lemma_channels(base);
    pixel::lemma_argb(
        0,
        (pixel::red(target) - pixel::red(base)) % 256,
        (pixel::green(target) - pixel::green(base)) % 256,
        (pixel::blue(target) - pixel::blue(base)) % 256,
    );
    pixel::lemma_argb(
        pixel::alpha(base),
        pixel::red(target),
        pixel::green(target),
        pixel::blue(target),
    );
}

/// A tint is undone exactly by adding its negative.
pub proof fn law_tint_is_reversible(p: u32, delta: u32)
    ensures
        add_rgb(add_rgb(p, delta), sub_rgb(0, delta)) == p,
{
    pixel::lemma_channels(p);
    pixel::lemma_channels(delta);
    assert((0u32 >> 24) == 0 && ((0u32 >> 16) & 0xFF) == 0 && ((0u32 >> 8) & 0xFF) == 0 && (0u32
        & 0xFF) == 0) by (bit_vector);
    let neg = sub_rgb(0, delta);
    let q = add_rgb(p, delta);
    pixel::lemma_argb(
        0,
        (0 - pixel::red(delta)) % 256,
        (0 - pixel::green(delta)) % 256,
        (0 - pixel::blue(delta)) % 256,
    );
    pixel::lemma_argb(
        pixel::alpha(p),
        (pixel::red(p) + pixel::red(delta)) % 256,
        (pixel::green(p) + pixel::green(delta)) % 256,
        (pixel::blue(p) + pixel::blue(delta)) % 256,
    );
    lemma_byte_round_trip(pixel::red(p), pixel::red(delta));
    lemma_byte_round_trip(pixel::green(p), pixel::green(delta));
    lemma_byte_round_trip(pixel::blue(p), pixel::blue(delta));
    assert(add_rgb(q, neg) == pixel::argb(
        pixel::alpha(p),
        pixel::red(p),
        pixel::green(p),
        pixel::blue(p),
    ));
}

/// Adding a byte and then its negative modulo 256 gives the byte back.
proof fn lemma_byte_round_trip(x: int, d: int)
    requires
        0 <= x <= 255,
        0 <= d <= 255,
    ensures
        ((x + d) % 256 + (0 - d) % 256) % 256 == x,
{
}

/// A tint scaled by the whole is the plain tint.
pub proof fn law_full_strength_tint(target: u32, base: u32, n: int)
    requires
        n > 0,
    ensures
        pixel::argb(
            0,
            scaled_delta(pixel::red(target), pixel::red(base), n, n),
            scaled_delta(pixel::green(target), pixel::green(base), n, n),
            scaled_delta(pixel::blue(target), pixel::blue(base), n, n),
        ) == sub_rgb(target, base),
{
    lemma_whole(pixel::red(target) - pixel::red(base), n);
    lemma_whole(pixel::green(target) - pixel::green(base), n);
    lemma_whole(pixel::blue(target) - pixel::blue(base), n);
}

/// Multiplying and dividing by the same number changes nothing.
proof fn lemma_whole(d: int, n: int)
    requires
        n > 0,
    ensures
        coord::truncated(d * n, n) == d,
{
    if d * n >= 0 {
        assert(d >= 0) by (nonlinear_arith)
            requires
                d * n >= 0,
                n > 0,
        ;
        vstd::arithmetic::div_mod::lemma_div_by_multiple(d, n);
    } else {
        assert(-(d * n) == (-d) * n) by (nonlinear_arith);
        assert(-d >= 0) by (nonlinear_arith)
            requires
                d * n < 0,
                n > 0,
        ;
        vstd::arithmetic::div_mod::lemma_div_by_multiple(-d, n);
    }
}

/// A scaled tint goes the share of the way from the base to the target: adding it to the base gives,
/// modulo 256, a channel whose way is `num` parts of `den` of the whole, up to a dropped fraction.
pub proof fn law_scaled_tint_goes_its_share(t: int, b: int, num: int, den: int)
    requires
        0 <= t <= 255,
        0 <= b <= 255,
        0 <= num <= den,
        0 < den,
    ensures
        0 <= scaled_delta(t, b, num, den) <= 255,
        t >= b ==> ({
            let d = scaled_delta(t, b, num, den);
            d <= t - b && den * d <= (t - b) * num < den * d + den
        }),
        t < b ==> ({
            let d = (256 - scaled_delta(t, b, num, den)) % 256;
            d <= b - t && den * d <= (b - t) * num < den * d + den
        }),
{
    let v = t - b;
    coord::lemma_truncated(v * num, den);
    let q = coord::truncated(v * num, den);
    if v >= 0 {
        assert(0 <= v * num <= v * den) by (nonlinear_arith)
            requires
                v >= 0,
                0 <= num <= den,
        ;
        assert(q <= v) by (nonlinear_arith)
            requires
                den * q <= v * num,
                v * num <= v * den,
                den > 0,
        ;
    } else {
        assert(v * den <= v * num <= 0) by (nonlinear_arith)
            requires
                v < 0,
                0 <= num <= den,
        ;
        assert(q >= v) by (nonlinear_arith)
            requires
                den * q >= v * num,
                v * num >= v * den,
                den > 0,
        ;
        assert((b - t) * num == -(v * num)) by (nonlinear_arith)
            requires
                v == t - b,
        ;
        assert(den * (-q) == -(den * q)) by (nonlinear_arith);
    }
}

} // verus!
