//! The tint overlay: hover and focus tints, written straight to the finished screen.
use crate::canvas::{self, PixelRect};
use crate::paint::clip::HitId;
use crate::paint::colour;
use crate::paint::finalize;
use crate::pixel;
use vstd::prelude::*;

verus! {

/// Flag of a tint that lifts each visible channel along a square root instead of shifting it.
pub const OVERLAY_SQRT_BRIGHTEN: u32 = 0x0100_0000;

/// The least `t` from `from` on with `n <= t * (t + 1)`: the square root of `n`, rounded to nearest.
pub open spec fn rounded_root(n: int, from: nat) -> nat
    decreases n - from,
{
    if n <= from * (from + 1) || from >= n {
        from
    } else {
        rounded_root(n, from + 1)
    }
}

/// The lifted value of a visible channel: `sqrt(v / 255) * 255`, rounded to nearest.
pub open spec fn lifted(v: int) -> int {
    rounded_root(255 * v, 0) as int
}

/// The rounded root lies between the two neighbouring products.
proof fn lemma_rounded_root(n: int, from: nat)
    requires
        0 <= n,
        from == 0 || (from - 1) * from < n,
    ensures
        ({
            let t = rounded_root(n, from) as int;
            &&& from <= t
            &&& n <= t * (t + 1)
            &&& t == 0 || (t - 1) * t < n
        }),
    decreases n - from,
{
    if n <= from * (from + 1) {
    } else if from >= n {
        assert(n <= from * (from + 1)) by (nonlinear_arith)
            requires
                from >= n,
                n >= 0,
        ;
    } else {
        lemma_rounded_root(n, from + 1);
    }
}

/// A lifted channel is a byte, is never darker than before, and black and white stay.
pub proof fn law_lift_brightens(v: int)
    requires
        0 <= v <= 255,
    ensures
        v <= lifted(v) <= 255,
        lifted(0) == 0,
        lifted(255) == 255,
{
    lemma_rounded_root(255 * v, 0);
    let t = lifted(v);
    assert(t <= 255) by (nonlinear_arith)
        requires
            t == 0 || (t - 1) * t < 255 * v,
            v <= 255,
            t >= 0,
    ;
    assert(v <= t) by (nonlinear_arith)
        requires
            255 * v <= t * (t + 1),
            0 <= v <= 255,
            t >= 0,
    ;
    lemma_rounded_root(65025int, 0);
    let u = lifted(255);
    assert(u == 255) by (nonlinear_arith)
        requires
            255 * 255 <= u * (u + 1),
            u == 0 || (u - 1) * u < 255 * 255,
            u >= 0,
    ;
}

/// The tint is a square-root lift.
pub open spec fn is_lift(delta: u32) -> bool {
    delta & OVERLAY_SQRT_BRIGHTEN != 0
}

/// One visible channel under a tint: lifted, or less the tint's byte modulo 256.
pub open spec fn tinted_channel(v: int, d: int, lift: bool) -> int {
    if lift {
        lifted(v)
    } else {
        (v - d) % 256
    }
}

/// The opaque screen pixel for the window pixel `raw` under the tint `delta`.
pub open spec fn tinted(raw: u32, delta: u32) -> u32 {
    pixel::argb(
        255,
        tinted_channel(255 - pixel::red(raw), pixel::red(delta), is_lift(delta)),
        tinted_channel(255 - pixel::green(raw), pixel::green(delta), is_lift(delta)),
        tinted_channel(255 - pixel::blue(raw), pixel::blue(delta), is_lift(delta)),
    )
}

/// Identifier `id` is tinted now, or was tinted by the pass before.
pub open spec fn needs_pass(deltas: Seq<u32>, last: Seq<bool>, id: int) -> bool {
    0 <= id < deltas.len() && (deltas[id] != 0 || last[id])
}

/// Some identifier needs the pass.
pub open spec fn any_active(deltas: Seq<u32>, last: Seq<bool>) -> bool {
    exists|id: int| #[trigger] needs_pass(deltas, last, id)
}

/// A window of `win_w` by `win_h` at `(ox, oy)` on a screen of `scr_w` columns and `scr_h` rows.
pub struct Placement {
    pub scr_w: int,
    pub scr_h: int,
    pub win_w: int,
    pub win_h: int,
    pub ox: int,
    pub oy: int,
}

impl Placement {
    /// Some pixel of the window lies on the screen.
    pub open spec fn visible(self) -> bool {
        &&& self.scr_w > 0 && self.scr_h > 0
        &&& self.ox < self.scr_w && self.oy < self.scr_h
        &&& self.ox + self.win_w > 0 && self.oy + self.win_h > 0
    }

    /// Column `x` of window row `y` lies in the window and on the screen.
    pub open spec fn shows(self, x: int, y: int) -> bool {
        &&& 0 <= x < self.win_w
        &&& 0 <= y < self.win_h
        &&& 0 <= x + self.ox < self.scr_w
        &&& 0 <= y + self.oy < self.scr_h
    }
}

/// The pixel at column `x` of row `y` lies in the box of identifier `id`, where it has one.
pub open spec fn in_bbox(bboxes: Seq<Option<PixelRect>>, id: int, x: int, y: int) -> bool {
    if id < bboxes.len() {
        match bboxes[id] {
            Some(r) => r.holds(x, y),
            None => true,
        }
    } else {
        true
    }
}

/// Screen pixel `i` after the overlay pass.
pub open spec fn overlay_px(
    old_px: u32,
    i: int,
    pl: Placement,
    scratch: Seq<u32>,
    hits: Seq<HitId>,
    deltas: Seq<u32>,
    bboxes: Seq<Option<PixelRect>>,
    last: Seq<bool>,
) -> u32 {
    let x = canvas::col_of(i, pl.scr_w) - pl.ox;
    let y = canvas::row_of(i, pl.scr_w) - pl.oy;
    let at = y * pl.win_w + x;
    if pl.shows(x, y) && needs_pass(deltas, last, hits[at] as int) && in_bbox(
        bboxes,
        hits[at] as int,
        x,
        y,
    ) {
        tinted(scratch[at], deltas[hits[at] as int])
    } else {
        old_px
    }
}

/// The table of lifted values.
fn build_sqrt_brighten_lut() -> (lut: Vec<u8>)
    ensures
        lut@.len() == 256,
        forall|v: int| 0 <= v < 256 ==> #[trigger] lut@[v] == lifted(v),
{
    let mut lut: Vec<u8> = Vec::new();
    let mut v: u32 = 0;
    while v < 256
        invariant
            v <= 256,
            lut@.len() == v,
            forall|k: int| 0 <= k < v ==> #[trigger] lut@[k] == lifted(k),
        decreases 256 - v,
    {
        let n: u32 = 255 * v;
        proof {
            law_lift_brightens(v as int);
            lemma_rounded_root(n as int, 0);
        }
        let mut t: u32 = 0;
        let mut product: u32 = 0;
        while n > product
            invariant
                v < 256,
                n == 255 * v,
                t <= 255,
                product == t * (t + 1),
                product <= 65280,
                rounded_root(n as int, t as nat) == lifted(v as int),
                lifted(v as int) <= 255,
            decreases 255 - t,
        {
            proof {
                assert(t < n) by (nonlinear_arith)
                    requires
                        n > t * (t + 1),
                        t >= 0,
                ;
                lemma_root_at_least(n as int, (t + 1) as nat);
                assert((t + 1) * (t + 2) == t * (t + 1) + 2 * (t + 1)) by (nonlinear_arith);
                assert((t + 1) * (t + 2) <= 65280) by (nonlinear_arith)
                    requires
                        t + 1 <= 255,
                ;
            }
            product += 2 * (t + 1);
            t += 1;
        }
        lut.push(t as u8);
        v += 1;
    }
    lut
}

/// The search for the rounded root never goes back.
proof fn lemma_root_at_least(n: int, from: nat)
    ensures
        rounded_root(n, from) >= from,
    decreases n - from,
{
    if n <= from * (from + 1) || from >= n {
    } else {
        lemma_root_at_least(n, from + 1);
    }
}

/// One channel under a tint.
fn tint_channel(v: u32, d: u32, lift: bool, lut: &Vec<u8>) -> (t: u32)
    requires
        v <= 255,
        d <= 255,
        lut@.len() == 256,
        forall|k: int| 0 <= k < 256 ==> #[trigger] lut@[k] == lifted(k),
    ensures
        t as int == tinted_channel(v as int, d as int, lift),
{
    if lift {
        lut[v as usize] as u32
    } else {
        (v + 256 - d) % 256
    }
}

/// The screen pixel for a window pixel under a tint.
fn tint(raw: u32, delta: u32, lut: &Vec<u8>) -> (q: u32)
    requires
        lut@.len() == 256,
        forall|k: int| 0 <= k < 256 ==> #[trigger] lut@[k] == lifted(k),
    ensures
        q == tinted(raw, delta),
{
    proof {
        finalize::lemma_flip(raw);
    }
    let (r, g, b) = pixel::rgb_of(raw ^ 0x00FF_FFFF);
    let (dr, dg, db) = pixel::rgb_of(delta);
    let lift: bool = delta & OVERLAY_SQRT_BRIGHTEN != 0;
    pixel::assemble(
        0xFF,
        tint_channel(r, dr, lift, lut),
        tint_channel(g, dg, lift, lut),
        tint_channel(b, db, lift, lut),
    )
}

/// Some identifier is tinted now or was tinted before.
fn some_active(deltas: &[u32], last: &[bool]) -> (b: bool)
    requires
        deltas@.len() == last@.len(),
    ensures
        b == any_active(deltas@, last@),
{
    let n: usize = deltas.len();
    let mut i: usize = 0;
    while i < n
        invariant
            i <= n,
            n == deltas@.len(),
            n == last@.len(),
            forall|k: int| 0 <= k < i ==> !#[trigger] needs_pass(deltas@, last@, k),
        decreases n - i,
    {
        if deltas[i] != 0 || last[i] {
            assert(needs_pass(deltas@, last@, i as int));
            return true;
        }
        i += 1;
    }
    false
}

/// The first or the end of the on-screen part of a window side: `-o` or `size - o`, inside the
/// window.
fn on_screen(v: i128, side: usize) -> (r: usize)
    ensures
        r as int == vstd::math::min(vstd::math::max(v as int, 0), side as int),
{
    if v < 0 {
        0
    } else if v < side as i128 {
        v as usize
    } else {
        side
    }
}

/// `v` limited to `lo..=hi`.
fn limit(v: usize, lo: usize, hi: usize) -> (r: usize)
    requires
        lo <= hi,
    ensures
        r as int == crate::paint::clip::clamp_int(v as int, lo as int, hi as int),
{
    if v < lo {
        lo
    } else if v > hi {
        hi
    } else {
        v
    }
}

/// Writes the tints to the screen. For each identifier that is tinted now or was by the pass before,
/// the pixels stamped with it are copied from the window to the screen, opaque and in visible RGB,
/// under the identifier's tint; without a tint that restores them. `last_active` tells the next pass
/// which identifiers were tinted. An identifier has 16 bits, so there are no more tints than that.
pub fn apply_overlay(
    scratch: &[u32],
    persistent_screen: &mut [u32],
    scr_w: usize,
    win_ox: i32,
    win_oy: i32,
    hit_test_map: &[HitId],
    win_w: usize,
    win_h: usize,
    deltas: &[u32],
    bboxes: &[Option<PixelRect>],
    last_active: &mut [bool],
)
    requires
        deltas@.len() == old(last_active)@.len(),
        deltas@.len() <= 0x1_0000,
        win_w * win_h <= usize::MAX,
    ensures
        final(persistent_screen)@.len() == old(persistent_screen)@.len(),
        final(last_active)@.len() == old(last_active)@.len(),
        ({
            let ready = scr_w > 0 && win_w > 0 && win_h > 0 && hit_test_map@.len() >= win_w * win_h
                && scratch@.len() >= win_w * win_h && any_active(deltas@, old(last_active)@);
            let pl = Placement {
                scr_w: scr_w as int,
                scr_h: old(persistent_screen)@.len() as int / scr_w as int,
                win_w: win_w as int,
                win_h: win_h as int,
                ox: win_ox as int,
                oy: win_oy as int,
            };
            &&& forall|i: int|
                0 <= i < old(persistent_screen)@.len() ==> #[trigger] final(persistent_screen)@[i]
                    == (if ready {
                    overlay_px(
                        old(persistent_screen)@[i],
                        i,
                        pl,
                        scratch@,
                        hit_test_map@,
                        deltas@,
                        bboxes@,
                        old(last_active)@,
                    )
                } else {
                    old(persistent_screen)@[i]
                })
            &&& forall|id: int|
                0 <= id < deltas@.len() ==> #[trigger] final(last_active)@[id] == (if ready {
                    pl.visible() && deltas@[id] != 0
                } else {
                    old(last_active)@[id]
                })
        }),
{
    if !some_active(deltas, last_active) {
        return;
    }
    if scr_w == 0 || win_w == 0 || win_h == 0 || hit_test_map.len() < win_w * win_h || scratch.len()
        < win_w * win_h {
        return;
    }
    let scr_h: usize = persistent_screen.len() / scr_w;
    let ghost before = persistent_screen@;
    let ghost last = last_active@;
    let ghost pl = Placement {
        scr_w: scr_w as int,
        scr_h: scr_h as int,
        win_w: win_w as int,
        win_h: win_h as int,
        ox: win_ox as int,
        oy: win_oy as int,
    };
    let n: usize = persistent_screen.len();
    let ox: i128 = win_ox as i128;
    let oy: i128 = win_oy as i128;
    let y_lo: usize = on_screen(-oy, win_h);
    let y_hi: usize = on_screen(scr_h as i128 - oy, win_h);
    let x_lo: usize = on_screen(-ox, win_w);
    let x_hi: usize = on_screen(scr_w as i128 - ox, win_w);
    let lut = build_sqrt_brighten_lut();
    let total: usize = deltas.len();
    let shown: bool = y_lo < y_hi && x_lo < x_hi;
    proof {
        canvas::lemma_grid(scr_w as int);
        vstd::arithmetic::div_mod::lemma_fundamental_div_mod(n as int, scr_w as int);
        assert(shown == pl.visible());
    }
    let mut id: usize = 0;
    while id < total
        invariant
            id <= total,
            total == deltas@.len(),
            total == last.len(),
            total == last_active@.len(),
            total <= 0x1_0000,
            n == before.len(),
            n == persistent_screen@.len(),
            0 < scr_w,
            scr_w * scr_h <= n,
            0 < win_w,
            0 < win_h,
            win_w * win_h <= hit_test_map@.len(),
            win_w * win_h <= scratch@.len(),
            win_w * win_h <= usize::MAX,
            ox == win_ox,
            oy == win_oy,
            y_lo == vstd::math::min(vstd::math::max(-oy as int, 0), win_h as int),
            x_lo == vstd::math::min(vstd::math::max(-ox as int, 0), win_w as int),
            y_hi == vstd::math::min(vstd::math::max(scr_h - oy, 0), win_h as int),
            x_hi == vstd::math::min(vstd::math::max(scr_w - ox, 0), win_w as int),
            shown == (y_lo < y_hi && x_lo < x_hi),
            pl == (Placement {
                scr_w: scr_w as int,
                scr_h: scr_h as int,
                win_w: win_w as int,
                win_h: win_h as int,
                ox: win_ox as int,
                oy: win_oy as int,
            }),
            lut@.len() == 256,
            forall|k: int| 0 <= k < 256 ==> #[trigger] lut@[k] == lifted(k),
            forall|i: int|
                #![trigger canvas::row_of(i, scr_w as int)]
                #![trigger canvas::col_of(i, scr_w as int)]
                i == canvas::row_of(i, scr_w as int) * scr_w + canvas::col_of(i, scr_w as int) && 0
                    <= canvas::col_of(i, scr_w as int) < scr_w && (i >= 0 ==> canvas::row_of(
                    i,
                    scr_w as int,
                ) >= 0),
            forall|k: int|
                0 <= k < total ==> #[trigger] last_active@[k] == (if k < id {
                    shown && deltas@[k] != 0
                } else {
                    last[k]
                }),
            forall|i: int|
                0 <= i < n ==> #[trigger] persistent_screen@[i] == (if hit_of(
                    i,
                    pl,
                    hit_test_map@,
                ) < id {
                    overlay_px(
                        before[i],
                        i,
                        pl,
                        scratch@,
                        hit_test_map@,
                        deltas@,
                        bboxes@,
                        last,
                    )
                } else {
                    before[i]
                }),
        decreases total - id,
    {
        let delta: u32 = deltas[id];
        let was: bool = last_active[id];
        let ghost prev = persistent_screen@;
        if (delta != 0 || was) && shown {
            let (x0, y0, x1, y1) = if id < bboxes.len() {
                match bboxes[id] {
                    Some(r) => (
                        limit(r.x0, x_lo, x_hi),
                        limit(r.y0, y_lo, y_hi),
                        limit(r.x1, x_lo, x_hi),
                        limit(r.y1, y_lo, y_hi),
                    ),
                    None => (x_lo, y_lo, x_hi, y_hi),
                }
            } else {
                (x_lo, y_lo, x_hi, y_hi)
            };
            let sx0: usize = (x0 as i128 + ox) as usize;
            let sy0: usize = (y0 as i128 + oy) as usize;
            let sx1: usize = (x1 as i128 + ox) as usize;
            let sy1: usize = (y1 as i128 + oy) as usize;
            let id_hit: HitId = id as HitId;
            proof {
                assert(scr_w * sy1 <= scr_w * scr_h) by (nonlinear_arith)
                    requires
                        sy1 <= scr_h,
                ;
            }
            let paint = |p: u32, sx: usize, sy: usize| -> (q: u32)
                requires
                    sx0 <= sx < sx1,
                    sy0 <= sy < sy1,
                ensures
                    ({
                        let at = (sy - oy) * win_w + (sx - ox);
                        q == (if hit_test_map@[at] == id {
                            tinted(scratch@[at], delta)
                        } else {
                            p
                        })
                    }),
            {
                let x: usize = (sx as i128 - ox) as usize;
                let y: usize = (sy as i128 - oy) as usize;
                proof {
                    canvas::lemma_cell_bound(x as int, y as int, win_w as int, win_h as int);
                }
                let at: usize = y * win_w + x;
                if hit_test_map[at] == id_hit {
                    tint(scratch[at], delta, &lut)
                } else {
                    p
                }
            };
            canvas::map_rect(persistent_screen, scr_w, sx0, sy0, sx1, sy1, paint);
            proof {
                assert forall|i: int| 0 <= i < n implies #[trigger] persistent_screen@[i] == (
                if hit_of(i, pl, hit_test_map@) < id + 1 {
                    overlay_px(
                        before[i],
                        i,
                        pl,
                        scratch@,
                        hit_test_map@,
                        deltas@,
                        bboxes@,
                        last,
                    )
                } else {
                    before[i]
                }) by {
                    let x = canvas::col_of(i, scr_w as int) - ox;
                    let y = canvas::row_of(i, scr_w as int) - oy;
                    if canvas::in_rect(
                        i,
                        scr_w as int,
                        sx0 as int,
                        sy0 as int,
                        sx1 as int,
                        sy1 as int,
                    ) {
                        assert(pl.shows(x, y));
                        assert(in_bbox(bboxes@, id as int, x, y));
                    } else {
                        assert(persistent_screen@[i] == prev[i]);
                        if pl.shows(x, y) {
                            assert(!in_bbox(bboxes@, id as int, x, y));
                        }
                    }
                }
            }
        }
        last_active[id] = shown && delta != 0;
        id += 1;
    }
}

/// The identifier stamped at the window pixel that screen pixel `i` shows; outside the window a number
/// above every identifier.
spec fn hit_of(i: int, pl: Placement, hits: Seq<HitId>) -> int {
    let x = canvas::col_of(i, pl.scr_w) - pl.ox;
    let y = canvas::row_of(i, pl.scr_w) - pl.oy;
    if pl.shows(x, y) {
        hits[y * pl.win_w + x] as int
    } else {
        0x1_0000
    }
}

/// A tint lands on its target: where a window pixel has the RGB of `base`, the tint that leads from
/// `base` to `target` shows `target` on the screen, opaque and in visible RGB. The screen pixel is the
/// one that adding the tint to the window pixel and turning it visible gives.
pub proof fn law_tint_shows_the_target(raw: u32, base: u32, target: u32)
    requires
        pixel::red(raw) == pixel::red(base),
        pixel::green(raw) == pixel::green(base),
        pixel::blue(raw) == pixel::blue(base),
    ensures
        ({
            let seen = tinted(raw, colour::sub_rgb(target, base));
            let added = colour::add_rgb(raw, colour::sub_rgb(target, base));
            &&& pixel::alpha(seen) == 255
            &&& pixel::red(seen) == 255 - pixel::red(target)
            &&& pixel::green(seen) == 255 - pixel::green(target)
            &&& pixel::blue(seen) == 255 - pixel::blue(target)
            &&& pixel::red(seen) == 255 - pixel::red(added)
            &&& pixel::green(seen) == 255 - pixel::green(added)
            &&& pixel::blue(seen) == 255 - pixel::blue(added)
        }),
{
    let delta = colour::sub_rgb(target, base);
    pixel::lemma_channels(raw);
    pixel::lemma_channels(base);
    pixel::lemma_channels(target);
    colour::law_tint_lands_on_target(target, raw);
    assert(delta == colour::sub_rgb(target, raw));
    pixel::lemma_argb(
        0,
        (pixel::red(target) - pixel::red(base)) % 256,
        (pixel::green(target) - pixel::green(base)) % 256,
        (pixel::blue(target) - pixel::blue(base)) % 256,
    );
    lemma_no_lift(delta);
    lemma_channel_target(pixel::red(target), pixel::red(base));
    lemma_channel_target(pixel::green(target), pixel::green(base));
    lemma_channel_target(pixel::blue(target), pixel::blue(base));
    pixel::lemma_argb(
        255,
        255 - pixel::red(target),
        255 - pixel::green(target),
        255 - pixel::blue(target),
    );
}

/// The tint of a channel that leads from `b` to `t` shows `t`.
proof fn lemma_channel_target(t: int, b: int)
    requires
        0 <= t <= 255,
        0 <= b <= 255,
    ensures
        tinted_channel(255 - b, (t - b) % 256, false) == 255 - t,
{
    if t >= b {
        assert((t - b) % 256 == t - b);
        assert((255 - b - (t - b)) % 256 == 255 - t);
    } else {
        assert((t - b) % 256 == t - b + 256);
        assert((255 - b - (t - b + 256)) % 256 == 255 - t);
    }
}

/// The tint of a channel shows the complement of what adding it gives.
proof fn lemma_channel_added(r: int, d: int)
    requires
        0 <= r <= 255,
        0 <= d <= 255,
    ensures
        tinted_channel(255 - r, d, false) == 255 - (r + d) % 256,
        0 <= (r + d) % 256 <= 255,
{
    if r + d <= 255 {
        assert((r + d) % 256 == r + d);
        assert((255 - r - d) % 256 == 255 - r - d);
    } else {
        assert((r + d) % 256 == r + d - 256);
        assert((255 - r - d) % 256 == 511 - r - d);
    }
}

/// A tint without opacity is no lift.
proof fn lemma_no_lift(delta: u32)
    requires
        pixel::alpha(delta) == 0,
    ensures
        !is_lift(delta),
{
    assert((delta >> 24) == 0 ==> delta & 0x0100_0000 == 0) by (bit_vector);
}

/// Without a tint the window pixel shows itself, opaque and in visible RGB.
pub proof fn law_untinted_pixel_shows_itself(raw: u32)
    ensures
        pixel::alpha(tinted(raw, 0)) == 255,
        pixel::red(tinted(raw, 0)) == 255 - pixel::red(raw),
        pixel::green(tinted(raw, 0)) == 255 - pixel::green(raw),
        pixel::blue(tinted(raw, 0)) == 255 - pixel::blue(raw),
{
    assert(0u32 & 0x0100_0000 == 0) by (bit_vector);
    law_overlay_is_the_visible_tint(raw, 0);
}

/// Without a tint the window pixel itself shows, opaque and in visible RGB, and any other tint is the
/// tinted pixel turned visible: each channel is the complement of the window's with the tint added.
pub proof fn law_overlay_is_the_visible_tint(raw: u32, delta: u32)
    requires
        !is_lift(delta),
    ensures
        ({
            let seen = tinted(raw, delta);
            let added = colour::add_rgb(raw, delta);
            &&& pixel::alpha(seen) == 255
            &&& pixel::red(seen) == 255 - pixel::red(added)
            &&& pixel::green(seen) == 255 - pixel::green(added)
            &&& pixel::blue(seen) == 255 - pixel::blue(added)
            &&& delta == 0 ==> pixel::red(seen) == 255 - pixel::red(raw) && pixel::green(seen)
                == 255 - pixel::green(raw) && pixel::blue(seen) == 255 - pixel::blue(raw)
        }),
{
    pixel::lemma_channels(raw);
    pixel::lemma_channels(delta);
    assert(delta == 0 ==> ((delta >> 16) & 0xFF) == 0 && ((delta >> 8) & 0xFF) == 0 && (delta
        & 0xFF) == 0) by (bit_vector);
    pixel::lemma_argb(
        pixel::alpha(raw),
        (pixel::red(raw) + pixel::red(delta)) % 256,
        (pixel::green(raw) + pixel::green(delta)) % 256,
        (pixel::blue(raw) + pixel::blue(delta)) % 256,
    );
    lemma_channel_added(pixel::red(raw), pixel::red(delta));
    lemma_channel_added(pixel::green(raw), pixel::green(delta));
    lemma_channel_added(pixel::blue(raw), pixel::blue(delta));
    pixel::lemma_argb(
        255,
        255 - (pixel::red(raw) + pixel::red(delta)) % 256,
        255 - (pixel::green(raw) + pixel::green(delta)) % 256,
        255 - (pixel::blue(raw) + pixel::blue(delta)) % 256,
    );
}

/// A lifted pixel is opaque, and no channel of it shows darker than in the window.
pub proof fn law_lifted_pixel_glows(raw: u32, delta: u32)
    requires
        is_lift(delta),
    ensures
        ({
            let seen = tinted(raw, delta);
            &&& pixel::alpha(seen) == 255
            &&& pixel::red(seen) >= 255 - pixel::red(raw)
            &&& pixel::green(seen) >= 255 - pixel::green(raw)
            &&& pixel::blue(seen) >= 255 - pixel::blue(raw)
        }),
{
    pixel::lemma_channels(raw);
    law_lift_brightens(255 - pixel::red(raw));
    law_lift_brightens(255 - pixel::green(raw));
    law_lift_brightens(255 - pixel::blue(raw));
    pixel::lemma_argb(
        255,
        lifted(255 - pixel::red(raw)),
        lifted(255 - pixel::green(raw)),
        lifted(255 - pixel::blue(raw)),
    );
}

/// The lift is the rounded root: no other byte is nearer to `sqrt(v / 255) * 255`, and brighter
/// channels are lifted further.
pub proof fn law_lift_is_the_rounded_root(v: int, w: int)
    requires
        0 <= v <= w <= 255,
    ensures
        ({
            let t = lifted(v);
            &&& t == 0 || (2 * t - 1) * (2 * t - 1) <= 4 * (255 * v)
            &&& 4 * (255 * v) <= (2 * t + 1) * (2 * t + 1)
            &&& lifted(v) <= lifted(w)
        }),
{
    lemma_rounded_root(255 * v, 0);
    lemma_rounded_root(255 * w, 0);
    let t = lifted(v);
    let u = lifted(w);
    let n = 255 * v;
    assert((2 * t - 1) * (2 * t - 1) == 4 * ((t - 1) * t) + 1) by (nonlinear_arith);
    assert((2 * t + 1) * (2 * t + 1) == 4 * (t * (t + 1)) + 1) by (nonlinear_arith);
    assert(n <= t * (t + 1));
    assert(t == 0 || (t - 1) * t <= n - 1);
    if u < t {
        assert(u * (u + 1) <= (t - 1) * t) by (nonlinear_arith)
            requires
                0 <= u < t,
        ;
    }
}

/// The pass writes window pixel `(x, y)` to the screen pixel as far right and down of it as the window
/// is. It does so where the pixel's identifier is tinted now or was before and its box, if it has one,
/// holds the pixel, and leaves the screen pixel alone otherwise.
pub proof fn law_overlay_follows_the_hit_map(
    old_px: u32,
    pl: Placement,
    scratch: Seq<u32>,
    hits: Seq<HitId>,
    deltas: Seq<u32>,
    bboxes: Seq<Option<PixelRect>>,
    last: Seq<bool>,
    x: int,
    y: int,
)
    requires
        0 <= x < pl.win_w,
        0 <= y < pl.win_h,
        0 <= x + pl.ox < pl.scr_w,
        0 <= y + pl.oy < pl.scr_h,
    ensures
        ({
            let at = y * pl.win_w + x;
            let id = hits[at] as int;
            let touched = id < deltas.len() && (deltas[id] != 0 || last[id]) && match bboxes[id] {
                Some(r) => id < bboxes.len() ==> r.x0 <= x < r.x1 && r.y0 <= y < r.y1,
                None => true,
            };
            overlay_px(
                old_px,
                (y + pl.oy) * pl.scr_w + (x + pl.ox),
                pl,
                scratch,
                hits,
                deltas,
                bboxes,
                last,
            ) == (if touched {
                tinted(scratch[at], deltas[id])
            } else {
                old_px
            })
        }),
{
    canvas::lemma_cell(x + pl.ox, y + pl.oy, pl.scr_w);
}

} // verus!
