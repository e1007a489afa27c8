//! The boundary to the screen: darkness becomes visible RGB, the window's clip mask scales opacity,
//! and RGB is premultiplied. Also the wrap-around shift of the finished screen.
use crate::canvas::{self, PixelRect};
use crate::paint::flatten;
use crate::pixel;
use crate::simd::{self, LANES};
use vstd::prelude::*;

verus! {

/// Show the opacity as grey.
pub const DEBUG_SHOW_ALPHA_GRAYSCALE: u8 = 1;

/// Show the colour with full opacity.
pub const DEBUG_SHOW_ALPHA_FORCE_OPAQUE: u8 = 2;

/// No opacity view.
pub const DEBUG_SHOW_ALPHA_OFF: u8 = 0;

/// The debug switches that the boundary passes look at.
#[derive(Clone, Copy, Debug, PartialEq, Eq, Structural)]
pub struct DebugFlags {
    /// One of the `DEBUG_SHOW_ALPHA_` values.
    pub show_alpha: u8,
    /// Show colours as they are, fully opaque.
    pub show_hitmask: bool,
    /// Leave RGB unscaled.
    pub skip_premult: bool,
    /// Tint the pixels that an incremental pass copies.
    pub show_opaque_scan: bool,
}

impl DebugFlags {
    /// The opacity view in force.
    pub open spec fn mode(self) -> u8 {
        if self.show_hitmask {
            DEBUG_SHOW_ALPHA_FORCE_OPAQUE
        } else {
            self.show_alpha
        }
    }

    /// An opacity view is in force.
    pub open spec fn debugging(self) -> bool {
        self.mode() == DEBUG_SHOW_ALPHA_GRAYSCALE || self.mode() == DEBUG_SHOW_ALPHA_FORCE_OPAQUE
    }

    /// All switches off.
    pub fn none() -> (f: DebugFlags)
        ensures
            !f.debugging(),
            !f.skip_premult,
            !f.show_opaque_scan,
            !f.show_hitmask,
            f.show_alpha == DEBUG_SHOW_ALPHA_OFF,
    {
        DebugFlags {
            show_alpha: DEBUG_SHOW_ALPHA_OFF,
            show_hitmask: false,
            skip_premult: false,
            show_opaque_scan: false,
        }
    }

    fn effective_mode(self) -> (m: u8)
        ensures
            m == self.mode(),
    {
        if self.show_hitmask {
            DEBUG_SHOW_ALPHA_FORCE_OPAQUE
        } else {
            self.show_alpha
        }
    }
}

/// The opacity of a pixel behind the clip mask value `m`.
pub open spec fn clipped_alpha(p: u32, m: u8) -> int {
    (pixel::alpha(p) * m) / 256
}

/// The pixel that goes to the screen: visible RGB, premultiplied unless `skip`.
pub open spec fn final_px(p: u32, m: u8, skip: bool) -> u32 {
    let a = clipped_alpha(p, m);
    let s = if skip {
        256
    } else {
        a
    };
    pixel::argb(
        a,
        ((255 - pixel::red(p)) * s) / 256,
        ((255 - pixel::green(p)) * s) / 256,
        ((255 - pixel::blue(p)) * s) / 256,
    )
}

/// The pixel that an opacity view shows.
pub open spec fn debug_px(p: u32, m: u8, mode: u8) -> u32 {
    if mode == DEBUG_SHOW_ALPHA_GRAYSCALE {
        let a = clipped_alpha(p, m);
        pixel::argb(255, a, a, a)
    } else {
        pixel::argb(255, 255 - pixel::red(p), 255 - pixel::green(p), 255 - pixel::blue(p))
    }
}

/// The pixel that the boundary makes of `p` under the given switches.
pub open spec fn boundary_px(p: u32, m: u8, f: DebugFlags) -> u32 {
    if f.debugging() {
        debug_px(p, m, f.mode())
    } else {
        final_px(p, m, f.skip_premult)
    }
}

/// Flipping the low 24 bits complements the three RGB bytes.
pub proof fn lemma_flip(p: u32)
    ensures
        pixel::alpha(p ^ 0x00FF_FFFF) == pixel::alpha(p),
        pixel::red(p ^ 0x00FF_FFFF) == 255 - pixel::red(p),
        pixel::green(p ^ 0x00FF_FFFF) == 255 - pixel::green(p),
        pixel::blue(p ^ 0x00FF_FFFF) == 255 - pixel::blue(p),
        (p ^ 0x00FF_FFFF) ^ 0x00FF_FFFF == p,
{
    let q: u32 = p ^ 0x00FF_FFFF;
    assert((q >> 24) == (p >> 24) && ((q >> 16) & 0xFF) == 255 - ((p >> 16) & 0xFF) && ((q >> 8)
        & 0xFF) == 255 - ((p >> 8) & 0xFF) && (q & 0xFF) == 255 - (p & 0xFF) && (q ^ 0x00FF_FFFFu32)
        == p) by (bit_vector)
        requires
            q == p ^ 0x00FF_FFFFu32,
    ;
}

/// The bytes of a finished pixel stay bytes.
proof fn lemma_final_bytes(p: u32, m: u8, s: int)
    requires
        0 <= s <= 256,
    ensures
        0 <= pixel::alpha(p) * m <= 65280,
        0 <= clipped_alpha(p, m) <= 255,
        0 <= (255 - pixel::red(p)) * s <= 65280,
        0 <= (255 - pixel::green(p)) * s <= 65280,
        0 <= (255 - pixel::blue(p)) * s <= 65280,
        0 <= ((255 - pixel::red(p)) * s) / 256 <= 255,
        0 <= ((255 - pixel::green(p)) * s) / 256 <= 255,
        0 <= ((255 - pixel::blue(p)) * s) / 256 <= 255,
{
    pixel::lemma_channels(p);
    pixel::lemma_scaled(pixel::alpha(p), m as int, 255);
    pixel::lemma_scaled(255 - pixel::red(p), s, 255);
    pixel::lemma_scaled(255 - pixel::green(p), s, 255);
    pixel::lemma_scaled(255 - pixel::blue(p), s, 255);
}

/// Opacity only shrinks at the boundary, and premultiplied RGB never exceeds it: an edge pixel adds
/// no light beyond its coverage.
pub proof fn law_boundary_is_premultiplied(p: u32, m: u8)
    ensures
        pixel::alpha(final_px(p, m, false)) <= pixel::alpha(p),
        pixel::dark_within_alpha(final_px(p, m, false)),
{
    let a = clipped_alpha(p, m);
    pixel::lemma_channels(p);
    pixel::lemma_scaled(pixel::alpha(p), m as int, 255);
    lemma_final_bytes(p, m, a);
    lemma_premult_channel(255 - pixel::red(p), a);
    lemma_premult_channel(255 - pixel::green(p), a);
    lemma_premult_channel(255 - pixel::blue(p), a);
    pixel::lemma_argb(
        a,
        ((255 - pixel::red(p)) * a) / 256,
        ((255 - pixel::green(p)) * a) / 256,
        ((255 - pixel::blue(p)) * a) / 256,
    );
}

proof fn lemma_premult_channel(c: int, a: int)
    requires
        0 <= c <= 255,
        0 <= a <= 255,
    ensures
        0 <= (c * a) / 256 <= a,
{
    assert(0 <= c * a <= 255 * a) by (nonlinear_arith)
        requires
            0 <= c <= 255,
            0 <= a,
    ;
}

/// Flipping darkness to visible RGB and back gives the same pixel, and leaves opacity alone.
pub proof fn law_flip_is_its_own_inverse(p: u32)
    ensures
        (p ^ 0x00FF_FFFF) ^ 0x00FF_FFFF == p,
        pixel::alpha(p ^ 0x00FF_FFFF) == pixel::alpha(p),
{
    lemma_flip(p);
}

/// One pixel through the boundary.
fn finalize_one(p: u32, m: u8, skip: bool) -> (q: u32)
    ensures
        q == final_px(p, m, skip),
{
    let v: u32 = p ^ 0x00FF_FFFF;
    let a0: u32 = pixel::alpha_of(v);
    let (r, g, b) = pixel::rgb_of(v);
    proof {
        lemma_flip(p);
        lemma_final_bytes(p, m, 0);
    }
    let a: u32 = pixel::scale(a0, m as u32);
    let s: u32 = if skip {
        256
    } else {
        a
    };
    proof {
        lemma_final_bytes(p, m, s as int);
    }
    pixel::assemble(a, pixel::scale(r, s), pixel::scale(g, s), pixel::scale(b, s))
}

/// One pixel through an opacity view.
fn debug_one(p: u32, m: u8, mode: u8) -> (q: u32)
    ensures
        q == debug_px(p, m, mode),
{
    proof {
        lemma_flip(p);
        lemma_final_bytes(p, m, 0);
    }
    if mode == DEBUG_SHOW_ALPHA_GRAYSCALE {
        let a: u32 = pixel::scale(pixel::alpha_of(p), m as u32);
        pixel::assemble(0xFF, a, a, a)
    } else {
        let (r, g, b) = pixel::rgb_of(p ^ 0x00FF_FFFF);
        pixel::assemble(0xFF, r, g, b)
    }
}

/// One lane of the boundary, in the order in which the vector code computes it.
proof fn lemma_final_lane(p: u32, m: u8, skip: bool)
    ensures
        ({
            let v: u32 = p ^ 0x00FF_FFFF;
            let a: u32 = ((((v >> 24) & 0xFF) * (m as u32)) as u32) >> 8;
            let s: u32 = if skip {
                256u32
            } else {
                a
            };
            let r: u32 = ((((v >> 16) & 0xFF) * s) as u32) >> 8;
            let g: u32 = ((((v >> 8) & 0xFF) * s) as u32) >> 8;
            let b: u32 = (((v & 0xFF) * s) as u32) >> 8;
            ((a << 24) | (r << 16) | (g << 8) | b) == final_px(p, m, skip)
        }),
{
    let v: u32 = p ^ 0x00FF_FFFF;
    lemma_flip(p);
    assert(((v >> 24) & 0xFF) == (v >> 24)) by (bit_vector);
    lemma_final_bytes(p, m, 0);
    pixel::lemma_shr8((pixel::alpha(p) * m) as u32);
    let a: u32 = ((((v >> 24) & 0xFF) * (m as u32)) as u32) >> 8;
    let s: u32 = if skip {
        256u32
    } else {
        a
    };
    lemma_final_bytes(p, m, s as int);
    pixel::lemma_shr8(((255 - pixel::red(p)) * s) as u32);
    pixel::lemma_shr8(((255 - pixel::green(p)) * s) as u32);
    pixel::lemma_shr8(((255 - pixel::blue(p)) * s) as u32);
}

/// The boundary on eight pixels at once; every lane gives what the scalar code gives.
fn finalize_x8(raw: wide::u32x8, m: &[u8; 8], skip: bool) -> (out: wide::u32x8)
    ensures
        simd::lanes(out) == Seq::new(8, |i: int| final_px(simd::lanes(raw)[i], m@[i], skip)),
{
    let mask_ff = simd::splat(0xFF);
    let v = simd::lanes_xor(raw, simd::splat(0x00FF_FFFF));
    let mv = simd::from_array(
        [
            m[0] as u32,
            m[1] as u32,
            m[2] as u32,
            m[3] as u32,
            m[4] as u32,
            m[5] as u32,
            m[6] as u32,
            m[7] as u32,
        ],
    );
    let inner_a = simd::lanes_and(simd::lanes_shr(v, 24), mask_ff);
    let final_a = simd::lanes_shr(simd::lanes_mul(inner_a, mv), 8);
    let s = if skip {
        simd::splat(256)
    } else {
        final_a
    };
    let r = simd::lanes_shr(
        simd::lanes_mul(simd::lanes_and(simd::lanes_shr(v, 16), mask_ff), s),
        8,
    );
    let g = simd::lanes_shr(
        simd::lanes_mul(simd::lanes_and(simd::lanes_shr(v, 8), mask_ff), s),
        8,
    );
    let b = simd::lanes_shr(simd::lanes_mul(simd::lanes_and(v, mask_ff), s), 8);
    let out = simd::lanes_or(
        simd::lanes_or(
            simd::lanes_or(simd::lanes_shl(final_a, 24), simd::lanes_shl(r, 16)),
            simd::lanes_shl(g, 8),
        ),
        b,
    );
    proof {
        assert forall|i: int| 0 <= i < 8 implies #[trigger] simd::lanes(out)[i] == final_px(
            simd::lanes(raw)[i],
            m@[i],
            skip,
        ) by {
            lemma_final_lane(simd::lanes(raw)[i], m@[i], skip);
        }
        assert(simd::lanes(out) =~= Seq::new(
            8,
            |i: int| final_px(simd::lanes(raw)[i], m@[i], skip),
        ));
    }
    out
}

/// Reads eight clip mask values.
fn load_mask(clip: &[u8], at: usize) -> (m: [u8; 8])
    requires
        at + 8 <= clip@.len(),
    ensures
        m@ == clip@.subrange(at as int, at + 8),
{
    let m: [u8; 8] = [
        clip[at],
        clip[at + 1],
        clip[at + 2],
        clip[at + 3],
        clip[at + 4],
        clip[at + 5],
        clip[at + 6],
        clip[at + 7],
    ];
    assert(m@ =~= clip@.subrange(at as int, at + 8));
    m
}

/// Finishes the pixels of a buffer for the screen, in place, as far as the clip mask reaches.
pub fn finalize_for_os(pixels: &mut [u32], clip_mask: &[u8], flags: DebugFlags)
    ensures
        final(pixels)@.len() == old(pixels)@.len(),
        forall|i: int|
            0 <= i < old(pixels)@.len() ==> #[trigger] final(pixels)@[i] == (if i
                < clip_mask@.len() {
                boundary_px(old(pixels)@[i], clip_mask@[i], flags)
            } else {
                old(pixels)@[i]
            }),
{
    let n: usize = canvas::lesser(pixels.len(), clip_mask.len());
    let ghost before = pixels@;
    let mode: u8 = flags.effective_mode();
    let debugging: bool = mode == DEBUG_SHOW_ALPHA_GRAYSCALE || mode
        == DEBUG_SHOW_ALPHA_FORCE_OPAQUE;
    let mut i: usize = 0;
    if !debugging {
        while LANES <= n - i
            invariant
                i <= n,
                n <= clip_mask@.len(),
                n <= before.len(),
                !flags.debugging(),
                pixels@.len() == before.len(),
                forall|k: int|
                    0 <= k < before.len() ==> #[trigger] pixels@[k] == (if k < i {
                        boundary_px(before[k], clip_mask@[k], flags)
                    } else {
                        before[k]
                    }),
            decreases n - i,
        {
            let raw = flatten::load_lanes(pixels, i);
            let m = load_mask(clip_mask, i);
            let out: [u32; 8] = simd::to_array(finalize_x8(raw, &m, flags.skip_premult));
            flatten::store_lanes(pixels, i, &out);
            i += LANES;
        }
    }
    while i < n
        invariant
            i <= n,
            n <= clip_mask@.len(),
            n <= before.len(),
            mode == flags.mode(),
            debugging == flags.debugging(),
            pixels@.len() == before.len(),
            forall|k: int|
                0 <= k < before.len() ==> #[trigger] pixels@[k] == (if k < i {
                    boundary_px(before[k], clip_mask@[k], flags)
                } else {
                    before[k]
                }),
        decreases n - i,
    {
        pixels[i] = if debugging {
            debug_one(pixels[i], clip_mask[i], mode)
        } else {
            finalize_one(pixels[i], clip_mask[i], flags.skip_premult)
        };
        i += 1;
    }
}

/// A window on the screen: its size, the place of its top left corner, and the part of it, in window
/// coordinates, that is copied.
pub struct Blit {
    pub win_w: int,
    pub rect_x: int,
    pub rect_y: int,
    pub sx_min: int,
    pub sx_max: int,
    pub sy_min: int,
    pub sy_max: int,
}

/// The part of a window that lies on a screen of `scr_w` by `scr_h` and inside the damage.
pub open spec fn blit_of(
    win_w: int,
    win_h: int,
    scr_w: int,
    scr_h: int,
    rect_x: int,
    rect_y: int,
    damage: PixelRect,
) -> Blit {
    Blit {
        win_w,
        rect_x,
        rect_y,
        sx_min: vstd::math::max(vstd::math::max(-rect_x, 0), damage.x0 as int),
        sx_max: vstd::math::min(
            vstd::math::min(win_w, vstd::math::max(scr_w - rect_x, 0)),
            damage.x1 as int,
        ),
        sy_min: vstd::math::max(vstd::math::max(-rect_y, 0), damage.y0 as int),
        sy_max: vstd::math::min(
            vstd::math::min(win_h, vstd::math::max(scr_h - rect_y, 0)),
            damage.y1 as int,
        ),
    }
}

/// Column `sx` of window row `sy` lies between two fully unclipped cells of the copied part of its
/// row, or is one.
pub open spec fn in_opaque_span(clip: Seq<u8>, b: Blit, sx: int, sy: int) -> bool {
    (exists|l: int| b.sx_min <= l <= sx && #[trigger] clip[sy * b.win_w + l] == 255) && (exists|r: int|
        sx <= r < b.sx_max && #[trigger] clip[sy * b.win_w + r] == 255)
}

/// A pixel with 16 added to its blue byte, at most 255.
pub open spec fn scan_tint(p: u32) -> u32 {
    pixel::argb(
        pixel::alpha(p),
        pixel::red(p),
        pixel::green(p),
        vstd::math::min(pixel::blue(p) + 16, 255),
    )
}

/// Screen pixel `i` after a window was copied. An incremental copy takes of each row only what lies
/// between its first and its last unclipped cell.
pub open spec fn screen_px(
    old_px: u32,
    i: int,
    scr_w: int,
    scratch: Seq<u32>,
    clip: Seq<u8>,
    b: Blit,
    full: bool,
    f: DebugFlags,
) -> u32 {
    let sx = canvas::col_of(i, scr_w) - b.rect_x;
    let sy = canvas::row_of(i, scr_w) - b.rect_y;
    if b.sx_min <= sx < b.sx_max && b.sy_min <= sy < b.sy_max {
        let at = sy * b.win_w + sx;
        if f.debugging() || full {
            boundary_px(scratch[at], clip[at], f)
        } else if in_opaque_span(clip, b, sx, sy) {
            if f.show_opaque_scan {
                scan_tint(boundary_px(scratch[at], clip[at], f))
            } else {
                boundary_px(scratch[at], clip[at], f)
            }
        } else {
            old_px
        }
    } else {
        old_px
    }
}

/// Copies `len` pixels from `src_at` on, finished for the screen, to `dst_at` on.
fn finalize_run(
    dst: &mut [u32],
    dst_at: usize,
    src: &[u32],
    clip: &[u8],
    src_at: usize,
    len: usize,
    flags: DebugFlags,
)
    requires
        dst_at + len <= old(dst)@.len(),
        src_at + len <= src@.len(),
        src_at + len <= clip@.len(),
    ensures
        final(dst)@.len() == old(dst)@.len(),
        forall|i: int|
            0 <= i < old(dst)@.len() ==> #[trigger] final(dst)@[i] == (if dst_at <= i < dst_at + len {
                boundary_px(src@[src_at + (i - dst_at)], clip@[src_at + (i - dst_at)], flags)
            } else {
                old(dst)@[i]
            }),
{
    let ghost before = dst@;
    let n: usize = dst.len();
    let src_n: usize = src.len();
    let clip_n: usize = clip.len();
    let mode: u8 = flags.effective_mode();
    let debugging: bool = mode == DEBUG_SHOW_ALPHA_GRAYSCALE || mode
        == DEBUG_SHOW_ALPHA_FORCE_OPAQUE;
    let mut k: usize = 0;
    if !debugging {
        while LANES <= len - k
            invariant
                k <= len,
                n == before.len(),
                n == dst@.len(),
                src_n == src@.len(),
                clip_n == clip@.len(),
                dst_at + len <= n,
                src_at + len <= src_n,
                src_at + len <= clip_n,
                !flags.debugging(),
                forall|i: int|
                    0 <= i < before.len() ==> #[trigger] dst@[i] == (if dst_at <= i < dst_at + k {
                        boundary_px(
                            src@[src_at + (i - dst_at)],
                            clip@[src_at + (i - dst_at)],
                            flags,
                        )
                    } else {
                        before[i]
                    }),
            decreases len - k,
        {
            let raw = flatten::load_lanes(src, src_at + k);
            let m = load_mask(clip, src_at + k);
            let out: [u32; 8] = simd::to_array(finalize_x8(raw, &m, flags.skip_premult));
            flatten::store_lanes(dst, dst_at + k, &out);
            k += LANES;
        }
    }
    while k < len
        invariant
            k <= len,
            n == before.len(),
            n == dst@.len(),
            src_n == src@.len(),
            clip_n == clip@.len(),
            dst_at + len <= n,
            src_at + len <= src_n,
            src_at + len <= clip_n,
            mode == flags.mode(),
            debugging == flags.debugging(),
            forall|i: int|
                0 <= i < before.len() ==> #[trigger] dst@[i] == (if dst_at <= i < dst_at + k {
                    boundary_px(src@[src_at + (i - dst_at)], clip@[src_at + (i - dst_at)], flags)
                } else {
                    before[i]
                }),
        decreases len - k,
    {
        dst[dst_at + k] = if debugging {
            debug_one(src[src_at + k], clip[src_at + k], mode)
        } else {
            finalize_one(src[src_at + k], clip[src_at + k], flags.skip_premult)
        };
        k += 1;
    }
}

/// The first and the end of the last cell with mask value 255 among `lo..hi`; `None` without one.
fn opaque_span(clip: &[u8], row: usize, lo: usize, hi: usize) -> (s: Option<(usize, usize)>)
    requires
        lo <= hi,
        row + hi <= clip@.len(),
    ensures
        match s {
            None => forall|k: int| lo <= k < hi ==> #[trigger] clip@[row + k] != 255,
            Some((l, r)) => {
                &&& lo <= l < r <= hi
                &&& clip@[row + l] == 255
                &&& clip@[row + r - 1] == 255
                &&& forall|k: int| lo <= k < l ==> #[trigger] clip@[row + k] != 255
                &&& forall|k: int| r <= k < hi ==> #[trigger] clip@[row + k] != 255
            },
        },
{
    let n: usize = clip.len();
    let mut l: usize = lo;
    while l < hi && clip[row + l] != 255
        invariant
            n == clip@.len(),
            row + hi <= n,
            lo <= l <= hi,
            forall|k: int| lo <= k < l ==> #[trigger] clip@[row + k] != 255,
        decreases hi - l,
    {
        l += 1;
    }
    if l == hi {
        return None;
    }
    let mut r: usize = hi;
    while r > l && clip[row + r - 1] != 255
        invariant
            n == clip@.len(),
            row + hi <= n,
            lo <= l < hi,
            l < r <= hi,
            clip@[row + l] == 255,
            forall|k: int| r <= k < hi ==> #[trigger] clip@[row + k] != 255,
        decreases r,
    {
        r -= 1;
    }
    Some((l, r))
}

/// Adds the scan tint to `len` pixels from `at` on.
fn tint_run(dst: &mut [u32], at: usize, len: usize)
    requires
        at + len <= old(dst)@.len(),
    ensures
        final(dst)@.len() == old(dst)@.len(),
        forall|i: int|
            0 <= i < old(dst)@.len() ==> #[trigger] final(dst)@[i] == (if at <= i < at + len {
                scan_tint(old(dst)@[i])
            } else {
                old(dst)@[i]
            }),
{
    let ghost before = dst@;
    let n: usize = dst.len();
    let mut k: usize = 0;
    while k < len
        invariant
            k <= len,
            n == dst@.len(),
            n == before.len(),
            at + len <= n,
            forall|i: int|
                0 <= i < before.len() ==> #[trigger] dst@[i] == (if at <= i < at + k {
                    scan_tint(before[i])
                } else {
                    before[i]
                }),
        decreases len - k,
    {
        let p: u32 = dst[at + k];
        let a: u32 = pixel::alpha_of(p);
        let (r, g, b) = pixel::rgb_of(p);
        dst[at + k] = pixel::assemble(
            a,
            r,
            g,
            if b + 16 < 255 {
                b + 16
            } else {
                255
            },
        );
        k += 1;
    }
}

/// Finishes a window for the screen and copies it there, as far as it lies on the screen and inside
/// the damage. The window is left as it is. A full repaint copies every such pixel; otherwise each
/// row is copied from its first to its last unclipped cell only.
pub fn finalize_into_screen(
    scratch: &[u32],
    clip_mask: &[u8],
    win_w: usize,
    win_h: usize,
    screen: &mut [u32],
    scr_w: usize,
    rect_x: i32,
    rect_y: i32,
    damage_clip: PixelRect,
    full_repaint: bool,
    flags: DebugFlags,
)
    requires
        win_w * win_h <= scratch@.len(),
        win_w * win_h <= clip_mask@.len(),
    ensures
        final(screen)@.len() == old(screen)@.len(),
        forall|i: int|
            0 <= i < old(screen)@.len() ==> #[trigger] final(screen)@[i] == (if scr_w == 0
                || damage_clip.empty() {
                old(screen)@[i]
            } else {
                screen_px(
                    old(screen)@[i],
                    i,
                    scr_w as int,
                    scratch@,
                    clip_mask@,
                    blit_of(
                        win_w as int,
                        win_h as int,
                        scr_w as int,
                        old(screen)@.len() as int / scr_w as int,
                        rect_x as int,
                        rect_y as int,
                        damage_clip,
                    ),
                    full_repaint,
                    flags,
                )
            }),
{
    if scr_w == 0 || damage_clip.is_empty() {
        return;
    }
    let scr_h: usize = screen.len() / scr_w;
    let ghost before = screen@;
    let n: usize = screen.len();
    let scratch_n: usize = scratch.len();
    let clip_n: usize = clip_mask.len();
    let ghost b = blit_of(
        win_w as int,
        win_h as int,
        scr_w as int,
        scr_h as int,
        rect_x as int,
        rect_y as int,
        damage_clip,
    );
    let rx: i128 = rect_x as i128;
    let ry: i128 = rect_y as i128;
    let sx_min: usize = later_of(-rx, damage_clip.x0);
    let sy_min: usize = later_of(-ry, damage_clip.y0);
    let sx_max: usize = sooner_of(win_w, scr_w as i128 - rx, damage_clip.x1);
    let sy_max: usize = sooner_of(win_h, scr_h as i128 - ry, damage_clip.y1);
    if sy_min >= sy_max || sx_min >= sx_max {
        return;
    }
    let row_len: usize = sx_max - sx_min;
    let dst_x: usize = (rx + sx_min as i128) as usize;
    let mode: u8 = flags.effective_mode();
    let whole: bool = full_repaint || mode == DEBUG_SHOW_ALPHA_GRAYSCALE || mode
        == DEBUG_SHOW_ALPHA_FORCE_OPAQUE;
    proof {
        canvas::lemma_grid(scr_w as int);
        vstd::arithmetic::div_mod::lemma_fundamental_div_mod(n as int, scr_w as int);
    }
    let mut sy: usize = sy_min;
    while sy < sy_max
        invariant
            0 < scr_w,
            n == before.len(),
            n == screen@.len(),
            scr_w * scr_h <= n,
            scratch_n == scratch@.len(),
            clip_n == clip_mask@.len(),
            win_w * win_h <= scratch_n,
            win_w * win_h <= clip_n,
            b.win_w == win_w,
            b.rect_x == rect_x,
            b.rect_y == rect_y,
            b.sx_min == sx_min,
            b.sx_max == sx_max,
            b.sy_min == sy_min,
            b.sy_max == sy_max,
            ry == rect_y,
            sx_min < sx_max <= win_w,
            sy_min <= sy <= sy_max <= win_h,
            0 <= rect_x + sx_min,
            rect_x + sx_max <= scr_w,
            0 <= rect_y + sy_min,
            rect_y + sy_max <= scr_h,
            row_len == sx_max - sx_min,
            dst_x == rect_x + sx_min,
            whole == (full_repaint || flags.debugging()),
            forall|i: int|
                #![trigger canvas::row_of(i, scr_w as int)]
                #![trigger canvas::col_of(i, scr_w as int)]
                i == canvas::row_of(i, scr_w as int) * scr_w + canvas::col_of(i, scr_w as int) && 0
                    <= canvas::col_of(i, scr_w as int) < scr_w && (i >= 0 ==> canvas::row_of(
                    i,
                    scr_w as int,
                ) >= 0),
            forall|i: int|
                0 <= i < n ==> #[trigger] screen@[i] == (if canvas::row_of(i, scr_w as int)
                    < rect_y + sy {
                    screen_px(
                        before[i],
                        i,
                        scr_w as int,
                        scratch@,
                        clip_mask@,
                        b,
                        full_repaint,
                        flags,
                    )
                } else {
                    before[i]
                }),
        decreases sy_max - sy,
    {
        let dst_y: usize = (ry + sy as i128) as usize;
        proof {
            canvas::lemma_cell_bound(dst_x as int, dst_y as int, scr_w as int, scr_h as int);
            canvas::lemma_cell_bound(sx_min as int, sy as int, win_w as int, win_h as int);
        }
        let dst_row: usize = dst_y * scr_w;
        let src_row: usize = sy * win_w;
        let ghost prev = screen@;
        if whole {
            finalize_run(
                screen,
                dst_row + dst_x,
                scratch,
                clip_mask,
                src_row + sx_min,
                row_len,
                flags,
            );
            proof {
                lemma_row_done(
                    before,
                    prev,
                    screen@,
                    scr_w as int,
                    scratch@,
                    clip_mask@,
                    b,
                    full_repaint,
                    flags,
                    sy as int,
                    sx_min as int,
                    sx_max as int,
                );
            }
        } else {
            match opaque_span(clip_mask, src_row, sx_min, sx_max) {
                None => {
                    proof {
                        lemma_row_done(
                            before,
                            prev,
                            screen@,
                            scr_w as int,
                            scratch@,
                            clip_mask@,
                            b,
                            full_repaint,
                            flags,
                            sy as int,
                            sx_min as int,
                            sx_min as int,
                        );
                    }
                },
                Some((l, r)) => {
                    let at: usize = dst_row + dst_x + (l - sx_min);
                    finalize_run(screen, at, scratch, clip_mask, src_row + l, r - l, flags);
                    if flags.show_opaque_scan {
                        tint_run(screen, at, r - l);
                    }
                    proof {
                        lemma_row_done(
                            before,
                            prev,
                            screen@,
                            scr_w as int,
                            scratch@,
                            clip_mask@,
                            b,
                            full_repaint,
                            flags,
                            sy as int,
                            l as int,
                            r as int,
                        );
                    }
                },
            }
        }
        sy += 1;
    }
}

/// A window row that was copied from column `l` to column `r` is finished.
#[verifier::rlimit(40)]
proof fn lemma_row_done(
    before: Seq<u32>,
    prev: Seq<u32>,
    now: Seq<u32>,
    scr_w: int,
    scratch: Seq<u32>,
    clip: Seq<u8>,
    b: Blit,
    full: bool,
    f: DebugFlags,
    sy: int,
    l: int,
    r: int,
)
    requires
        0 < scr_w,
        before.len() == prev.len(),
        before.len() == now.len(),
        0 <= b.rect_x + b.sx_min,
        b.rect_x + b.sx_max <= scr_w,
        b.sx_min <= l <= r <= b.sx_max,
        b.sy_min <= sy < b.sy_max,
        0 <= b.rect_y + sy,
        full || f.debugging() ==> l == b.sx_min && r == b.sx_max,
        !(full || f.debugging()) ==> {
            &&& forall|k: int| b.sx_min <= k < l ==> #[trigger] clip[sy * b.win_w + k] != 255
            &&& forall|k: int| r <= k < b.sx_max ==> #[trigger] clip[sy * b.win_w + k] != 255
            &&& l < r ==> clip[sy * b.win_w + l] == 255 && clip[sy * b.win_w + r - 1] == 255
            &&& l == r ==> forall|k: int|
                b.sx_min <= k < b.sx_max ==> #[trigger] clip[sy * b.win_w + k] != 255
        },
        forall|i: int|
            0 <= i < before.len() ==> #[trigger] prev[i] == (if canvas::row_of(i, scr_w) < b.rect_y
                + sy {
                screen_px(before[i], i, scr_w, scratch, clip, b, full, f)
            } else {
                before[i]
            }),
        forall|i: int|
            0 <= i < before.len() ==> #[trigger] now[i] == ({
                let base = (b.rect_y + sy) * scr_w + b.rect_x;
                if base + l <= i < base + r {
                    let at = sy * b.win_w + (i - base);
                    if f.show_opaque_scan && !full && !f.debugging() {
                        scan_tint(boundary_px(scratch[at], clip[at], f))
                    } else {
                        boundary_px(scratch[at], clip[at], f)
                    }
                } else {
                    prev[i]
                }
            }),
    ensures
        forall|i: int|
            0 <= i < before.len() ==> #[trigger] now[i] == (if canvas::row_of(i, scr_w) < b.rect_y
                + sy + 1 {
                screen_px(before[i], i, scr_w, scratch, clip, b, full, f)
            } else {
                before[i]
            }),
{
    canvas::lemma_grid(scr_w);
    let y = b.rect_y + sy;
    let base = y * scr_w + b.rect_x;
    assert forall|i: int| 0 <= i < before.len() implies #[trigger] now[i] == (if canvas::row_of(
        i,
        scr_w,
    ) < b.rect_y + sy + 1 {
        screen_px(before[i], i, scr_w, scratch, clip, b, full, f)
    } else {
        before[i]
    }) by {
        let row = canvas::row_of(i, scr_w);
        let col = canvas::col_of(i, scr_w);
        assert(i == row * scr_w + col);
        if row == y {
            let sx = col - b.rect_x;
            assert(i - base == sx);
            if !(full || f.debugging()) && b.sx_min <= sx < b.sx_max {
                if l <= sx < r {
                    assert(clip[sy * b.win_w + l] == 255);
                    assert(clip[sy * b.win_w + (r - 1)] == 255);
                    assert(in_opaque_span(clip, b, sx, sy));
                } else {
                    assert(!in_opaque_span(clip, b, sx, sy));
                }
            }
        } else {
            if base + l <= i < base + r {
                canvas::lemma_cell(i - base + b.rect_x, y, scr_w);
                assert(false);
            }
        }
    }
}

/// The later of a signed place, at least 0, and an unsigned one.
fn later_of(v: i128, u: usize) -> (r: usize)
    requires
        v <= u32::MAX,
    ensures
        r as int == vstd::math::max(vstd::math::max(v as int, 0), u as int),
{
    if v <= u as i128 {
        u
    } else {
        v as usize
    }
}

/// The sooner of a signed place, at least 0, and two unsigned ones.
fn sooner_of(a: usize, v: i128, u: usize) -> (r: usize)
    ensures
        r as int == vstd::math::min(
            vstd::math::min(a as int, vstd::math::max(v as int, 0)),
            u as int,
        ),
{
    let m: usize = if v < 0 {
        0
    } else if v < a as i128 {
        v as usize
    } else {
        a
    };
    canvas::lesser(m, u)
}

/// `q` is the part `s` of `c`, in parts of 256 with the rest dropped.
pub open spec fn part_in_256(q: int, c: int, s: int) -> bool {
    256 * q <= c * s < 256 * q + 256
}

/// What goes to the screen is visible RGB, the complement of darkness, scaled by the opacity that the
/// clip mask leaves; with scaling switched off it is the plain complement.
pub proof fn law_screen_pixel_is_visible(p: u32, m: u8)
    ensures
        ({
            let q = final_px(p, m, false);
            &&& part_in_256(pixel::alpha(q), pixel::alpha(p), m as int)
            &&& part_in_256(pixel::red(q), 255 - pixel::red(p), pixel::alpha(q))
            &&& part_in_256(pixel::green(q), 255 - pixel::green(p), pixel::alpha(q))
            &&& part_in_256(pixel::blue(q), 255 - pixel::blue(p), pixel::alpha(q))
        }),
        ({
            let q = final_px(p, m, true);
            &&& part_in_256(pixel::alpha(q), pixel::alpha(p), m as int)
            &&& pixel::red(q) == 255 - pixel::red(p)
            &&& pixel::green(q) == 255 - pixel::green(p)
            &&& pixel::blue(q) == 255 - pixel::blue(p)
        }),
{
    let a = clipped_alpha(p, m);
    pixel::lemma_channels(p);
    lemma_final_bytes(p, m, 0);
    lemma_final_bytes(p, m, a);
    lemma_final_bytes(p, m, 256);
    pixel::lemma_argb(
        a,
        ((255 - pixel::red(p)) * a) / 256,
        ((255 - pixel::green(p)) * a) / 256,
        ((255 - pixel::blue(p)) * a) / 256,
    );
    pixel::lemma_argb(a, 255 - pixel::red(p), 255 - pixel::green(p), 255 - pixel::blue(p));
}

/// The views of opacity are opaque themselves: one shows the clipped opacity as a grey, brighter for
/// more of it, the other the visible colour at full strength.
pub proof fn law_debug_views_are_opaque(p: u32, m: u8)
    ensures
        ({
            let q = debug_px(p, m, DEBUG_SHOW_ALPHA_GRAYSCALE);
            &&& pixel::alpha(q) == 255
            &&& pixel::red(q) == pixel::green(q) && pixel::green(q) == pixel::blue(q)
            &&& part_in_256(pixel::red(q), pixel::alpha(p), m as int)
        }),
        ({
            let q = debug_px(p, m, DEBUG_SHOW_ALPHA_FORCE_OPAQUE);
            &&& pixel::alpha(q) == 255
            &&& pixel::red(q) == 255 - pixel::red(p)
            &&& pixel::green(q) == 255 - pixel::green(p)
            &&& pixel::blue(q) == 255 - pixel::blue(p)
        }),
{
    let a = clipped_alpha(p, m);
    pixel::lemma_channels(p);
    lemma_final_bytes(p, m, 0);
    pixel::lemma_argb(255, a, a, a);
    pixel::lemma_argb(255, 255 - pixel::red(p), 255 - pixel::green(p), 255 - pixel::blue(p));
}

/// A window pixel lands as far right and down of its place in the window as the window is on the
/// screen. A full copy writes it wherever it is damaged, and leaves the screen alone where it is not;
/// an incremental one leaves a row alone outside its unclipped cells, and writes those.
pub proof fn law_window_lands_at_its_place(
    old_px: u32,
    win_w: int,
    win_h: int,
    scr_w: int,
    scr_h: int,
    rect_x: int,
    rect_y: int,
    damage: PixelRect,
    scratch: Seq<u32>,
    clip: Seq<u8>,
    full: bool,
    f: DebugFlags,
    sx: int,
    sy: int,
)
    requires
        0 <= sx < win_w,
        0 <= sy < win_h,
        0 <= sx + rect_x < scr_w,
        0 <= sy + rect_y < scr_h,
        !f.show_opaque_scan,
    ensures
        ({
            let b = blit_of(win_w, win_h, scr_w, scr_h, rect_x, rect_y, damage);
            let at = sy * win_w + sx;
            let q = screen_px(
                old_px,
                (sy + rect_y) * scr_w + (sx + rect_x),
                scr_w,
                scratch,
                clip,
                b,
                full,
                f,
            );
            let damaged = damage.x0 <= sx < damage.x1 && damage.y0 <= sy < damage.y1;
            &&& !damaged ==> q == old_px
            &&& damaged && full ==> q == boundary_px(scratch[at], clip[at], f)
            &&& damaged && clip[at] == 255 ==> q == boundary_px(scratch[at], clip[at], f)
            &&& q == old_px || q == boundary_px(scratch[at], clip[at], f)
        }),
{
    canvas::lemma_cell(sx + rect_x, sy + rect_y, scr_w);
    let at = sy * win_w + sx;
    let b = blit_of(win_w, win_h, scr_w, scr_h, rect_x, rect_y, damage);
    if clip[at] == 255 {
        assert(clip[sy * b.win_w + sx] == 255);
    }
}

} // verus!
