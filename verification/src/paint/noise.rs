//! The procedural background: each row is a chain of pseudo-random steps of colour, from the middle
//! outwards, laid under what is there.
use crate::canvas::{self, Canvas, PixelRect};
use crate::paint::clip::Clip;
use crate::paint::flatten;
use crate::pixel::{self, BlendMode};
use crate::theme::{BG_BASE, BG_MASK, BG_SPECKLE};
use vstd::prelude::*;

verus! {

/// Increment of the generator.
pub const NOISE_STEP: u64 = 12_345_678_942;

/// Start of the generator.
pub const NOISE_SEED: u64 = 0xDEAD_BEEF_0123_4567;

/// How the row number spreads over the seeds.
pub const NOISE_SPREAD: u64 = 0x9E37_79B9_4517_B397;

/// Below this the generator makes a speckle: one time in 256.
pub const NOISE_SPECKLE: u64 = 0x00FF_FFFF_FFFF_FFFF;

/// How many pixels of a row are made before they are laid down.
pub const NOISE_CHUNK: usize = 64;

/// The seed of a row.
pub open spec fn row_seed(logical_row: isize, height: usize) -> u64 {
    NOISE_SEED ^ (logical_row as i64 as u64).wrapping_sub((height as u64 / 2) as u64).wrapping_mul(
        NOISE_SPREAD,
    )
}

/// The generator after one step, to the right or to the left of the middle.
pub open spec fn next_rng(rng: u64, right: bool) -> u64 {
    let turned = (rng << 13) | (rng >> 51);
    rng ^ (if right {
        turned.wrapping_add(NOISE_STEP)
    } else {
        turned.wrapping_sub(NOISE_STEP)
    })
}

/// The colour after the step that made `rng`.
pub open spec fn next_colour(colour: u32, rng: u64) -> u32 {
    if rng < NOISE_SPECKLE {
        ((rng as u32) >> 8) & BG_SPECKLE
    } else {
        let up = colour.wrapping_add((rng as u32) & 0x0001_0101) & BG_MASK;
        up.wrapping_sub(((rng >> 5) as u32) & 0x0001_0101) & BG_MASK
    }
}

/// The colour that a row starts with.
pub open spec fn first_colour(seed: u64, shimmer: usize) -> u32 {
    (seed.wrapping_add(shimmer as u64) as u32) & BG_MASK
}

/// Generator and colour after `k` steps.
pub open spec fn chain(seed: u64, shimmer: usize, right: bool, k: nat) -> (u64, u32)
    decreases k,
{
    if k == 0 {
        (seed, first_colour(seed, shimmer))
    } else {
        let (rng, colour) = chain(seed, shimmer, right, (k - 1) as nat);
        let r = next_rng(rng, right);
        (r, next_colour(colour, r))
    }
}

/// The opaque stored pixel for a noise colour over a base colour.
pub open spec fn noise_px(colour: u32, base: u32) -> u32 {
    ((colour.wrapping_add(base) & 0x00FF_FFFF) ^ 0x00FF_FFFF) | 0xFF00_0000
}

/// The noise at column `x` of a row `width` wide.
pub open spec fn noise_at(seed: u64, shimmer: usize, base: u32, width: int, x: int) -> u32 {
    let middle = width / 2;
    if x >= middle {
        noise_px(chain(seed, shimmer, true, (x - middle + 1) as nat).1, base)
    } else {
        noise_px(chain(seed, shimmer, false, (middle - x) as nat).1, base)
    }
}

/// The buffer after noise went under the row that starts at cell `at`.
pub open spec fn noise_row(
    pixels: Seq<u32>,
    at: int,
    width: int,
    x_start: int,
    x_end: int,
    seed: u64,
    shimmer: usize,
    base: u32,
) -> Seq<u32> {
    Seq::new(
        pixels.len(),
        |i: int|
            if x_start <= i - at < x_end {
                pixel::under_px(
                    pixels[i],
                    noise_at(seed, shimmer, base, width, i - at),
                    BlendMode::Normal,
                )
            } else {
                pixels[i]
            },
    )
}

/// One step of generator and colour.
fn step(rng: u64, colour: u32, right: bool) -> (s: (u64, u32))
    ensures
        s.0 == next_rng(rng, right),
        s.1 == next_colour(colour, s.0),
{
    let turned: u64 = (rng << 13) | (rng >> 51);
    let r: u64 = rng ^ (if right {
        turned.wrapping_add(NOISE_STEP)
    } else {
        turned.wrapping_sub(NOISE_STEP)
    });
    let c: u32 = if r < NOISE_SPECKLE {
        ((r as u32) >> 8) & BG_SPECKLE
    } else {
        let up: u32 = colour.wrapping_add((r as u32) & 0x0001_0101) & BG_MASK;
        up.wrapping_sub(((r >> 5) as u32) & 0x0001_0101) & BG_MASK
    };
    (r, c)
}

/// Lays noise under the row that starts at cell `at`.
fn background_row(
    pixels: &mut [u32],
    at: usize,
    width: usize,
    logical_row: isize,
    height: usize,
    x_start: usize,
    x_end: usize,
    shimmer: usize,
    base: u32,
)
    requires
        at + width <= old(pixels)@.len(),
        x_start < x_end <= width,
    ensures
        final(pixels)@ == noise_row(
            old(pixels)@,
            at as int,
            width as int,
            x_start as int,
            x_end as int,
            row_seed(logical_row, height),
            shimmer,
            base,
        ),
{
    let ghost before = pixels@;
    let n: usize = pixels.len();
    let seed: u64 = NOISE_SEED ^ (logical_row as i64 as u64).wrapping_sub(
        height as u64 / 2,
    ).wrapping_mul(NOISE_SPREAD);
    let middle: usize = width / 2;
    let mut rng: u64 = seed;
    let mut colour: u32 = (seed.wrapping_add(shimmer as u64) as u32) & BG_MASK;
    let mut x: usize = middle;
    while x < x_start && x < x_end
        invariant
            middle <= x,
            x == middle || x <= x_start,
            x == middle || x <= x_end,
            (rng, colour) == chain(seed, shimmer, true, (x - middle) as nat),
        decreases x_end - x,
    {
        let (r, c) = step(rng, colour, true);
        rng = r;
        colour = c;
        x += 1;
    }
    let ghost first = x;
    assert(pixels@ =~= Seq::new(before.len(), |i: int| before[i]));
    while x < x_end
        invariant
            n == before.len(),
            at + width <= n,
            x_end <= width,
            middle == width / 2,
            middle <= first <= x,
            x <= x_end || x == first,
            (rng, colour) == chain(seed, shimmer, true, (x - middle) as nat),
            pixels@ == Seq::new(
                before.len(),
                |i: int|
                    if at + first <= i < at + x {
                        pixel::under_px(
                            before[i],
                            noise_at(seed, shimmer, base, width as int, i - at),
                            BlendMode::Normal,
                        )
                    } else {
                        before[i]
                    },
            ),
        decreases x_end - x,
    {
        let len: usize = canvas::lesser(x_end - x, NOISE_CHUNK);
        let mut buf: Vec<u32> = Vec::new();
        let ghost prev = pixels@;
        while buf.len() < len
            invariant
                buf@.len() <= len,
                len <= NOISE_CHUNK,
                middle == width / 2,
                middle <= x,
                x + len <= x_end,
                x_end <= width,
                (rng, colour) == chain(seed, shimmer, true, (x - middle + buf@.len()) as nat),
                forall|k: int|
                    0 <= k < buf@.len() ==> #[trigger] buf@[k] == noise_at(
                        seed,
                        shimmer,
                        base,
                        width as int,
                        x + k,
                    ),
            decreases len - buf@.len(),
        {
            let (r, c) = step(rng, colour, true);
            rng = r;
            colour = c;
            buf.push(((colour.wrapping_add(base) & 0x00FF_FFFF) ^ 0x00FF_FFFF) | 0xFF00_0000);
        }
        flatten::under_chunk_normal(pixels, at + x, &buf, len);
        x += len;
        assert(pixels@ =~= Seq::new(
            before.len(),
            |i: int|
                if at + first <= i < at + x {
                    pixel::under_px(
                        before[i],
                        noise_at(seed, shimmer, base, width as int, i - at),
                        BlendMode::Normal,
                    )
                } else {
                    before[i]
                },
        ));
    }
    rng = seed;
    colour = (seed.wrapping_add(shimmer as u64) as u32) & BG_MASK;
    let ghost half = pixels@;
    let mut hi: usize = middle;
    while hi > x_end && hi > x_start
        invariant
            hi <= middle,
            hi == middle || hi >= x_end,
            hi == middle || hi >= x_start,
            (rng, colour) == chain(seed, shimmer, false, (middle - hi) as nat),
        decreases hi,
    {
        let (r, c) = step(rng, colour, false);
        rng = r;
        colour = c;
        hi -= 1;
    }
    let ghost last = hi;
    assert(pixels@ =~= Seq::new(half.len(), |i: int| half[i]));
    while hi > x_start
        invariant
            n == half.len(),
            at + width <= n,
            middle == width / 2,
            hi <= last <= middle,
            hi >= x_start || hi == last,
            (rng, colour) == chain(seed, shimmer, false, (middle - hi) as nat),
            pixels@ == Seq::new(
                half.len(),
                |i: int|
                    if at + hi <= i < at + last {
                        pixel::under_px(
                            half[i],
                            noise_at(seed, shimmer, base, width as int, i - at),
                            BlendMode::Normal,
                        )
                    } else {
                        half[i]
                    },
            ),
        decreases hi,
    {
        let len: usize = canvas::lesser(hi - x_start, NOISE_CHUNK);
        let mut buf: Vec<u32> = vec![0u32; len];
        let mut k: usize = len;
        while k > 0
            invariant
                k <= len,
                buf@.len() == len,
                len <= hi <= middle,
                middle == width / 2,
                (rng, colour) == chain(
                    seed,
                    shimmer,
                    false,
                    (middle - hi + (len - k)) as nat,
                ),
                forall|j: int|
                    k <= j < len ==> #[trigger] buf@[j] == noise_at(
                        seed,
                        shimmer,
                        base,
                        width as int,
                        hi - len + j,
                    ),
            decreases k,
        {
            let (r, c) = step(rng, colour, false);
            rng = r;
            colour = c;
            k -= 1;
            buf[k] = ((colour.wrapping_add(base) & 0x00FF_FFFF) ^ 0x00FF_FFFF) | 0xFF00_0000;
        }
        let ghost prev = pixels@;
        flatten::under_chunk_normal(pixels, at + (hi - len), &buf, len);
        hi -= len;
        assert(pixels@ =~= Seq::new(
            half.len(),
            |i: int|
                if at + hi <= i < at + last {
                    pixel::under_px(
                        half[i],
                        noise_at(seed, shimmer, base, width as int, i - at),
                        BlendMode::Normal,
                    )
                } else {
                    half[i]
                },
        ));
    }
    assert(pixels@ =~= noise_row(
        before,
        at as int,
        width as int,
        x_start as int,
        x_end as int,
        seed,
        shimmer,
        base,
    ));
}

/// The rows and columns that the noise takes: the clip, less one pixel on every side unless the
/// noise goes up to the edge. As `(x_start, row_start, x_end, row_end)`.
pub open spec fn noise_bounds(c: Clip, fullscreen: bool) -> (int, int, int, int) {
    if fullscreen {
        (c.x_start as int, c.y_start as int, c.x_end as int, c.y_end as int)
    } else {
        (
            vstd::math::min(c.x_start + 1, c.x_end as int),
            vstd::math::min(c.y_start + 1, c.y_end as int),
            vstd::math::max(vstd::math::max(c.x_end - 1, 0), c.x_start as int),
            vstd::math::max(vstd::math::max(c.y_end - 1, 0), c.y_start as int),
        )
    }
}

/// Pixel `i` after the noise went under it.
pub open spec fn background_px(
    p: u32,
    i: int,
    w: usize,
    h: usize,
    b: (int, int, int, int),
    shimmer: usize,
    scroll: isize,
    base: u32,
) -> u32 {
    let row = canvas::row_of(i, w as int);
    let col = canvas::col_of(i, w as int);
    if b.1 <= row < b.3 && b.0 <= col < b.2 {
        pixel::under_px(
            p,
            noise_at(
                row_seed((row - scroll) as isize, h),
                shimmer,
                base,
                w as int,
                col,
            ),
            BlendMode::Normal,
        )
    } else {
        p
    }
}

/// The noise draws something.
pub open spec fn noise_active(w: usize, h: usize, b: (int, int, int, int)) -> bool {
    w >= 2 && h >= 2 && b.1 < b.3 && b.0 < b.2
}

/// Lays the background texture under the part of the buffer inside the clip. `shimmer` shifts the
/// colour that rows start with, `scroll_offset` moves the texture by rows, `base` is the colour it
/// varies around.
pub fn background_noise(
    canvas: &mut Canvas,
    shimmer: usize,
    fullscreen: bool,
    scroll_offset: isize,
    clip: Option<Clip>,
    base: Option<u32>,
)
    requires
        old(canvas).fits(),
        Clip::resolved(clip, old(canvas).width, old(canvas).height).within(
            old(canvas).width,
            old(canvas).height,
        ),
        old(canvas).height <= isize::MAX,
        old(canvas).width >= 2 && old(canvas).height >= 2 ==> isize::MIN <= 0 - scroll_offset
            && old(canvas).height - scroll_offset <= isize::MAX,
    ensures
        final(canvas).pixels@.len() == old(canvas).pixels@.len(),
        ({
            let b = noise_bounds(
                Clip::resolved(clip, old(canvas).width, old(canvas).height),
                fullscreen,
            );
            let on = noise_active(old(canvas).width, old(canvas).height, b);
            &&& forall|i: int|
                0 <= i < old(canvas).pixels@.len() ==> #[trigger] final(canvas).pixels@[i] == (
                if on {
                    background_px(
                        old(canvas).pixels@[i],
                        i,
                        old(canvas).width,
                        old(canvas).height,
                        b,
                        shimmer,
                        scroll_offset,
                        match base {
                            Some(c) => c,
                            None => BG_BASE,
                        },
                    )
                } else {
                    old(canvas).pixels@[i]
                })
            &&& final(canvas).damage.rect() == (if on {
                canvas::joined(
                    old(canvas).damage.rect(),
                    (PixelRect {
                        x0: b.0 as usize,
                        y0: b.1 as usize,
                        x1: b.2 as usize,
                        y1: b.3 as usize,
                    }),
                )
            } else {
                old(canvas).damage.rect()
            })
        }),
        final(canvas).width == old(canvas).width,
        final(canvas).height == old(canvas).height,
        final(final(canvas).pixels)@ == final(old(canvas).pixels)@,
        *final(final(canvas).damage) == *final(old(canvas).damage),
{
    let w: usize = canvas.width;
    let h: usize = canvas.height;
    if w < 2 || h < 2 {
        return;
    }
    let c = Clip::resolve(clip, w, h);
    let (x_start, row_start, x_end, row_end) = if fullscreen {
        (c.x_start, c.y_start, c.x_end, c.y_end)
    } else {
        (
            if c.x_start < c.x_end { c.x_start + 1 } else { c.x_end },
            if c.y_start < c.y_end { c.y_start + 1 } else { c.y_end },
            canvas::greater(if c.x_end > 0 { c.x_end - 1 } else { 0 }, c.x_start),
            canvas::greater(if c.y_end > 0 { c.y_end - 1 } else { 0 }, c.y_start),
        )
    };
    if row_start >= row_end || x_start >= x_end {
        return;
    }
    canvas.damage.add_bounds(x_start, row_start, x_end, row_end);
    let resolved: u32 = match base {
        Some(b) => b,
        None => BG_BASE,
    };
    let ghost before = canvas.pixels@;
    let ghost start = *canvas;
    let ghost b = (x_start as int, row_start as int, x_end as int, row_end as int);
    let n: usize = canvas.pixels.len();
    proof {
        canvas::lemma_grid(w as int);
    }
    let mut y: usize = row_start;
    while y < row_end
        invariant
            w >= 2,
            n == before.len(),
            n == canvas.pixels@.len(),
            w * h <= n,
            x_start < x_end <= w,
            row_start <= y <= row_end <= h,
            b == (x_start as int, row_start as int, x_end as int, row_end as int),
            h <= isize::MAX,
            isize::MIN <= 0 - scroll_offset,
            h - scroll_offset <= isize::MAX,
            canvas.width == start.width,
            canvas.height == start.height,
            canvas.damage == start.damage,
            final(canvas.pixels)@ == final(start.pixels)@,
            forall|i: int|
                #![trigger canvas::row_of(i, w as int)]
                #![trigger canvas::col_of(i, w as int)]
                i == canvas::row_of(i, w as int) * w + canvas::col_of(i, w as int) && 0
                    <= canvas::col_of(i, w as int) < w && (i >= 0 ==> canvas::row_of(i, w as int)
                    >= 0),
            forall|i: int|
                0 <= i < n ==> #[trigger] canvas.pixels@[i] == (if canvas::row_of(i, w as int) < y {
                    background_px(before[i], i, w, h, b, shimmer, scroll_offset, resolved)
                } else {
                    before[i]
                }),
        decreases row_end - y,
    {
        proof {
            canvas::lemma_cell_bound(0, y as int, w as int, h as int);
        }
        let at: usize = y * w;
        let ghost prev = canvas.pixels@;
        background_row(
            canvas.pixels,
            at,
            w,
            y as isize - scroll_offset,
            h,
            x_start,
            x_end,
            shimmer,
            resolved,
        );
        proof {
            assert forall|i: int| 0 <= i < n implies #[trigger] canvas.pixels@[i] == (
            if canvas::row_of(i, w as int) < y + 1 {
                background_px(before[i], i, w, h, b, shimmer, scroll_offset, resolved)
            } else {
                before[i]
            }) by {
                let row = canvas::row_of(i, w as int);
                let col = canvas::col_of(i, w as int);
                if 0 <= i - at < w {
                    canvas::lemma_cell(i - at, y as int, w as int);
                } else {
                    assert(row != y);
                }
            }
        }
        y += 1;
    }
}

/// The background is opaque, and each of its visible colours is the base with noise added.
pub proof fn law_background_is_opaque(colour: u32, base: u32)
    ensures
        pixel::alpha(noise_px(colour, base)) == 255,
        (noise_px(colour, base) ^ 0x00FF_FFFF) & 0x00FF_FFFF == colour.wrapping_add(base)
            & 0x00FF_FFFF,
{
    let v = colour.wrapping_add(base);
    assert(((((v & 0x00FF_FFFFu32) ^ 0x00FF_FFFF) | 0xFF00_0000) >> 24) == 255) by (bit_vector);
    assert(((((v & 0x00FF_FFFFu32) ^ 0x00FF_FFFF) | 0xFF00_0000) ^ 0x00FF_FFFF) & 0x00FF_FFFF == v
        & 0x00FF_FFFF) by (bit_vector);
}

/// Noise stays within its masks: a step never sets a bit that neither the grain nor a speckle may have.
pub proof fn law_noise_stays_in_its_masks(colour: u32, rng: u64, seed: u64, shimmer: usize)
    ensures
        next_colour(colour, rng) & !(BG_MASK | BG_SPECKLE) == 0,
        rng >= NOISE_SPECKLE ==> next_colour(colour, rng) & !BG_MASK == 0,
        rng < NOISE_SPECKLE ==> next_colour(colour, rng) & !BG_SPECKLE == 0,
        first_colour(seed, shimmer) & !BG_MASK == 0,
{
    let a: u32 = (rng as u32) >> 8;
    assert((a & BG_SPECKLE) & !BG_SPECKLE == 0 && (a & BG_SPECKLE) & !(BG_MASK | BG_SPECKLE) == 0)
        by (bit_vector);
    let up = colour.wrapping_add((rng as u32) & 0x0001_0101) & BG_MASK;
    let b: u32 = up.wrapping_sub(((rng >> 5) as u32) & 0x0001_0101);
    assert((b & BG_MASK) & !BG_MASK == 0 && (b & BG_MASK) & !(BG_MASK | BG_SPECKLE) == 0)
        by (bit_vector);
    let c: u32 = seed.wrapping_add(shimmer as u64) as u32;
    assert((c & BG_MASK) & !BG_MASK == 0) by (bit_vector);
}

/// The texture hangs on the middle of the buffer: a buffer that is wider or higher by the same on both
/// sides shows it in the same place, and the middle row starts the generator afresh.
pub proof fn law_texture_hangs_on_the_middle(
    row: isize,
    height: usize,
    seed: u64,
    shimmer: usize,
    base: u32,
    width: int,
    x: int,
)
    requires
        row < isize::MAX,
        height <= usize::MAX - 2,
    ensures
        row_seed((row + 1) as isize, (height + 2) as usize) == row_seed(row, height),
        row == height / 2 ==> row_seed(row, height) == NOISE_SEED,
        noise_at(seed, shimmer, base, width + 2, x + 1) == noise_at(seed, shimmer, base, width, x),
{
    assert((width + 2) / 2 == width / 2 + 1);
    lemma_row_seed(row, height);
}

/// The seeds of rows that lie as far from the middle are equal.
proof fn lemma_row_seed(row: isize, height: usize)
    requires
        row < isize::MAX,
        height <= usize::MAX - 2,
    ensures
        row_seed((row + 1) as isize, (height + 2) as usize) == row_seed(row, height),
        row == height / 2 ==> row_seed(row, height) == NOISE_SEED,
{
    let r: i64 = row as i64;
    let a: u64 = r as u64;
    let b: u64 = ((r + 1) as i64) as u64;
    assert(b == (if a == u64::MAX {
        0
    } else {
        a + 1
    })) by (bit_vector)
        requires
            a == r as u64,
            b == ((r + 1) as i64) as u64,
            r < 0x7FFF_FFFF_FFFF_FFFF,
    ;
    let m: u64 = (height as u64 / 2) as u64;
    let k: u64 = ((height + 2) as usize as u64 / 2) as u64;
    assert(k == m + 1);
    assert(b.wrapping_sub(k) == a.wrapping_sub(m));
    if row == height / 2 {
        assert(a == m) by (bit_vector)
            requires
                a == r as u64,
                r >= 0,
                m == r,
        ;
        assert(a.wrapping_sub(m) == 0);
        let n: u64 = NOISE_SEED;
        assert(n ^ 0u64 == n) by (bit_vector);
    }
}

/// Scrolling by a number of rows moves the texture by as many, down.
pub proof fn law_scrolling_moves_the_texture(
    p: u32,
    w: usize,
    h: usize,
    b: (int, int, int, int),
    shimmer: usize,
    scroll: isize,
    base: u32,
    x: int,
    y: int,
    down: int,
)
    requires
        0 <= x < w,
        b.0 <= x < b.2,
        b.1 <= y < b.3,
        b.1 <= y + down < b.3,
        isize::MIN <= scroll + down <= isize::MAX,
    ensures
        background_px(p, y * w + x, w, h, b, shimmer, scroll, base) == background_px(
            p,
            (y + down) * w + x,
            w,
            h,
            b,
            shimmer,
            (scroll + down) as isize,
            base,
        ),
{
    canvas::lemma_cell(x, y, w as int);
    canvas::lemma_cell(x, y + down, w as int);
}

/// The texture takes the clip as a whole where it goes up to the edge, and otherwise what lies a pixel
/// or more inside; there every pixel becomes opaque, and elsewhere nothing changes.
pub proof fn law_texture_takes_the_clip(
    p: u32,
    w: usize,
    h: usize,
    c: Clip,
    fullscreen: bool,
    shimmer: usize,
    scroll: isize,
    base: u32,
    x: int,
    y: int,
)
    requires
        0 <= x < w,
        0 <= y < h,
        c.within(w, h),
        pixel::dark_within_alpha(p),
    ensures
        ({
            let q = background_px(
                p,
                y * w + x,
                w,
                h,
                noise_bounds(c, fullscreen),
                shimmer,
                scroll,
                base,
            );
            let rim: int = if fullscreen {
                0
            } else {
                1
            };
            if c.x_start + rim <= x < c.x_end - rim && c.y_start + rim <= y < c.y_end - rim {
                pixel::alpha(q) == 255
            } else {
                q == p
            }
        }),
{
    canvas::lemma_cell(x, y, w as int);
    let seed = row_seed((y - scroll) as isize, h);
    let middle = w as int / 2;
    let colour = if x >= middle {
        chain(seed, shimmer, true, (x - middle + 1) as nat).1
    } else {
        chain(seed, shimmer, false, (middle - x) as nat).1
    };
    law_background_is_opaque(colour, base);
    pixel::law_opaque_layer_saturates(p, noise_px(colour, base), BlendMode::Normal);
}

} // verus!
