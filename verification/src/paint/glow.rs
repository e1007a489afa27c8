//! Focus glow: fading rays that start at the opaque silhouette of a pill, and a four-way blur around
//! a mask. Both lay their colour under what is already there.
use crate::canvas::{self, Canvas, PixelRect};
use crate::paint::clip::Clip;
use crate::paint::ray;
use crate::pixel::{self, Blend, BlendMode};
use vstd::prelude::*;

verus! {

/// The line that cell `i` lies on: its row, or its column where lines run down the buffer.
pub open spec fn line_of(i: int, w: int, vertical: bool) -> int {
    if vertical {
        canvas::col_of(i, w)
    } else {
        canvas::row_of(i, w)
    }
}

/// The place of cell `i` on its line.
pub open spec fn pos_of(i: int, w: int, vertical: bool) -> int {
    if vertical {
        canvas::row_of(i, w)
    } else {
        canvas::col_of(i, w)
    }
}

/// The cell at place `pos` of `line`.
pub open spec fn line_cell(line: int, pos: int, w: int, vertical: bool) -> int {
    if vertical {
        pos * w + line
    } else {
        line * w + pos
    }
}

/// The place among `lo..hi` of the opaque pixel that a ray leaves: the last one on the line for a
/// ray that goes forward, else the first one.
pub open spec fn silhouette(
    pixels: Seq<u32>,
    w: int,
    vertical: bool,
    forward: bool,
    line: int,
    lo: int,
    hi: int,
) -> Option<int>
    decreases hi - lo,
{
    if lo >= hi {
        None
    } else if forward {
        if pixel::alpha(pixels[line_cell(line, hi - 1, w, vertical)]) == 255 {
            Some(hi - 1)
        } else {
            silhouette(pixels, w, vertical, forward, line, lo, hi - 1)
        }
    } else {
        if pixel::alpha(pixels[line_cell(line, lo, w, vertical)]) == 255 {
            Some(lo)
        } else {
            silhouette(pixels, w, vertical, forward, line, lo + 1, hi)
        }
    }
}

/// A glow pass: which lines it takes, where on a line it looks for the silhouette, and where its
/// rays have to stop.
pub struct Pass {
    pub vertical: bool,
    pub forward: bool,
    pub line_lo: int,
    pub line_hi: int,
    pub lo: int,
    pub hi: int,
    pub stop: int,
}

/// Pixel `i` after a glow pass over `pixels`.
pub open spec fn glow_px(
    pixels: Seq<u32>,
    i: int,
    w: int,
    g: Pass,
    seed: int,
    factor: int,
    colour: u32,
) -> u32 {
    let line = line_of(i, w, g.vertical);
    let pos = pos_of(i, w, g.vertical);
    if g.line_lo <= line < g.line_hi {
        match silhouette(pixels, w, g.vertical, g.forward, line, g.lo, g.hi) {
            None => pixels[i],
            Some(o) => {
                let k = if g.forward {
                    pos - o - 1
                } else {
                    o - 1 - pos
                };
                if 0 <= k < ray::reach(seed, factor) && (if g.forward {
                    pos < g.stop
                } else {
                    pos >= g.stop
                }) {
                    pixel::under_px(
                        pixels[i],
                        pixel::argb(
                            ray::decayed(seed, factor, k as nat),
                            pixel::red(colour),
                            pixel::green(colour),
                            pixel::blue(colour),
                        ),
                        BlendMode::Normal,
                    )
                } else {
                    pixels[i]
                }
            },
        }
    } else {
        pixels[i]
    }
}

/// The lines of a grid and the places on them number its cells.
proof fn lemma_line_cell(line: int, pos: int, w: int, h: int, vertical: bool)
    requires
        if vertical {
            0 <= line < w && 0 <= pos < h
        } else {
            0 <= line < h && 0 <= pos < w
        },
    ensures
        line_of(line_cell(line, pos, w, vertical), w, vertical) == line,
        pos_of(line_cell(line, pos, w, vertical), w, vertical) == pos,
        0 <= line_cell(line, pos, w, vertical) < w * h,
{
    if vertical {
        canvas::lemma_cell(line, pos, w);
        canvas::lemma_cell_bound(line, pos, w, h);
    } else {
        canvas::lemma_cell(pos, line, w);
        canvas::lemma_cell_bound(pos, line, w, h);
    }
}

/// The number of a cell, computed.
fn cell_index(line: usize, pos: usize, w: usize, h: usize, vertical: bool, n: usize) -> (i: usize)
    requires
        w * h <= n,
        if vertical {
            line < w && pos < h
        } else {
            line < h && pos < w
        },
    ensures
        i as int == line_cell(line as int, pos as int, w as int, vertical),
        i < n,
{
    proof {
        if vertical {
            canvas::lemma_cell_bound(line as int, pos as int, w as int, h as int);
        } else {
            canvas::lemma_cell_bound(pos as int, line as int, w as int, h as int);
        }
    }
    if vertical {
        pos * w + line
    } else {
        line * w + pos
    }
}

/// Looks for the silhouette on a line.
fn find_silhouette(
    pixels: &[u32],
    w: usize,
    h: usize,
    vertical: bool,
    forward: bool,
    line: usize,
    lo: usize,
    hi: usize,
) -> (o: Option<usize>)
    requires
        w * h <= pixels@.len(),
        if vertical {
            line < w && hi <= h
        } else {
            line < h && hi <= w
        },
    ensures
        match o {
            None => silhouette(
                pixels@,
                w as int,
                vertical,
                forward,
                line as int,
                lo as int,
                hi as int,
            ) is None,
            Some(p) => lo <= p < hi && silhouette(
                pixels@,
                w as int,
                vertical,
                forward,
                line as int,
                lo as int,
                hi as int,
            ) == Some(p as int),
        },
{
    let n: usize = pixels.len();
    let mut a: usize = lo;
    let mut b: usize = hi;
    while a < b
        invariant
            n == pixels@.len(),
            w * h <= n,
            if vertical {
                line < w && hi <= h
            } else {
                line < h && hi <= w
            },
            lo <= a,
            b <= hi,
            silhouette(pixels@, w as int, vertical, forward, line as int, a as int, b as int)
                == silhouette(
                pixels@,
                w as int,
                vertical,
                forward,
                line as int,
                lo as int,
                hi as int,
            ),
        decreases b - a,
    {
        let pos: usize = if forward {
            b - 1
        } else {
            a
        };
        let i: usize = cell_index(line, pos, w, h, vertical, n);
        if pixel::alpha_of(pixels[i]) == 0xFF {
            return Some(pos);
        }
        if forward {
            b -= 1;
        } else {
            a += 1;
        }
    }
    None
}

/// Casts the ray that leaves place `o` of a line.
fn cast_glow_ray(
    pixels: &mut [u32],
    w: usize,
    h: usize,
    vertical: bool,
    forward: bool,
    line: usize,
    o: usize,
    stop: usize,
    alphas: &Vec<u32>,
    colour: u32,
)
    requires
        0 < w,
        w * h <= old(pixels)@.len(),
        if vertical {
            line < w && o < h && (forward ==> stop <= h)
        } else {
            line < h && o < w && (forward ==> stop <= w)
        },
        alphas@.len() <= ray::MAX_STEPS,
    ensures
        final(pixels)@.len() == old(pixels)@.len(),
        forall|i: int|
            0 <= i < old(pixels)@.len() ==> #[trigger] final(pixels)@[i] == ({
                let pos = pos_of(i, w as int, vertical);
                let k = if forward {
                    pos - o - 1
                } else {
                    o - 1 - pos
                };
                if line_of(i, w as int, vertical) == line && 0 <= k < alphas@.len() && (
                if forward {
                    pos < stop
                } else {
                    pos >= stop
                }) {
                    pixel::under_px(
                        old(pixels)@[i],
                        pixel::argb(
                            alphas@[k] as int,
                            pixel::red(colour),
                            pixel::green(colour),
                            pixel::blue(colour),
                        ),
                        BlendMode::Normal,
                    )
                } else {
                    old(pixels)@[i]
                }
            }),
{
    let ghost before = pixels@;
    let n: usize = pixels.len();
    let steps: usize = alphas.len();
    let limit: usize = if forward {
        if stop > o {
            stop - o - 1
        } else {
            0
        }
    } else {
        if o > stop {
            o - stop
        } else {
            0
        }
    };
    let count: usize = if steps < limit {
        steps
    } else {
        limit
    };
    proof {
        canvas::lemma_grid(w as int);
    }
    let mut k: usize = 0;
    while k < count
        invariant
            0 < w,
            w * h <= n,
            n == before.len(),
            n == pixels@.len(),
            steps == alphas@.len(),
            count <= steps,
            count <= limit,
            forward ==> limit <= (if stop > o {
                stop - o - 1
            } else {
                0
            }),
            !forward ==> limit == (if o > stop {
                o - stop
            } else {
                0
            }),
            if vertical {
                line < w && o < h && (forward ==> stop <= h)
            } else {
                line < h && o < w && (forward ==> stop <= w)
            },
            k <= count,
            forall|i: int|
                #![trigger canvas::row_of(i, w as int)]
                #![trigger canvas::col_of(i, w as int)]
                i == canvas::row_of(i, w as int) * w + canvas::col_of(i, w as int) && 0
                    <= canvas::col_of(i, w as int) < w && (i >= 0 ==> canvas::row_of(i, w as int)
                    >= 0),
            forall|i: int|
                0 <= i < n ==> #[trigger] pixels@[i] == ({
                    let pos = pos_of(i, w as int, vertical);
                    let j = if forward {
                        pos - o - 1
                    } else {
                        o - 1 - pos
                    };
                    if line_of(i, w as int, vertical) == line && 0 <= j < k {
                        pixel::under_px(
                            before[i],
                            pixel::argb(
                                alphas@[j] as int,
                                pixel::red(colour),
                                pixel::green(colour),
                                pixel::blue(colour),
                            ),
                            BlendMode::Normal,
                        )
                    } else {
                        before[i]
                    }
                }),
        decreases count - k,
    {
        let pos: usize = if forward {
            o + 1 + k
        } else {
            o - 1 - k
        };
        proof {
            lemma_line_cell(line as int, pos as int, w as int, h as int, vertical);
        }
        let at: usize = cell_index(line, pos, w, h, vertical, n);
        let ghost prev = pixels@;
        assert(prev[at as int] == before[at as int]);
        pixels[at] = pixels[at].under(pixel::with_alpha(colour, alphas[k]), BlendMode::Normal);
        k += 1;
    }
}

/// Runs one glow pass over the lines `line_lo..line_hi`.
fn cast_glow(
    pixels: &mut [u32],
    w: usize,
    h: usize,
    vertical: bool,
    forward: bool,
    line_lo: usize,
    line_hi: usize,
    lo: usize,
    hi: usize,
    stop: usize,
    alphas: &Vec<u32>,
    colour: u32,
    seed: u32,
    factor: u32,
)
    requires
        0 < w,
        w * h <= old(pixels)@.len(),
        if vertical {
            line_hi <= w && hi <= h && (forward ==> stop <= h)
        } else {
            line_hi <= h && hi <= w && (forward ==> stop <= w)
        },
        alphas@.len() == ray::reach(seed as int, factor as int),
        alphas@.len() <= ray::MAX_STEPS,
        forall|k: int|
            0 <= k < alphas@.len() ==> #[trigger] alphas@[k] == ray::decayed(
                seed as int,
                factor as int,
                k as nat,
            ),
    ensures
        final(pixels)@.len() == old(pixels)@.len(),
        forall|i: int|
            0 <= i < old(pixels)@.len() ==> #[trigger] final(pixels)@[i] == glow_px(
                old(pixels)@,
                i,
                w as int,
                (Pass {
                    vertical,
                    forward,
                    line_lo: line_lo as int,
                    line_hi: line_hi as int,
                    lo: lo as int,
                    hi: hi as int,
                    stop: stop as int,
                }),
                seed as int,
                factor as int,
                colour,
            ),
{
    let ghost before = pixels@;
    let ghost g = Pass {
        vertical,
        forward,
        line_lo: line_lo as int,
        line_hi: line_hi as int,
        lo: lo as int,
        hi: hi as int,
        stop: stop as int,
    };
    let mut line: usize = line_lo;
    while line < line_hi
        invariant
            0 < w,
            w * h <= before.len(),
            before.len() == pixels@.len(),
            g == (Pass {
                vertical,
                forward,
                line_lo: line_lo as int,
                line_hi: line_hi as int,
                lo: lo as int,
                hi: hi as int,
                stop: stop as int,
            }),
            if vertical {
                line_hi <= w && hi <= h && (forward ==> stop <= h)
            } else {
                line_hi <= h && hi <= w && (forward ==> stop <= w)
            },
            line_lo <= line,
            line <= line_hi || line == line_lo,
            alphas@.len() == ray::reach(seed as int, factor as int),
            alphas@.len() <= ray::MAX_STEPS,
            forall|k: int|
                0 <= k < alphas@.len() ==> #[trigger] alphas@[k] == ray::decayed(
                    seed as int,
                    factor as int,
                    k as nat,
                ),
            forall|i: int|
                0 <= i < before.len() ==> #[trigger] pixels@[i] == (if line_of(
                    i,
                    w as int,
                    vertical,
                ) < line {
                    glow_px(before, i, w as int, g, seed as int, factor as int, colour)
                } else {
                    before[i]
                }),
        decreases line_hi - line,
    {
        proof {
            lemma_same_silhouette(
                before,
                pixels@,
                w as int,
                h as int,
                vertical,
                forward,
                line as int,
                lo as int,
                hi as int,
            );
        }
        match find_silhouette(pixels, w, h, vertical, forward, line, lo, hi) {
            None => {},
            Some(o) => {
                cast_glow_ray(pixels, w, h, vertical, forward, line, o, stop, alphas, colour);
            },
        }
        line += 1;
    }
    proof {
        assert forall|i: int| 0 <= i < before.len() implies #[trigger] pixels@[i] == glow_px(
            before,
            i,
            w as int,
            g,
            seed as int,
            factor as int,
            colour,
        ) by {}
    }
}

/// The silhouette on a line depends on the pixels of that line alone.
proof fn lemma_same_silhouette(
    a: Seq<u32>,
    b: Seq<u32>,
    w: int,
    h: int,
    vertical: bool,
    forward: bool,
    line: int,
    lo: int,
    hi: int,
)
    requires
        0 < w,
        a.len() == b.len(),
        w * h <= a.len(),
        0 <= lo,
        if vertical {
            0 <= line < w && hi <= h
        } else {
            0 <= line < h && hi <= w
        },
        forall|i: int| 0 <= i < a.len() && line_of(i, w, vertical) >= line ==> #[trigger] b[i] == a[i],
    ensures
        silhouette(a, w, vertical, forward, line, lo, hi) == silhouette(
            b,
            w,
            vertical,
            forward,
            line,
            lo,
            hi,
        ),
    decreases hi - lo,
{
    if lo < hi {
        if forward {
            lemma_line_cell(line, hi - 1, w, h, vertical);
            lemma_same_silhouette(a, b, w, h, vertical, forward, line, lo, hi - 1);
        } else {
            lemma_line_cell(line, lo, w, h, vertical);
            lemma_same_silhouette(a, b, w, h, vertical, forward, line, lo + 1, hi);
        }
    }
}

/// Where a pill lies: its left and top edge, its width and its height.
pub struct PillRect {
    pub x: int,
    pub y: int,
    pub w: int,
    pub h: int,
}

/// The first column or row of a side that starts at `p`, inside the buffer and a clip from `start`.
pub open spec fn span_lo(p: int, start: int) -> int {
    vstd::math::max(vstd::math::max(p, 0), start)
}

/// The end of a side of length `len` that starts at `p`, inside the buffer and a clip up to `end`.
pub open spec fn span_hi(p: int, len: int, buf: int, end: int) -> int {
    vstd::math::min(vstd::math::max(vstd::math::min(p + len, buf), 0), end)
}

/// The glow pass around a pill, to the right or the bottom if `forward`, else to the left or the
/// top; along columns if `vertical`.
pub open spec fn glow_pass(
    w: usize,
    h: usize,
    c: Clip,
    r: PillRect,
    vertical: bool,
    forward: bool,
) -> Pass {
    let x_lo = span_lo(r.x, c.x_start as int);
    let x_hi = span_hi(r.x, r.w, w as int, c.x_end as int);
    let y_lo = span_lo(r.y, c.y_start as int);
    let y_hi = span_hi(r.y, r.h, h as int, c.y_end as int);
    if vertical {
        Pass {
            vertical,
            forward,
            line_lo: x_lo,
            line_hi: x_hi,
            lo: y_lo,
            hi: y_hi,
            stop: if forward {
                vstd::math::min(c.y_end as int, h as int)
            } else {
                c.y_start as int
            },
        }
    } else {
        Pass {
            vertical,
            forward,
            line_lo: y_lo,
            line_hi: y_hi,
            lo: x_lo,
            hi: x_hi,
            stop: if forward {
                vstd::math::min(c.x_end as int, w as int)
            } else {
                c.x_start as int
            },
        }
    }
}

/// The pass draws something.
pub open spec fn pass_active(g: Pass, r: PillRect, seed: int, factor: int) -> bool {
    r.w > 0 && r.h > 0 && seed != 0 && 0 < factor < 256 && g.line_lo < g.line_hi && g.lo < g.hi
}

/// Pixel `i` after the glow pass around a pill, if the pass draws something.
pub open spec fn pill_glow_px(
    pixels: Seq<u32>,
    i: int,
    w: int,
    g: Pass,
    r: PillRect,
    seed: int,
    factor: int,
    colour: u32,
) -> u32 {
    if pass_active(g, r, seed, factor) {
        glow_px(pixels, i, w, g, seed, factor, colour)
    } else {
        pixels[i]
    }
}

/// The damage of a glow pass: its lines, from the near end of the pill to where the longest ray can
/// end.
pub open spec fn glow_damage(
    d: Option<PixelRect>,
    g: Pass,
    r: PillRect,
    seed: int,
    factor: int,
) -> Option<PixelRect> {
    if pass_active(g, r, seed, factor) {
        let n = ray::reach(seed, factor);
        let a = if g.forward {
            g.lo
        } else {
            vstd::math::max(vstd::math::max(g.lo - n, 0), g.stop)
        };
        let b = if g.forward {
            vstd::math::min(g.hi + n, g.stop)
        } else {
            g.hi
        };
        canvas::joined(
            d,
            if g.vertical {
                PixelRect {
                    x0: g.line_lo as usize,
                    y0: a as usize,
                    x1: g.line_hi as usize,
                    y1: b as usize,
                }
            } else {
                PixelRect {
                    x0: a as usize,
                    y0: g.line_lo as usize,
                    x1: b as usize,
                    y1: g.line_hi as usize,
                }
            },
        )
    } else {
        d
    }
}

/// The first column or row of a side.
fn side_lo(p: isize, start: usize) -> (r: usize)
    ensures
        r as int == span_lo(p as int, start as int),
{
    if p < 0 {
        start
    } else {
        canvas::greater(p as usize, start)
    }
}

/// The end of a side.
fn side_hi(p: isize, len: isize, buf: usize, end: usize) -> (r: usize)
    requires
        isize::MIN <= p + len <= isize::MAX,
    ensures
        r as int == span_hi(p as int, len as int, buf as int, end as int),
{
    let e: isize = p + len;
    if e < 0 {
        0
    } else {
        canvas::lesser(canvas::lesser(e as usize, buf), end)
    }
}

/// Runs the glow pass of one side of a pill.
fn apply_glow(
    canvas: &mut Canvas,
    pill_x: isize,
    pill_y: isize,
    pill_w: isize,
    pill_h: isize,
    colour: u32,
    seed: u32,
    factor_256: u32,
    clip: Option<Clip>,
    vertical: bool,
    forward: bool,
)
    requires
        old(canvas).fits(),
        pill_w > 0 && pill_h > 0 && seed != 0 && 0 < factor_256 < 256 ==> {
            &&& pill_x + pill_w <= isize::MAX
            &&& pill_y + pill_h <= isize::MAX
            &&& seed * factor_256 <= u32::MAX
        },
    ensures
        final(canvas).pixels@.len() == old(canvas).pixels@.len(),
        ({
            let c = Clip::resolved(clip, old(canvas).width, old(canvas).height);
            let r = PillRect {
                x: pill_x as int,
                y: pill_y as int,
                w: pill_w as int,
                h: pill_h as int,
            };
            let g = glow_pass(old(canvas).width, old(canvas).height, c, r, vertical, forward);
            &&& forall|i: int|
                0 <= i < old(canvas).pixels@.len() ==> #[trigger] final(canvas).pixels@[i]
                    == pill_glow_px(
                    old(canvas).pixels@,
                    i,
                    old(canvas).width as int,
                    g,
                    r,
                    seed as int,
                    factor_256 as int,
                    colour,
                )
            &&& final(canvas).damage.rect() == glow_damage(
                old(canvas).damage.rect(),
                g,
                r,
                seed as int,
                factor_256 as int,
            )
        }),
        final(canvas).width == old(canvas).width,
        final(canvas).height == old(canvas).height,
        final(final(canvas).pixels)@ == final(old(canvas).pixels)@,
        *final(final(canvas).damage) == *final(old(canvas).damage),
{
    if pill_w <= 0 || pill_h <= 0 || seed == 0 || factor_256 == 0 || factor_256 >= 256 {
        return;
    }
    let w: usize = canvas.width;
    let h: usize = canvas.height;
    let c = Clip::resolve(clip, w, h);
    let x_lo: usize = side_lo(pill_x, c.x_start);
    let x_hi: usize = side_hi(pill_x, pill_w, w, c.x_end);
    let y_lo: usize = side_lo(pill_y, c.y_start);
    let y_hi: usize = side_hi(pill_y, pill_h, h, c.y_end);
    if x_lo >= x_hi || y_lo >= y_hi {
        return;
    }
    let alphas = ray::compute_alphas(seed, factor_256);
    let n: usize = alphas.len();
    let (line_lo, line_hi, lo, hi) = if vertical {
        (x_lo, x_hi, y_lo, y_hi)
    } else {
        (y_lo, y_hi, x_lo, x_hi)
    };
    let stop: usize = match (vertical, forward) {
        (true, true) => canvas::lesser(c.y_end, h),
        (true, false) => c.y_start,
        (false, true) => canvas::lesser(c.x_end, w),
        (false, false) => c.x_start,
    };
    let a: usize = if forward {
        lo
    } else {
        canvas::greater(if lo > n { lo - n } else { 0 }, stop)
    };
    let b: usize = if forward {
        if stop - hi <= n {
            stop
        } else {
            hi + n
        }
    } else {
        hi
    };
    if vertical {
        canvas.damage.add_bounds(line_lo, a, line_hi, b);
    } else {
        canvas.damage.add_bounds(a, line_lo, b, line_hi);
    }
    cast_glow(
        canvas.pixels,
        w,
        h,
        vertical,
        forward,
        line_lo,
        line_hi,
        lo,
        hi,
        stop,
        &alphas,
        colour,
        seed,
        factor_256,
    );
}

/// Glow to the right: on each row of the pill, a ray of fading `glow_colour` leaves the last opaque
/// pixel and goes right, laid under what is there.
pub fn apply_textbox_glow_right(
    canvas: &mut Canvas,
    pill_x: isize,
    pill_y: isize,
    pill_w: isize,
    pill_h: isize,
    glow_colour: u32,
    seed: u32,
    factor_256: u32,
    clip: Option<Clip>,
)
    requires
        old(canvas).fits(),
        pill_w > 0 && pill_h > 0 && seed != 0 && 0 < factor_256 < 256 ==> {
            &&& pill_x + pill_w <= isize::MAX
            &&& pill_y + pill_h <= isize::MAX
            &&& seed * factor_256 <= u32::MAX
        },
    ensures
        final(canvas).pixels@.len() == old(canvas).pixels@.len(),
        ({
            let c = Clip::resolved(clip, old(canvas).width, old(canvas).height);
            let r = PillRect {
                x: pill_x as int,
                y: pill_y as int,
                w: pill_w as int,
                h: pill_h as int,
            };
            let g = glow_pass(old(canvas).width, old(canvas).height, c, r, false, true);
            &&& forall|i: int|
                0 <= i < old(canvas).pixels@.len() ==> #[trigger] final(canvas).pixels@[i]
                    == pill_glow_px(
                    old(canvas).pixels@,
                    i,
                    old(canvas).width as int,
                    g,
                    r,
                    seed as int,
                    factor_256 as int,
                    glow_colour,
                )
            &&& final(canvas).damage.rect() == glow_damage(
                old(canvas).damage.rect(),
                g,
                r,
                seed as int,
                factor_256 as int,
            )
        }),
        final(canvas).width == old(canvas).width,
        final(canvas).height == old(canvas).height,
        final(final(canvas).pixels)@ == final(old(canvas).pixels)@,
        *final(final(canvas).damage) == *final(old(canvas).damage),
{
    apply_glow(
        canvas,
        pill_x,
        pill_y,
        pill_w,
        pill_h,
        glow_colour,
        seed,
        factor_256,
        clip,
        false,
        true,
    );
}

/// Glow to the left: on each row of the pill, a ray leaves the first opaque pixel and goes left.
pub fn apply_textbox_glow_left(
    canvas: &mut Canvas,
    pill_x: isize,
    pill_y: isize,
    pill_w: isize,
    pill_h: isize,
    glow_colour: u32,
    seed: u32,
    factor_256: u32,
    clip: Option<Clip>,
)
    requires
        old(canvas).fits(),
        pill_w > 0 && pill_h > 0 && seed != 0 && 0 < factor_256 < 256 ==> {
            &&& pill_x + pill_w <= isize::MAX
            &&& pill_y + pill_h <= isize::MAX
            &&& seed * factor_256 <= u32::MAX
        },
    ensures
        final(canvas).pixels@.len() == old(canvas).pixels@.len(),
        ({
            let c = Clip::resolved(clip, old(canvas).width, old(canvas).height);
            let r = PillRect {
                x: pill_x as int,
                y: pill_y as int,
                w: pill_w as int,
                h: pill_h as int,
            };
            let g = glow_pass(old(canvas).width, old(canvas).height, c, r, false, false);
            &&& forall|i: int|
                0 <= i < old(canvas).pixels@.len() ==> #[trigger] final(canvas).pixels@[i]
                    == pill_glow_px(
                    old(canvas).pixels@,
                    i,
                    old(canvas).width as int,
                    g,
                    r,
                    seed as int,
                    factor_256 as int,
                    glow_colour,
                )
            &&& final(canvas).damage.rect() == glow_damage(
                old(canvas).damage.rect(),
                g,
                r,
                seed as int,
                factor_256 as int,
            )
        }),
        final(canvas).width == old(canvas).width,
        final(canvas).height == old(canvas).height,
        final(final(canvas).pixels)@ == final(old(canvas).pixels)@,
        *final(final(canvas).damage) == *final(old(canvas).damage),
{
    apply_glow(
        canvas,
        pill_x,
        pill_y,
        pill_w,
        pill_h,
        glow_colour,
        seed,
        factor_256,
        clip,
        false,
        false,
    );
}

/// Glow to the top: on each column of the pill, a ray leaves the first opaque pixel and goes up.
pub fn apply_textbox_glow_top(
    canvas: &mut Canvas,
    pill_x: isize,
    pill_y: isize,
    pill_w: isize,
    pill_h: isize,
    glow_colour: u32,
    seed: u32,
    factor_256: u32,
    clip: Option<Clip>,
)
    requires
        old(canvas).fits(),
        pill_w > 0 && pill_h > 0 && seed != 0 && 0 < factor_256 < 256 ==> {
            &&& pill_x + pill_w <= isize::MAX
            &&& pill_y + pill_h <= isize::MAX
            &&& seed * factor_256 <= u32::MAX
        },
    ensures
        final(canvas).pixels@.len() == old(canvas).pixels@.len(),
        ({
            let c = Clip::resolved(clip, old(canvas).width, old(canvas).height);
            let r = PillRect {
                x: pill_x as int,
                y: pill_y as int,
                w: pill_w as int,
                h: pill_h as int,
            };
            let g = glow_pass(old(canvas).width, old(canvas).height, c, r, true, false);
            &&& forall|i: int|
                0 <= i < old(canvas).pixels@.len() ==> #[trigger] final(canvas).pixels@[i]
                    == pill_glow_px(
                    old(canvas).pixels@,
                    i,
                    old(canvas).width as int,
                    g,
                    r,
                    seed as int,
                    factor_256 as int,
                    glow_colour,
                )
            &&& final(canvas).damage.rect() == glow_damage(
                old(canvas).damage.rect(),
                g,
                r,
                seed as int,
                factor_256 as int,
            )
        }),
        final(canvas).width == old(canvas).width,
        final(canvas).height == old(canvas).height,
        final(final(canvas).pixels)@ == final(old(canvas).pixels)@,
        *final(final(canvas).damage) == *final(old(canvas).damage),
{
    apply_glow(
        canvas,
        pill_x,
        pill_y,
        pill_w,
        pill_h,
        glow_colour,
        seed,
        factor_256,
        clip,
        true,
        false,
    );
}

/// Glow to the bottom: on each column of the pill, a ray leaves the last opaque pixel and goes down.
pub fn apply_textbox_glow_bottom(
    canvas: &mut Canvas,
    pill_x: isize,
    pill_y: isize,
    pill_w: isize,
    pill_h: isize,
    glow_colour: u32,
    seed: u32,
    factor_256: u32,
    clip: Option<Clip>,
)
    requires
        old(canvas).fits(),
        pill_w > 0 && pill_h > 0 && seed != 0 && 0 < factor_256 < 256 ==> {
            &&& pill_x + pill_w <= isize::MAX
            &&& pill_y + pill_h <= isize::MAX
            &&& seed * factor_256 <= u32::MAX
        },
    ensures
        final(canvas).pixels@.len() == old(canvas).pixels@.len(),
        ({
            let c = Clip::resolved(clip, old(canvas).width, old(canvas).height);
            let r = PillRect {
                x: pill_x as int,
                y: pill_y as int,
                w: pill_w as int,
                h: pill_h as int,
            };
            let g = glow_pass(old(canvas).width, old(canvas).height, c, r, true, true);
            &&& forall|i: int|
                0 <= i < old(canvas).pixels@.len() ==> #[trigger] final(canvas).pixels@[i]
                    == pill_glow_px(
                    old(canvas).pixels@,
                    i,
                    old(canvas).width as int,
                    g,
                    r,
                    seed as int,
                    factor_256 as int,
                    glow_colour,
                )
            &&& final(canvas).damage.rect() == glow_damage(
                old(canvas).damage.rect(),
                g,
                r,
                seed as int,
                factor_256 as int,
            )
        }),
        final(canvas).width == old(canvas).width,
        final(canvas).height == old(canvas).height,
        final(final(canvas).pixels)@ == final(old(canvas).pixels)@,
        *final(final(canvas).damage) == *final(old(canvas).damage),
{
    apply_glow(
        canvas,
        pill_x,
        pill_y,
        pill_w,
        pill_h,
        glow_colour,
        seed,
        factor_256,
        clip,
        true,
        true,
    );
}

/// The silhouette is looked for on its stretch of the line alone.
proof fn lemma_silhouette(
    pixels: Seq<u32>,
    w: int,
    vertical: bool,
    forward: bool,
    line: int,
    lo: int,
    hi: int,
)
    ensures
        match silhouette(pixels, w, vertical, forward, line, lo, hi) {
            Some(o) => lo <= o < hi,
            None => true,
        },
    decreases hi - lo,
{
    if lo < hi {
        if forward {
            lemma_silhouette(pixels, w, vertical, forward, line, lo, hi - 1);
        } else {
            lemma_silhouette(pixels, w, vertical, forward, line, lo + 1, hi);
        }
    }
}

/// A glow leaves the pill's box on one side only, and by no more than the reach of its rays: a box
/// grown by that reach holds everything that it paints.
pub proof fn law_glow_stays_in_reach(
    pixels: Seq<u32>,
    i: int,
    w: usize,
    h: usize,
    c: Clip,
    r: PillRect,
    vertical: bool,
    forward: bool,
    seed: int,
    factor: int,
    colour: u32,
)
    requires
        pill_glow_px(
            pixels,
            i,
            w as int,
            glow_pass(w, h, c, r, vertical, forward),
            r,
            seed,
            factor,
            colour,
        ) != pixels[i],
    ensures
        ({
            let line = line_of(i, w as int, vertical);
            let pos = pos_of(i, w as int, vertical);
            let n = ray::reach(seed, factor);
            let (across, wide, along, long) = if vertical {
                (r.x, r.w, r.y, r.h)
            } else {
                (r.y, r.h, r.x, r.w)
            };
            &&& across <= line < across + wide
            &&& forward ==> along < pos < along + long + n
            &&& !forward ==> along - n <= pos < along + long
        }),
{
    let g = glow_pass(w, h, c, r, vertical, forward);
    lemma_silhouette(
        pixels,
        w as int,
        vertical,
        forward,
        line_of(i, w as int, vertical),
        g.lo,
        g.hi,
    );
}

/// The pixel at column `x` of row `y` after a glow without a clip.
pub open spec fn glowing(
    pixels: Seq<u32>,
    w: usize,
    h: usize,
    r: PillRect,
    vertical: bool,
    forward: bool,
    seed: int,
    factor: int,
    colour: u32,
    x: int,
    y: int,
) -> u32 {
    pill_glow_px(
        pixels,
        y * w + x,
        w as int,
        glow_pass(w, h, Clip::whole(w, h), r, vertical, forward),
        r,
        seed,
        factor,
        colour,
    )
}

/// `b` is `a` turned round: top to bottom if `vertical`, else left to right.
pub open spec fn turned_round(a: Seq<u32>, b: Seq<u32>, w: int, h: int, vertical: bool) -> bool {
    forall|line: int, pos: int|
        0 <= line < (if vertical {
            w
        } else {
            h
        }) && 0 <= pos < (if vertical {
            h
        } else {
            w
        }) ==> b[line_cell(
            line,
            (if vertical {
                h
            } else {
                w
            }) - 1 - pos,
            w,
            vertical,
        )] == #[trigger] a[line_cell(line, pos, w, vertical)]
}

/// The box of a pill on a buffer that was turned round.
pub open spec fn rect_round(r: PillRect, w: int, h: int, vertical: bool) -> PillRect {
    if vertical {
        PillRect { y: h - r.y - r.h, ..r }
    } else {
        PillRect { x: w - r.x - r.w, ..r }
    }
}

/// The silhouette on a line that was turned round.
proof fn lemma_silhouette_round(
    a: Seq<u32>,
    b: Seq<u32>,
    w: int,
    h: int,
    vertical: bool,
    line: int,
    lo: int,
    hi: int,
)
    requires
        turned_round(a, b, w, h, vertical),
        0 <= line < (if vertical {
            w
        } else {
            h
        }),
        0 <= lo,
        hi <= (if vertical {
            h
        } else {
            w
        }),
    ensures
        ({
            let n = if vertical {
                h
            } else {
                w
            };
            silhouette(b, w, vertical, false, line, n - hi, n - lo) == (match silhouette(
                a,
                w,
                vertical,
                true,
                line,
                lo,
                hi,
            ) {
                Some(o) => Some(n - 1 - o),
                None => None,
            })
        }),
    decreases hi - lo,
{
    if lo < hi {
        assert(a[line_cell(line, hi - 1, w, vertical)] == a[line_cell(line, hi - 1, w, vertical)]);
        lemma_silhouette_round(a, b, w, h, vertical, line, lo, hi - 1);
    }
}

/// A glow on a buffer that was turned round is the opposite glow, turned round.
proof fn lemma_glow_round(
    a: Seq<u32>,
    b: Seq<u32>,
    w: usize,
    h: usize,
    r: PillRect,
    vertical: bool,
    seed: int,
    factor: int,
    colour: u32,
    line: int,
    pos: int,
)
    requires
        turned_round(a, b, w as int, h as int, vertical),
        0 <= line < (if vertical {
            w
        } else {
            h
        }),
        0 <= pos < (if vertical {
            h
        } else {
            w
        }),
    ensures
        ({
            let n = if vertical {
                h
            } else {
                w
            };
            let q = rect_round(r, w as int, h as int, vertical);
            let c = Clip::whole(w, h);
            pill_glow_px(
                b,
                line_cell(line, n - 1 - pos, w as int, vertical),
                w as int,
                glow_pass(w, h, c, q, vertical, false),
                q,
                seed,
                factor,
                colour,
            ) == pill_glow_px(
                a,
                line_cell(line, pos, w as int, vertical),
                w as int,
                glow_pass(w, h, c, r, vertical, true),
                r,
                seed,
                factor,
                colour,
            )
        }),
{
    let n = if vertical {
        h as int
    } else {
        w as int
    };
    let q = rect_round(r, w as int, h as int, vertical);
    let c = Clip::whole(w, h);
    let g = glow_pass(w, h, c, r, vertical, true);
    let k = glow_pass(w, h, c, q, vertical, false);
    lemma_line_cell(line, pos, w as int, h as int, vertical);
    lemma_line_cell(line, n - 1 - pos, w as int, h as int, vertical);
    assert(b[line_cell(line, n - 1 - pos, w as int, vertical)] == a[line_cell(
        line,
        pos,
        w as int,
        vertical,
    )]);
    assert(k.line_lo == g.line_lo && k.line_hi == g.line_hi);
    assert(pass_active(k, q, seed, factor) == pass_active(g, r, seed, factor));
    if pass_active(g, r, seed, factor) {
        assert(k.lo == n - g.hi && k.hi == n - g.lo);
        lemma_silhouette_round(a, b, w as int, h as int, vertical, line, g.lo, g.hi);
    }
}

/// The glow to the left is the mirror image, left to right, of the glow to the right on the mirror
/// image.
pub proof fn law_left_glow_mirrors_right(
    a: Seq<u32>,
    b: Seq<u32>,
    w: usize,
    h: usize,
    r: PillRect,
    seed: int,
    factor: int,
    colour: u32,
    x: int,
    y: int,
)
    requires
        turned_round(a, b, w as int, h as int, false),
        0 <= x < w,
        0 <= y < h,
    ensures
        glowing(
            b,
            w,
            h,
            rect_round(r, w as int, h as int, false),
            false,
            false,
            seed,
            factor,
            colour,
            w - 1 - x,
            y,
        ) == glowing(a, w, h, r, false, true, seed, factor, colour, x, y),
{
    lemma_glow_round(a, b, w, h, r, false, seed, factor, colour, y, x);
}

/// The glow to the top is the mirror image, top to bottom, of the glow to the bottom on the mirror
/// image.
pub proof fn law_top_glow_flips_bottom(
    a: Seq<u32>,
    b: Seq<u32>,
    w: usize,
    h: usize,
    r: PillRect,
    seed: int,
    factor: int,
    colour: u32,
    x: int,
    y: int,
)
    requires
        turned_round(a, b, w as int, h as int, true),
        0 <= x < w,
        0 <= y < h,
    ensures
        glowing(
            b,
            w,
            h,
            rect_round(r, w as int, h as int, true),
            true,
            false,
            seed,
            factor,
            colour,
            x,
            h - 1 - y,
        ) == glowing(a, w, h, r, true, true, seed, factor, colour, x, y),
{
    lemma_glow_round(a, b, w, h, r, true, seed, factor, colour, x, y);
}

/// `b` is `a`, `w` by `h`, with rows and columns exchanged.
pub open spec fn transposed(a: Seq<u32>, b: Seq<u32>, w: int, h: int) -> bool {
    forall|x: int, y: int|
        0 <= x < w && 0 <= y < h ==> b[line_cell(y, x, h, true)] == #[trigger] a[line_cell(
            y,
            x,
            w,
            false,
        )]
}

/// The silhouette on a row is that on the column it was exchanged for.
proof fn lemma_silhouette_transposed(
    a: Seq<u32>,
    b: Seq<u32>,
    w: int,
    h: int,
    forward: bool,
    line: int,
    lo: int,
    hi: int,
)
    requires
        transposed(a, b, w, h),
        0 <= line < h,
        0 <= lo,
        hi <= w,
    ensures
        silhouette(b, h, true, forward, line, lo, hi) == silhouette(
            a,
            w,
            false,
            forward,
            line,
            lo,
            hi,
        ),
    decreases hi - lo,
{
    if lo < hi {
        if forward {
            assert(a[line_cell(line, hi - 1, w, false)] == b[line_cell(line, hi - 1, h, true)]);
            lemma_silhouette_transposed(a, b, w, h, forward, line, lo, hi - 1);
        } else {
            assert(a[line_cell(line, lo, w, false)] == b[line_cell(line, lo, h, true)]);
            lemma_silhouette_transposed(a, b, w, h, forward, line, lo + 1, hi);
        }
    }
}

/// The glow to the top, and to the bottom, is the glow to the left, and to the right, with rows and
/// columns exchanged.
pub proof fn law_vertical_glow_transposes_horizontal(
    a: Seq<u32>,
    b: Seq<u32>,
    w: usize,
    h: usize,
    r: PillRect,
    forward: bool,
    seed: int,
    factor: int,
    colour: u32,
    x: int,
    y: int,
)
    requires
        transposed(a, b, w as int, h as int),
        0 <= x < w,
        0 <= y < h,
    ensures
        glowing(
            b,
            h,
            w,
            (PillRect { x: r.y, y: r.x, w: r.h, h: r.w }),
            true,
            forward,
            seed,
            factor,
            colour,
            y,
            x,
        ) == glowing(a, w, h, r, false, forward, seed, factor, colour, x, y),
{
    let q = PillRect { x: r.y, y: r.x, w: r.h, h: r.w };
    let g = glow_pass(w, h, Clip::whole(w, h), r, false, forward);
    let k = glow_pass(h, w, Clip::whole(h, w), q, true, forward);
    lemma_line_cell(y, x, w as int, h as int, false);
    lemma_line_cell(y, x, h as int, w as int, true);
    assert(b[line_cell(y, x, h as int, true)] == a[line_cell(y, x, w as int, false)]);
    assert(k.lo == g.lo && k.hi == g.hi && k.line_lo == g.line_lo && k.line_hi == g.line_hi
        && k.stop == g.stop);
    lemma_silhouette_transposed(a, b, w as int, h as int, forward, y, g.lo, g.hi);
}

/// A line without an opaque pixel in the pill's box stays as it is.
pub proof fn law_glow_needs_a_silhouette(
    pixels: Seq<u32>,
    i: int,
    w: int,
    g: Pass,
    r: PillRect,
    seed: int,
    factor: int,
    colour: u32,
)
    requires
        forall|pos: int|
            g.lo <= pos < g.hi ==> pixel::alpha(
                #[trigger] pixels[line_cell(line_of(i, w, g.vertical), pos, w, g.vertical)],
            ) != 255,
    ensures
        pill_glow_px(pixels, i, w, g, r, seed, factor, colour) == pixels[i],
{
    lemma_no_silhouette(
        pixels,
        w,
        g.vertical,
        g.forward,
        line_of(i, w, g.vertical),
        g.lo,
        g.hi,
    );
}

/// A stretch of a line without an opaque pixel has no silhouette.
proof fn lemma_no_silhouette(
    pixels: Seq<u32>,
    w: int,
    vertical: bool,
    forward: bool,
    line: int,
    lo: int,
    hi: int,
)
    requires
        forall|pos: int|
            lo <= pos < hi ==> pixel::alpha(
                #[trigger] pixels[line_cell(line, pos, w, vertical)],
            ) != 255,
    ensures
        silhouette(pixels, w, vertical, forward, line, lo, hi) is None,
    decreases hi - lo,
{
    if lo < hi {
        if forward {
            lemma_no_silhouette(pixels, w, vertical, forward, line, lo, hi - 1);
        } else {
            lemma_no_silhouette(pixels, w, vertical, forward, line, lo + 1, hi);
        }
    }
}

/// Glow leaves the silhouette: on a row of the pill whose last opaque pixel is at column `o`, the pixel
/// `k` columns further right gets the glow's colour under it at what is left of the ray after so many
/// steps. The other sides are its mirror images.
pub proof fn law_glow_leaves_the_silhouette(
    pixels: Seq<u32>,
    w: usize,
    h: usize,
    r: PillRect,
    seed: int,
    factor: int,
    colour: u32,
    o: int,
    y: int,
    k: int,
)
    requires
        w * h <= pixels.len(),
        0 < seed,
        0 < factor < 256,
        0 <= r.x <= o < r.x + r.w <= w,
        0 <= r.y <= y < r.y + r.h <= h,
        pixel::alpha(pixels[y * w + o]) == 255,
        forall|x: int|
            o < x < r.x + r.w ==> pixel::alpha(
                #[trigger] pixels[line_cell(y, x, w as int, false)],
            ) != 255,
        1 <= k <= ray::reach(seed, factor),
        o + k < w,
    ensures
        glowing(pixels, w, h, r, false, true, seed, factor, colour, o + k, y) == pixel::under_px(
            pixels[y * w + o + k],
            pixel::argb(
                ray::decayed(seed, factor, (k - 1) as nat),
                pixel::red(colour),
                pixel::green(colour),
                pixel::blue(colour),
            ),
            BlendMode::Normal,
        ),
{
    let g = glow_pass(w, h, Clip::whole(w, h), r, false, true);
    canvas::lemma_cell(o + k, y, w as int);
    lemma_last_opaque(pixels, w as int, y, o, g.lo, g.hi);
}

proof fn lemma_last_opaque(pixels: Seq<u32>, w: int, y: int, o: int, lo: int, hi: int)
    requires
        lo <= o < hi,
        pixel::alpha(pixels[y * w + o]) == 255,
        forall|x: int|
            o < x < hi ==> pixel::alpha(#[trigger] pixels[line_cell(y, x, w, false)]) != 255,
    ensures
        silhouette(pixels, w, false, true, y, lo, hi) == Some(o),
    decreases hi - lo,
{
    if o < hi - 1 {
        assert(pixel::alpha(pixels[line_cell(y, hi - 1, w, false)]) != 255);
        lemma_last_opaque(pixels, w, y, o, lo, hi - 1);
    }
}

/// A glow pass damages every pixel that it changes, and keeps what was damaged.
pub proof fn law_glow_damages_what_it_changes(
    d: Option<PixelRect>,
    pixels: Seq<u32>,
    w: usize,
    h: usize,
    c: Clip,
    r: PillRect,
    vertical: bool,
    forward: bool,
    seed: int,
    factor: int,
    colour: u32,
    x: int,
    y: int,
)
    requires
        c.within(w, h),
        0 <= x < w,
        0 <= y < h,
        ({
            let g = glow_pass(w, h, c, r, vertical, forward);
            pill_glow_px(pixels, y * w + x, w as int, g, r, seed, factor, colour) != pixels[y * w + x]
                || d is Some && (d->0).holds(x, y)
        }),
    ensures
        ({
            let q = glow_damage(d, glow_pass(w, h, c, r, vertical, forward), r, seed, factor);
            q is Some && (q->0).holds(x, y)
        }),
{
    let g = glow_pass(w, h, c, r, vertical, forward);
    canvas::lemma_cell(x, y, w as int);
    let line = if vertical {
        x
    } else {
        y
    };
    lemma_silhouette_place(pixels, w as int, vertical, forward, line, g.lo, g.hi);
}

/// The silhouette lies where it is looked for.
pub proof fn lemma_silhouette_place(
    pixels: Seq<u32>,
    w: int,
    vertical: bool,
    forward: bool,
    line: int,
    lo: int,
    hi: int,
)
    ensures
        silhouette(pixels, w, vertical, forward, line, lo, hi) matches Some(o) ==> lo <= o < hi,
    decreases hi - lo,
{
    if lo < hi {
        if forward {
            lemma_silhouette_place(pixels, w, vertical, forward, line, lo, hi - 1);
        } else {
            lemma_silhouette_place(pixels, w, vertical, forward, line, lo + 1, hi);
        }
    }
}

} // verus!
