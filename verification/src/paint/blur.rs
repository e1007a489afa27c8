//! The four-way blur glow around a masked pill.
use crate::canvas::{self, Canvas, PixelRect};
use crate::paint::glow;
use crate::pixel::{self, Blend, BlendMode};
use vstd::prelude::*;

verus! {

/// How far the blur reaches to the sides.
pub const BLUR_H: usize = 32;

/// How far the blur reaches up and down.
pub const BLUR_V: usize = 16;

/// The strength of the blur at place `pos` of a line, coming from place `from`: every drop of the
/// mask adds to it, and it fades with each step.
pub open spec fn strength(
    mask: Seq<u8>,
    w: int,
    h: int,
    line: int,
    vertical: bool,
    forward: bool,
    from: int,
    pos: int,
) -> int
    decreases
            if forward {
                pos - from
            } else {
                from - pos
            },
{
    let back = if forward {
        pos - 1
    } else {
        pos + 1
    };
    let before = if forward && pos <= from || !forward && pos >= from {
        0
    } else {
        strength(mask, w, h, line, vertical, forward, from, back)
    };
    let here = mask[glow::line_cell(line, pos, w, vertical)];
    let there = mask[glow::line_cell(line, back, w, vertical)];
    let has_neighbour = if forward {
        pos > 0
    } else if vertical {
        pos + 1 < h
    } else {
        pos + 1 < w
    };
    let grown = if has_neighbour && here < there {
        before + there - here
    } else {
        before
    };
    if vertical {
        vstd::math::min((grown * 3) / 4, 70)
    } else {
        vstd::math::min((grown * 15) / 16, 71)
    }
}

/// A pixel with the blur of strength `s` under it, weakened by the mask value `m`.
pub open spec fn blur_px(p: u32, s: int, m: u8, colour: u32) -> u32 {
    let a = (s * (255 - m)) / 256;
    if a > 0 {
        pixel::under_px(
            p,
            pixel::argb(a, pixel::red(colour), pixel::green(colour), pixel::blue(colour)),
            BlendMode::Normal,
        )
    } else {
        p
    }
}

/// The place of cell `i` on a line. The cells of a row go on into the next one.
pub open spec fn place_on(i: int, line: int, w: int, vertical: bool) -> Option<int> {
    if !vertical {
        Some(i - line * w)
    } else if canvas::col_of(i, w) == line {
        Some(canvas::row_of(i, w))
    } else {
        None
    }
}

/// The buffer after the blur of the places `lo..hi` of one line.
pub open spec fn blur_line_of(
    pixels: Seq<u32>,
    mask: Seq<u8>,
    w: int,
    h: int,
    line: int,
    vertical: bool,
    forward: bool,
    lo: int,
    hi: int,
    colour: u32,
) -> Seq<u32> {
    Seq::new(
        pixels.len(),
        |i: int|
            match place_on(i, line, w, vertical) {
                Some(pos) => if lo <= pos < hi {
                    blur_px(
                        pixels[i],
                        strength(
                            mask,
                            w,
                            h,
                            line,
                            vertical,
                            forward,
                            if forward {
                                lo
                            } else {
                                hi - 1
                            },
                            pos,
                        ),
                        mask[i],
                        colour,
                    )
                } else {
                    pixels[i]
                },
                None => pixels[i],
            },
    )
}

/// The strength stays small enough for bytes.
proof fn lemma_strength(
    mask: Seq<u8>,
    w: int,
    h: int,
    line: int,
    vertical: bool,
    forward: bool,
    from: int,
    pos: int,
)
    ensures
        0 <= strength(mask, w, h, line, vertical, forward, from, pos) <= 71,
    decreases
            if forward {
                pos - from
            } else {
                from - pos
            },
{
    if forward && pos > from {
        lemma_strength(mask, w, h, line, vertical, forward, from, pos - 1);
    } else if !forward && pos < from {
        lemma_strength(mask, w, h, line, vertical, forward, from, pos + 1);
    }
}

/// Lays the blur under one pixel.
fn under_blur(p: u32, s: u32, m: u8, colour: u32) -> (q: u32)
    requires
        s <= 71,
    ensures
        q == blur_px(p, s as int, m, colour),
{
    let k: u32 = 255 - m as u32;
    proof {
        pixel::lemma_scaled(s as int, k as int, 71);
    }
    let a: u32 = pixel::scale(s, k);
    if a > 0 {
        p.under(pixel::with_alpha(colour, a), BlendMode::Normal)
    } else {
        p
    }
}

/// Blurs the places `lo..hi` of one line.
#[verifier::rlimit(30)]
fn blur_line(
    pixels: &mut [u32],
    mask: &[u8],
    w: usize,
    h: usize,
    line: usize,
    vertical: bool,
    forward: bool,
    lo: usize,
    hi: usize,
    colour: u32,
)
    requires
        0 < w,
        w * h <= old(pixels)@.len(),
        w * h <= mask@.len(),
        if vertical {
            line < w && hi <= h
        } else {
            line < h && line * w + hi <= w * h
        },
    ensures
        final(pixels)@ == blur_line_of(
            old(pixels)@,
            mask@,
            w as int,
            h as int,
            line as int,
            vertical,
            forward,
            lo as int,
            hi as int,
            colour,
        ),
{
    let ghost before = pixels@;
    let n: usize = pixels.len();
    let mask_n: usize = mask.len();
    let ghost from = if forward {
        lo as int
    } else {
        hi - 1
    };
    let count: usize = if lo < hi {
        hi - lo
    } else {
        0
    };
    let mut s: u32 = 0;
    let mut k: usize = 0;
    proof {
        canvas::lemma_grid(w as int);
        canvas::lemma_cell_bound(0, line as int, w as int, if vertical { line + 1 } else { h as int });
    }
    while k < count
        invariant
            0 < w,
            w * h <= n,
            w * h <= mask_n,
            n == before.len(),
            n == pixels@.len(),
            mask_n == mask@.len(),
            if vertical {
                line < w && hi <= h
            } else {
                line < h && line * w + hi <= w * h
            },
            k <= count,
            count == (if lo < hi {
                hi - lo
            } else {
                0
            }),
            from == (if forward {
                lo as int
            } else {
                hi - 1
            }),
            s <= 71,
            k == 0 ==> s == 0,
            k > 0 ==> s == strength(
                mask@,
                w as int,
                h as int,
                line as int,
                vertical,
                forward,
                from,
                if forward {
                    lo + k - 1
                } else {
                    hi - k
                },
            ),
            forall|i: int|
                #![trigger canvas::row_of(i, w as int)]
                #![trigger canvas::col_of(i, w as int)]
                i == canvas::row_of(i, w as int) * w + canvas::col_of(i, w as int) && 0
                    <= canvas::col_of(i, w as int) < w && (i >= 0 ==> canvas::row_of(i, w as int)
                    >= 0),
            forall|i: int|
                0 <= i < n ==> #[trigger] pixels@[i] == (match place_on(
                    i,
                    line as int,
                    w as int,
                    vertical,
                ) {
                    Some(pos) => if (if forward {
                        lo <= pos < lo + k
                    } else {
                        hi - k <= pos < hi
                    }) {
                        blur_px(
                            before[i],
                            strength(
                                mask@,
                                w as int,
                                h as int,
                                line as int,
                                vertical,
                                forward,
                                from,
                                pos,
                            ),
                            mask@[i],
                            colour,
                        )
                    } else {
                        before[i]
                    },
                    None => before[i],
                }),
        decreases count - k,
    {
        let pos: usize = if forward {
            lo + k
        } else {
            hi - 1 - k
        };
        proof {
            if vertical {
                canvas::lemma_cell(line as int, pos as int, w as int);
                canvas::lemma_cell_bound(line as int, pos as int, w as int, h as int);
            } else {
                canvas::lemma_cell_bound(0, line as int, w as int, h as int);
            }
            lemma_strength(
                mask@,
                w as int,
                h as int,
                line as int,
                vertical,
                forward,
                from,
                pos as int,
            );
        }
        let at: usize = if vertical {
            pos * w + line
        } else {
            line * w + pos
        };
        let here: u8 = mask[at];
        let neighbour: Option<u8> = if forward {
            if pos > 0 {
                proof {
                    assert((pos - 1) * w == pos * w - w) by (nonlinear_arith);
                    if vertical {
                        canvas::lemma_cell_bound(line as int, pos - 1, w as int, h as int);
                    }
                }
                Some(if vertical { mask[at - w] } else { mask[at - 1] })
            } else {
                None
            }
        } else if vertical {
            if pos + 1 < h {
                proof {
                    assert((pos + 1) * w == pos * w + w) by (nonlinear_arith);
                    canvas::lemma_cell_bound(line as int, pos + 1, w as int, h as int);
                }
                Some(mask[at + w])
            } else {
                None
            }
        } else {
            if pos + 1 < w {
                Some(mask[at + 1])
            } else {
                None
            }
        };
        match neighbour {
            Some(there) => {
                if here < there {
                    s += (there - here) as u32;
                }
            },
            None => {},
        }
        s = if vertical {
            let f: u32 = (s * 3) / 4;
            if f < 70 { f } else { 70 }
        } else {
            let f: u32 = (s * 15) / 16;
            if f < 71 { f } else { 71 }
        };
        let ghost prev = pixels@;
        assert(place_on(at as int, line as int, w as int, vertical) == Some(pos as int));
        assert(prev[at as int] == before[at as int]);
        assert(s == strength(
            mask@,
            w as int,
            h as int,
            line as int,
            vertical,
            forward,
            from,
            pos as int,
        ));
        pixels[at] = under_blur(pixels[at], s, here, colour);
        k += 1;
    }
    assert(pixels@ =~= blur_line_of(
        before,
        mask@,
        w as int,
        h as int,
        line as int,
        vertical,
        forward,
        lo as int,
        hi as int,
        colour,
    ));
}

/// The silhouette of the pill: its sides, its top and bottom, and its corner radius.
pub struct Pill {
    pub x_left: int,
    pub x_right: int,
    pub y_top: int,
    pub y_bot: int,
    pub r: int,
}

/// How far a line at `v` lies outside the straight part between `a + r` and `b - r`.
pub open spec fn slant(v: int, a: int, b: int, r: int) -> int {
    vstd::math::max(a + r - v, 0) + vstd::math::max(v - (b - r), 0)
}

/// The places `lo..hi` of a line that one of the four passes blurs. Rows go right (`forward`) and
/// left, columns (`vertical`) go down (`forward`) and up.
pub open spec fn blur_range(
    p: Pill,
    w: int,
    h: int,
    line: int,
    vertical: bool,
    forward: bool,
) -> (int, int) {
    if vertical {
        let d = slant(line, p.x_left, p.x_right, p.r);
        if forward {
            (p.y_bot - d, vstd::math::min(p.y_bot + BLUR_V, h))
        } else {
            (vstd::math::max(p.y_top - BLUR_V, 0), vstd::math::min(p.y_top + d + 1, h))
        }
    } else {
        let d = slant(line, p.y_top, p.y_bot, p.r);
        if forward {
            (p.x_right - d, vstd::math::min(p.x_right + BLUR_H, w))
        } else {
            (vstd::math::max(p.x_left - BLUR_H, 0), p.x_left + d + 1)
        }
    }
}

/// The buffer after one pass over the lines `a..b`, in order.
pub open spec fn blur_pass(
    pixels: Seq<u32>,
    mask: Seq<u8>,
    w: int,
    h: int,
    p: Pill,
    vertical: bool,
    forward: bool,
    a: int,
    b: int,
    colour: u32,
) -> Seq<u32>
    decreases b - a,
{
    if b <= a {
        pixels
    } else {
        let (lo, hi) = blur_range(p, w, h, b - 1, vertical, forward);
        blur_line_of(
            blur_pass(pixels, mask, w, h, p, vertical, forward, a, b - 1, colour),
            mask,
            w,
            h,
            b - 1,
            vertical,
            forward,
            lo,
            hi,
            colour,
        )
    }
}

/// The buffer after the passes to the right, to the left, down and up.
pub open spec fn blurred(
    pixels: Seq<u32>,
    mask: Seq<u8>,
    w: int,
    h: int,
    p: Pill,
    colour: u32,
) -> Seq<u32> {
    let s1 = blur_pass(pixels, mask, w, h, p, false, true, p.y_top, p.y_bot, colour);
    let s2 = blur_pass(s1, mask, w, h, p, false, false, p.y_top, p.y_bot, colour);
    let s3 = blur_pass(s2, mask, w, h, p, true, true, p.x_left, p.x_right, colour);
    blur_pass(s3, mask, w, h, p, true, false, p.x_left, p.x_right, colour)
}

/// The left end of the unbroken run of mask values above 0 that ends before column `x` of a row.
pub open spec fn run_left(mask: Seq<u8>, row: int, x: int) -> int
    decreases x,
{
    if x > 0 && mask[row + x - 1] > 0 {
        run_left(mask, row, x - 1)
    } else {
        x
    }
}

/// The end of the unbroken run of mask values above 0 that starts at column `x` of a row.
pub open spec fn run_right(mask: Seq<u8>, row: int, x: int, w: int) -> int
    decreases w - x,
{
    if x < w && mask[row + x] > 0 {
        run_right(mask, row, x + 1, w)
    } else {
        x
    }
}

/// The pill around `(cx, cy)`: its width is read off the mask on the middle row.
pub open spec fn pill_of(mask: Seq<u8>, w: int, cx: int, cy: int, bw: int, bh: int) -> Pill {
    let end = run_right(mask, cy * w, cx, w);
    Pill {
        x_left: run_left(mask, cy * w, cx),
        x_right: if end > cx {
            end - 1
        } else {
            cx
        },
        y_top: cy - bh / 2,
        y_bot: cy + bh / 2,
        r: (2 * bw * bh) / (bw + bh),
    }
}

/// The middle of the box lies in the buffer, and so do its top and bottom.
pub open spec fn blur_active(w: int, h: int, cx: int, cy: int, bh: int) -> bool {
    cy >= bh / 2 && cy + bh / 2 < h && 0 <= cx < w
}

/// No line of a pass starts before the buffer or ends after it.
pub open spec fn pill_fits(p: Pill, w: int, h: int) -> bool {
    &&& p.r <= p.x_right
    &&& p.r <= p.y_bot
    &&& forall|y: int|
        p.y_top <= y < p.y_bot ==> (#[trigger] slant(y, p.y_top, p.y_bot, p.r)) <= p.x_right && y * w
            + p.x_left + slant(y, p.y_top, p.y_bot, p.r) < w * h
    &&& forall|x: int|
        p.x_left <= x < p.x_right ==> (#[trigger] slant(x, p.x_left, p.x_right, p.r)) <= p.y_bot
}

/// The places of a line that one of the passes blurs.
fn line_range(
    w: usize,
    h: usize,
    x_left: usize,
    x_right: usize,
    y_top: usize,
    y_bot: usize,
    r: usize,
    line: usize,
    vertical: bool,
    forward: bool,
) -> (range: (usize, usize))
    requires
        x_left <= x_right < w,
        y_top <= y_bot < h,
        w * h <= usize::MAX,
        if vertical {
            x_left <= line < x_right
        } else {
            y_top <= line < y_bot
        },
        pill_fits(
            (Pill {
                x_left: x_left as int,
                x_right: x_right as int,
                y_top: y_top as int,
                y_bot: y_bot as int,
                r: r as int,
            }),
            w as int,
            h as int,
        ),
    ensures
        (range.0 as int, range.1 as int) == blur_range(
            (Pill {
                x_left: x_left as int,
                x_right: x_right as int,
                y_top: y_top as int,
                y_bot: y_bot as int,
                r: r as int,
            }),
            w as int,
            h as int,
            line as int,
            vertical,
            forward,
        ),
        vertical ==> range.1 <= h,
        !vertical ==> line * w + range.1 <= w * h,
{
    let ghost p = Pill {
        x_left: x_left as int,
        x_right: x_right as int,
        y_top: y_top as int,
        y_bot: y_bot as int,
        r: r as int,
    };
    let (a, b) = if vertical {
        (x_left, x_right)
    } else {
        (y_top, y_bot)
    };
    let ghost d = slant(line as int, a as int, b as int, r as int);
    proof {
        if !vertical {
            assert(slant(line as int, p.y_top, p.y_bot, p.r) == d);
            canvas::lemma_cell_bound(x_right as int, line as int, w as int, h as int);
        } else {
            assert(slant(line as int, p.x_left, p.x_right, p.r) == d);
        }
    }
    let over_a: usize = if line - a < r {
        r - (line - a)
    } else {
        0
    };
    let over_b: usize = if b - line < r {
        r - (b - line)
    } else {
        0
    };
    proof {
        assert(over_a + over_b == d);
    }
    let (lo, hi) = if vertical {
        if forward {
            (
                y_bot - over_a - over_b,
                if h - y_bot < BLUR_V {
                    h
                } else {
                    y_bot + BLUR_V
                },
            )
        } else {
            let up: usize = if y_top > BLUR_V {
                y_top - BLUR_V
            } else {
                0
            };
            let room: usize = h - y_top;
            (
                up,
                if over_a >= room || over_b >= room - over_a {
                    h
                } else {
                    canvas::lesser(y_top + over_a + over_b + 1, h)
                },
            )
        }
    } else {
        if forward {
            (
                x_right - over_a - over_b,
                if w - x_right < BLUR_H {
                    w
                } else {
                    x_right + BLUR_H
                },
            )
        } else {
            let left: usize = if x_left > BLUR_H {
                x_left - BLUR_H
            } else {
                0
            };
            (left, x_left + over_a + over_b + 1)
        }
    };
    proof {
        assert((lo as int, hi as int) == blur_range(
            p,
            w as int,
            h as int,
            line as int,
            vertical,
            forward,
        ));
    }
    (lo, hi)
}

/// Runs one pass.
#[verifier::rlimit(30)]
fn run_pass(
    pixels: &mut [u32],
    mask: &[u8],
    w: usize,
    h: usize,
    x_left: usize,
    x_right: usize,
    y_top: usize,
    y_bot: usize,
    r: usize,
    vertical: bool,
    forward: bool,
    colour: u32,
)
    requires
        0 < w,
        w * h <= old(pixels)@.len(),
        w * h <= mask@.len(),
        x_left <= x_right < w,
        y_top <= y_bot < h,
        pill_fits(
            (Pill {
                x_left: x_left as int,
                x_right: x_right as int,
                y_top: y_top as int,
                y_bot: y_bot as int,
                r: r as int,
            }),
            w as int,
            h as int,
        ),
    ensures
        final(pixels)@.len() == old(pixels)@.len(),
        final(pixels)@ == blur_pass(
            old(pixels)@,
            mask@,
            w as int,
            h as int,
            (Pill {
                x_left: x_left as int,
                x_right: x_right as int,
                y_top: y_top as int,
                y_bot: y_bot as int,
                r: r as int,
            }),
            vertical,
            forward,
            if vertical {
                x_left as int
            } else {
                y_top as int
            },
            if vertical {
                x_right as int
            } else {
                y_bot as int
            },
            colour,
        ),
{
    let ghost before = pixels@;
    let ghost p = Pill {
        x_left: x_left as int,
        x_right: x_right as int,
        y_top: y_top as int,
        y_bot: y_bot as int,
        r: r as int,
    };
    let (a, b) = if vertical {
        (x_left, x_right)
    } else {
        (y_top, y_bot)
    };
    let mask_n: usize = mask.len();
    let mut line: usize = a;
    while line < b
        invariant
            0 < w,
            w * h <= pixels@.len(),
            pixels@.len() == before.len(),
            mask_n == mask@.len(),
            w * h <= mask_n,
            x_left <= x_right < w,
            y_top <= y_bot < h,
            a == (if vertical {
                x_left
            } else {
                y_top
            }),
            b == (if vertical {
                x_right
            } else {
                y_bot
            }),
            a <= line <= b,
            p == (Pill {
                x_left: x_left as int,
                x_right: x_right as int,
                y_top: y_top as int,
                y_bot: y_bot as int,
                r: r as int,
            }),
            pill_fits(p, w as int, h as int),
            pixels@ == blur_pass(
                before,
                mask@,
                w as int,
                h as int,
                p,
                vertical,
                forward,
                a as int,
                line as int,
                colour,
            ),
        decreases b - line,
    {
        let (lo, hi) = line_range(
            w, h, x_left, x_right, y_top, y_bot, r, line, vertical, forward,
        );
        blur_line(pixels, mask, w, h, line, vertical, forward, lo, hi, colour);
        line += 1;
    }
}

/// Finds the sides of the pill on a row of the mask.
fn find_sides(mask: &[u8], row: usize, cx: usize, w: usize) -> (s: (usize, usize))
    requires
        row + w <= mask@.len(),
        cx < w,
    ensures
        s.0 as int == run_left(mask@, row as int, cx as int),
        s.1 as int == (if run_right(mask@, row as int, cx as int, w as int) > cx {
            run_right(mask@, row as int, cx as int, w as int) - 1
        } else {
            cx as int
        }),
        s.0 <= cx <= s.1 < w,
{
    let n: usize = mask.len();
    let mut x_left: usize = cx;
    while x_left > 0 && mask[row + x_left - 1] > 0
        invariant
            n == mask@.len(),
            row + w <= n,
            x_left <= cx < w,
            run_left(mask@, row as int, x_left as int) == run_left(mask@, row as int, cx as int),
        decreases x_left,
    {
        x_left -= 1;
    }
    let mut end: usize = cx;
    while end < w && mask[row + end] > 0
        invariant
            n == mask@.len(),
            row + w <= n,
            cx <= end <= w,
            run_right(mask@, row as int, end as int, w as int) == run_right(
                mask@,
                row as int,
                cx as int,
                w as int,
            ),
        decreases w - end,
    {
        end += 1;
    }
    (
        x_left,
        if end > cx {
            end - 1
        } else {
            cx
        },
    )
}

/// Blurs a glow around the pill whose silhouette is `mask` and whose box is `box_width` by
/// `box_height` around the centre. Draws nothing where the centre, the top or the bottom of the box
/// lies outside the buffer.
pub fn apply_textbox_glow(
    canvas: &mut Canvas,
    mask: &[u8],
    center_x: isize,
    center_y: isize,
    box_width: usize,
    box_height: usize,
    glow_colour: u32,
)
    requires
        old(canvas).fits(),
        center_y + box_height / 2 <= isize::MAX,
        blur_active(
            old(canvas).width as int,
            old(canvas).height as int,
            center_x as int,
            center_y as int,
            box_height as int,
        ) ==> {
            &&& old(canvas).width * old(canvas).height <= mask@.len()
            &&& box_width + box_height > 0
            &&& 2 * box_width * box_height <= usize::MAX
            &&& center_x + box_width / 2 + BLUR_H <= usize::MAX
            &&& pill_fits(
                pill_of(
                    mask@,
                    old(canvas).width as int,
                    center_x as int,
                    center_y as int,
                    box_width as int,
                    box_height as int,
                ),
                old(canvas).width as int,
                old(canvas).height as int,
            )
        },
    ensures
        final(canvas).pixels@.len() == old(canvas).pixels@.len(),
        ({
            let w = old(canvas).width as int;
            let h = old(canvas).height as int;
            let cx = center_x as int;
            let cy = center_y as int;
            let bw = box_width as int;
            let bh = box_height as int;
            if blur_active(w, h, cx, cy, bh) {
                &&& final(canvas).pixels@ == blurred(
                    old(canvas).pixels@,
                    mask@,
                    w,
                    h,
                    pill_of(mask@, w, cx, cy, bw, bh),
                    glow_colour,
                )
                &&& final(canvas).damage.rect() == canvas::joined(
                    old(canvas).damage.rect(),
                    (PixelRect {
                        x0: vstd::math::max(cx - bw / 2 - BLUR_H, 0) as usize,
                        y0: vstd::math::max(cy - bh / 2 - BLUR_V, 0) as usize,
                        x1: vstd::math::min(cx + bw / 2 + BLUR_H, w) as usize,
                        y1: vstd::math::min(cy + bh / 2 + BLUR_V, h) as usize,
                    }),
                )
            } else {
                &&& final(canvas).pixels@ == old(canvas).pixels@
                &&& final(canvas).damage.rect() == old(canvas).damage.rect()
            }
        }),
        final(canvas).width == old(canvas).width,
        final(canvas).height == old(canvas).height,
        final(final(canvas).pixels)@ == final(old(canvas).pixels)@,
        *final(final(canvas).damage) == *final(old(canvas).damage),
{
    let w: usize = canvas.width;
    let h: usize = canvas.height;
    let half_h: usize = box_height / 2;
    if center_y < 0 || center_x < 0 {
        return;
    }
    let cy: usize = center_y as usize;
    let cx: usize = center_x as usize;
    if cy < half_h || cy + half_h >= h || cx >= w {
        return;
    }
    let y_top: usize = cy - half_h;
    let y_bot: usize = cy + half_h;
    let reach: usize = box_width / 2 + BLUR_H;
    canvas.damage.add_bounds(
        if cx > reach {
            cx - reach
        } else {
            0
        },
        if y_top > BLUR_V {
            y_top - BLUR_V
        } else {
            0
        },
        canvas::lesser(cx + reach, w),
        if h - y_bot < BLUR_V {
            h
        } else {
            y_bot + BLUR_V
        },
    );
    let n: usize = mask.len();
    proof {
        canvas::lemma_cell_bound(cx as int, cy as int, w as int, h as int);
        assert(2 * box_width <= 2 * box_width * box_height || box_height == 0) by (nonlinear_arith);
    }
    let (x_left, x_right) = find_sides(mask, cy * w, cx, w);
    let r: usize = if box_height == 0 {
        0
    } else {
        2 * box_width * box_height / (box_width + box_height)
    };
    proof {
        if box_height == 0 {
            assert((2 * box_width * box_height) as int == 0) by (nonlinear_arith)
                requires
                    box_height == 0,
            ;
            assert(0int / ((box_width + box_height) as int) == 0) by (nonlinear_arith)
                requires
                    box_width + box_height > 0,
            ;
        }
        let ghost p = pill_of(
            mask@,
            w as int,
            cx as int,
            cy as int,
            box_width as int,
            box_height as int,
        );
        assert(p == (Pill {
            x_left: x_left as int,
            x_right: x_right as int,
            y_top: y_top as int,
            y_bot: y_bot as int,
            r: r as int,
        }));
    }
    run_pass(
        canvas.pixels, mask, w, h, x_left, x_right, y_top, y_bot, r, false, true, glow_colour,
    );
    run_pass(
        canvas.pixels, mask, w, h, x_left, x_right, y_top, y_bot, r, false, false, glow_colour,
    );
    run_pass(
        canvas.pixels, mask, w, h, x_left, x_right, y_top, y_bot, r, true, true, glow_colour,
    );
    run_pass(
        canvas.pixels, mask, w, h, x_left, x_right, y_top, y_bot, r, true, false, glow_colour,
    );
}

/// The blur spares the pill: where the mask is full nothing changes, and elsewhere the colour goes under
/// what is there by the strength's share of what the mask leaves.
pub proof fn law_blur_spares_the_pill(p: u32, s: int, m: u8, colour: u32)
    requires
        0 <= s <= 71,
    ensures
        m == 255 ==> blur_px(p, s, m, colour) == p,
        s == 0 ==> blur_px(p, s, m, colour) == p,
        exists|a: int|
            0 <= 256 * a <= s * (255 - m) < 256 * a + 256 && (a == 0 && blur_px(p, s, m, colour) == p
                || a > 0 && blur_px(p, s, m, colour) == #[trigger] pixel::under_px(
                p,
                pixel::argb(a, pixel::red(colour), pixel::green(colour), pixel::blue(colour)),
                BlendMode::Normal,
            )),
{
    pixel::lemma_scaled(s, 255 - m, 71);
    assert(m == 255 ==> s * (255 - m) == 0) by (nonlinear_arith);
    assert(s == 0 ==> s * (255 - m) == 0) by (nonlinear_arith);
    let a = (s * (255 - m)) / 256;
    let q = pixel::under_px(
        p,
        pixel::argb(a, pixel::red(colour), pixel::green(colour), pixel::blue(colour)),
        BlendMode::Normal,
    );
    assert(a > 0 ==> blur_px(p, s, m, colour) == q);
}

/// The blur fades away from the pill: where the mask does not drop, its strength falls with each step,
/// by a sixteenth along rows and by a quarter along columns; a drop of the mask adds to it, and it is
/// never beyond its cap.
pub proof fn law_blur_fades_where_the_mask_is_level(
    mask: Seq<u8>,
    w: int,
    h: int,
    line: int,
    vertical: bool,
    from: int,
    pos: int,
)
    requires
        0 <= from < pos,
    ensures
        ({
            let here = strength(mask, w, h, line, vertical, true, from, pos);
            let before = strength(mask, w, h, line, vertical, true, from, pos - 1);
            let drop = mask[glow::line_cell(line, pos - 1, w, vertical)] - mask[glow::line_cell(
                line,
                pos,
                w,
                vertical,
            )];
            &&& 0 <= here <= 71
            &&& drop <= 0 && vertical ==> 4 * here <= 3 * before
            &&& drop <= 0 && !vertical ==> 16 * here <= 15 * before
            &&& drop > 0 && vertical ==> 4 * here <= 3 * (before + drop) && (4 * here + 4 > 3 * (
            before + drop) || here == 70)
            &&& drop > 0 && !vertical ==> 16 * here <= 15 * (before + drop) && (16 * here + 16 > 15
                * (before + drop) || here == 71)
        }),
{
    lemma_strength(mask, w, h, line, vertical, true, from, pos);
    lemma_strength(mask, w, h, line, vertical, true, from, pos - 1);
}

/// The run of the mask around a column goes as far to the left as it is not broken.
pub proof fn law_run_goes_to_the_left_end(mask: Seq<u8>, row: int, x: int, k: int)
    requires
        0 <= x,
    ensures
        0 <= run_left(mask, row, x) <= x,
        run_left(mask, row, x) <= k < x ==> mask[row + k] > 0,
        run_left(mask, row, x) > 0 ==> mask[row + run_left(mask, row, x) - 1] == 0,
    decreases x,
{
    if x > 0 && mask[row + x - 1] > 0 {
        law_run_goes_to_the_left_end(mask, row, x - 1, k);
    }
}

/// The run of the mask from a column on goes as far to the right as it is not broken.
pub proof fn law_run_goes_to_the_right_end(mask: Seq<u8>, row: int, x: int, w: int, k: int)
    requires
        x <= w,
    ensures
        x <= run_right(mask, row, x, w) <= w,
        x <= k < run_right(mask, row, x, w) ==> mask[row + k] > 0,
        run_right(mask, row, x, w) < w ==> mask[row + run_right(mask, row, x, w)] == 0,
    decreases w - x,
{
    if x < w && mask[row + x] > 0 {
        law_run_goes_to_the_right_end(mask, row, x + 1, w, k);
    }
}

/// The pill lies around its middle, from end to end of the run of the mask there, and its corners are
/// as round as the harmonic mean of its sides says.
pub proof fn law_pill_is_read_off_the_mask(
    mask: Seq<u8>,
    w: int,
    cx: int,
    cy: int,
    bw: int,
    bh: int,
    k: int,
)
    requires
        0 <= cx < w,
        0 < bw,
        0 < bh,
        mask[cy * w + cx] > 0,
    ensures
        ({
            let p = pill_of(mask, w, cx, cy, bw, bh);
            &&& 0 <= p.x_left <= cx <= p.x_right < w
            &&& p.x_left <= k <= p.x_right ==> mask[cy * w + k] > 0
            &&& p.x_left > 0 ==> mask[cy * w + p.x_left - 1] == 0
            &&& p.x_right + 1 < w ==> mask[cy * w + p.x_right + 1] == 0
            &&& cy - p.y_top == p.y_bot - cy
            &&& bh - 1 <= p.y_bot - p.y_top <= bh
            &&& p.r * (bw + bh) <= 2 * bw * bh < (p.r + 1) * (bw + bh)
        }),
{
    let row = cy * w;
    law_run_goes_to_the_left_end(mask, row, cx, k);
    law_run_goes_to_the_right_end(mask, row, cx, w, k);
    law_run_goes_to_the_right_end(mask, row, cx, w, cx);
    let n = 2 * bw * bh;
    let d = bw + bh;
    vstd::arithmetic::div_mod::lemma_fundamental_div_mod(n, d);
    vstd::arithmetic::div_mod::lemma_mod_bound(n, d);
    let q = n / d;
    assert(q * d <= n < (q + 1) * d) by (nonlinear_arith)
        requires
            n == d * q + n % d,
            0 <= n % d < d,
    ;
}

/// A pass leaves a cell alone that lies on none of its lines, or off the places that it blurs there.
proof fn lemma_pass_spares(
    pixels: Seq<u32>,
    mask: Seq<u8>,
    w: int,
    h: int,
    p: Pill,
    vertical: bool,
    forward: bool,
    a: int,
    b: int,
    colour: u32,
    i: int,
)
    requires
        0 <= i < pixels.len(),
        forall|line: int|
            a <= line < b ==> match #[trigger] place_on(i, line, w, vertical) {
                Some(pos) => !(blur_range(p, w, h, line, vertical, forward).0 <= pos < blur_range(
                    p,
                    w,
                    h,
                    line,
                    vertical,
                    forward,
                ).1),
                None => true,
            },
    ensures
        blur_pass(pixels, mask, w, h, p, vertical, forward, a, b, colour)[i] == pixels[i],
        blur_pass(pixels, mask, w, h, p, vertical, forward, a, b, colour).len() == pixels.len(),
    decreases b - a,
{
    if b > a {
        lemma_pass_spares(pixels, mask, w, h, p, vertical, forward, a, b - 1, colour, i);
        assert(match place_on(i, b - 1, w, vertical) {
            Some(pos) => true,
            None => true,
        });
    }
}

/// The blur stays around the pill: it reaches 32 columns beyond its sides in its rows, and 16 rows
/// beyond its top and bottom in its columns, and changes nothing else.
pub proof fn law_blur_stays_around_the_pill(
    pixels: Seq<u32>,
    mask: Seq<u8>,
    w: int,
    h: int,
    p: Pill,
    colour: u32,
    x: int,
    y: int,
)
    requires
        0 <= x < w,
        0 <= y < h,
        w * h <= pixels.len(),
        p.x_left <= p.x_right < w,
        p.y_top <= p.y_bot < h,
        pill_fits(p, w, h),
        forall|v: int| p.y_top <= v < p.y_bot ==> (#[trigger] slant(v, p.y_top, p.y_bot, p.r))
            + p.x_left < w,
        !(p.y_top <= y < p.y_bot && p.x_left - 32 <= x < p.x_right + 32),
        !(p.x_left <= x < p.x_right && p.y_top - 16 <= y < p.y_bot + 16),
        p.y_top <= y < p.y_bot ==> slant(y, p.y_top, p.y_bot, p.r) <= p.x_right - p.x_left,
        p.x_left <= x < p.x_right ==> slant(x, p.x_left, p.x_right, p.r) <= p.y_bot - p.y_top,
    ensures
        blurred(pixels, mask, w, h, p, colour)[y * w + x] == pixels[y * w + x],
{
    let i = y * w + x;
    canvas::lemma_cell(x, y, w);
    canvas::lemma_cell_bound(x, y, w, h);
    assert forall|line: int| p.y_top <= line < p.y_bot implies match #[trigger] place_on(
        i,
        line,
        w,
        false,
    ) {
        Some(pos) => {
            &&& !(blur_range(p, w, h, line, false, true).0 <= pos < blur_range(
                p,
                w,
                h,
                line,
                false,
                true,
            ).1)
            &&& !(blur_range(p, w, h, line, false, false).0 <= pos < blur_range(
                p,
                w,
                h,
                line,
                false,
                false,
            ).1)
        },
        None => true,
    } by {
        let d = slant(line, p.y_top, p.y_bot, p.r);
        let pos = i - line * w;
        assert(pos == (y - line) * w + x) by (nonlinear_arith)
            requires
                i == y * w + x,
                pos == i - line * w,
        ;
        if line < y {
            assert((y - line) * w >= w) by (nonlinear_arith)
                requires
                    y - line >= 1,
                    w > 0,
            ;
        } else if line > y {
            assert((y - line) * w <= -w) by (nonlinear_arith)
                requires
                    y - line <= -1,
                    w > 0,
            ;
        } else {
            assert((y - line) * w == 0) by (nonlinear_arith)
                requires
                    y - line == 0,
            ;
        }
    }
    lemma_pass_spares(pixels, mask, w, h, p, false, true, p.y_top, p.y_bot, colour, i);
    let s1 = blur_pass(pixels, mask, w, h, p, false, true, p.y_top, p.y_bot, colour);
    lemma_pass_spares(s1, mask, w, h, p, false, false, p.y_top, p.y_bot, colour, i);
    let s2 = blur_pass(s1, mask, w, h, p, false, false, p.y_top, p.y_bot, colour);
    lemma_pass_spares(s2, mask, w, h, p, true, true, p.x_left, p.x_right, colour, i);
    let s3 = blur_pass(s2, mask, w, h, p, true, true, p.x_left, p.x_right, colour);
    lemma_pass_spares(s3, mask, w, h, p, true, false, p.x_left, p.x_right, colour, i);
}

} // verus!
