//! The symbols of the window controls.
//!
//! A symbol is drawn around a centre, row by row; `h` and `w` count rows and columns from there.
use crate::canvas;
use crate::paint::swar;
use crate::pixel;
use vstd::prelude::*;

verus! {

/// The largest radius of a symbol: its fourth power, times 256, fits 128 bits.
pub const MAX_SYMBOL: usize = 0x1FFF_FFFE;

/// `v` to the fourth power.
pub open spec fn fourth(v: int) -> int {
    (v * v) * (v * v)
}

/// `v` to the third power.
pub open spec fn cube(v: int) -> int {
    (v * v) * v
}

/// The distance of `v` from 0.
pub open spec fn magnitude(v: int) -> int {
    if v < 0 {
        -v
    } else {
        v
    }
}

/// A colour without its opacity byte.
pub open spec fn plain(c: u32) -> u32 {
    pixel::argb(0, pixel::red(c), pixel::green(c), pixel::blue(c))
}

/// The measure of the "minus": rows count as they are, columns from three quarters of the radius on.
pub open spec fn minus_measure(w: int, h: int, r: int) -> int {
    let a = magnitude(w) - (r * 3) / 4;
    fourth(h) + fourth(
        if a > 0 {
            a
        } else {
            0
        },
    )
}

/// What the "minus" makes of the pixel at `(w, h)`, for a symbol of radius `r`.
pub open spec fn minus_px(p: u32, w: int, h: int, r: int, stroke: u32) -> u32 {
    let s = r / 4 + 1;
    let d = minus_measure(w, h, r);
    if d <= fourth(s) {
        let g = ((fourth(s) - d) * 256) / (cube(s) * 4);
        if g > 255 {
            stroke
        } else {
            swar::mix_px(p, stroke, g)
        }
    } else {
        p
    }
}

/// What the ring makes of the pixel at `(w, h)`: stroke between the two squircles, fill inside the
/// inner one, with soft edges.
pub open spec fn ring_px(p: u32, w: int, h: int, r: int, stroke: u32, fill: u32) -> u32 {
    let inner = (r * 4) / 5;
    let d = fourth(h) + fourth(w);
    if d > fourth(r) {
        p
    } else if d <= fourth(inner) {
        let from_inner = fourth(inner) - d;
        if from_inner <= cube(inner) * 4 {
            swar::mix_px(stroke, fill, (from_inner * 256) / (cube(inner) * 4))
        } else {
            fill
        }
    } else {
        let from_outer = fourth(r) - d;
        if from_outer <= cube(r) * 4 {
            swar::mix_px(p, stroke, (from_outer * 256) / (cube(r) * 4))
        } else {
            stroke
        }
    }
}

/// The cell of the pixel at `(w, h)` around `(x, y)`.
pub open spec fn symbol_cell(width: int, x: int, y: int, w: int, h: int) -> int {
    (y + h) * width + x + w
}

/// The buffer after row `h` of the "minus".
pub open spec fn minus_row(
    px: Seq<u32>,
    width: int,
    x: int,
    y: int,
    h: int,
    r: int,
    stroke: u32,
) -> Seq<u32> {
    Seq::new(
        px.len(),
        |i: int|
            {
                let w = i - symbol_cell(width, x, y, 0, h);
                if -r <= w <= r {
                    minus_px(px[i], w, h, r, stroke)
                } else {
                    px[i]
                }
            },
    )
}

/// The buffer after the rows of the "minus" up to row `h`, from the top.
pub open spec fn minus_rows(
    px: Seq<u32>,
    width: int,
    x: int,
    y: int,
    top: int,
    h: int,
    r: int,
    stroke: u32,
) -> Seq<u32>
    decreases h - top,
{
    if h <= top {
        px
    } else {
        minus_row(
            minus_rows(px, width, x, y, top, h - 1, r, stroke),
            width,
            x,
            y,
            h - 1,
            r,
            stroke,
        )
    }
}

/// The buffer after row `h` of the ring.
pub open spec fn ring_row(
    px: Seq<u32>,
    width: int,
    x: int,
    y: int,
    h: int,
    r: int,
    stroke: u32,
    fill: u32,
) -> Seq<u32> {
    Seq::new(
        px.len(),
        |i: int|
            {
                let w = i - symbol_cell(width, x, y, 0, h);
                if -r <= w <= r {
                    ring_px(px[i], w, h, r, stroke, fill)
                } else {
                    px[i]
                }
            },
    )
}

/// The buffer after the rows of the ring up to row `h`, from the top.
pub open spec fn ring_rows(
    px: Seq<u32>,
    width: int,
    x: int,
    y: int,
    top: int,
    h: int,
    r: int,
    stroke: u32,
    fill: u32,
) -> Seq<u32>
    decreases h - top,
{
    if h <= top {
        px
    } else {
        ring_row(
            ring_rows(px, width, x, y, top, h - 1, r, stroke, fill),
            width,
            x,
            y,
            h - 1,
            r,
            stroke,
            fill,
        )
    }
}

/// The pixel at `(w, h)` has a place in the buffer.
pub open spec fn has_cell(len: int, width: int, x: int, y: int, w: int, h: int) -> bool {
    0 <= x + w && 0 <= y + h && symbol_cell(width, x, y, w, h) < len
}

/// Every pixel that the "minus" covers has a place in the buffer.
pub open spec fn minus_fits(len: int, width: int, x: int, y: int, r: int) -> bool {
    forall|w: int, h: int|
        -r <= w <= r && -(r / 4 + 1) <= h <= r / 4 + 1 && #[trigger] minus_measure(w, h, r)
            <= fourth(r / 4 + 1) ==> has_cell(len, width, x, y, w, h)
}

/// The measure of the ring at `(w, h)`.
pub open spec fn ring_measure(w: int, h: int) -> int {
    fourth(h) + fourth(w)
}

/// Every pixel that the ring covers has a place in the buffer.
pub open spec fn ring_fits(len: int, width: int, x: int, y: int, r: int) -> bool {
    forall|w: int, h: int|
        -r <= w <= r && -r <= h <= r && #[trigger] ring_measure(w, h) <= fourth(r) ==> has_cell(
            len,
            width,
            x,
            y,
            w,
            h,
        )
}

/// Powers of numbers within a bound.
proof fn lemma_powers(v: int, bound: int)
    requires
        -bound <= v <= bound,
        0 <= bound <= 0x1FFF_FFFF,
    ensures
        0 <= v * v <= bound * bound,
        0 <= fourth(v) <= fourth(bound),
        bound * bound <= 0x400_0000_0000_0000,
        fourth(bound) <= 0x10_0000_0000_0000_0000_0000_0000_0000,
        cube(bound) <= 0x80_0000_0000_0000_0000_0000,
        0 <= cube(bound),
{
    assert(0 <= v * v <= bound * bound) by (nonlinear_arith)
        requires
            -bound <= v <= bound,
    ;
    let s = v * v;
    let b = bound * bound;
    assert(0 <= s * s <= b * b) by (nonlinear_arith)
        requires
            0 <= s <= b,
    ;
    assert(b <= 0x400_0000_0000_0000) by (nonlinear_arith)
        requires
            b == bound * bound,
            0 <= bound <= 0x1FFF_FFFF,
    ;
    assert(0 <= b * b <= 0x10_0000_0000_0000_0000_0000_0000_0000) by (nonlinear_arith)
        requires
            0 <= b <= 0x400_0000_0000_0000,
    ;
    assert(0 <= b * bound <= 0x80_0000_0000_0000_0000_0000) by (nonlinear_arith)
        requires
            0 <= b <= 0x400_0000_0000_0000,
            0 <= bound <= 0x1FFF_FFFF,
    ;
}

/// The gradient of an edge `unit * 4` wide.
proof fn lemma_gradient(d: int, unit: int)
    requires
        0 <= d <= unit * 4,
        0 < unit,
    ensures
        0 <= (d * 256) / (unit * 4) <= 256,
{
    assert((d * 256) / (unit * 4) <= 256) by (nonlinear_arith)
        requires
            0 <= d <= unit * 4,
            0 < unit,
    ;
    assert(0 <= (d * 256) / (unit * 4)) by (nonlinear_arith)
        requires
            0 <= d,
            0 < unit,
    ;
}

/// `v` to the fourth power.
fn fourth_of(v: u128) -> (f: u128)
    requires
        v <= 0x1FFF_FFFF,
    ensures
        f as int == fourth(v as int),
        f <= 0x10_0000_0000_0000_0000_0000_0000_0000,
{
    proof {
        lemma_powers(v as int, v as int);
    }
    (v * v) * (v * v)
}

/// `v` to the third power.
fn cube_of(v: u128) -> (f: u128)
    requires
        v <= 0x1FFF_FFFF,
    ensures
        f as int == cube(v as int),
        f <= 0x80_0000_0000_0000_0000_0000,
        v > 0 ==> f > 0,
{
    proof {
        lemma_powers(v as int, v as int);
        assert(v > 0 ==> (v * v) * v > 0) by (nonlinear_arith);
    }
    (v * v) * v
}

/// A colour without its opacity byte.
fn plain_of(c: u32) -> (p: u32)
    ensures
        p == plain(c),
{
    pixel::with_alpha(c, 0)
}

/// `w` and `-w` have the same fourth power.
proof fn lemma_fourth_even(w: int)
    ensures
        fourth(magnitude(w)) == fourth(w),
{
    if w < 0 {
        assert((-w) * (-w) == w * w) by (nonlinear_arith);
    }
}

/// One pixel of the "minus".
fn minus_pixel(p: u32, w: u128, h: u128, r: u128, stroke: u32) -> (q: u32)
    requires
        w <= r,
        h <= r / 4 + 1,
        1 <= r <= 0x1FFF_FFFF,
    ensures
        q == minus_px(p, w as int, h as int, r as int, stroke),
{
    let s: u128 = r / 4 + 1;
    let a: u128 = if w > (r * 3) / 4 {
        w - (r * 3) / 4
    } else {
        0
    };
    let d: u128 = fourth_of(h) + fourth_of(a);
    let whole: u128 = fourth_of(s);
    let unit: u128 = cube_of(s);
    if d <= whole {
        let g: u128 = ((whole - d) * 256) / (unit * 4);
        if g > 255 {
            stroke
        } else {
            swar::blend_swar(p, stroke, g as u64)
        }
    } else {
        p
    }
}

/// One pixel of the ring.
fn ring_pixel(p: u32, w: u128, h: u128, r: u128, stroke: u32, fill: u32) -> (q: u32)
    requires
        w <= r,
        h <= r,
        2 <= r <= 0x1FFF_FFFF,
    ensures
        q == ring_px(p, w as int, h as int, r as int, stroke, fill),
{
    let inner: u128 = (r * 4) / 5;
    let d: u128 = fourth_of(h) + fourth_of(w);
    let outer_4: u128 = fourth_of(r);
    let inner_4: u128 = fourth_of(inner);
    let outer_3: u128 = cube_of(r);
    let inner_3: u128 = cube_of(inner);
    if d > outer_4 {
        p
    } else if d <= inner_4 {
        let from_inner: u128 = inner_4 - d;
        if from_inner <= inner_3 * 4 {
            proof {
                lemma_gradient(from_inner as int, inner_3 as int);
            }
            swar::blend_swar(stroke, fill, ((from_inner * 256) / (inner_3 * 4)) as u64)
        } else {
            fill
        }
    } else {
        let from_outer: u128 = outer_4 - d;
        if from_outer <= outer_3 * 4 {
            proof {
                lemma_gradient(from_outer as int, outer_3 as int);
            }
            swar::blend_swar(p, stroke, ((from_outer * 256) / (outer_3 * 4)) as u64)
        } else {
            stroke
        }
    }
}

/// The distance of `v` from 0.
fn magnitude_of(v: i64) -> (m: u128)
    requires
        -0x4000_0000 <= v <= 0x4000_0000,
    ensures
        m as int == magnitude(v as int),
{
    if v < 0 {
        (-v) as u128
    } else {
        v as u128
    }
}

/// The cell of the pixel at `(w, h)`.
fn cell_at(width: usize, x: usize, y: usize, w: i64, h: i64, len: usize) -> (i: usize)
    requires
        has_cell(len as int, width as int, x as int, y as int, w as int, h as int),
    ensures
        i as int == symbol_cell(width as int, x as int, y as int, w as int, h as int),
        i < len,
{
    proof {
        let row = y + h;
        assert(width > 0 ==> row <= row * width) by (nonlinear_arith)
            requires
                0 <= row,
                0 <= width,
        ;
        assert(0 <= row * width) by (nonlinear_arith)
            requires
                0 <= row,
                0 <= width,
        ;
        assert(width == 0 ==> row * width == 0) by (nonlinear_arith);
    }
    let xx: usize = (x as i128 + w as i128) as usize;
    if width == 0 {
        xx
    } else {
        let yy: usize = (y as i128 + h as i128) as usize;
        yy * width + xx
    }
}

/// Draws row `h` of the "minus".
fn draw_minus_row(px: &mut [u32], width: usize, x: usize, y: usize, h: i64, r: u128, stroke: u32)
    requires
        1 <= r <= 0x1FFF_FFFF,
        -(r / 4 + 1) <= h <= r / 4 + 1,
        minus_fits(old(px)@.len() as int, width as int, x as int, y as int, r as int),
    ensures
        final(px)@ == minus_row(
            old(px)@,
            width as int,
            x as int,
            y as int,
            h as int,
            r as int,
            stroke,
        ),
{
    let ghost before = px@;
    let n: usize = px.len();
    let hm: u128 = magnitude_of(h);
    let s: u128 = r / 4 + 1;
    let whole: u128 = fourth_of(s);
    let hf: u128 = fourth_of(hm);
    let ghost base = symbol_cell(width as int, x as int, y as int, 0, h as int);
    let last: i64 = r as i64;
    let mut w: i64 = -last;
    while w <= last
        invariant
            1 <= r <= 0x1FFF_FFFF,
            last == r,
            s == r / 4 + 1,
            -s <= h <= s,
            hm == magnitude(h as int),
            whole == fourth(s as int),
            hf == fourth(hm as int),
            hf <= 0x10_0000_0000_0000_0000_0000_0000_0000,
            -r <= w <= r + 1,
            n == before.len(),
            n == px@.len(),
            base == symbol_cell(width as int, x as int, y as int, 0, h as int),
            minus_fits(n as int, width as int, x as int, y as int, r as int),
            forall|i: int|
                0 <= i < n ==> #[trigger] px@[i] == (if -r <= i - base < w {
                    minus_px(before[i], i - base, h as int, r as int, stroke)
                } else {
                    before[i]
                }),
        decreases r + 1 - w,
    {
        let wm: u128 = magnitude_of(w);
        let a: u128 = if wm > (r * 3) / 4 {
            wm - (r * 3) / 4
        } else {
            0
        };
        let d: u128 = hf + fourth_of(a);
        proof {
            lemma_fourth_even(h as int);
            assert(d == minus_measure(w as int, h as int, r as int));
        }
        if d <= whole {
            let at: usize = cell_at(width, x, y, w, h, n);
            let ghost prev = px@;
            assert(prev[at as int] == before[at as int]);
            px[at] = minus_pixel(px[at], wm, hm, r, stroke);
            proof {
                assert(minus_measure(w as int, h as int, r as int) == minus_measure(
                    wm as int,
                    hm as int,
                    r as int,
                ));
                assert(px@[at as int] == minus_px(
                    before[at as int],
                    w as int,
                    h as int,
                    r as int,
                    stroke,
                ));
            }
        }
        w += 1;
    }
    assert(px@ =~= minus_row(
        before,
        width as int,
        x as int,
        y as int,
        h as int,
        r as int,
        stroke,
    ));
}

/// Draws the "minus" of the minimize control around `(x, y)`, half a radius below it, for a button
/// of radius `r`.
pub fn minimize_symbol(
    pixels: &mut [u32],
    width: usize,
    x: usize,
    y: usize,
    r: usize,
    stroke_colour: u32,
)
    requires
        r <= MAX_SYMBOL,
        y + (r + 1) / 2 <= usize::MAX,
        minus_fits(old(pixels)@.len() as int, width as int, x as int, y + (r + 1) / 2, r + 1),
    ensures
        final(pixels)@ == minus_rows(
            old(pixels)@,
            width as int,
            x as int,
            y + (r + 1) / 2,
            -((r + 1) / 4 + 1),
            (r + 1) / 4 + 2,
            r + 1,
            plain(stroke_colour),
        ),
{
    let r1: u128 = r as u128 + 1;
    let yc: usize = y + (r + 1) / 2;
    let stroke: u32 = plain_of(stroke_colour);
    let ghost before = pixels@;
    let last: i64 = (r1 / 4 + 1) as i64;
    let mut h: i64 = -last;
    while h <= last
        invariant
            1 <= r1 <= 0x1FFF_FFFF,
            last == r1 / 4 + 1,
            -last <= h <= last + 1,
            pixels@.len() == before.len(),
            minus_fits(before.len() as int, width as int, x as int, yc as int, r1 as int),
            pixels@ == minus_rows(
                before,
                width as int,
                x as int,
                yc as int,
                -last as int,
                h as int,
                r1 as int,
                stroke,
            ),
        decreases last + 1 - h,
    {
        draw_minus_row(pixels, width, x, yc, h, r1, stroke);
        h += 1;
    }
}

/// Draws row `h` of the ring.
fn draw_ring_row(
    px: &mut [u32],
    width: usize,
    x: usize,
    y: usize,
    h: i64,
    r: u128,
    stroke: u32,
    fill: u32,
)
    requires
        2 <= r <= 0x1FFF_FFFF,
        -r <= h <= r,
        ring_fits(old(px)@.len() as int, width as int, x as int, y as int, r as int),
    ensures
        final(px)@ == ring_row(
            old(px)@,
            width as int,
            x as int,
            y as int,
            h as int,
            r as int,
            stroke,
            fill,
        ),
{
    let ghost before = px@;
    let n: usize = px.len();
    let hm: u128 = magnitude_of(h);
    let whole: u128 = fourth_of(r);
    let hf: u128 = fourth_of(hm);
    let ghost base = symbol_cell(width as int, x as int, y as int, 0, h as int);
    let last: i64 = r as i64;
    let mut w: i64 = -last;
    while w <= last
        invariant
            2 <= r <= 0x1FFF_FFFF,
            last == r,
            -r <= h <= r,
            hm == magnitude(h as int),
            whole == fourth(r as int),
            hf == fourth(hm as int),
            hf <= 0x10_0000_0000_0000_0000_0000_0000_0000,
            -r <= w <= r + 1,
            n == before.len(),
            n == px@.len(),
            base == symbol_cell(width as int, x as int, y as int, 0, h as int),
            ring_fits(n as int, width as int, x as int, y as int, r as int),
            forall|i: int|
                0 <= i < n ==> #[trigger] px@[i] == (if -r <= i - base < w {
                    ring_px(before[i], i - base, h as int, r as int, stroke, fill)
                } else {
                    before[i]
                }),
        decreases r + 1 - w,
    {
        let wm: u128 = magnitude_of(w);
        let d: u128 = hf + fourth_of(wm);
        proof {
            lemma_fourth_even(h as int);
            lemma_fourth_even(w as int);
            assert(d == ring_measure(w as int, h as int));
        }
        if d <= whole {
            let at: usize = cell_at(width, x, y, w, h, n);
            let ghost prev = px@;
            assert(prev[at as int] == before[at as int]);
            px[at] = ring_pixel(px[at], wm, hm, r, stroke, fill);
            proof {
                assert(px@[at as int] == ring_px(
                    before[at as int],
                    w as int,
                    h as int,
                    r as int,
                    stroke,
                    fill,
                ));
            }
        }
        w += 1;
    }
    assert(px@ =~= ring_row(
        before,
        width as int,
        x as int,
        y as int,
        h as int,
        r as int,
        stroke,
        fill,
    ));
}

/// Draws the ring of the maximize control around `(x, y)`, for a button of radius `r`.
pub fn maximize_symbol(
    pixels: &mut [u32],
    width: usize,
    x: usize,
    y: usize,
    r: usize,
    stroke_colour: u32,
    fill_colour: u32,
)
    requires
        1 <= r <= MAX_SYMBOL,
        ring_fits(old(pixels)@.len() as int, width as int, x as int, y as int, r + 1),
    ensures
        final(pixels)@ == ring_rows(
            old(pixels)@,
            width as int,
            x as int,
            y as int,
            -(r + 1),
            r + 2,
            r + 1,
            plain(stroke_colour),
            plain(fill_colour),
        ),
{
    let r1: u128 = r as u128 + 1;
    let stroke: u32 = plain_of(stroke_colour);
    let fill: u32 = plain_of(fill_colour);
    let ghost before = pixels@;
    let last: i64 = r1 as i64;
    let mut h: i64 = -last;
    while h <= last
        invariant
            2 <= r1 <= 0x1FFF_FFFF,
            last == r1,
            -last <= h <= last + 1,
            pixels@.len() == before.len(),
            ring_fits(before.len() as int, width as int, x as int, y as int, r1 as int),
            pixels@ == ring_rows(
                before,
                width as int,
                x as int,
                y as int,
                -last as int,
                h as int,
                r1 as int,
                stroke,
                fill,
            ),
        decreases last + 1 - h,
    {
        draw_ring_row(pixels, width, x, y, h, r1, stroke, fill);
        h += 1;
    }
}

/// Pixel `i` after the "X" of a button of radius `r` at `(x, y)`. The coverage table has `2 * r`
/// columns and rows, its middle is the centre.
pub open spec fn cross_px(
    p: u32,
    i: int,
    width: int,
    height: int,
    x: int,
    y: int,
    r: int,
    stroke: u32,
    coverage: Seq<u16>,
) -> u32 {
    let px = canvas::col_of(i, width);
    let py = canvas::row_of(i, width);
    if x - r <= px < x + r && y - r <= py < y + r && py < height {
        swar::mix_px(
            p,
            stroke,
            coverage[(py - (y - r)) * (2 * r) + (px - (x - r))] as int,
        )
    } else {
        p
    }
}

/// Draws the "X" of the close control around `(x, y)`, for a button of radius `r`, from its coverage
/// in parts of 256.
pub fn close_symbol(
    pixels: &mut [u32],
    width: usize,
    x: usize,
    y: usize,
    r: usize,
    stroke_colour: u32,
    coverage: &[u16],
)
    requires
        width > 0,
        r < 0x8000_0000,
        coverage@.len() == (2 * (r + 1)) * (2 * (r + 1)),
        forall|k: int| 0 <= k < coverage@.len() ==> #[trigger] coverage@[k] <= 256,
    ensures
        final(pixels)@.len() == old(pixels)@.len(),
        forall|i: int|
            0 <= i < old(pixels)@.len() ==> #[trigger] final(pixels)@[i] == cross_px(
                old(pixels)@[i],
                i,
                width as int,
                old(pixels)@.len() as int / width as int,
                x as int,
                y as int,
                r + 1,
                plain(stroke_colour),
                coverage@,
            ),
{
    let r1: i128 = r as i128 + 1;
    let table_n: usize = coverage.len();
    proof {
        let s = 2 * (r + 1);
        assert(s <= s * s) by (nonlinear_arith)
            requires
                s >= 1,
        ;
    }
    let side: usize = 2 * (r + 1);
    let n: usize = pixels.len();
    let height: usize = n / width;
    let stroke: u32 = plain_of(stroke_colour);
    let left: i128 = x as i128 - r1;
    let top: i128 = y as i128 - r1;
    let x0: usize = clamp_side(left, width);
    let y0: usize = clamp_side(top, height);
    let x1: usize = clamp_side(x as i128 + r1, width);
    let y1: usize = clamp_side(y as i128 + r1, height);
    proof {
        canvas::lemma_grid(width as int);
        vstd::arithmetic::div_mod::lemma_fundamental_div_mod(n as int, width as int);
        assert(width * y1 <= width * height) by (nonlinear_arith)
            requires
                y1 <= height,
        ;
    }
    let paint = |p: u32, px: usize, py: usize| -> (q: u32)
        requires
            x0 <= px < x1,
            y0 <= py < y1,
        ensures
            q == swar::mix_px(
                p,
                stroke,
                coverage@[(py - top) * side + (px - left)] as int,
            ),
    {
        let dx: usize = (px as i128 - left) as usize;
        let dy: usize = (py as i128 - top) as usize;
        proof {
            canvas::lemma_cell_bound(dx as int, dy as int, side as int, side as int);
        }
        swar::blend_swar(p, stroke, coverage[dy * side + dx] as u64)
    };
    canvas::map_rect(pixels, width, x0, y0, x1, y1, paint);
}

/// `v` limited to a buffer side.
fn clamp_side(v: i128, side: usize) -> (r: usize)
    ensures
        r as int == crate::paint::clip::clamp_int(v as int, 0, side as int),
{
    if v < 0 {
        0
    } else if v > side as i128 {
        side
    } else {
        v as usize
    }
}

/// The box of half side `r` about `(x, y)` lies inside a buffer of `len` pixels, `width` to the row.
pub open spec fn boxed(len: int, width: int, x: int, y: int, r: int) -> bool {
    0 <= r <= x && x + r < width && r <= y && (y + r + 1) * width <= len
}

/// Pixel `i` after the rows of the ring up to row `h`, for a ring whose box lies inside the buffer.
proof fn lemma_ring_rows(
    px: Seq<u32>,
    width: int,
    x: int,
    y: int,
    top: int,
    h: int,
    r: int,
    stroke: u32,
    fill: u32,
    i: int,
)
    requires
        boxed(px.len() as int, width, x, y, r),
        0 <= i < px.len(),
        -r <= top <= h <= r + 1,
    ensures
        ring_rows(px, width, x, y, top, h, r, stroke, fill).len() == px.len(),
        ring_rows(px, width, x, y, top, h, r, stroke, fill)[i] == ({
            let dx = canvas::col_of(i, width) - x;
            let dy = canvas::row_of(i, width) - y;
            if -r <= dx <= r && top <= dy < h {
                ring_px(px[i], dx, dy, r, stroke, fill)
            } else {
                px[i]
            }
        }),
    decreases h - top,
{
    if top < h {
        lemma_ring_rows(px, width, x, y, top, h - 1, r, stroke, fill, i);
        canvas::lemma_grid(width);
        let row = canvas::row_of(i, width);
        let col = canvas::col_of(i, width);
        assert(i == row * width + col);
        let at = y + h - 1;
        let w = i - symbol_cell(width, x, y, 0, h - 1);
        assert(w == (row - at) * width + (col - x)) by (nonlinear_arith)
            requires
                i == row * width + col,
                w == i - (at * width + x + 0),
        ;
        if row > at {
            assert((row - at) * width >= width) by (nonlinear_arith)
                requires
                    row > at,
                    width > 0,
            ;
        } else if row < at {
            assert((row - at) * width <= -width) by (nonlinear_arith)
                requires
                    row < at,
                    width > 0,
            ;
        } else {
            assert((row - at) * width == 0) by (nonlinear_arith)
                requires
                    row == at,
            ;
        }
    }
}

/// What the ring makes of a pixel does not change when the pixel is mirrored left to right, top to
/// bottom or across the diagonal. The middle of every ring but the smallest is filled.
pub proof fn law_ring_is_symmetric(p: u32, w: int, h: int, r: int, stroke: u32, fill: u32)
    ensures
        ring_px(p, -w, h, r, stroke, fill) == ring_px(p, w, h, r, stroke, fill),
        ring_px(p, w, -h, r, stroke, fill) == ring_px(p, w, h, r, stroke, fill),
        ring_px(p, h, w, r, stroke, fill) == ring_px(p, w, h, r, stroke, fill),
        r >= 7 ==> ring_px(p, 0, 0, r, stroke, fill) == fill,
{
    assert((-w) * (-w) == w * w) by (nonlinear_arith);
    assert((-h) * (-h) == h * h) by (nonlinear_arith);
    if r >= 7 {
        let inner = (r * 4) / 5;
        let c = cube(inner);
        assert(fourth(inner) == c * inner) by (nonlinear_arith)
            requires
                c == (inner * inner) * inner,
                fourth(inner) == (inner * inner) * (inner * inner),
        ;
        assert(c > 0) by (nonlinear_arith)
            requires
                c == (inner * inner) * inner,
                inner >= 5,
        ;
        assert(c * inner > c * 4) by (nonlinear_arith)
            requires
                c > 0,
                inner >= 5,
        ;
        assert(c * inner <= fourth(r)) by (nonlinear_arith)
            requires
                c * inner == (inner * inner) * (inner * inner),
                fourth(r) == (r * r) * (r * r),
                0 <= inner <= r,
        ;
    }
}

/// A ring whose box lies inside the buffer changes each pixel of its box by its distance from the
/// middle alone, and no other pixel.
pub proof fn law_ring_stays_in_its_box(
    px: Seq<u32>,
    width: int,
    x: int,
    y: int,
    r: int,
    stroke: u32,
    fill: u32,
    i: int,
)
    requires
        boxed(px.len() as int, width, x, y, r),
        0 <= i < px.len(),
    ensures
        ring_rows(px, width, x, y, -r, r + 1, r, stroke, fill)[i] == ({
            let dx = canvas::col_of(i, width) - x;
            let dy = canvas::row_of(i, width) - y;
            if -r <= dx <= r && -r <= dy <= r {
                ring_px(px[i], dx, dy, r, stroke, fill)
            } else {
                px[i]
            }
        }),
{
    lemma_ring_rows(px, width, x, y, -r, r + 1, r, stroke, fill, i);
}

/// The "minus" is a bar that lies evenly around its centre: what it makes of a pixel it makes of its
/// mirror images too. No pixel more than the bar's thickness above or below the middle changes, and a
/// bar thick enough to be solid shows its own colour along the middle row.
pub proof fn law_minus_is_a_bar(p: u32, w: int, h: int, r: int, stroke: u32)
    requires
        0 <= r <= MAX_SYMBOL,
        -r <= w <= r,
        -r - 1 <= h <= r + 1,
    ensures
        minus_px(p, -w, h, r, stroke) == minus_px(p, w, h, r, stroke),
        minus_px(p, w, -h, r, stroke) == minus_px(p, w, h, r, stroke),
        magnitude(h) > r / 4 + 1 ==> minus_px(p, w, h, r, stroke) == p,
        r >= 12 && h == 0 && magnitude(w) <= (r * 3) / 4 ==> minus_px(p, w, h, r, stroke) == stroke,
{
    let s = r / 4 + 1;
    assert((-h) * (-h) == h * h) by (nonlinear_arith);
    assert(fourth(-h) == fourth(h));
    let a = magnitude(w) - (r * 3) / 4;
    let c = if a > 0 {
        a
    } else {
        0
    };
    lemma_powers(c, r);
    if magnitude(h) > s {
        let m = magnitude(h);
        lemma_fourth_even(h);
        assert(fourth(m) > fourth(s)) by {
            assert(m * m > s * s) by (nonlinear_arith)
                requires
                    m > s,
                    s >= 1,
            ;
            let x = m * m;
            let y = s * s;
            assert(x * x > y * y) by (nonlinear_arith)
                requires
                    x > y,
                    y >= 0,
            ;
            assert(y >= 0) by (nonlinear_arith)
                requires
                    y == s * s,
            ;
        }
    }
    if r >= 12 && h == 0 && magnitude(w) <= (r * 3) / 4 {
        assert(fourth(0) == 0);
        let f = fourth(s);
        let k = cube(s) * 4;
        assert(s >= 4);
        assert(f * 256 == k * (64 * s) && k > 0) by (nonlinear_arith)
            requires
                f == (s * s) * (s * s),
                k == ((s * s) * s) * 4,
                s >= 4,
        ;
        vstd::arithmetic::div_mod::lemma_div_multiples_vanish(64 * s, k);
        assert(f >= 0) by (nonlinear_arith)
            requires
                f == (s * s) * (s * s),
        ;
    }
}

/// The ring has its fill in the middle and its stroke between its two curves: the centre shows the fill
/// of a ring large enough, and nothing beyond the outer curve changes.
pub proof fn law_ring_is_filled_inside(p: u32, w: int, h: int, r: int, stroke: u32, fill: u32)
    requires
        0 <= r <= MAX_SYMBOL,
    ensures
        r >= 7 ==> ring_px(p, 0, 0, r, stroke, fill) == fill,
        fourth(w) + fourth(h) > fourth(r) ==> ring_px(p, w, h, r, stroke, fill) == p,
        fourth(w) + fourth(h) > fourth((r * 4) / 5) && fourth(w) + fourth(h) + 4 * cube(r) < fourth(
            r,
        ) ==> ring_px(p, w, h, r, stroke, fill) == stroke,
{
    let inner = (r * 4) / 5;
    assert(fourth(0) == 0);
    lemma_powers(inner, r);
    if r >= 7 {
        let f = fourth(inner);
        let k = cube(inner) * 4;
        assert(inner >= 5);
        assert(f > k && f >= 0) by (nonlinear_arith)
            requires
                f == (inner * inner) * (inner * inner),
                k == ((inner * inner) * inner) * 4,
                inner >= 5,
        ;
    }
}

/// The "X" mixes its colour in by its table: entry `(cx, cy)` of the table goes to the pixel as far
/// right and down of the table's corner, `r` left of and above the centre.
pub proof fn law_cross_follows_its_table(
    p: u32,
    width: int,
    height: int,
    x: int,
    y: int,
    r: int,
    stroke: u32,
    coverage: Seq<u16>,
    cx: int,
    cy: int,
)
    requires
        0 <= cx < 2 * r,
        0 <= cy < 2 * r,
        0 <= x - r + cx < width,
        0 <= y - r + cy < height,
    ensures
        cross_px(
            p,
            (y - r + cy) * width + (x - r + cx),
            width,
            height,
            x,
            y,
            r,
            stroke,
            coverage,
        ) == swar::mix_px(p, stroke, coverage[cy * (2 * r) + cx] as int),
{
    canvas::lemma_cell(x - r + cx, y - r + cy, width);
}

/// The "minus" and the ring land around their centre, cell by cell: the pixel `w` columns right of it
/// and `h` rows below is the symbol's pixel there, and a pixel outside the box of the symbol stays. The
/// columns of the symbol lie in the buffer.
pub proof fn law_symbols_land_around_their_centre(
    px: Seq<u32>,
    width: int,
    x: int,
    y: int,
    top: int,
    bottom: int,
    r: int,
    stroke: u32,
    fill: u32,
    w: int,
    h: int,
)
    requires
        0 <= x - r,
        x + r < width,
        0 <= r,
        0 <= x + w < width,
        0 <= (y + h) * width + (x + w) < px.len(),
    ensures
        ({
            let i = (y + h) * width + (x + w);
            let inside = -r <= w <= r && top <= h < bottom;
            &&& minus_rows(px, width, x, y, top, bottom, r, stroke)[i] == (if inside {
                minus_px(px[i], w, h, r, stroke)
            } else {
                px[i]
            })
            &&& ring_rows(px, width, x, y, top, bottom, r, stroke, fill)[i] == (if inside {
                ring_px(px[i], w, h, r, stroke, fill)
            } else {
                px[i]
            })
            &&& minus_rows(px, width, x, y, top, bottom, r, stroke).len() == px.len()
            &&& ring_rows(px, width, x, y, top, bottom, r, stroke, fill).len() == px.len()
        }),
    decreases bottom - top,
{
    if bottom > top {
        law_symbols_land_around_their_centre(
            px, width, x, y, top, bottom - 1, r, stroke, fill, w, h,
        );
        let i = (y + h) * width + (x + w);
        let d = i - symbol_cell(width, x, y, 0, bottom - 1);
        let rows = h - (bottom - 1);
        assert(d == rows * width + w) by (nonlinear_arith)
            requires
                d == (y + h) * width + (x + w) - ((y + (bottom - 1)) * width + x + 0),
                rows == h - (bottom - 1),
        ;
        if rows > 0 {
            assert(rows * width >= width) by (nonlinear_arith)
                requires
                    rows >= 1,
                    width > 0,
            ;
        } else if rows < 0 {
            assert(rows * width <= -width) by (nonlinear_arith)
                requires
                    rows <= -1,
                    width > 0,
            ;
        } else {
            assert(rows * width == 0) by (nonlinear_arith)
                requires
                    rows == 0,
            ;
        }
    }
}

} // verus!
