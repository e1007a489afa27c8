//! The wrap-around shift of the finished screen.
use crate::canvas;
use vstd::prelude::*;

verus! {

/// The screen moved by `dx` columns and `dy` rows; what leaves at one edge comes in at the opposite
/// one. Cells after the last full row stay.
pub open spec fn shifted(screen: Seq<u32>, w: int, h: int, dx: int, dy: int) -> Seq<u32> {
    Seq::new(
        screen.len(),
        |i: int|
            if i < w * h {
                screen[((canvas::row_of(i, w) - dy) % h) * w + (canvas::col_of(i, w) - dx) % w]
            } else {
                screen[i]
            },
    )
}

/// `n` more than a multiple of the modulus leaves the remainder.
proof fn lemma_mod(v: int, n: int, q: int, r: int)
    requires
        n > 0,
        v == q * n + r,
        0 <= r < n,
    ensures
        v % n == r,
{
    vstd::arithmetic::div_mod::lemma_fundamental_div_mod_converse(v, n, q, r);
}

/// Where a shift by `d`, whose remainder is `k`, takes place `x` from.
proof fn lemma_source(x: int, d: int, n: int, k: int)
    requires
        0 <= x < n,
        k == d % n,
    ensures
        0 <= k < n,
        (x - d) % n == (if x >= k {
            x - k
        } else {
            x - k + n
        }),
{
    vstd::arithmetic::div_mod::lemma_fundamental_div_mod(d, n);
    let q = d / n;
    if x >= k {
        assert(x - d == (-q) * n + (x - k)) by (nonlinear_arith)
            requires
                d == n * q + k,
        ;
        lemma_mod(x - d, n, -q, x - k);
    } else {
        assert(x - d == (-q - 1) * n + (x - k + n)) by (nonlinear_arith)
            requires
                d == n * q + k,
        ;
        lemma_mod(x - d, n, -q - 1, x - k + n);
    }
}

/// The remainder of a signed shift, 0 up to the size.
fn wrapped(d: i32, n: usize) -> (k: usize)
    requires
        n > 0,
    ensures
        k as int == (d as int) % (n as int),
        k < n,
{
    let m: u64 = if d < 0 {
        (-(d as i64)) as u64
    } else {
        d as u64
    };
    let r: u64 = m % (n as u64);
    proof {
        vstd::arithmetic::div_mod::lemma_fundamental_div_mod(m as int, n as int);
        let q = (m as int) / (n as int);
        if d < 0 {
            if r == 0 {
                assert(d as int == (-q) * n + 0) by (nonlinear_arith)
                    requires
                        -(d as int) == n * q + r,
                        r == 0,
                ;
                lemma_mod(d as int, n as int, -q, 0);
            } else {
                assert(d as int == (-q - 1) * n + (n - r)) by (nonlinear_arith)
                    requires
                        -(d as int) == n * q + r,
                ;
                lemma_mod(d as int, n as int, -q - 1, n - r);
            }
        }
    }
    if d < 0 && r > 0 {
        n - r as usize
    } else {
        r as usize
    }
}

/// A copy of a buffer.
fn copy_of(s: &[u32]) -> (v: Vec<u32>)
    ensures
        v@ == s@,
{
    let mut v: Vec<u32> = Vec::new();
    let n: usize = s.len();
    let mut i: usize = 0;
    while i < n
        invariant
            i <= n,
            n == s@.len(),
            v@ == s@.subrange(0, i as int),
        decreases n - i,
    {
        v.push(s[i]);
        i += 1;
    }
    assert(v@ =~= s@);
    v
}

/// Moves the screen by `dx` columns and `dy` rows, wrapping around at the edges.
pub fn shift_screen_wrap(screen: &mut [u32], scr_w: usize, scr_h: usize, dx: i32, dy: i32)
    requires
        scr_w * scr_h <= old(screen)@.len(),
    ensures
        final(screen)@ == shifted(
            old(screen)@,
            scr_w as int,
            scr_h as int,
            dx as int,
            dy as int,
        ),
{
    if scr_w == 0 || scr_h == 0 {
        assert(scr_w * scr_h == 0) by (nonlinear_arith)
            requires
                scr_w == 0 || scr_h == 0,
        ;
        assert(screen@ =~= shifted(
            old(screen)@,
            scr_w as int,
            scr_h as int,
            dx as int,
            dy as int,
        ));
        return;
    }
    let kx: usize = wrapped(dx, scr_w);
    let ky: usize = wrapped(dy, scr_h);
    let ghost before = screen@;
    let source = copy_of(screen);
    let n: usize = source.len();
    let ghost w = scr_w as int;
    let ghost h = scr_h as int;
    proof {
        canvas::lemma_grid(w);
    }
    let move_from = |p: u32, x: usize, y: usize| -> (q: u32)
        requires
            x < scr_w,
            y < scr_h,
        ensures
            q == source@[((y - dy) % (scr_h as int)) * scr_w + (x - dx) % (scr_w as int)],
    {
        let sx: usize = if x >= kx {
            x - kx
        } else {
            x + (scr_w - kx)
        };
        let sy: usize = if y >= ky {
            y - ky
        } else {
            y + (scr_h - ky)
        };
        proof {
            lemma_source(x as int, dx as int, scr_w as int, kx as int);
            lemma_source(y as int, dy as int, scr_h as int, ky as int);
            canvas::lemma_cell_bound(sx as int, sy as int, scr_w as int, scr_h as int);
        }
        source[sy * scr_w + sx]
    };
    canvas::map_rect(screen, scr_w, 0, 0, scr_w, scr_h, move_from);
    proof {
        assert forall|i: int| 0 <= i < before.len() implies #[trigger] screen@[i] == shifted(
            before,
            w,
            h,
            dx as int,
            dy as int,
        )[i] by {
            let row = canvas::row_of(i, w);
            if i < w * h {
                assert(row < h) by (nonlinear_arith)
                    requires
                        i == row * w + canvas::col_of(i, w),
                        0 <= canvas::col_of(i, w) < w,
                        i < w * h,
                ;
            } else {
                assert(row >= h) by (nonlinear_arith)
                    requires
                        i == row * w + canvas::col_of(i, w),
                        0 <= canvas::col_of(i, w) < w,
                        i >= w * h,
                ;
            }
        }
        assert(screen@ =~= shifted(before, w, h, dx as int, dy as int));
    }
}

/// A place moved forward and back again.
proof fn lemma_there_and_back(a: int, d: int, n: int)
    requires
        0 <= a < n,
    ensures
        0 <= (a + d) % n < n,
        ((a + d) % n - d) % n == a,
{
    vstd::arithmetic::div_mod::lemma_fundamental_div_mod(a + d, n);
    let q = (a + d) / n;
    assert((a + d) % n - d == (-q) * n + a) by (nonlinear_arith)
        requires
            a + d == n * q + (a + d) % n,
    ;
    lemma_mod((a + d) % n - d, n, -q, a);
}

/// A shift and the opposite shift cancel out.
pub proof fn law_shift_is_reversible(screen: Seq<u32>, w: int, h: int, dx: int, dy: int)
    requires
        w > 0,
        h > 0,
        w * h <= screen.len(),
    ensures
        shifted(shifted(screen, w, h, dx, dy), w, h, -dx, -dy) == screen,
{
    let once = shifted(screen, w, h, dx, dy);
    canvas::lemma_grid(w);
    assert forall|i: int| 0 <= i < screen.len() implies #[trigger] shifted(
        once,
        w,
        h,
        -dx,
        -dy,
    )[i] == screen[i] by {
        if i < w * h {
            let row = canvas::row_of(i, w);
            let col = canvas::col_of(i, w);
            assert(row < h) by (nonlinear_arith)
                requires
                    i == row * w + col,
                    0 <= col < w,
                    i < w * h,
            ;
            lemma_there_and_back(row, dy, h);
            lemma_there_and_back(col, dx, w);
            let r2 = (row + dy) % h;
            let c2 = (col + dx) % w;
            canvas::lemma_cell(c2, r2, w);
            canvas::lemma_cell_bound(c2, r2, w, h);
        }
    }
    assert(shifted(once, w, h, -dx, -dy) =~= screen);
}

/// A shift by the whole width and height changes nothing more.
pub proof fn law_full_shift_is_neutral(screen: Seq<u32>, w: int, h: int, dx: int, dy: int)
    requires
        w > 0,
        h > 0,
    ensures
        shifted(screen, w, h, dx + w, dy + h) == shifted(screen, w, h, dx, dy),
{
    let one = shifted(screen, w, h, dx + w, dy + h);
    let two = shifted(screen, w, h, dx, dy);
    assert forall|i: int| 0 <= i < screen.len() implies #[trigger] one[i] == two[i] by {
        let a = canvas::row_of(i, w) - (dy + h);
        let b = canvas::col_of(i, w) - (dx + w);
        vstd::arithmetic::div_mod::lemma_mod_add_multiples_vanish(a, h);
        vstd::arithmetic::div_mod::lemma_mod_add_multiples_vanish(b, w);
    }
    assert(one =~= two);
}

/// A shift takes a pixel as far right and down as it says: where the pixel stays on the screen, it is
/// found there, and where it leaves at an edge, it comes in at the opposite one.
pub proof fn law_shift_moves_right_and_down(
    screen: Seq<u32>,
    w: int,
    h: int,
    dx: int,
    dy: int,
    x: int,
    y: int,
)
    requires
        0 <= x < w,
        0 <= y < h,
        w * h <= screen.len(),
    ensures
        shifted(screen, w, h, dx, dy)[((y + dy) % h) * w + (x + dx) % w] == screen[y * w + x],
        0 <= x + dx < w && 0 <= y + dy < h ==> shifted(screen, w, h, dx, dy)[(y + dy) * w + x + dx]
            == screen[y * w + x],
{
    lemma_there_and_back(x, dx, w);
    lemma_there_and_back(y, dy, h);
    let c = (x + dx) % w;
    let r = (y + dy) % h;
    canvas::lemma_cell(c, r, w);
    canvas::lemma_cell_bound(c, r, w, h);
    if 0 <= x + dx < w && 0 <= y + dy < h {
        lemma_mod(x + dx, w, 0, x + dx);
        lemma_mod(y + dy, h, 0, y + dy);
    }
}

} // verus!
