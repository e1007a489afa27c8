//! Drop shadow: diagonal rays of fading black, cast from the silhouette of the window.
//!
//! The screen holds visible RGB with premultiplied opacity. A ray darkens each cell it crosses: a
//! transparent cell becomes black at the ray's opacity, any other keeps its RGB and gains opacity.
//! The walks that cast the rays follow the silhouette by reading back the opacity on the screen.
use crate::canvas;
use crate::paint::ray;
use crate::pixel;
use vstd::prelude::*;

verus! {

/// A cell that a ray of opacity `s` crosses. Of an opacity above 255 the product is kept to 32 bits.
pub open spec fn shade(p: u32, s: int) -> u32 {
    let a = pixel::alpha(p);
    if a == 0 {
        (s as u32) << 24
    } else {
        let lifted = a + (s * (256 - a)) % 0x1_0000_0000 / 256;
        pixel::argb(
            if lifted < 255 {
                lifted
            } else {
                255
            },
            pixel::red(p),
            pixel::green(p),
            pixel::blue(p),
        )
    }
}

/// How many diagonal steps from `(x, y)` cell `i` is away, if it lies on the ray.
pub open spec fn ray_step(i: int, w: int, x: int, y: int, down: bool) -> Option<nat> {
    let dx = if down {
        canvas::col_of(i, w) - x
    } else {
        x - canvas::col_of(i, w)
    };
    let dy = if down {
        canvas::row_of(i, w) - y
    } else {
        y - canvas::row_of(i, w)
    };
    if dx == dy && dx >= 0 {
        Some(dx as nat)
    } else {
        None
    }
}

/// Cell `i` after a ray from `(x, y)`; the ray ends where its opacity reaches 0.
pub open spec fn ray_px(
    p: u32,
    i: int,
    w: int,
    h: int,
    factor: int,
    seed: int,
    x: int,
    y: int,
    down: bool,
) -> u32 {
    match ray_step(i, w, x, y, down) {
        Some(k) => if canvas::row_of(i, w) < h && (k == 0 || ray::decayed(seed, factor, k) > 0) {
            shade(p, ray::decayed(seed, factor, k))
        } else {
            p
        },
        None => p,
    }
}

/// The screen after a ray from `(x, y)`: to the lower right if `down`, else to the upper left.
pub open spec fn after_ray(
    screen: Seq<u32>,
    w: int,
    h: int,
    factor: int,
    seed: int,
    x: int,
    y: int,
    down: bool,
) -> Seq<u32> {
    Seq::new(
        screen.len(),
        |i: int| ray_px(screen[i], i, w, h, factor, seed, x, y, down),
    )
}

/// The opacity at column `x` of row `y`.
pub open spec fn alpha_at(screen: Seq<u32>, w: int, x: int, y: int) -> int {
    pixel::alpha(screen[y * w + x])
}

/// Every cell of `b` is at least as opaque as in `a`; where `a` was not transparent the RGB is the
/// same, and where it was opaque so is the whole pixel.
pub open spec fn only_darkened(a: Seq<u32>, b: Seq<u32>) -> bool {
    a.len() == b.len() && forall|i: int|
        0 <= i < a.len() ==> {
            &&& pixel::alpha(a[i]) <= pixel::alpha(#[trigger] b[i])
            &&& pixel::alpha(a[i]) > 0 ==> pixel::red(a[i]) == pixel::red(b[i]) && pixel::green(
                a[i],
            ) == pixel::green(b[i]) && pixel::blue(a[i]) == pixel::blue(b[i])
            &&& pixel::alpha(a[i]) == 255 ==> a[i] == b[i]
        }
}

proof fn lemma_only_darkened_trans(a: Seq<u32>, b: Seq<u32>, c: Seq<u32>)
    requires
        only_darkened(a, b),
        only_darkened(b, c),
    ensures
        only_darkened(a, c),
{
    assert forall|i: int| 0 <= i < a.len() implies {
        &&& pixel::alpha(a[i]) <= pixel::alpha(#[trigger] c[i])
        &&& pixel::alpha(a[i]) > 0 ==> pixel::red(a[i]) == pixel::red(c[i]) && pixel::green(a[i])
            == pixel::green(c[i]) && pixel::blue(a[i]) == pixel::blue(c[i])
        &&& pixel::alpha(a[i]) == 255 ==> a[i] == c[i]
    } by {
        assert(pixel::alpha(a[i]) <= pixel::alpha(b[i]));
    }
}

/// A cell that a ray crosses only gets darker.
proof fn lemma_shade(p: u32, s: int)
    requires
        0 <= s <= 255,
    ensures
        pixel::alpha(p) <= pixel::alpha(shade(p, s)) <= 255,
        pixel::alpha(p) > 0 ==> pixel::red(p) == pixel::red(shade(p, s)) && pixel::green(p)
            == pixel::green(shade(p, s)) && pixel::blue(p) == pixel::blue(shade(p, s)),
        pixel::alpha(p) == 255 ==> shade(p, s) == p,
{
    pixel::lemma_channels(p);
    pixel::lemma_channels(shade(p, s));
    let a = pixel::alpha(p);
    if a > 0 {
        pixel::lemma_scaled(s, 256 - a, 255);
        let lifted = a + (s * (256 - a)) / 256;
        assert(0 <= s * (256 - a) <= 255 * 255) by (nonlinear_arith)
            requires
                0 <= s <= 255,
                0 < a <= 255,
        ;
        pixel::lemma_argb(
            if lifted < 255 {
                lifted
            } else {
                255
            },
            pixel::red(p),
            pixel::green(p),
            pixel::blue(p),
        );
    }
}

/// Darkens one cell.
fn shade_cell(p: u32, s: u32) -> (q: u32)
    ensures
        q == shade(p, s as int),
{
    let a: u32 = pixel::alpha_of(p);
    if a == 0 {
        s << 24
    } else {
        let cover: u32 = 256 - a;
        let lifted: u32 = a + s.wrapping_mul(cover) / 256;
        pixel::with_alpha(
            p,
            if lifted < 255 {
                lifted
            } else {
                255
            },
        )
    }
}

/// Casts one ray from `(x, y)`, to the lower right if `down`, else to the upper left, until it fades
/// or leaves the screen.
fn cast_shadow_ray(
    screen: &mut [u32],
    scr_w: usize,
    scr_h: usize,
    factor_256: u32,
    shadow_seed: u32,
    x: usize,
    y: usize,
    down: bool,
)
    requires
        scr_w * scr_h <= old(screen)@.len(),
        x < scr_w,
        y < scr_h,
        0 < factor_256 < 256,
        shadow_seed * factor_256 <= u32::MAX,
    ensures
        final(screen)@ == after_ray(
            old(screen)@,
            scr_w as int,
            scr_h as int,
            factor_256 as int,
            shadow_seed as int,
            x as int,
            y as int,
            down,
        ),
        shadow_seed <= 255 ==> only_darkened(old(screen)@, final(screen)@),
{
    let ghost before = screen@;
    let ghost w = scr_w as int;
    let ghost seed = shadow_seed as int;
    let ghost f = factor_256 as int;
    let n: usize = screen.len();
    let mut cx: usize = x;
    let mut cy: usize = y;
    let mut s: u32 = shadow_seed;
    let ghost mut k: nat = 0;
    proof {
        canvas::lemma_grid(w);
    }
    loop
        invariant_except_break
            forall|i: int|
                0 <= i < n ==> #[trigger] screen@[i] == (match ray_step(
                    i,
                    w,
                    x as int,
                    y as int,
                    down,
                ) {
                    Some(j) => if j < k {
                        shade(before[i], ray::decayed(seed, f, j))
                    } else {
                        before[i]
                    },
                    None => before[i],
                }),
            forall|j: nat| 0 < j < k ==> #[trigger] ray::decayed(seed, f, j) > 0,
        invariant
            w == scr_w,
            seed == shadow_seed,
            f == factor_256,
            n == before.len(),
            screen@.len() == n,
            scr_w * scr_h <= n,
            y < scr_h,
            cx < scr_w,
            cy < scr_h,
            0 < factor_256 < 256,
            shadow_seed * factor_256 <= u32::MAX,
            s == ray::decayed(seed, f, k),
            s <= shadow_seed,
            k > 0 ==> s > 0,
            down ==> cx == x + k && cy == y + k,
            !down ==> cx == x - k && cy == y - k,
            forall|i: int|
                #![trigger canvas::row_of(i, w)]
                #![trigger canvas::col_of(i, w)]
                i == canvas::row_of(i, w) * w + canvas::col_of(i, w) && 0 <= canvas::col_of(i, w)
                    < w && (i >= 0 ==> canvas::row_of(i, w) >= 0),
        ensures
            screen@.len() == before.len(),
            forall|i: int|
                0 <= i < n ==> #[trigger] screen@[i] == ray_px(
                    before[i],
                    i,
                    w,
                    scr_h as int,
                    f,
                    seed,
                    x as int,
                    y as int,
                    down,
                ),
        decreases
                if down {
                    scr_w - cx
                } else {
                    cx as int
                },
    {
        proof {
            canvas::lemma_cell(cx as int, cy as int, w);
            canvas::lemma_cell_bound(cx as int, cy as int, w, scr_h as int);
            ray::lemma_decay_step(seed, f, k);
            assert(s * factor_256 <= shadow_seed * factor_256) by (nonlinear_arith)
                requires
                    s <= shadow_seed,
                    0 < factor_256,
            ;
        }
        let idx: usize = cy * scr_w + cx;
        let ghost prev = screen@;
        screen[idx] = shade_cell(screen[idx], s);
        let next: u32 = pixel::scale(s, factor_256);
        let at_edge: bool = if down {
            cx + 1 >= scr_w || cy + 1 >= scr_h
        } else {
            cx == 0 || cy == 0
        };
        if next == 0 || at_edge {
            proof {
                assert forall|i: int| 0 <= i < n implies #[trigger] screen@[i] == ray_px(
                    before[i],
                    i,
                    w,
                    scr_h as int,
                    f,
                    seed,
                    x as int,
                    y as int,
                    down,
                ) by {
                    match ray_step(i, w, x as int, y as int, down) {
                        Some(j) => {
                            if j == k {
                                assert(i == idx);
                            } else {
                                assert(screen@[i] == prev[i]);
                                if j > k && next == 0 {
                                    ray::lemma_decay_zero(seed, f, k + 1, j);
                                }
                            }
                        },
                        None => {
                            assert(screen@[i] == prev[i]);
                        },
                    }
                }
            }
            break;
        }
        if down {
            cx += 1;
            cy += 1;
        } else {
            cx -= 1;
            cy -= 1;
        }
        s = next;
        proof {
            k = k + 1;
        }
    }
    proof {
        assert(screen@ =~= after_ray(
            before,
            w,
            scr_h as int,
            f,
            seed,
            x as int,
            y as int,
            down,
        ));
        if shadow_seed <= 255 {
            assert forall|i: int| 0 <= i < before.len() implies {
                &&& pixel::alpha(before[i]) <= pixel::alpha(#[trigger] screen@[i])
                &&& pixel::alpha(before[i]) > 0 ==> pixel::red(before[i]) == pixel::red(screen@[i])
                    && pixel::green(before[i]) == pixel::green(screen@[i]) && pixel::blue(before[i])
                    == pixel::blue(screen@[i])
                &&& pixel::alpha(before[i]) == 255 ==> before[i] == screen@[i]
            } by {
                match ray_step(i, w, x as int, y as int, down) {
                    Some(j) => {
                        ray::lemma_decay_step(seed, f, j);
                        lemma_shade(before[i], ray::decayed(seed, f, j));
                    },
                    None => {},
                }
            }
        }
    }
}

/// What a cast of rays works with: the size of the screen, the decay and the opacity at the start.
pub struct Cast {
    pub w: int,
    pub h: int,
    pub factor: int,
    pub seed: int,
}

/// A place on a walk along the silhouette, with the screen as it is by then.
pub struct Walk {
    pub screen: Seq<u32>,
    pub x: int,
    pub y: int,
}

/// The walk goes on over cells that are opaque (`solid`) or transparent (otherwise).
pub open spec fn passable(a: int, solid: bool) -> bool {
    if solid {
        a >= 0xFE
    } else {
        a == 0
    }
}

/// The end of a diagonal slide from `(x, y)` over passable cells. It goes to the lower right while
/// the row is above `limit`, or to the upper left while the row is below it, and stays on the screen.
pub open spec fn slide(
    screen: Seq<u32>,
    w: int,
    h: int,
    x: int,
    y: int,
    down: bool,
    solid: bool,
    limit: int,
) -> (int, int)
    decreases
            if down {
                w - x
            } else {
                x
            },
{
    if down && y < limit && passable(alpha_at(screen, w, x, y), solid) && x + 1 < w && y + 1 < h {
        slide(screen, w, h, x + 1, y + 1, down, solid, limit)
    } else if !down && y > limit && passable(alpha_at(screen, w, x, y), solid) && x > 0 && y > 0 {
        slide(screen, w, h, x - 1, y - 1, down, solid, limit)
    } else {
        (x, y)
    }
}

/// A slide moves along the diagonal, in its direction, and stays on the screen.
pub proof fn lemma_slide(
    screen: Seq<u32>,
    w: int,
    h: int,
    x: int,
    y: int,
    down: bool,
    solid: bool,
    limit: int,
)
    ensures
        ({
            let (ex, ey) = slide(screen, w, h, x, y, down, solid, limit);
            &&& ex - x == ey - y
            &&& down ==> ex >= x && (ex > x ==> ex < w && ey < h)
            &&& !down ==> ex <= x && (ex < x ==> ex >= 0 && ey >= 0)
        }),
    decreases
            if down {
                w - x
            } else {
                x
            },
{
    if down && y < limit && passable(alpha_at(screen, w, x, y), solid) && x + 1 < w && y + 1 < h {
        lemma_slide(screen, w, h, x + 1, y + 1, down, solid, limit);
    } else if !down && y > limit && passable(alpha_at(screen, w, x, y), solid) && x > 0 && y > 0 {
        lemma_slide(screen, w, h, x - 1, y - 1, down, solid, limit);
    }
}

/// The walk after a ray was cast at its place.
pub open spec fn cast(c: Cast, screen: Seq<u32>, at: (int, int), down: bool) -> Walk {
    Walk {
        screen: after_ray(screen, c.w, c.h, c.factor, c.seed, at.0, at.1, down),
        x: at.0,
        y: at.1,
    }
}

/// The first cell that is not transparent on the way to the lower left.
pub open spec fn seek_down_left(
    screen: Seq<u32>,
    w: int,
    x: int,
    y: int,
    x_left: int,
    y_end: int,
) -> Option<(int, int)>
    decreases y_end - y,
{
    if alpha_at(screen, w, x, y) != 0 {
        Some((x, y))
    } else if x == x_left || y + 1 >= y_end {
        None
    } else {
        seek_down_left(screen, w, x - 1, y + 1, x_left, y_end)
    }
}

/// The first cell that is not transparent on the way to the upper right.
pub open spec fn seek_up_right(
    screen: Seq<u32>,
    w: int,
    x: int,
    y: int,
    x_end: int,
    y_top: int,
) -> Option<(int, int)>
    decreases x_end - x,
{
    if alpha_at(screen, w, x, y) != 0 {
        Some((x, y))
    } else if x + 1 >= x_end || y == y_top {
        None
    } else {
        seek_up_right(screen, w, x + 1, y - 1, x_end, y_top)
    }
}

/// Down the right side to the middle row, sliding out over opaque cells.
pub open spec fn fan_right_upper(c: Cast, wk: Walk, y_center: int, y_end: int) -> Walk
    decreases above_zero(y_center - wk.y),
{
    if wk.y < y_center && wk.y + 1 < y_end {
        let at = slide(wk.screen, c.w, c.h, wk.x, wk.y + 1, true, true, c.h);
        proof {
            lemma_slide(wk.screen, c.w, c.h, wk.x, wk.y + 1, true, true, c.h);
        }
        fan_right_upper(c, cast(c, wk.screen, at, true), y_center, y_end)
    } else {
        wk
    }
}

/// Down the rest of the right side, sliding in over transparent cells, as far as the corner.
pub open spec fn fan_right_lower(c: Cast, wk: Walk, y_end: int, right: int, bottom: int) -> Walk
    decreases wk.x, y_end - wk.y,
{
    if wk.y + 1 < y_end {
        let at = slide(wk.screen, c.w, c.h, wk.x, wk.y + 1, false, false, 0);
        let next = cast(c, wk.screen, at, true);
        proof {
            lemma_slide(wk.screen, c.w, c.h, wk.x, wk.y + 1, false, false, 0);
        }
        if above_zero(right - at.0) > above_zero(bottom - at.1) {
            next
        } else {
            fan_right_lower(c, next, y_end, right, bottom)
        }
    } else {
        wk
    }
}

/// `v`, or 0 where it is negative.
pub open spec fn above_zero(v: int) -> int {
    if v < 0 {
        0
    } else {
        v
    }
}

/// Along the right half of the bottom, from the corner to the middle column.
pub open spec fn fan_bottom_right(c: Cast, wk: Walk, x_center: nat, bottom: int) -> Walk
    decreases wk.x, bottom - wk.y,
{
    if wk.x > x_center {
        let y1 = if wk.y + 1 <= bottom {
            wk.y + 1
        } else {
            wk.y
        };
        let at = slide(wk.screen, c.w, c.h, wk.x, y1, false, false, 0);
        let next = cast(c, wk.screen, at, true);
        proof {
            lemma_slide(wk.screen, c.w, c.h, wk.x, y1, false, false, 0);
        }
        if at.1 >= bottom && at.0 > x_center {
            fan_bottom_right(c, (Walk { x: at.0 - 1, ..next }), x_center, bottom)
        } else {
            fan_bottom_right(c, next, x_center, bottom)
        }
    } else {
        wk
    }
}

/// Along the left half of the bottom to the middle column, sliding out over opaque cells.
pub open spec fn fan_bottom_left(c: Cast, wk: Walk, x_center: int, bottom: int) -> Walk
    decreases above_zero(x_center - wk.x),
{
    if wk.x < x_center && wk.x + 1 < c.w {
        let at = slide(wk.screen, c.w, c.h, wk.x + 1, wk.y, true, true, bottom);
        proof {
            lemma_slide(wk.screen, c.w, c.h, wk.x + 1, wk.y, true, true, bottom);
        }
        fan_bottom_left(c, cast(c, wk.screen, at, true), x_center, bottom)
    } else {
        wk
    }
}

/// Up the left side to the middle row, sliding out over opaque cells.
pub open spec fn fan_left_lower(c: Cast, wk: Walk, y_center: nat) -> Walk
    decreases wk.y,
{
    if wk.y > y_center {
        let at = slide(wk.screen, c.w, c.h, wk.x, wk.y - 1, false, true, 0);
        proof {
            lemma_slide(wk.screen, c.w, c.h, wk.x, wk.y - 1, false, true, 0);
        }
        fan_left_lower(c, cast(c, wk.screen, at, false), y_center)
    } else {
        wk
    }
}

/// Up the rest of the left side, sliding in over transparent cells, as far as the corner.
pub open spec fn fan_left_upper(c: Cast, wk: Walk, y_top: nat, x_left: int) -> Walk
    decreases c.w - wk.x, wk.y,
{
    if wk.y > y_top {
        let at = slide(wk.screen, c.w, c.h, wk.x, wk.y - 1, true, false, c.h);
        let next = cast(c, wk.screen, at, false);
        proof {
            lemma_slide(wk.screen, c.w, c.h, wk.x, wk.y - 1, true, false, c.h);
        }
        if above_zero(at.0 - x_left) > above_zero(at.1 - y_top) {
            next
        } else {
            fan_left_upper(c, next, y_top, x_left)
        }
    } else {
        wk
    }
}

/// Along the left half of the top, from the corner to the middle column.
pub open spec fn fan_top_left(c: Cast, wk: Walk, x_center: int, y_top: nat) -> Walk
    decreases c.w - wk.x, wk.y,
{
    if wk.x < x_center {
        let y1 = if wk.y > y_top {
            wk.y - 1
        } else {
            wk.y
        };
        let at = slide(wk.screen, c.w, c.h, wk.x, y1, true, false, c.h);
        let next = cast(c, wk.screen, at, false);
        proof {
            lemma_slide(wk.screen, c.w, c.h, wk.x, y1, true, false, c.h);
        }
        if at.1 <= y_top && at.0 < x_center {
            if at.0 + 1 >= c.w {
                next
            } else {
                fan_top_left(c, (Walk { x: at.0 + 1, ..next }), x_center, y_top)
            }
        } else {
            fan_top_left(c, next, x_center, y_top)
        }
    } else {
        wk
    }
}

/// Along the right half of the top to the middle column, sliding out over opaque cells.
pub open spec fn fan_top_right(c: Cast, wk: Walk, x_center: nat, y_top: int) -> Walk
    decreases wk.x,
{
    if wk.x > x_center {
        let at = slide(wk.screen, c.w, c.h, wk.x - 1, wk.y, false, true, y_top);
        proof {
            lemma_slide(wk.screen, c.w, c.h, wk.x - 1, wk.y, false, true, y_top);
        }
        fan_top_right(c, cast(c, wk.screen, at, false), x_center, y_top)
    } else {
        wk
    }
}

/// The shadow cast once the walk has a start at the upper right.
pub open spec fn shadow_from(
    screen: Seq<u32>,
    c: Cast,
    start: (int, int),
    x_left: nat,
    y_top: nat,
    x_end: int,
    y_end: int,
) -> Seq<u32> {
    let right = x_end - 1;
    let bottom = y_end - 1;
    let x_center = ((x_left + x_end) / 2) as nat;
    let y_center = ((y_top + y_end) / 2) as nat;
    let w1 = cast(c, screen, start, true);
    let w2 = fan_right_upper(c, w1, y_center as int, y_end);
    let w3 = fan_right_lower(c, w2, y_end, right, bottom);
    let w4 = fan_bottom_right(c, w3, x_center, bottom);
    if bottom == 0 {
        w4.screen
    } else {
        let soft = Cast { seed: c.seed / 2, ..c };
        let s5 = match seek_up_right(
            w4.screen,
            c.w,
            x_left as int,
            bottom - 1,
            x_end,
            y_top as int,
        ) {
            None => w4.screen,
            Some(low) => {
                let w5 = cast(c, w4.screen, low, true);
                let w6 = fan_bottom_left(c, w5, x_center as int, bottom);
                let w7 = cast(soft, w6.screen, low, false);
                let w8 = fan_left_lower(soft, w7, y_center);
                let w9 = fan_left_upper(soft, w8, y_top, x_left as int);
                fan_top_left(soft, w9, x_center as int, y_top).screen
            },
        };
        let w10 = cast(soft, s5, start, false);
        fan_top_right(soft, w10, x_center, y_top as int).screen
    }
}

/// The screen after the shadow of the window `rect`, given as `(x, y, width, height)`.
pub open spec fn shadowed(
    screen: Seq<u32>,
    w: int,
    factor: int,
    seed: int,
    rect: (int, int, int, int),
) -> Seq<u32> {
    let h = screen.len() as int / w;
    let c = Cast { w, h, factor, seed };
    let (rx, ry, rw, rh) = rect;
    let x_left = above_zero(rx);
    let y_top = above_zero(ry);
    let x_end = vstd::math::min(above_zero(rx + rw), w);
    let y_end = vstd::math::min(above_zero(ry + rh), h);
    if w == 0 || factor == 0 || factor >= 256 || rw <= 0 || rh <= 0 || x_left >= x_end || y_top + 1
        >= y_end {
        screen
    } else {
        match seek_down_left(screen, w, x_end - 1, y_top + 1, x_left, y_end) {
            None => screen,
            Some(start) => shadow_from(
                screen,
                c,
                start,
                x_left as nat,
                y_top as nat,
                x_end,
                y_end,
            ),
        }
    }
}

/// The screen, the place and the parameters of a walk fit together.
spec fn walk_ok(screen: Seq<u32>, c: Cast, x: int, y: int) -> bool {
    &&& c.w * c.h <= screen.len()
    &&& 0 <= x < c.w
    &&& 0 <= y < c.h
    &&& 0 < c.factor < 256
    &&& 0 <= c.seed
    &&& c.seed * c.factor <= u32::MAX
}

/// Half a seed fits where the seed does.
proof fn lemma_half(seed: u32, factor_256: u32)
    requires
        seed * factor_256 <= u32::MAX,
    ensures
        (seed / 2) * factor_256 <= u32::MAX,
{
    assert((seed / 2) * factor_256 <= seed * factor_256) by (nonlinear_arith)
        requires
            0 <= seed / 2 <= seed,
            0 <= factor_256,
    ;
}

/// Reads the opacity of a cell.
fn alpha_cell(screen: &[u32], scr_w: usize, scr_h: usize, x: usize, y: usize) -> (a: u32)
    requires
        scr_w * scr_h <= screen@.len(),
        x < scr_w,
        y < scr_h,
    ensures
        a as int == alpha_at(screen@, scr_w as int, x as int, y as int),
{
    proof {
        canvas::lemma_cell_bound(x as int, y as int, scr_w as int, scr_h as int);
    }
    let n: usize = screen.len();
    pixel::alpha_of(screen[y * scr_w + x])
}

/// Slides along the diagonal over passable cells.
fn slide_along(
    screen: &[u32],
    scr_w: usize,
    scr_h: usize,
    x: usize,
    y: usize,
    down: bool,
    solid: bool,
    limit: usize,
) -> (at: (usize, usize))
    requires
        scr_w * scr_h <= screen@.len(),
        x < scr_w,
        y < scr_h,
    ensures
        (at.0 as int, at.1 as int) == slide(
            screen@,
            scr_w as int,
            scr_h as int,
            x as int,
            y as int,
            down,
            solid,
            limit as int,
        ),
        at.0 < scr_w,
        at.1 < scr_h,
{
    let mut cx: usize = x;
    let mut cy: usize = y;
    loop
        invariant
            scr_w * scr_h <= screen@.len(),
            cx < scr_w,
            cy < scr_h,
            slide(
                screen@,
                scr_w as int,
                scr_h as int,
                cx as int,
                cy as int,
                down,
                solid,
                limit as int,
            ) == slide(
                screen@,
                scr_w as int,
                scr_h as int,
                x as int,
                y as int,
                down,
                solid,
                limit as int,
            ),
        ensures
            slide(
                screen@,
                scr_w as int,
                scr_h as int,
                cx as int,
                cy as int,
                down,
                solid,
                limit as int,
            ) == (cx as int, cy as int),
        decreases
                if down {
                    scr_w - cx
                } else {
                    cx as int
                },
    {
        let a: u32 = alpha_cell(screen, scr_w, scr_h, cx, cy);
        let open: bool = if solid {
            a >= 0xFE
        } else {
            a == 0
        };
        if down && cy < limit && open && cx + 1 < scr_w && cy + 1 < scr_h {
            cx += 1;
            cy += 1;
        } else if !down && cy > limit && open && cx > 0 && cy > 0 {
            cx -= 1;
            cy -= 1;
        } else {
            break;
        }
    }
    (cx, cy)
}

/// Which way the next stretch of the silhouette runs and how it is followed.
#[derive(Clone, Copy, PartialEq, Eq, Structural)]
enum Side {
    RightUpper,
    RightLower,
    BottomRight,
    BottomLeft,
    LeftLower,
    LeftUpper,
    TopLeft,
    TopRight,
}

/// The window's place on the screen and the middle of its sides.
#[derive(Clone, Copy)]
struct Frame {
    x_left: usize,
    y_top: usize,
    x_end: usize,
    y_end: usize,
    x_center: usize,
    y_center: usize,
}

/// The walk along one stretch of the silhouette.
spec fn fan(side: Side, c: Cast, wk: Walk, f: Frame) -> Walk {
    match side {
        Side::RightUpper => fan_right_upper(c, wk, f.y_center as int, f.y_end as int),
        Side::RightLower => fan_right_lower(c, wk, f.y_end as int, f.x_end - 1, f.y_end - 1),
        Side::BottomRight => fan_bottom_right(c, wk, f.x_center as nat, f.y_end - 1),
        Side::BottomLeft => fan_bottom_left(c, wk, f.x_center as int, f.y_end - 1),
        Side::LeftLower => fan_left_lower(c, wk, f.y_center as nat),
        Side::LeftUpper => fan_left_upper(c, wk, f.y_top as nat, f.x_left as int),
        Side::TopLeft => fan_top_left(c, wk, f.x_center as int, f.y_top as nat),
        Side::TopRight => fan_top_right(c, wk, f.x_center as nat, f.y_top as int),
    }
}

/// How much of a walk is left: it shrinks in lexicographic order with every ray.
spec fn walk_left(side: Side, c: Cast, x: int, y: int, f: Frame) -> (int, int) {
    match side {
        Side::RightUpper => (above_zero(f.y_center - y), 0int),
        Side::RightLower => (x, above_zero(f.y_end - y)),
        Side::BottomRight => (x, above_zero(f.y_end - 1 - y)),
        Side::BottomLeft => (above_zero(f.x_center - x), 0int),
        Side::LeftLower => (y, 0int),
        Side::LeftUpper => (c.w - x, y),
        Side::TopLeft => (c.w - x, y),
        Side::TopRight => (x, 0int),
    }
}

/// Casts the rays of one stretch of the silhouette, starting beside `(x, y)`.
#[verifier::rlimit(40)]
fn cast_fan(
    screen: &mut [u32],
    scr_w: usize,
    scr_h: usize,
    factor_256: u32,
    seed: u32,
    side: Side,
    f: Frame,
    x: usize,
    y: usize,
) -> (at: (usize, usize))
    requires
        walk_ok(
            old(screen)@,
            (Cast { w: scr_w as int, h: scr_h as int, factor: factor_256 as int, seed: seed as int }),
            x as int,
            y as int,
        ),
        1 <= f.x_end <= scr_w,
        1 <= f.y_end <= scr_h,
    ensures
        (Walk { screen: final(screen)@, x: at.0 as int, y: at.1 as int }) == fan(
            side,
            (Cast { w: scr_w as int, h: scr_h as int, factor: factor_256 as int, seed: seed as int }),
            (Walk { screen: old(screen)@, x: x as int, y: y as int }),
            f,
        ),
        final(screen)@.len() == old(screen)@.len(),
        at.0 < scr_w,
        at.1 < scr_h,
        seed <= 255 ==> only_darkened(old(screen)@, final(screen)@),
{
    let ghost c = Cast {
        w: scr_w as int,
        h: scr_h as int,
        factor: factor_256 as int,
        seed: seed as int,
    };
    let ghost before = screen@;
    let ghost start = Walk { screen: screen@, x: x as int, y: y as int };
    let mut cx: usize = x;
    let mut cy: usize = y;
    let mut done: bool = false;
    let right: usize = f.x_end - 1;
    let bottom: usize = f.y_end - 1;
    let down: bool = match side {
        Side::RightUpper | Side::RightLower | Side::BottomRight | Side::BottomLeft => true,
        _ => false,
    };
    while !done
        invariant
            c == (Cast {
                w: scr_w as int,
                h: scr_h as int,
                factor: factor_256 as int,
                seed: seed as int,
            }),
            screen@.len() == before.len(),
            walk_ok(screen@, c, cx as int, cy as int),
            f.x_end <= scr_w,
            f.y_end <= scr_h,
            right == f.x_end - 1,
            bottom == f.y_end - 1,
            down == (side is RightUpper || side is RightLower || side is BottomRight || side
                is BottomLeft),
            seed <= 255 ==> only_darkened(before, screen@),
            !done ==> fan(side, c, (Walk { screen: screen@, x: cx as int, y: cy as int }), f) == fan(
                side,
                c,
                start,
                f,
            ),
            done ==> (Walk { screen: screen@, x: cx as int, y: cy as int }) == fan(
                side,
                c,
                start,
                f,
            ),
        decreases
            if done {
                0int
            } else {
                1int
            },
            walk_left(side, c, cx as int, cy as int, f).0,
            walk_left(side, c, cx as int, cy as int, f).1,
    {
        let step: Option<(usize, usize, bool, bool, usize)> = match side {
            Side::RightUpper => if cy < f.y_center && cy + 1 < f.y_end {
                Some((cx, cy + 1, true, true, scr_h))
            } else {
                None
            },
            Side::RightLower => if cy + 1 < f.y_end {
                Some((cx, cy + 1, false, false, 0))
            } else {
                None
            },
            Side::BottomRight => if cx > f.x_center {
                Some((cx, if cy < bottom { cy + 1 } else { cy }, false, false, 0))
            } else {
                None
            },
            Side::BottomLeft => if cx < f.x_center && cx + 1 < scr_w {
                Some((cx + 1, cy, true, true, bottom))
            } else {
                None
            },
            Side::LeftLower => if cy > f.y_center {
                Some((cx, cy - 1, false, true, 0))
            } else {
                None
            },
            Side::LeftUpper => if cy > f.y_top {
                Some((cx, cy - 1, true, false, scr_h))
            } else {
                None
            },
            Side::TopLeft => if cx < f.x_center {
                Some((cx, if cy > f.y_top { cy - 1 } else { cy }, true, false, scr_h))
            } else {
                None
            },
            Side::TopRight => if cx > f.x_center {
                Some((cx - 1, cy, false, true, f.y_top))
            } else {
                None
            },
        };
        match step {
            None => {
                done = true;
            },
            Some((sx, sy, lower, solid, limit)) => {
                proof {
                    lemma_slide(
                        screen@,
                        c.w,
                        c.h,
                        sx as int,
                        sy as int,
                        lower,
                        solid,
                        limit as int,
                    );
                }
                let (ax, ay) = slide_along(screen, scr_w, scr_h, sx, sy, lower, solid, limit);
                let ghost prev = screen@;
                cast_shadow_ray(screen, scr_w, scr_h, factor_256, seed, ax, ay, down);
                proof {
                    if seed <= 255 {
                        lemma_only_darkened_trans(before, prev, screen@);
                    }
                }
                cx = ax;
                cy = ay;
                match side {
                    Side::RightLower => {
                        let dx: usize = if right > ax { right - ax } else { 0 };
                        let dy: usize = if bottom > ay { bottom - ay } else { 0 };
                        if dx > dy {
                            done = true;
                        }
                    },
                    Side::BottomRight => {
                        if ay >= bottom && ax > f.x_center {
                            cx = ax - 1;
                        }
                    },
                    Side::LeftUpper => {
                        let dx: usize = if ax > f.x_left { ax - f.x_left } else { 0 };
                        let dy: usize = if ay > f.y_top { ay - f.y_top } else { 0 };
                        if dx > dy {
                            done = true;
                        }
                    },
                    Side::TopLeft => {
                        if ay <= f.y_top && ax < f.x_center {
                            if ax + 1 >= scr_w {
                                done = true;
                            } else {
                                cx = ax + 1;
                            }
                        }
                    },
                    _ => {},
                }
            },
        }
    }
    (cx, cy)
}

/// Looks for the first cell that is not transparent on the way to the lower left.
fn find_down_left(
    screen: &[u32],
    scr_w: usize,
    scr_h: usize,
    x: usize,
    y: usize,
    x_left: usize,
    y_end: usize,
) -> (at: Option<(usize, usize)>)
    requires
        scr_w * scr_h <= screen@.len(),
        x_left <= x < scr_w,
        y < y_end <= scr_h,
    ensures
        match at {
            None => seek_down_left(
                screen@,
                scr_w as int,
                x as int,
                y as int,
                x_left as int,
                y_end as int,
            ) is None,
            Some(p) => p.0 < scr_w && p.1 < scr_h && seek_down_left(
                screen@,
                scr_w as int,
                x as int,
                y as int,
                x_left as int,
                y_end as int,
            ) == Some((p.0 as int, p.1 as int)),
        },
{
    let mut cx: usize = x;
    let mut cy: usize = y;
    loop
        invariant
            scr_w * scr_h <= screen@.len(),
            x_left <= cx < scr_w,
            cy < y_end <= scr_h,
            seek_down_left(
                screen@,
                scr_w as int,
                cx as int,
                cy as int,
                x_left as int,
                y_end as int,
            ) == seek_down_left(
                screen@,
                scr_w as int,
                x as int,
                y as int,
                x_left as int,
                y_end as int,
            ),
        decreases y_end - cy,
    {
        if alpha_cell(screen, scr_w, scr_h, cx, cy) != 0 {
            return Some((cx, cy));
        }
        if cx == x_left || cy + 1 >= y_end {
            return None;
        }
        cx -= 1;
        cy += 1;
    }
}

/// Looks for the first cell that is not transparent on the way to the upper right.
fn find_up_right(
    screen: &[u32],
    scr_w: usize,
    scr_h: usize,
    x: usize,
    y: usize,
    x_end: usize,
    y_top: usize,
) -> (at: Option<(usize, usize)>)
    requires
        scr_w * scr_h <= screen@.len(),
        x < x_end <= scr_w,
        y_top <= y < scr_h,
    ensures
        match at {
            None => seek_up_right(
                screen@,
                scr_w as int,
                x as int,
                y as int,
                x_end as int,
                y_top as int,
            ) is None,
            Some(p) => p.0 < scr_w && p.1 < scr_h && seek_up_right(
                screen@,
                scr_w as int,
                x as int,
                y as int,
                x_end as int,
                y_top as int,
            ) == Some((p.0 as int, p.1 as int)),
        },
{
    let mut cx: usize = x;
    let mut cy: usize = y;
    loop
        invariant
            scr_w * scr_h <= screen@.len(),
            cx < x_end <= scr_w,
            y_top <= cy < scr_h,
            seek_up_right(
                screen@,
                scr_w as int,
                cx as int,
                cy as int,
                x_end as int,
                y_top as int,
            ) == seek_up_right(
                screen@,
                scr_w as int,
                x as int,
                y as int,
                x_end as int,
                y_top as int,
            ),
        decreases x_end - cx,
    {
        if alpha_cell(screen, scr_w, scr_h, cx, cy) != 0 {
            return Some((cx, cy));
        }
        if cx + 1 >= x_end || cy == y_top {
            return None;
        }
        cx += 1;
        cy -= 1;
    }
}

/// `v`, or 0 where it is negative.
fn non_negative(v: i32) -> (r: usize)
    ensures
        r as int == above_zero(v as int),
{
    if v < 0 {
        0
    } else {
        v as usize
    }
}

/// The stretches of the left side and the left half of the top and bottom, from the cell `low` at
/// the lower left.
fn cast_left_side(
    screen: &mut [u32],
    scr_w: usize,
    scr_h: usize,
    factor_256: u32,
    seed: u32,
    f: Frame,
    low: (usize, usize),
)
    requires
        walk_ok(
            old(screen)@,
            (Cast { w: scr_w as int, h: scr_h as int, factor: factor_256 as int, seed: seed as int }),
            low.0 as int,
            low.1 as int,
        ),
        1 <= f.x_end <= scr_w,
        1 <= f.y_end <= scr_h,
    ensures
        ({
            let c = Cast {
                w: scr_w as int,
                h: scr_h as int,
                factor: factor_256 as int,
                seed: seed as int,
            };
            let soft = Cast { seed: c.seed / 2, ..c };
            let at = (low.0 as int, low.1 as int);
            let w5 = cast(c, old(screen)@, at, true);
            let w6 = fan(Side::BottomLeft, c, w5, f);
            let w7 = cast(soft, w6.screen, at, false);
            let w8 = fan(Side::LeftLower, soft, w7, f);
            let w9 = fan(Side::LeftUpper, soft, w8, f);
            final(screen)@ == fan(Side::TopLeft, soft, w9, f).screen
        }),
        final(screen)@.len() == old(screen)@.len(),
        seed <= 255 ==> only_darkened(old(screen)@, final(screen)@),
{
    let ghost s0 = screen@;
    let half: u32 = seed / 2;
    proof {
        lemma_half(seed, factor_256);
    }
    let (lx, ly) = low;
    cast_shadow_ray(screen, scr_w, scr_h, factor_256, seed, lx, ly, true);
    let ghost s1 = screen@;
    let (bx, by) = cast_fan(screen, scr_w, scr_h, factor_256, seed, Side::BottomLeft, f, lx, ly);
    let ghost s2 = screen@;
    cast_shadow_ray(screen, scr_w, scr_h, factor_256, half, lx, ly, false);
    let ghost s3 = screen@;
    let (x1, y1) = cast_fan(screen, scr_w, scr_h, factor_256, half, Side::LeftLower, f, lx, ly);
    let ghost s4 = screen@;
    let (x2, y2) = cast_fan(screen, scr_w, scr_h, factor_256, half, Side::LeftUpper, f, x1, y1);
    let ghost s5 = screen@;
    let (x3, y3) = cast_fan(screen, scr_w, scr_h, factor_256, half, Side::TopLeft, f, x2, y2);
    proof {
        if seed <= 255 {
            lemma_only_darkened_trans(s0, s1, s2);
            lemma_only_darkened_trans(s0, s2, s3);
            lemma_only_darkened_trans(s0, s3, s4);
            lemma_only_darkened_trans(s0, s4, s5);
            lemma_only_darkened_trans(s0, s5, screen@);
        }
    }
}

/// The stretches of the right side and the right half of the bottom, from the cell `start` at the
/// upper right.
fn cast_right_side(
    screen: &mut [u32],
    scr_w: usize,
    scr_h: usize,
    factor_256: u32,
    seed: u32,
    f: Frame,
    start: (usize, usize),
)
    requires
        walk_ok(
            old(screen)@,
            (Cast { w: scr_w as int, h: scr_h as int, factor: factor_256 as int, seed: seed as int }),
            start.0 as int,
            start.1 as int,
        ),
        1 <= f.x_end <= scr_w,
        1 <= f.y_end <= scr_h,
    ensures
        ({
            let c = Cast {
                w: scr_w as int,
                h: scr_h as int,
                factor: factor_256 as int,
                seed: seed as int,
            };
            let w1 = cast(c, old(screen)@, (start.0 as int, start.1 as int), true);
            let w2 = fan(Side::RightUpper, c, w1, f);
            let w3 = fan(Side::RightLower, c, w2, f);
            final(screen)@ == fan(Side::BottomRight, c, w3, f).screen
        }),
        final(screen)@.len() == old(screen)@.len(),
        seed <= 255 ==> only_darkened(old(screen)@, final(screen)@),
{
    let ghost s0 = screen@;
    let (x0, y0) = start;
    cast_shadow_ray(screen, scr_w, scr_h, factor_256, seed, x0, y0, true);
    let ghost s1 = screen@;
    let (x1, y1) = cast_fan(screen, scr_w, scr_h, factor_256, seed, Side::RightUpper, f, x0, y0);
    let ghost s2 = screen@;
    let (x2, y2) = cast_fan(screen, scr_w, scr_h, factor_256, seed, Side::RightLower, f, x1, y1);
    let ghost s3 = screen@;
    let (x3, y3) = cast_fan(screen, scr_w, scr_h, factor_256, seed, Side::BottomRight, f, x2, y2);
    proof {
        if seed <= 255 {
            lemma_only_darkened_trans(s0, s1, s2);
            lemma_only_darkened_trans(s0, s2, s3);
            lemma_only_darkened_trans(s0, s3, screen@);
        }
    }
}

/// The stretch of the right half of the top, from the cell `start` at the upper right.
fn cast_top_right(
    screen: &mut [u32],
    scr_w: usize,
    scr_h: usize,
    factor_256: u32,
    seed: u32,
    f: Frame,
    start: (usize, usize),
)
    requires
        walk_ok(
            old(screen)@,
            (Cast { w: scr_w as int, h: scr_h as int, factor: factor_256 as int, seed: seed as int }),
            start.0 as int,
            start.1 as int,
        ),
        1 <= f.x_end <= scr_w,
        1 <= f.y_end <= scr_h,
    ensures
        ({
            let c = Cast {
                w: scr_w as int,
                h: scr_h as int,
                factor: factor_256 as int,
                seed: seed as int,
            };
            let w1 = cast(c, old(screen)@, (start.0 as int, start.1 as int), false);
            final(screen)@ == fan(Side::TopRight, c, w1, f).screen
        }),
        seed <= 255 ==> only_darkened(old(screen)@, final(screen)@),
{
    let ghost s0 = screen@;
    let (x0, y0) = start;
    cast_shadow_ray(screen, scr_w, scr_h, factor_256, seed, x0, y0, false);
    let ghost s1 = screen@;
    let (x1, y1) = cast_fan(screen, scr_w, scr_h, factor_256, seed, Side::TopRight, f, x0, y0);
    proof {
        if seed <= 255 {
            lemma_only_darkened_trans(s0, s1, screen@);
        }
    }
}

/// Casts the rays of a window that spans `x_left..x_end` and `y_top..y_end`, the corners of `area`,
/// from the cell `start` at its upper right on.
fn cast_shadow(
    screen: &mut [u32],
    scr_w: usize,
    scr_h: usize,
    factor_256: u32,
    seed: u32,
    area: (usize, usize, usize, usize),
    start: (usize, usize),
)
    requires
        walk_ok(
            old(screen)@,
            (Cast { w: scr_w as int, h: scr_h as int, factor: factor_256 as int, seed: seed as int }),
            start.0 as int,
            start.1 as int,
        ),
        area.0 < area.2 <= scr_w,
        area.1 + 1 < area.3 <= scr_h,
    ensures
        final(screen)@ == shadow_from(
            old(screen)@,
            (Cast { w: scr_w as int, h: scr_h as int, factor: factor_256 as int, seed: seed as int }),
            (start.0 as int, start.1 as int),
            area.0 as nat,
            area.1 as nat,
            area.2 as int,
            area.3 as int,
        ),
        seed <= 255 ==> only_darkened(old(screen)@, final(screen)@),
{
    let ghost s0 = screen@;
    let (x_left, y_top, x_end, y_end) = area;
    let f = Frame {
        x_left,
        y_top,
        x_end,
        y_end,
        x_center: x_left + (x_end - x_left) / 2,
        y_center: y_top + (y_end - y_top) / 2,
    };
    cast_right_side(screen, scr_w, scr_h, factor_256, seed, f, start);
    let ghost s4 = screen@;
    match find_up_right(screen, scr_w, scr_h, x_left, y_end - 2, x_end, y_top) {
        None => {},
        Some(low) => {
            cast_left_side(screen, scr_w, scr_h, factor_256, seed, f, low);
            proof {
                if seed <= 255 {
                    lemma_only_darkened_trans(s0, s4, screen@);
                }
            }
        },
    }
    let ghost s5 = screen@;
    proof {
        lemma_half(seed, factor_256);
    }
    cast_top_right(screen, scr_w, scr_h, factor_256, seed / 2, f, start);
    proof {
        if seed <= 255 {
            lemma_only_darkened_trans(s0, s5, screen@);
        }
    }
}

/// Casts the shadow of the window at `window_rect`, given as `(x, y, width, height)`, on the screen:
/// full strength to the lower right, half strength to the upper left. `factor_256` is what a ray
/// keeps per step, in parts of 256; outside `1..=255` nothing is drawn.
///
/// With a seed of at most 255 no cell ever loses opacity, no cell that was not transparent changes
/// its RGB, and opaque cells stay as they are.
pub fn paint_shadow(
    screen: &mut [u32],
    scr_w: usize,
    factor_256: u32,
    shadow_seed: u32,
    window_rect: (i32, i32, i32, i32),
)
    requires
        scr_w > 0 && 0 < factor_256 < 256 && window_rect.2 > 0 && window_rect.3 > 0 ==> {
            &&& shadow_seed * factor_256 <= u32::MAX
            &&& window_rect.0 + window_rect.2 <= i32::MAX
            &&& window_rect.1 + window_rect.3 <= i32::MAX
        },
    ensures
        final(screen)@ == shadowed(
            old(screen)@,
            scr_w as int,
            factor_256 as int,
            shadow_seed as int,
            (
                window_rect.0 as int,
                window_rect.1 as int,
                window_rect.2 as int,
                window_rect.3 as int,
            ),
        ),
        shadow_seed <= 255 ==> only_darkened(old(screen)@, final(screen)@),
{
    let ghost s0 = screen@;
    if scr_w == 0 || factor_256 == 0 || factor_256 >= 256 {
        return;
    }
    let scr_h: usize = screen.len() / scr_w;
    proof {
        vstd::arithmetic::div_mod::lemma_fundamental_div_mod(s0.len() as int, scr_w as int);
    }
    let (rx, ry, rw, rh) = window_rect;
    if rw <= 0 || rh <= 0 {
        return;
    }
    let x_left: usize = non_negative(rx);
    let y_top: usize = non_negative(ry);
    let x_end: usize = canvas::lesser(non_negative(rx + rw), scr_w);
    let y_end: usize = canvas::lesser(non_negative(ry + rh), scr_h);
    if x_left >= x_end || y_top >= y_end {
        return;
    }
    if y_end - y_top <= 1 {
        return;
    }
    let seek = find_down_left(screen, scr_w, scr_h, x_end - 1, y_top + 1, x_left, y_end);
    let (x0, y0) = match seek {
        None => {
            return;
        },
        Some(p) => p,
    };
    cast_shadow(
        screen,
        scr_w,
        scr_h,
        factor_256,
        shadow_seed,
        (x_left, y_top, x_end, y_end),
        (x0, y0),
    );
}

/// A shadow ray goes down its diagonal, to the lower right, or up it to the upper left: the cell `k`
/// steps from its start is shaded by what is left of the ray there, and no cell off the diagonal, or
/// behind the start, changes.
pub proof fn law_ray_goes_along_its_diagonal(
    screen: Seq<u32>,
    w: int,
    h: int,
    factor: int,
    seed: int,
    x: int,
    y: int,
    down: bool,
    cx: int,
    cy: int,
)
    requires
        0 <= cx < w,
        0 <= cy < h,
        w * h <= screen.len(),
        0 <= seed,
        0 <= factor <= 256,
    ensures
        ({
            let k = if down {
                cx - x
            } else {
                x - cx
            };
            let on = k >= 0 && cy == (if down {
                y + k
            } else {
                y - k
            });
            let s = ray::decayed(seed, factor, k as nat);
            after_ray(screen, w, h, factor, seed, x, y, down)[cy * w + cx] == (if on && (k == 0 || s
                > 0) {
                shade(screen[cy * w + cx], s)
            } else {
                screen[cy * w + cx]
            })
        }),
{
    canvas::lemma_cell(cx, cy, w);
    canvas::lemma_cell_bound(cx, cy, w, h);
}

/// Shade is black at the strength of the ray: a transparent cell becomes black of that opacity, any
/// other keeps its colour and is lifted by the ray's share of what its opacity leaves, up to opaque.
pub proof fn law_shade_is_black(p: u32, s: int)
    requires
        0 <= s <= 255,
    ensures
        pixel::alpha(p) == 0 ==> shade(p, s) == s * 0x100_0000,
        pixel::alpha(p) > 0 ==> ({
            let q = shade(p, s);
            let up = pixel::alpha(q) - pixel::alpha(p);
            &&& pixel::red(q) == pixel::red(p)
            &&& pixel::green(q) == pixel::green(p)
            &&& pixel::blue(q) == pixel::blue(p)
            &&& 256 * up <= s * (256 - pixel::alpha(p))
            &&& pixel::alpha(q) < 255 ==> s * (256 - pixel::alpha(p)) < 256 * up + 256
        }),
{
    lemma_shade(p, s);
    pixel::lemma_channels(p);
    let a = pixel::alpha(p);
    if a == 0 {
        let t = s as u32;
        assert((t << 24) == t * 0x100_0000) by (bit_vector)
            requires
                t <= 255,
        ;
    } else {
        pixel::lemma_scaled(s, 256 - a, 255);
        let lifted = a + (s * (256 - a)) / 256;
        assert(0 <= s * (256 - a) <= 255 * 255) by (nonlinear_arith)
            requires
                0 <= s <= 255,
                0 < a <= 255,
        ;
        pixel::lemma_argb(
            if lifted < 255 {
                lifted
            } else {
                255
            },
            pixel::red(p),
            pixel::green(p),
            pixel::blue(p),
        );
    }
}

/// A slide goes along its diagonal over passable cells only, and ends at the first cell that is not
/// passable, or at its limit, or at the edge of the screen.
pub proof fn law_slide_ends_at_the_rim(
    screen: Seq<u32>,
    w: int,
    h: int,
    x: int,
    y: int,
    down: bool,
    solid: bool,
    limit: int,
    k: int,
)
    requires
        0 <= x < w,
        0 <= y < h,
    ensures
        ({
            let (ex, ey) = slide(screen, w, h, x, y, down, solid, limit);
            let steps = if down {
                ex - x
            } else {
                x - ex
            };
            let step: int = if down {
                1
            } else {
                -1
            };
            &&& steps >= 0
            &&& ey == y + step * steps
            &&& 0 <= ex < w && 0 <= ey < h
            &&& 0 <= k < steps ==> {
                let a = pixel::alpha(screen[(y + step * k) * w + (x + step * k)]);
                if solid {
                    a >= 0xFE
                } else {
                    a == 0
                }
            }
            &&& ({
                let a = pixel::alpha(screen[ey * w + ex]);
                ||| solid && a < 0xFE
                ||| !solid && a != 0
                ||| down && (ey >= limit || ex == w - 1 || ey == h - 1)
                ||| !down && (ey <= limit || ex == 0 || ey == 0)
            })
        }),
    decreases
            if down {
                w - x
            } else {
                x
            },
{
    if down && y < limit && passable(alpha_at(screen, w, x, y), solid) && x + 1 < w && y + 1 < h {
        law_slide_ends_at_the_rim(screen, w, h, x + 1, y + 1, down, solid, limit, k - 1);
        lemma_slide(screen, w, h, x + 1, y + 1, down, solid, limit);
    } else if !down && y > limit && passable(alpha_at(screen, w, x, y), solid) && x > 0 && y > 0 {
        law_slide_ends_at_the_rim(screen, w, h, x - 1, y - 1, down, solid, limit, k - 1);
        lemma_slide(screen, w, h, x - 1, y - 1, down, solid, limit);
    }
}

/// The search to the lower left finds the first cell of its diagonal that is not transparent; it finds
/// none only where all of them are transparent as far as the window goes.
pub proof fn law_search_finds_the_first_to_the_lower_left(
    screen: Seq<u32>,
    w: int,
    x: int,
    y: int,
    x_left: int,
    y_end: int,
    k: int,
)
    requires
        x_left <= x,
        y < y_end,
        0 <= k,
    ensures
        ({
            let a = pixel::alpha(screen[(y + k) * w + (x - k)]);
            match seek_down_left(screen, w, x, y, x_left, y_end) {
                Some((fx, fy)) => {
                    &&& x - fx == fy - y
                    &&& x_left <= fx <= x
                    &&& y <= fy < y_end
                    &&& pixel::alpha(screen[fy * w + fx]) != 0
                    &&& k < x - fx ==> a == 0
                },
                None => k <= x - x_left && y + k < y_end ==> a == 0,
            }
        }),
    decreases y_end - y,
{
    if alpha_at(screen, w, x, y) != 0 {
    } else if x == x_left || y + 1 >= y_end {
    } else if k > 0 {
        law_search_finds_the_first_to_the_lower_left(
            screen,
            w,
            x - 1,
            y + 1,
            x_left,
            y_end,
            k - 1,
        );
    } else {
        law_search_finds_the_first_to_the_lower_left(screen, w, x - 1, y + 1, x_left, y_end, k);
    }
}

/// The search to the upper right finds the first cell of its diagonal that is not transparent; it
/// finds none only where all of them are transparent as far as the window goes.
pub proof fn law_search_finds_the_first_to_the_upper_right(
    screen: Seq<u32>,
    w: int,
    x: int,
    y: int,
    x_end: int,
    y_top: int,
    k: int,
)
    requires
        x < x_end,
        y_top <= y,
        0 <= k,
    ensures
        ({
            let a = pixel::alpha(screen[(y - k) * w + (x + k)]);
            match seek_up_right(screen, w, x, y, x_end, y_top) {
                Some((fx, fy)) => {
                    &&& fx - x == y - fy
                    &&& x <= fx < x_end
                    &&& y_top <= fy <= y
                    &&& pixel::alpha(screen[fy * w + fx]) != 0
                    &&& k < fx - x ==> a == 0
                },
                None => k <= y - y_top && x + k < x_end ==> a == 0,
            }
        }),
    decreases x_end - x,
{
    if alpha_at(screen, w, x, y) != 0 {
    } else if x + 1 >= x_end || y == y_top {
    } else if k > 0 {
        law_search_finds_the_first_to_the_upper_right(
            screen,
            w,
            x + 1,
            y - 1,
            x_end,
            y_top,
            k - 1,
        );
    } else {
        law_search_finds_the_first_to_the_upper_right(screen, w, x + 1, y - 1, x_end, y_top, k);
    }
}

/// A ray only darkens.
proof fn lemma_ray_darkens(c: Cast, screen: Seq<u32>, at: (int, int), down: bool)
    requires
        0 <= c.seed <= 255,
        0 < c.factor < 256,
    ensures
        only_darkened(screen, cast(c, screen, at, down).screen),
{
    assert forall|i: int| 0 <= i < screen.len() implies {
        let q = #[trigger] cast(c, screen, at, down).screen[i];
        &&& pixel::alpha(screen[i]) <= pixel::alpha(q)
        &&& pixel::alpha(screen[i]) > 0 ==> pixel::red(screen[i]) == pixel::red(q) && pixel::green(
            screen[i],
        ) == pixel::green(q) && pixel::blue(screen[i]) == pixel::blue(q)
        &&& pixel::alpha(screen[i]) == 255 ==> screen[i] == q
    } by {
        match ray_step(i, c.w, at.0, at.1, down) {
            Some(k) => {
                ray::lemma_decay_step(c.seed, c.factor, k);
                lemma_shade(screen[i], ray::decayed(c.seed, c.factor, k));
            },
            None => {},
        }
    }
}

/// The walk only darkens.
proof fn lemma_fan_right_upper_darkens(c: Cast, wk: Walk, y_center: int, y_end: int)
    requires
        0 <= c.seed <= 255,
        0 < c.factor < 256,
    ensures
        only_darkened(wk.screen, fan_right_upper(c, wk, y_center, y_end).screen),
    decreases above_zero(y_center - wk.y),
{
    if wk.y < y_center && wk.y + 1 < y_end {
        let at = slide(wk.screen, c.w, c.h, wk.x, wk.y + 1, true, true, c.h);
        lemma_slide(wk.screen, c.w, c.h, wk.x, wk.y + 1, true, true, c.h);
        lemma_ray_darkens(c, wk.screen, at, true);
        lemma_fan_right_upper_darkens(c, cast(c, wk.screen, at, true), y_center, y_end);
        assert(only_darkened(
            cast(c, wk.screen, at, true).screen,
            fan_right_upper(c, wk, y_center, y_end).screen,
        ));
        lemma_only_darkened_trans(
            wk.screen,
            cast(c, wk.screen, at, true).screen,
            fan_right_upper(c, wk, y_center, y_end).screen,
        );
    }
}

/// The walk only darkens.
proof fn lemma_fan_right_lower_darkens(c: Cast, wk: Walk, y_end: int, right: int, bottom: int)
    requires
        0 <= c.seed <= 255,
        0 < c.factor < 256,
    ensures
        only_darkened(wk.screen, fan_right_lower(c, wk, y_end, right, bottom).screen),
    decreases wk.x, y_end - wk.y,
{
    if wk.y + 1 < y_end {
        let at = slide(wk.screen, c.w, c.h, wk.x, wk.y + 1, false, false, 0);
        let next = cast(c, wk.screen, at, true);
        lemma_slide(wk.screen, c.w, c.h, wk.x, wk.y + 1, false, false, 0);
        lemma_ray_darkens(c, wk.screen, at, true);
        if above_zero(right - at.0) <= above_zero(bottom - at.1) {
            lemma_fan_right_lower_darkens(c, next, y_end, right, bottom);
        }
        assert(only_darkened(
            cast(c, wk.screen, at, true).screen,
            fan_right_lower(c, wk, y_end, right, bottom).screen,
        ));
        lemma_only_darkened_trans(
            wk.screen,
            cast(c, wk.screen, at, true).screen,
            fan_right_lower(c, wk, y_end, right, bottom).screen,
        );
    }
}

/// The walk only darkens.
proof fn lemma_fan_bottom_right_darkens(c: Cast, wk: Walk, x_center: nat, bottom: int)
    requires
        0 <= c.seed <= 255,
        0 < c.factor < 256,
    ensures
        only_darkened(wk.screen, fan_bottom_right(c, wk, x_center, bottom).screen),
    decreases wk.x, bottom - wk.y,
{
    if wk.x > x_center {
        let y1 = if wk.y + 1 <= bottom {
            wk.y + 1
        } else {
            wk.y
        };
        let at = slide(wk.screen, c.w, c.h, wk.x, y1, false, false, 0);
        let next = cast(c, wk.screen, at, true);
        lemma_slide(wk.screen, c.w, c.h, wk.x, y1, false, false, 0);
        lemma_ray_darkens(c, wk.screen, at, true);
        if at.1 >= bottom && at.0 > x_center {
            lemma_fan_bottom_right_darkens(c, (Walk { x: at.0 - 1, ..next }), x_center, bottom);
        } else {
            lemma_fan_bottom_right_darkens(c, next, x_center, bottom);
        }
        assert(only_darkened(
            cast(c, wk.screen, at, true).screen,
            fan_bottom_right(c, wk, x_center, bottom).screen,
        ));
        lemma_only_darkened_trans(
            wk.screen,
            cast(c, wk.screen, at, true).screen,
            fan_bottom_right(c, wk, x_center, bottom).screen,
        );
    }
}

/// The walk only darkens.
proof fn lemma_fan_bottom_left_darkens(c: Cast, wk: Walk, x_center: int, bottom: int)
    requires
        0 <= c.seed <= 255,
        0 < c.factor < 256,
    ensures
        only_darkened(wk.screen, fan_bottom_left(c, wk, x_center, bottom).screen),
    decreases above_zero(x_center - wk.x),
{
    if wk.x < x_center && wk.x + 1 < c.w {
        let at = slide(wk.screen, c.w, c.h, wk.x + 1, wk.y, true, true, bottom);
        lemma_slide(wk.screen, c.w, c.h, wk.x + 1, wk.y, true, true, bottom);
        lemma_ray_darkens(c, wk.screen, at, true);
        lemma_fan_bottom_left_darkens(c, cast(c, wk.screen, at, true), x_center, bottom);
        assert(only_darkened(
            cast(c, wk.screen, at, true).screen,
            fan_bottom_left(c, wk, x_center, bottom).screen,
        ));
        lemma_only_darkened_trans(
            wk.screen,
            cast(c, wk.screen, at, true).screen,
            fan_bottom_left(c, wk, x_center, bottom).screen,
        );
    }
}

/// The walk only darkens.
proof fn lemma_fan_left_lower_darkens(c: Cast, wk: Walk, y_center: nat)
    requires
        0 <= c.seed <= 255,
        0 < c.factor < 256,
    ensures
        only_darkened(wk.screen, fan_left_lower(c, wk, y_center).screen),
    decreases wk.y,
{
    if wk.y > y_center {
        let at = slide(wk.screen, c.w, c.h, wk.x, wk.y - 1, false, true, 0);
        lemma_slide(wk.screen, c.w, c.h, wk.x, wk.y - 1, false, true, 0);
        lemma_ray_darkens(c, wk.screen, at, false);
        lemma_fan_left_lower_darkens(c, cast(c, wk.screen, at, false), y_center);
        assert(only_darkened(
            cast(c, wk.screen, at, false).screen,
            fan_left_lower(c, wk, y_center).screen,
        ));
        lemma_only_darkened_trans(
            wk.screen,
            cast(c, wk.screen, at, false).screen,
            fan_left_lower(c, wk, y_center).screen,
        );
    }
}

/// The walk only darkens.
proof fn lemma_fan_left_upper_darkens(c: Cast, wk: Walk, y_top: nat, x_left: int)
    requires
        0 <= c.seed <= 255,
        0 < c.factor < 256,
    ensures
        only_darkened(wk.screen, fan_left_upper(c, wk, y_top, x_left).screen),
    decreases c.w - wk.x, wk.y,
{
    if wk.y > y_top {
        let at = slide(wk.screen, c.w, c.h, wk.x, wk.y - 1, true, false, c.h);
        let next = cast(c, wk.screen, at, false);
        lemma_slide(wk.screen, c.w, c.h, wk.x, wk.y - 1, true, false, c.h);
        lemma_ray_darkens(c, wk.screen, at, false);
        if above_zero(at.0 - x_left) <= above_zero(at.1 - y_top) {
            lemma_fan_left_upper_darkens(c, next, y_top, x_left);
        }
        assert(only_darkened(
            cast(c, wk.screen, at, false).screen,
            fan_left_upper(c, wk, y_top, x_left).screen,
        ));
        lemma_only_darkened_trans(
            wk.screen,
            cast(c, wk.screen, at, false).screen,
            fan_left_upper(c, wk, y_top, x_left).screen,
        );
    }
}

/// The walk only darkens.
proof fn lemma_fan_top_left_darkens(c: Cast, wk: Walk, x_center: int, y_top: nat)
    requires
        0 <= c.seed <= 255,
        0 < c.factor < 256,
    ensures
        only_darkened(wk.screen, fan_top_left(c, wk, x_center, y_top).screen),
    decreases c.w - wk.x, wk.y,
{
    if wk.x < x_center {
        let y1 = if wk.y > y_top {
            wk.y - 1
        } else {
            wk.y
        };
        let at = slide(wk.screen, c.w, c.h, wk.x, y1, true, false, c.h);
        let next = cast(c, wk.screen, at, false);
        lemma_slide(wk.screen, c.w, c.h, wk.x, y1, true, false, c.h);
        lemma_ray_darkens(c, wk.screen, at, false);
        if at.1 <= y_top && at.0 < x_center {
            if at.0 + 1 < c.w {
                lemma_fan_top_left_darkens(c, (Walk { x: at.0 + 1, ..next }), x_center, y_top);
            }
        } else {
            lemma_fan_top_left_darkens(c, next, x_center, y_top);
        }
        assert(only_darkened(
            cast(c, wk.screen, at, false).screen,
            fan_top_left(c, wk, x_center, y_top).screen,
        ));
        lemma_only_darkened_trans(
            wk.screen,
            cast(c, wk.screen, at, false).screen,
            fan_top_left(c, wk, x_center, y_top).screen,
        );
    }
}

/// The walk only darkens.
proof fn lemma_fan_top_right_darkens(c: Cast, wk: Walk, x_center: nat, y_top: int)
    requires
        0 <= c.seed <= 255,
        0 < c.factor < 256,
    ensures
        only_darkened(wk.screen, fan_top_right(c, wk, x_center, y_top).screen),
    decreases wk.x,
{
    if wk.x > x_center {
        let at = slide(wk.screen, c.w, c.h, wk.x - 1, wk.y, false, true, y_top);
        lemma_slide(wk.screen, c.w, c.h, wk.x - 1, wk.y, false, true, y_top);
        lemma_ray_darkens(c, wk.screen, at, false);
        lemma_fan_top_right_darkens(c, cast(c, wk.screen, at, false), x_center, y_top);
        assert(only_darkened(
            cast(c, wk.screen, at, false).screen,
            fan_top_right(c, wk, x_center, y_top).screen,
        ));
        lemma_only_darkened_trans(
            wk.screen,
            cast(c, wk.screen, at, false).screen,
            fan_top_right(c, wk, x_center, y_top).screen,
        );
    }
}

/// A ray leaves a cell at least as opaque as the ray is there.
proof fn lemma_ray_shades(c: Cast, screen: Seq<u32>, at: (int, int), down: bool, k: int)
    requires
        0 <= c.seed <= 255,
        0 < c.factor < 256,
        c.w * c.h <= screen.len(),
        0 <= k,
        ({
            let x = if down {
                at.0 + k
            } else {
                at.0 - k
            };
            let y = if down {
                at.1 + k
            } else {
                at.1 - k
            };
            0 <= x < c.w && 0 <= y < c.h
        }),
    ensures
        ({
            let x = if down {
                at.0 + k
            } else {
                at.0 - k
            };
            let y = if down {
                at.1 + k
            } else {
                at.1 - k
            };
            pixel::alpha(cast(c, screen, at, down).screen[y * c.w + x]) >= ray::decayed(
                c.seed,
                c.factor,
                k as nat,
            )
        }),
{
    let x = if down {
        at.0 + k
    } else {
        at.0 - k
    };
    let y = if down {
        at.1 + k
    } else {
        at.1 - k
    };
    canvas::lemma_cell(x, y, c.w);
    canvas::lemma_cell_bound(x, y, c.w, c.h);
    ray::lemma_decay_step(c.seed, c.factor, k as nat);
    let s = ray::decayed(c.seed, c.factor, k as nat);
    let p = screen[y * c.w + x];
    law_shade_is_black(p, s);
    lemma_shade(p, s);
    pixel::lemma_channels(p);
    let a = pixel::alpha(p);
    if a == 0 {
        let t = s as u32;
        assert((t << 24) >> 24 == t) by (bit_vector)
            requires
                t <= 255,
        ;
    } else {
        assert(s * (256 - a) >= 256 * (s - a)) by (nonlinear_arith)
            requires
                0 <= s <= 255,
                0 < a <= 255,
        ;
    }
}

/// The shadow falls to both sides of the first cell that is found at the upper right: down its diagonal
/// every cell becomes at least as opaque as the ray is there at full strength, and up its diagonal, on
/// a window of more than one row, at half strength.
pub proof fn law_shadow_falls_along_the_diagonal(
    screen: Seq<u32>,
    c: Cast,
    start: (int, int),
    x_left: nat,
    y_top: nat,
    x_end: int,
    y_end: int,
    k: int,
)
    requires
        0 <= c.seed <= 255,
        0 < c.factor < 256,
        c.w * c.h <= screen.len(),
        0 <= start.0 < c.w,
        0 <= start.1 < c.h,
        y_end > 1,
        0 <= k,
    ensures
        ({
            let q = shadow_from(screen, c, start, x_left, y_top, x_end, y_end);
            &&& only_darkened(screen, q)
            &&& start.0 + k < c.w && start.1 + k < c.h ==> pixel::alpha(
                q[(start.1 + k) * c.w + (start.0 + k)],
            ) >= ray::decayed(c.seed, c.factor, k as nat)
            &&& 0 <= start.0 - k && 0 <= start.1 - k ==> pixel::alpha(
                q[(start.1 - k) * c.w + (start.0 - k)],
            ) >= ray::decayed(c.seed / 2, c.factor, k as nat)
        }),
{
    let right = x_end - 1;
    let bottom = y_end - 1;
    let x_center = ((x_left + x_end) / 2) as nat;
    let y_center = ((y_top + y_end) / 2) as nat;
    let w1 = cast(c, screen, start, true);
    lemma_ray_darkens(c, screen, start, true);
    let w2 = fan_right_upper(c, w1, y_center as int, y_end);
    lemma_fan_right_upper_darkens(c, w1, y_center as int, y_end);
    let w3 = fan_right_lower(c, w2, y_end, right, bottom);
    lemma_fan_right_lower_darkens(c, w2, y_end, right, bottom);
    let w4 = fan_bottom_right(c, w3, x_center, bottom);
    lemma_fan_bottom_right_darkens(c, w3, x_center, bottom);
    lemma_only_darkened_trans(w1.screen, w2.screen, w3.screen);
    lemma_only_darkened_trans(w1.screen, w3.screen, w4.screen);
    let soft = Cast { seed: c.seed / 2, ..c };
    let seek = seek_up_right(w4.screen, c.w, x_left as int, bottom - 1, x_end, y_top as int);
    let s5 = match seek {
        None => w4.screen,
        Some(low) => {
            let w5 = cast(c, w4.screen, low, true);
            let w6 = fan_bottom_left(c, w5, x_center as int, bottom);
            let w7 = cast(soft, w6.screen, low, false);
            let w8 = fan_left_lower(soft, w7, y_center);
            let w9 = fan_left_upper(soft, w8, y_top, x_left as int);
            fan_top_left(soft, w9, x_center as int, y_top).screen
        },
    };
    match seek {
        None => {},
        Some(low) => {
            let w5 = cast(c, w4.screen, low, true);
            lemma_ray_darkens(c, w4.screen, low, true);
            let w6 = fan_bottom_left(c, w5, x_center as int, bottom);
            lemma_fan_bottom_left_darkens(c, w5, x_center as int, bottom);
            let w7 = cast(soft, w6.screen, low, false);
            lemma_ray_darkens(soft, w6.screen, low, false);
            let w8 = fan_left_lower(soft, w7, y_center);
            lemma_fan_left_lower_darkens(soft, w7, y_center);
            let w9 = fan_left_upper(soft, w8, y_top, x_left as int);
            lemma_fan_left_upper_darkens(soft, w8, y_top, x_left as int);
            lemma_fan_top_left_darkens(soft, w9, x_center as int, y_top);
            lemma_only_darkened_trans(w4.screen, w5.screen, w6.screen);
            lemma_only_darkened_trans(w4.screen, w6.screen, w7.screen);
            lemma_only_darkened_trans(w4.screen, w7.screen, w8.screen);
            lemma_only_darkened_trans(w4.screen, w8.screen, w9.screen);
            lemma_only_darkened_trans(w4.screen, w9.screen, s5);
            lemma_only_darkened_trans(w1.screen, w4.screen, s5);
        },
    }
    assert(only_darkened(w1.screen, s5));
    let w10 = cast(soft, s5, start, false);
    lemma_ray_darkens(soft, s5, start, false);
    let q = fan_top_right(soft, w10, x_center, y_top as int).screen;
    lemma_fan_top_right_darkens(soft, w10, x_center, y_top as int);
    lemma_only_darkened_trans(w1.screen, s5, w10.screen);
    lemma_only_darkened_trans(w1.screen, w10.screen, q);
    lemma_only_darkened_trans(screen, w1.screen, q);
    assert(q == shadow_from(screen, c, start, x_left, y_top, x_end, y_end));
    if start.0 + k < c.w && start.1 + k < c.h {
        lemma_ray_shades(c, screen, start, true, k);
        canvas::lemma_cell_bound(start.0 + k, start.1 + k, c.w, c.h);
        let i = (start.1 + k) * c.w + (start.0 + k);
        assert(pixel::alpha(w1.screen[i]) <= pixel::alpha(q[i]));
    }
    if 0 <= start.0 - k && 0 <= start.1 - k {
        lemma_ray_shades(soft, s5, start, false, k);
        canvas::lemma_cell_bound(start.0 - k, start.1 - k, c.w, c.h);
        let i = (start.1 - k) * c.w + (start.0 - k);
        assert(pixel::alpha(w10.screen[i]) <= pixel::alpha(q[i]));
    }
}

} // verus!
