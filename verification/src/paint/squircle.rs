//! Squircle pills, drawn from a table of crossings.
//!
//! Entry `k` of the table describes the curve `k` rows away from the middle of a cap: the columns
//! between the box and the curve, and the coverage outside and inside the curve. By symmetry each
//! entry gives an edge pixel and a filled run on a row, and the same on a column, in four corners.
use crate::canvas::{self, Canvas, PixelRect};
use crate::paint::clip::HitId;
use crate::paint::glow::PillRect;
use crate::pixel::{self, Blend, BlendMode};
use vstd::prelude::*;

verus! {

/// The last row of the lit part at column `dx` of a pill: down the anti-diagonal in the two caps,
/// along the middle row between them.
pub open spec fn seam(r: PillRect, dx: int) -> int {
    let half = r.h / 2;
    if dx <= r.h - 1 - half {
        r.h - 1 - dx
    } else if dx >= r.w - 1 - half {
        r.w - 1 - dx
    } else {
        half
    }
}

/// The colour of the pill at column `x` of row `y`: lit up to the seam, shaded below it.
pub open spec fn tone(r: PillRect, light: u32, shadow: u32, x: int, y: int) -> u32 {
    if y - r.y <= seam(r, x - r.x) {
        light
    } else {
        shadow
    }
}

/// Cell `i` lies in the first `h` rows, in columns `x0..x1` and rows `y0..y1`.
pub open spec fn span_holds(i: int, w: int, h: int, x0: int, y0: int, x1: int, y1: int) -> bool {
    canvas::row_of(i, w) < h && canvas::in_rect(i, w, x0, y0, x1, y1)
}

/// The buffer after the pill's colour, at opacity `a`, went under columns `x0..x1` of rows `y0..y1`.
pub open spec fn after_span(
    px: Seq<u32>,
    w: int,
    h: int,
    x0: int,
    y0: int,
    x1: int,
    y1: int,
    a: int,
    r: PillRect,
    light: u32,
    shadow: u32,
) -> Seq<u32> {
    Seq::new(
        px.len(),
        |i: int|
            if span_holds(i, w, h, x0, y0, x1, y1) {
                let c = tone(r, light, shadow, canvas::col_of(i, w), canvas::row_of(i, w));
                pixel::under_px(
                    px[i],
                    pixel::argb(a, pixel::red(c), pixel::green(c), pixel::blue(c)),
                    BlendMode::Normal,
                )
            } else {
                px[i]
            },
    )
}

/// The hit map after `id` was stamped on columns `x0..x1` of rows `y0..y1`.
pub open spec fn stamped(
    hits: Seq<HitId>,
    w: int,
    h: int,
    x0: int,
    y0: int,
    x1: int,
    y1: int,
    id: HitId,
) -> Seq<HitId> {
    Seq::new(
        hits.len(),
        |i: int|
            if span_holds(i, w, h, x0, y0, x1, y1) {
                id
            } else {
                hits[i]
            },
    )
}

/// Where entry `k` of the table, with the given inset, draws in one corner.
pub struct Corner {
    /// Row of the edge pixel and the run on a row.
    pub v_row: int,
    /// Column of the edge pixel on that row.
    pub v_col: int,
    /// Columns of the run.
    pub fx0: int,
    pub fx1: int,
    /// Column of the edge pixel and the run on a column.
    pub h_col: int,
    /// Row of the edge pixel on that column.
    pub h_row: int,
    /// Rows of the run.
    pub fy0: int,
    pub fy1: int,
}

/// The corner at the left or right, top or bottom.
pub open spec fn corner_of(r: PillRect, k: int, inset: int, right: bool, bottom: bool) -> Corner {
    let radius = r.h / 2;
    let v_row = if bottom {
        r.y + r.h - 1 - radius + k
    } else {
        r.y + radius - k
    };
    let h_col = if right {
        r.x + r.w - 1 - radius + k
    } else {
        r.x + radius - k
    };
    let v_col = if right {
        r.x + r.w - 1 - inset
    } else {
        r.x + inset
    };
    let h_row = if bottom {
        r.y + r.h - 1 - inset
    } else {
        r.y + inset
    };
    Corner {
        v_row,
        v_col,
        fx0: if right {
            h_col
        } else {
            v_col + 1
        },
        fx1: if right {
            v_col
        } else {
            h_col + 1
        },
        h_col,
        h_row,
        fy0: if bottom {
            v_row
        } else {
            h_row + 1
        },
        fy1: if bottom {
            h_row
        } else {
            v_row + 1
        },
    }
}

/// The buffer after one corner of one entry: edge pixel and run on a row, then on a column.
pub open spec fn after_corner(
    px: Seq<u32>,
    w: int,
    h: int,
    c: Corner,
    a: int,
    r: PillRect,
    light: u32,
    shadow: u32,
) -> Seq<u32> {
    let s1 = after_span(
        px, w, h, c.v_col, c.v_row, c.v_col + 1, c.v_row + 1, a, r, light, shadow,
    );
    let s2 = after_span(s1, w, h, c.fx0, c.v_row, c.fx1, c.v_row + 1, 255, r, light, shadow);
    let s3 = after_span(
        s2, w, h, c.h_col, c.h_row, c.h_col + 1, c.h_row + 1, a, r, light, shadow,
    );
    after_span(s3, w, h, c.h_col, c.fy0, c.h_col + 1, c.fy1, 255, r, light, shadow)
}

/// The hit map after one corner of one entry: only the runs are stamped.
pub open spec fn corner_stamped(
    hits: Seq<HitId>,
    w: int,
    h: int,
    c: Corner,
    id: HitId,
) -> Seq<HitId> {
    stamped(
        stamped(hits, w, h, c.fx0, c.v_row, c.fx1, c.v_row + 1, id),
        w,
        h,
        c.h_col,
        c.fy0,
        c.h_col + 1,
        c.fy1,
        id,
    )
}

/// Which corner comes at place `n`: top left, top right, bottom left, bottom right.
pub open spec fn nth_corner(r: PillRect, k: int, inset: int, n: int) -> Corner {
    corner_of(r, k, inset, n == 1 || n == 3, n >= 2)
}

/// The buffer after the first `n` corners of entry `k`.
pub open spec fn after_corners(
    px: Seq<u32>,
    w: int,
    h: int,
    k: int,
    inset: int,
    a: int,
    r: PillRect,
    light: u32,
    shadow: u32,
    n: nat,
) -> Seq<u32>
    decreases n,
{
    if n == 0 {
        px
    } else {
        after_corner(
            after_corners(px, w, h, k, inset, a, r, light, shadow, (n - 1) as nat),
            w,
            h,
            nth_corner(r, k, inset, n - 1),
            a,
            r,
            light,
            shadow,
        )
    }
}

/// The hit map after the first `n` corners of entry `k`.
pub open spec fn corners_stamped(
    hits: Seq<HitId>,
    w: int,
    h: int,
    k: int,
    inset: int,
    r: PillRect,
    id: HitId,
    n: nat,
) -> Seq<HitId>
    decreases n,
{
    if n == 0 {
        hits
    } else {
        corner_stamped(
            corners_stamped(hits, w, h, k, inset, r, id, (n - 1) as nat),
            w,
            h,
            nth_corner(r, k, inset, n - 1),
            id,
        )
    }
}

/// How many entries of the table are drawn: up to the diagonal, where the inset passes the row.
pub open spec fn entries(crossings: Seq<(u16, u8, u8)>, from: nat) -> nat
    decreases crossings.len() - from,
{
    if from < crossings.len() && crossings[from as int].0 <= from {
        entries(crossings, from + 1)
    } else {
        from
    }
}

/// The buffer after the first `n` entries of the table.
pub open spec fn after_caps(
    px: Seq<u32>,
    w: int,
    h: int,
    crossings: Seq<(u16, u8, u8)>,
    r: PillRect,
    light: u32,
    shadow: u32,
    n: nat,
) -> Seq<u32>
    decreases n,
{
    if n == 0 {
        px
    } else {
        let k = n - 1;
        after_corners(
            after_caps(px, w, h, crossings, r, light, shadow, k as nat),
            w,
            h,
            k,
            crossings[k].0 as int,
            crossings[k].2 as int,
            r,
            light,
            shadow,
            4,
        )
    }
}

/// The hit map after the first `n` entries of the table.
pub open spec fn caps_stamped(
    hits: Seq<HitId>,
    w: int,
    h: int,
    crossings: Seq<(u16, u8, u8)>,
    r: PillRect,
    id: HitId,
    n: nat,
) -> Seq<HitId>
    decreases n,
{
    if n == 0 {
        hits
    } else {
        let k = n - 1;
        corners_stamped(
            caps_stamped(hits, w, h, crossings, r, id, k as nat),
            w,
            h,
            k,
            crossings[k].0 as int,
            r,
            id,
            4,
        )
    }
}

/// The pill has a positive size and overlaps a `w` by `h` buffer.
pub open spec fn pill_shows(r: PillRect, w: int, h: int) -> bool {
    &&& w > 0 && h > 0 && r.w > 0 && r.h > 0
    &&& r.x + r.w > 0 && r.y + r.h > 0 && r.x < w && r.y < h
}

/// The buffer after a pill was drawn: both caps, then the box between them.
pub open spec fn with_pill(
    px: Seq<u32>,
    w: int,
    h: int,
    crossings: Seq<(u16, u8, u8)>,
    r: PillRect,
    light: u32,
    shadow: u32,
) -> Seq<u32> {
    if pill_shows(r, w, h) {
        after_span(
            after_caps(px, w, h, crossings, r, light, shadow, entries(crossings, 0)),
            w,
            h,
            r.x + r.h / 2,
            r.y,
            r.x + r.w - r.h / 2,
            r.y + r.h,
            255,
            r,
            light,
            shadow,
        )
    } else {
        px
    }
}

/// Drawing a pill keeps the size of the buffer.
pub proof fn lemma_pill_len(
    px: Seq<u32>,
    w: int,
    h: int,
    crossings: Seq<(u16, u8, u8)>,
    r: PillRect,
    light: u32,
    shadow: u32,
)
    ensures
        with_pill(px, w, h, crossings, r, light, shadow).len() == px.len(),
{
    lemma_caps_len(px, w, h, crossings, r, light, shadow, entries(crossings, 0));
}

proof fn lemma_caps_len(
    px: Seq<u32>,
    w: int,
    h: int,
    crossings: Seq<(u16, u8, u8)>,
    r: PillRect,
    light: u32,
    shadow: u32,
    n: nat,
)
    ensures
        after_caps(px, w, h, crossings, r, light, shadow, n).len() == px.len(),
    decreases n,
{
    if n > 0 {
        let k = n - 1;
        lemma_caps_len(px, w, h, crossings, r, light, shadow, k as nat);
        lemma_corners_len(
            after_caps(px, w, h, crossings, r, light, shadow, k as nat),
            w,
            h,
            k,
            crossings[k].0 as int,
            crossings[k].2 as int,
            r,
            light,
            shadow,
            4,
        );
    }
}

proof fn lemma_corners_len(
    px: Seq<u32>,
    w: int,
    h: int,
    k: int,
    inset: int,
    a: int,
    r: PillRect,
    light: u32,
    shadow: u32,
    n: nat,
)
    ensures
        after_corners(px, w, h, k, inset, a, r, light, shadow, n).len() == px.len(),
    decreases n,
{
    if n > 0 {
        lemma_corners_len(px, w, h, k, inset, a, r, light, shadow, (n - 1) as nat);
    }
}

/// The hit map after a pill was drawn.
pub open spec fn with_pill_hits(
    hits: Seq<HitId>,
    w: int,
    h: int,
    crossings: Seq<(u16, u8, u8)>,
    r: PillRect,
    id: HitId,
) -> Seq<HitId> {
    if pill_shows(r, w, h) {
        stamped(
            caps_stamped(hits, w, h, crossings, r, id, entries(crossings, 0)),
            w,
            h,
            r.x + r.h / 2,
            r.y,
            r.x + r.w - r.h / 2,
            r.y + r.h,
            id,
        )
    } else {
        hits
    }
}

/// The damage after a pill was drawn: its box, as far as it lies in the buffer.
pub open spec fn pill_damage(
    d: Option<PixelRect>,
    w: int,
    h: int,
    r: PillRect,
) -> Option<PixelRect> {
    if pill_shows(r, w, h) {
        canvas::joined(
            d,
            PixelRect {
                x0: vstd::math::max(r.x, 0) as usize,
                y0: vstd::math::max(r.y, 0) as usize,
                x1: vstd::math::min(r.x + r.w, w) as usize,
                y1: vstd::math::min(r.y + r.h, h) as usize,
            },
        )
    } else {
        d
    }
}

/// The place and colours of a pill.
#[derive(Clone, Copy)]
struct PillStyle {
    x: i128,
    y: i128,
    w: i128,
    h: i128,
    light: u32,
    shadow: u32,
}

impl PillStyle {
    spec fn rect(self) -> PillRect {
        PillRect { x: self.x as int, y: self.y as int, w: self.w as int, h: self.h as int }
    }

    /// The place stems from machine-sized numbers, and the size is positive.
    spec fn ok(self) -> bool {
        &&& -0x1_0000_0000_0000_0000 <= self.x <= 0x1_0000_0000_0000_0000
        &&& -0x1_0000_0000_0000_0000 <= self.y <= 0x1_0000_0000_0000_0000
        &&& 0 < self.w <= 0x1_0000_0000_0000_0000
        &&& 0 < self.h <= 0x1_0000_0000_0000_0000
    }

    /// The colour at column `x` of row `y`.
    fn tone_at(&self, x: usize, y: usize) -> (c: u32)
        requires
            self.ok(),
        ensures
            c == tone(self.rect(), self.light, self.shadow, x as int, y as int),
    {
        let dx: i128 = x as i128 - self.x;
        let dy: i128 = y as i128 - self.y;
        let half: i128 = self.h / 2;
        let edge: i128 = if dx <= self.h - 1 - half {
            self.h - 1 - dx
        } else if dx >= self.w - 1 - half {
            self.w - 1 - dx
        } else {
            half
        };
        if dy <= edge {
            self.light
        } else {
            self.shadow
        }
    }
}

/// `v` limited to the buffer side.
fn inside(v: i128, side: usize) -> (r: usize)
    ensures
        r as int == crate::paint::clip::clamp_int(v as int, 0, side as int),
{
    if v < 0 {
        0
    } else if v > side as i128 {
        side
    } else {
        v as usize
    }
}

/// Lays the pill's colour at opacity `a` under a box, and stamps the hit map there if asked to.
fn paint_span(
    px: &mut [u32],
    hits: &mut [HitId],
    stamp: bool,
    w: usize,
    h: usize,
    x0: i128,
    y0: i128,
    x1: i128,
    y1: i128,
    a: u32,
    st: PillStyle,
    id: HitId,
)
    requires
        0 < w,
        w * h <= old(px)@.len(),
        stamp ==> w * h <= old(hits)@.len(),
        st.ok(),
    ensures
        final(px)@ == after_span(
            old(px)@,
            w as int,
            h as int,
            x0 as int,
            y0 as int,
            x1 as int,
            y1 as int,
            a as int,
            st.rect(),
            st.light,
            st.shadow,
        ),
        final(hits)@ == (if stamp {
            stamped(
                old(hits)@,
                w as int,
                h as int,
                x0 as int,
                y0 as int,
                x1 as int,
                y1 as int,
                id,
            )
        } else {
            old(hits)@
        }),
{
    let ghost before = px@;
    let ghost before_hits = hits@;
    let cx0: usize = inside(x0, w);
    let cy0: usize = inside(y0, h);
    let cx1: usize = inside(x1, w);
    let cy1: usize = inside(y1, h);
    proof {
        canvas::lemma_grid(w as int);
        assert(w * cy1 <= w * h) by (nonlinear_arith)
            requires
                cy1 <= h,
        ;
    }
    let paint = |p: u32, x: usize, y: usize| -> (q: u32)
        ensures
            ({
                let c = tone(st.rect(), st.light, st.shadow, x as int, y as int);
                q == pixel::under_px(
                    p,
                    pixel::argb(a as int, pixel::red(c), pixel::green(c), pixel::blue(c)),
                    BlendMode::Normal,
                )
            }),
    {
        p.under(pixel::with_alpha(st.tone_at(x, y), a), BlendMode::Normal)
    };
    canvas::map_rect(px, w, cx0, cy0, cx1, cy1, paint);
    assert(px@ =~= after_span(
        before,
        w as int,
        h as int,
        x0 as int,
        y0 as int,
        x1 as int,
        y1 as int,
        a as int,
        st.rect(),
        st.light,
        st.shadow,
    ));
    if stamp {
        let mark = |p: HitId, x: usize, y: usize| -> (q: HitId)
            ensures
                q == id,
        {
            id
        };
        canvas::map_rect(hits, w, cx0, cy0, cx1, cy1, mark);
        assert(hits@ =~= stamped(
            before_hits,
            w as int,
            h as int,
            x0 as int,
            y0 as int,
            x1 as int,
            y1 as int,
            id,
        ));
    }
}

/// Draws one corner of one entry.
fn paint_corner(
    px: &mut [u32],
    hits: &mut [HitId],
    stamp: bool,
    w: usize,
    h: usize,
    k: usize,
    inset: u16,
    a: u32,
    right: bool,
    bottom: bool,
    st: PillStyle,
    id: HitId,
)
    requires
        0 < w,
        w * h <= old(px)@.len(),
        stamp ==> w * h <= old(hits)@.len(),
        st.ok(),
    ensures
        final(px)@ == after_corner(
            old(px)@,
            w as int,
            h as int,
            corner_of(st.rect(), k as int, inset as int, right, bottom),
            a as int,
            st.rect(),
            st.light,
            st.shadow,
        ),
        final(hits)@ == (if stamp {
            corner_stamped(
                old(hits)@,
                w as int,
                h as int,
                corner_of(st.rect(), k as int, inset as int, right, bottom),
                id,
            )
        } else {
            old(hits)@
        }),
{
    let radius: i128 = st.h / 2;
    let n: i128 = k as i128;
    let d: i128 = inset as i128;
    let v_row: i128 = if bottom {
        st.y + st.h - 1 - radius + n
    } else {
        st.y + radius - n
    };
    let h_col: i128 = if right {
        st.x + st.w - 1 - radius + n
    } else {
        st.x + radius - n
    };
    let v_col: i128 = if right {
        st.x + st.w - 1 - d
    } else {
        st.x + d
    };
    let h_row: i128 = if bottom {
        st.y + st.h - 1 - d
    } else {
        st.y + d
    };
    let (fx0, fx1) = if right {
        (h_col, v_col)
    } else {
        (v_col + 1, h_col + 1)
    };
    let (fy0, fy1) = if bottom {
        (v_row, h_row)
    } else {
        (h_row + 1, v_row + 1)
    };
    paint_span(px, hits, false, w, h, v_col, v_row, v_col + 1, v_row + 1, a, st, id);
    paint_span(px, hits, stamp, w, h, fx0, v_row, fx1, v_row + 1, 0xFF, st, id);
    paint_span(px, hits, false, w, h, h_col, h_row, h_col + 1, h_row + 1, a, st, id);
    paint_span(px, hits, stamp, w, h, h_col, fy0, h_col + 1, fy1, 0xFF, st, id);
}

/// Draws a pill in two tones.
fn draw_pill(
    px: &mut [u32],
    hits: &mut [HitId],
    stamp: bool,
    w: usize,
    h: usize,
    crossings: &[(u16, u8, u8)],
    st: PillStyle,
    id: HitId,
)
    requires
        w * h <= old(px)@.len(),
        stamp ==> w * h <= old(hits)@.len(),
        st.ok(),
        pill_shows(st.rect(), w as int, h as int),
    ensures
        final(px)@ == with_pill(
            old(px)@,
            w as int,
            h as int,
            crossings@,
            st.rect(),
            st.light,
            st.shadow,
        ),
        final(hits)@ == (if stamp {
            with_pill_hits(old(hits)@, w as int, h as int, crossings@, st.rect(), id)
        } else {
            old(hits)@
        }),
{
    let ghost before = px@;
    let ghost before_hits = hits@;
    let ghost r = st.rect();
    let total: usize = crossings.len();
    let mut k: usize = 0;
    while k < total && crossings[k].0 as usize <= k
        invariant
            0 < w,
            w * h <= before.len(),
            px@.len() == before.len(),
            hits@.len() == before_hits.len(),
            stamp ==> w * h <= before_hits.len(),
            st.ok(),
            r == st.rect(),
            total == crossings@.len(),
            k <= total,
            entries(crossings@, k as nat) == entries(crossings@, 0),
            px@ == after_caps(
                before,
                w as int,
                h as int,
                crossings@,
                r,
                st.light,
                st.shadow,
                k as nat,
            ),
            hits@ == (if stamp {
                caps_stamped(before_hits, w as int, h as int, crossings@, r, id, k as nat)
            } else {
                before_hits
            }),
        decreases total - k,
    {
        let (inset, low, high) = crossings[k];
        let ghost step = px@;
        let ghost step_hits = hits@;
        let mut c: usize = 0;
        while c < 4
            invariant
                0 < w,
                w * h <= before.len(),
                px@.len() == before.len(),
                hits@.len() == before_hits.len(),
                stamp ==> w * h <= before_hits.len(),
                st.ok(),
                r == st.rect(),
                c <= 4,
                px@ == after_corners(
                    step,
                    w as int,
                    h as int,
                    k as int,
                    inset as int,
                    high as int,
                    r,
                    st.light,
                    st.shadow,
                    c as nat,
                ),
                hits@ == (if stamp {
                    corners_stamped(
                        step_hits,
                        w as int,
                        h as int,
                        k as int,
                        inset as int,
                        r,
                        id,
                        c as nat,
                    )
                } else {
                    before_hits
                }),
            decreases 4 - c,
        {
            paint_corner(
                px,
                hits,
                stamp,
                w,
                h,
                k,
                inset,
                high as u32,
                c == 1 || c == 3,
                c >= 2,
                st,
                id,
            );
            c += 1;
        }
        k += 1;
    }
    let radius: i128 = st.h / 2;
    paint_span(
        px,
        hits,
        stamp,
        w,
        h,
        st.x + radius,
        st.y,
        st.x + st.w - radius,
        st.y + st.h,
        0xFF,
        st,
        id,
    );
}

/// Adds the box of a pill to the damage. Returns whether the pill shows on the canvas.
fn pill_bounds(canvas: &mut Canvas, x: isize, y: isize, pill_w: isize, pill_h: isize) -> (shows: bool)
    ensures
        shows == pill_shows(
            (PillRect { x: x as int, y: y as int, w: pill_w as int, h: pill_h as int }),
            old(canvas).width as int,
            old(canvas).height as int,
        ),
        final(canvas).damage.rect() == pill_damage(
            old(canvas).damage.rect(),
            old(canvas).width as int,
            old(canvas).height as int,
            (PillRect { x: x as int, y: y as int, w: pill_w as int, h: pill_h as int }),
        ),
        final(canvas).pixels@ == old(canvas).pixels@,
        final(canvas).width == old(canvas).width,
        final(canvas).height == old(canvas).height,
        final(final(canvas).pixels)@ == final(old(canvas).pixels)@,
        *final(final(canvas).damage) == *final(old(canvas).damage),
{
    let w: usize = canvas.width;
    let h: usize = canvas.height;
    let x_end: i128 = x as i128 + pill_w as i128;
    let y_end: i128 = y as i128 + pill_h as i128;
    if w == 0 || h == 0 || pill_w <= 0 || pill_h <= 0 || x_end <= 0 || y_end <= 0 || x as i128
        >= w as i128 || y as i128 >= h as i128 {
        return false;
    }
    canvas.damage.add_bounds(
        inside(x as i128, w),
        inside(y as i128, h),
        inside(x_end, w),
        inside(y_end, h),
    );
    true
}

/// Draws a pill in one colour from its table of crossings. Everything goes under what is there.
pub fn draw_squircle_pill(
    canvas: &mut Canvas,
    pill_x: isize,
    pill_y: isize,
    pill_w: isize,
    pill_h: isize,
    colour: u32,
    crossings: &[(u16, u8, u8)],
)
    requires
        old(canvas).fits(),
    ensures
        ({
            let r = PillRect {
                x: pill_x as int,
                y: pill_y as int,
                w: pill_w as int,
                h: pill_h as int,
            };
            &&& final(canvas).pixels@ == with_pill(
                old(canvas).pixels@,
                old(canvas).width as int,
                old(canvas).height as int,
                crossings@,
                r,
                colour,
                colour,
            )
            &&& final(canvas).damage.rect() == pill_damage(
                old(canvas).damage.rect(),
                old(canvas).width as int,
                old(canvas).height as int,
                r,
            )
        }),
        final(canvas).width == old(canvas).width,
        final(canvas).height == old(canvas).height,
        final(final(canvas).pixels)@ == final(old(canvas).pixels)@,
        *final(final(canvas).damage) == *final(old(canvas).damage),
{
    if pill_bounds(canvas, pill_x, pill_y, pill_w, pill_h) {
        let st = PillStyle {
            x: pill_x as i128,
            y: pill_y as i128,
            w: pill_w as i128,
            h: pill_h as i128,
            light: colour,
            shadow: colour,
        };
        let mut none: Vec<HitId> = Vec::new();
        let w: usize = canvas.width;
        let h: usize = canvas.height;
        draw_pill(canvas.pixels, &mut none, false, w, h, crossings, st, 0);
    }
}

/// Draws a pill in two tones, split along its seam, from its table of crossings. Where a hit map is
/// given, every filled pixel is stamped with the identifier; edge pixels are not.
pub fn draw_squircle_pill_two_tone(
    canvas: &mut Canvas,
    pill_x: isize,
    pill_y: isize,
    pill_w: isize,
    pill_h: isize,
    light: u32,
    shadow: u32,
    crossings: &[(u16, u8, u8)],
    hit_map: Option<&mut [HitId]>,
    hit_id: HitId,
)
    requires
        old(canvas).fits(),
        match hit_map {
            Some(m) => old(canvas).width * old(canvas).height <= m@.len(),
            None => true,
        },
    ensures
        ({
            let r = PillRect {
                x: pill_x as int,
                y: pill_y as int,
                w: pill_w as int,
                h: pill_h as int,
            };
            &&& final(canvas).pixels@ == with_pill(
                old(canvas).pixels@,
                old(canvas).width as int,
                old(canvas).height as int,
                crossings@,
                r,
                light,
                shadow,
            )
            &&& final(canvas).damage.rect() == pill_damage(
                old(canvas).damage.rect(),
                old(canvas).width as int,
                old(canvas).height as int,
                r,
            )
            &&& match hit_map {
                Some(m) => final(m)@ == with_pill_hits(
                    m@,
                    old(canvas).width as int,
                    old(canvas).height as int,
                    crossings@,
                    r,
                    hit_id,
                ),
                None => true,
            }
        }),
        final(canvas).width == old(canvas).width,
        final(canvas).height == old(canvas).height,
        final(final(canvas).pixels)@ == final(old(canvas).pixels)@,
        *final(final(canvas).damage) == *final(old(canvas).damage),
{
    if pill_bounds(canvas, pill_x, pill_y, pill_w, pill_h) {
        let st = PillStyle {
            x: pill_x as i128,
            y: pill_y as i128,
            w: pill_w as i128,
            h: pill_h as i128,
            light,
            shadow,
        };
        let w: usize = canvas.width;
        let h: usize = canvas.height;
        match hit_map {
            Some(m) => {
                draw_pill(canvas.pixels, m, true, w, h, crossings, st, hit_id);
            },
            None => {
                let mut none: Vec<HitId> = Vec::new();
                draw_pill(canvas.pixels, &mut none, false, w, h, crossings, st, hit_id);
            },
        }
    }
}

/// What is opaque stays as it is: a pill cannot paint over it.
pub proof fn law_pills_keep_opaque_pixels(
    px: Seq<u32>,
    w: int,
    h: int,
    crossings: Seq<(u16, u8, u8)>,
    r: PillRect,
    light: u32,
    shadow: u32,
    i: int,
)
    requires
        0 <= i < px.len(),
        pixel::alpha(px[i]) == 255,
    ensures
        with_pill(px, w, h, crossings, r, light, shadow)[i] == px[i],
{
    lemma_caps_keep(px, w, h, crossings, r, light, shadow, entries(crossings, 0), i);
    lemma_caps_len(px, w, h, crossings, r, light, shadow, entries(crossings, 0));
}

proof fn lemma_caps_keep(
    px: Seq<u32>,
    w: int,
    h: int,
    crossings: Seq<(u16, u8, u8)>,
    r: PillRect,
    light: u32,
    shadow: u32,
    n: nat,
    i: int,
)
    requires
        0 <= i < px.len(),
        pixel::alpha(px[i]) == 255,
    ensures
        after_caps(px, w, h, crossings, r, light, shadow, n)[i] == px[i],
    decreases n,
{
    if n > 0 {
        let k = n - 1;
        lemma_caps_keep(px, w, h, crossings, r, light, shadow, k as nat, i);
        lemma_caps_len(px, w, h, crossings, r, light, shadow, k as nat);
        lemma_corners_keep(
            after_caps(px, w, h, crossings, r, light, shadow, k as nat),
            w,
            h,
            k,
            crossings[k].0 as int,
            crossings[k].2 as int,
            r,
            light,
            shadow,
            4,
            i,
        );
    }
}

proof fn lemma_corners_keep(
    px: Seq<u32>,
    w: int,
    h: int,
    k: int,
    inset: int,
    a: int,
    r: PillRect,
    light: u32,
    shadow: u32,
    n: nat,
    i: int,
)
    requires
        0 <= i < px.len(),
        pixel::alpha(px[i]) == 255,
    ensures
        after_corners(px, w, h, k, inset, a, r, light, shadow, n)[i] == px[i],
    decreases n,
{
    if n > 0 {
        lemma_corners_keep(px, w, h, k, inset, a, r, light, shadow, (n - 1) as nat, i);
        lemma_corners_len(px, w, h, k, inset, a, r, light, shadow, (n - 1) as nat);
    }
}

/// The box of a pill, moved.
pub open spec fn moved(r: PillRect, dx: int, dy: int) -> PillRect {
    PillRect { x: r.x + dx, y: r.y + dy, ..r }
}

/// A pixel of one buffer and a pixel of another, and how far they lie apart.
struct Pair {
    a: Seq<u32>,
    aw: int,
    ah: int,
    b: Seq<u32>,
    bw: int,
    bh: int,
    x: int,
    y: int,
    dx: int,
    dy: int,
}

impl Pair {
    /// The two pixels lie in their buffers and are equal.
    spec fn same(self) -> bool {
        &&& 0 <= self.x < self.aw
        &&& 0 <= self.y < self.ah
        &&& self.aw * self.ah <= self.a.len()
        &&& 0 <= self.x + self.dx < self.bw
        &&& 0 <= self.y + self.dy < self.bh
        &&& self.bw * self.bh <= self.b.len()
        &&& self.a[self.y * self.aw + self.x] == self.b[(self.y + self.dy) * self.bw + self.x
            + self.dx]
    }

    /// The pair in two other buffers.
    spec fn with(self, a: Seq<u32>, b: Seq<u32>) -> Pair {
        Pair { a, b, ..self }
    }
}

/// A span and the moved span make the same of the two pixels.
proof fn lemma_span_moved(
    p: Pair,
    x0: int,
    y0: int,
    x1: int,
    y1: int,
    a: int,
    r: PillRect,
    light: u32,
    shadow: u32,
)
    requires
        p.same(),
    ensures
        p.with(
            after_span(p.a, p.aw, p.ah, x0, y0, x1, y1, a, r, light, shadow),
            after_span(
                p.b,
                p.bw,
                p.bh,
                x0 + p.dx,
                y0 + p.dy,
                x1 + p.dx,
                y1 + p.dy,
                a,
                moved(r, p.dx, p.dy),
                light,
                shadow,
            ),
        ).same(),
{
    canvas::lemma_cell(p.x, p.y, p.aw);
    canvas::lemma_cell_bound(p.x, p.y, p.aw, p.ah);
    canvas::lemma_cell(p.x + p.dx, p.y + p.dy, p.bw);
    canvas::lemma_cell_bound(p.x + p.dx, p.y + p.dy, p.bw, p.bh);
}

/// A corner and the moved corner make the same of the two pixels.
proof fn lemma_corner_moved(
    p: Pair,
    k: int,
    inset: int,
    n: int,
    a: int,
    r: PillRect,
    light: u32,
    shadow: u32,
)
    requires
        p.same(),
    ensures
        p.with(
            after_corner(p.a, p.aw, p.ah, nth_corner(r, k, inset, n), a, r, light, shadow),
            after_corner(
                p.b,
                p.bw,
                p.bh,
                nth_corner(moved(r, p.dx, p.dy), k, inset, n),
                a,
                moved(r, p.dx, p.dy),
                light,
                shadow,
            ),
        ).same(),
{
    let q = moved(r, p.dx, p.dy);
    let c = nth_corner(r, k, inset, n);
    let d = nth_corner(q, k, inset, n);
    let (aw, ah, bw, bh) = (p.aw, p.ah, p.bw, p.bh);
    lemma_span_moved(p, c.v_col, c.v_row, c.v_col + 1, c.v_row + 1, a, r, light, shadow);
    let a1 = after_span(
        p.a, aw, ah, c.v_col, c.v_row, c.v_col + 1, c.v_row + 1, a, r, light, shadow,
    );
    let b1 = after_span(
        p.b, bw, bh, d.v_col, d.v_row, d.v_col + 1, d.v_row + 1, a, q, light, shadow,
    );
    let p1 = p.with(a1, b1);
    assert(p1.same());
    lemma_span_moved(p1, c.fx0, c.v_row, c.fx1, c.v_row + 1, 255, r, light, shadow);
    let a2 = after_span(a1, aw, ah, c.fx0, c.v_row, c.fx1, c.v_row + 1, 255, r, light, shadow);
    let b2 = after_span(b1, bw, bh, d.fx0, d.v_row, d.fx1, d.v_row + 1, 255, q, light, shadow);
    let p2 = p.with(a2, b2);
    assert(p2.same());
    lemma_span_moved(p2, c.h_col, c.h_row, c.h_col + 1, c.h_row + 1, a, r, light, shadow);
    let a3 = after_span(
        a2, aw, ah, c.h_col, c.h_row, c.h_col + 1, c.h_row + 1, a, r, light, shadow,
    );
    let b3 = after_span(
        b2, bw, bh, d.h_col, d.h_row, d.h_col + 1, d.h_row + 1, a, q, light, shadow,
    );
    let p3 = p.with(a3, b3);
    assert(p3.same());
    lemma_span_moved(p3, c.h_col, c.fy0, c.h_col + 1, c.fy1, 255, r, light, shadow);
}

/// The corners of an entry, and the moved ones, make the same of the two pixels.
proof fn lemma_corners_moved(
    p: Pair,
    k: int,
    inset: int,
    a: int,
    r: PillRect,
    light: u32,
    shadow: u32,
    n: nat,
)
    requires
        p.same(),
    ensures
        p.with(
            after_corners(p.a, p.aw, p.ah, k, inset, a, r, light, shadow, n),
            after_corners(
                p.b,
                p.bw,
                p.bh,
                k,
                inset,
                a,
                moved(r, p.dx, p.dy),
                light,
                shadow,
                n,
            ),
        ).same(),
    decreases n,
{
    if n > 0 {
        let m = (n - 1) as nat;
        let q = moved(r, p.dx, p.dy);
        lemma_corners_moved(p, k, inset, a, r, light, shadow, m);
        let before = p.with(
            after_corners(p.a, p.aw, p.ah, k, inset, a, r, light, shadow, m),
            after_corners(p.b, p.bw, p.bh, k, inset, a, q, light, shadow, m),
        );
        lemma_corner_moved(before, k, inset, n - 1, a, r, light, shadow);
    }
}

/// The caps of a pill, and the moved ones, make the same of the two pixels.
proof fn lemma_caps_moved(
    p: Pair,
    crossings: Seq<(u16, u8, u8)>,
    r: PillRect,
    light: u32,
    shadow: u32,
    n: nat,
)
    requires
        p.same(),
    ensures
        p.with(
            after_caps(p.a, p.aw, p.ah, crossings, r, light, shadow, n),
            after_caps(
                p.b,
                p.bw,
                p.bh,
                crossings,
                moved(r, p.dx, p.dy),
                light,
                shadow,
                n,
            ),
        ).same(),
    decreases n,
{
    if n > 0 {
        let k = n - 1;
        let q = moved(r, p.dx, p.dy);
        lemma_caps_moved(p, crossings, r, light, shadow, k as nat);
        let before = p.with(
            after_caps(p.a, p.aw, p.ah, crossings, r, light, shadow, k as nat),
            after_caps(p.b, p.bw, p.bh, crossings, q, light, shadow, k as nat),
        );
        lemma_corners_moved(
            before,
            k,
            crossings[k].0 as int,
            crossings[k].2 as int,
            r,
            light,
            shadow,
            4,
        );
    }
}

/// The table describes a curve inside the box of the pill: no more entries than the cap has rows.
pub open spec fn table_fits(crossings: Seq<(u16, u8, u8)>, r: PillRect) -> bool {
    r.w >= r.h >= 2 && crossings.len() <= r.h / 2 + 1
}

/// Column `x` of row `y` lies in the box of the pill.
pub open spec fn in_pill(r: PillRect, x: int, y: int) -> bool {
    r.x <= x < r.x + r.w && r.y <= y < r.y + r.h
}

/// A corner leaves a pixel outside the box alone.
proof fn lemma_corner_outside(
    px: Seq<u32>,
    w: int,
    h: int,
    k: int,
    inset: int,
    n: int,
    a: int,
    r: PillRect,
    light: u32,
    shadow: u32,
    i: int,
)
    requires
        0 <= i < px.len(),
        r.w >= r.h >= 2,
        0 <= inset <= k <= r.h / 2,
        !in_pill(r, canvas::col_of(i, w), canvas::row_of(i, w)),
    ensures
        after_corner(px, w, h, nth_corner(r, k, inset, n), a, r, light, shadow)[i] == px[i],
{
    let c = nth_corner(r, k, inset, n);
    assert(r.x <= c.v_col < r.x + r.w && r.y <= c.v_row < r.y + r.h);
    assert(r.x <= c.h_col < r.x + r.w && r.y <= c.h_row < r.y + r.h);
    assert(r.x <= c.fx0 && c.fx1 <= r.x + r.w && r.y <= c.fy0 && c.fy1 <= r.y + r.h);
}

/// The caps leave a pixel outside the box alone.
proof fn lemma_caps_outside(
    px: Seq<u32>,
    w: int,
    h: int,
    crossings: Seq<(u16, u8, u8)>,
    r: PillRect,
    light: u32,
    shadow: u32,
    n: nat,
    i: int,
)
    requires
        0 <= i < px.len(),
        table_fits(crossings, r),
        n <= entries(crossings, 0),
        !in_pill(r, canvas::col_of(i, w), canvas::row_of(i, w)),
    ensures
        after_caps(px, w, h, crossings, r, light, shadow, n)[i] == px[i],
        after_caps(px, w, h, crossings, r, light, shadow, n).len() == px.len(),
    decreases n,
{
    lemma_caps_len(px, w, h, crossings, r, light, shadow, n);
    if n > 0 {
        let k = n - 1;
        lemma_caps_outside(px, w, h, crossings, r, light, shadow, k as nat, i);
        lemma_entries(crossings, 0, k);
        let inset = crossings[k].0 as int;
        let a = crossings[k].2 as int;
        let before = after_caps(px, w, h, crossings, r, light, shadow, k as nat);
        lemma_corners_outside(before, w, h, k, inset, a, r, light, shadow, 4, i);
    }
}

proof fn lemma_corners_outside(
    px: Seq<u32>,
    w: int,
    h: int,
    k: int,
    inset: int,
    a: int,
    r: PillRect,
    light: u32,
    shadow: u32,
    n: nat,
    i: int,
)
    requires
        0 <= i < px.len(),
        r.w >= r.h >= 2,
        0 <= inset <= k <= r.h / 2,
        !in_pill(r, canvas::col_of(i, w), canvas::row_of(i, w)),
    ensures
        after_corners(px, w, h, k, inset, a, r, light, shadow, n)[i] == px[i],
    decreases n,
{
    if n > 0 {
        let m = (n - 1) as nat;
        lemma_corners_outside(px, w, h, k, inset, a, r, light, shadow, m, i);
        lemma_corners_len(px, w, h, k, inset, a, r, light, shadow, m);
        let before = after_corners(px, w, h, k, inset, a, r, light, shadow, m);
        lemma_corner_outside(before, w, h, k, inset, n - 1, a, r, light, shadow, i);
    }
}

/// Every entry that is drawn lies in the table, and its inset does not pass its row.
proof fn lemma_entries(crossings: Seq<(u16, u8, u8)>, from: nat, k: int)
    requires
        from <= k < entries(crossings, from),
    ensures
        k < crossings.len(),
        crossings[k].0 <= k,
    decreases crossings.len() - from,
{
    if from < crossings.len() && crossings[from as int].0 <= from && from < k {
        lemma_entries(crossings, from + 1, k);
    }
}

/// A pill changes nothing outside its box.
pub proof fn law_pill_stays_in_its_box(
    px: Seq<u32>,
    w: int,
    h: int,
    crossings: Seq<(u16, u8, u8)>,
    r: PillRect,
    light: u32,
    shadow: u32,
    i: int,
)
    requires
        0 <= i < px.len(),
        table_fits(crossings, r),
        !in_pill(r, canvas::col_of(i, w), canvas::row_of(i, w)),
    ensures
        with_pill(px, w, h, crossings, r, light, shadow)[i] == px[i],
{
    lemma_caps_outside(px, w, h, crossings, r, light, shadow, entries(crossings, 0), i);
}

/// A pill drawn at another place is the same picture there, whatever its table: where a buffer `a`
/// shows what a buffer `b` shows `dx` columns to the right and `dy` rows down, it shows the same after
/// the pill was drawn on it, and on the other one moved by as much. Both pills have to be drawn, or
/// neither.
pub proof fn law_pill_moves_as_a_whole(
    a: Seq<u32>,
    aw: int,
    ah: int,
    b: Seq<u32>,
    bw: int,
    bh: int,
    dx: int,
    dy: int,
    crossings: Seq<(u16, u8, u8)>,
    r: PillRect,
    light: u32,
    shadow: u32,
    x: int,
    y: int,
)
    requires
        pill_shows(r, aw, ah) == pill_shows(moved(r, dx, dy), bw, bh),
        0 <= x < aw,
        0 <= y < ah,
        aw * ah <= a.len(),
        0 <= x + dx < bw,
        0 <= y + dy < bh,
        bw * bh <= b.len(),
        a[y * aw + x] == b[(y + dy) * bw + x + dx],
    ensures
        with_pill(a, aw, ah, crossings, r, light, shadow)[y * aw + x] == with_pill(
            b,
            bw,
            bh,
            crossings,
            moved(r, dx, dy),
            light,
            shadow,
        )[(y + dy) * bw + x + dx],
{
    if pill_shows(r, aw, ah) {
        let q = moved(r, dx, dy);
        let p = Pair { a, aw, ah, b, bw, bh, x, y, dx, dy };
        let n = entries(crossings, 0);
        canvas::lemma_cell(x, y, aw);
        canvas::lemma_cell_bound(x, y, aw, ah);
        canvas::lemma_cell(x + dx, y + dy, bw);
        canvas::lemma_cell_bound(x + dx, y + dy, bw, bh);
        lemma_caps_moved(p, crossings, r, light, shadow, n);
        let done = p.with(
            after_caps(a, aw, ah, crossings, r, light, shadow, n),
            after_caps(b, bw, bh, crossings, q, light, shadow, n),
        );
        lemma_span_moved(
            done,
            r.x + r.h / 2,
            r.y,
            r.x + r.w - r.h / 2,
            r.y + r.h,
            255,
            r,
            light,
            shadow,
        );
    }
}

/// A pill that hangs over the edge is the picture of the whole pill, cropped: where a buffer `a` shows
/// what a larger buffer `b` shows `dx` columns to the right and `dy` rows down, it shows the same after
/// the pill was drawn on it, and on the larger one moved by as much.
pub proof fn law_overhanging_pill_is_cropped(
    a: Seq<u32>,
    aw: int,
    ah: int,
    b: Seq<u32>,
    bw: int,
    bh: int,
    dx: int,
    dy: int,
    crossings: Seq<(u16, u8, u8)>,
    r: PillRect,
    light: u32,
    shadow: u32,
    x: int,
    y: int,
)
    requires
        table_fits(crossings, r),
        0 <= x < aw,
        0 <= y < ah,
        aw * ah <= a.len(),
        0 <= x + dx < bw,
        0 <= y + dy < bh,
        bw * bh <= b.len(),
        a[y * aw + x] == b[(y + dy) * bw + x + dx],
    ensures
        with_pill(a, aw, ah, crossings, r, light, shadow)[y * aw + x] == with_pill(
            b,
            bw,
            bh,
            crossings,
            moved(r, dx, dy),
            light,
            shadow,
        )[(y + dy) * bw + x + dx],
{
    let q = moved(r, dx, dy);
    canvas::lemma_cell(x, y, aw);
    canvas::lemma_cell_bound(x, y, aw, ah);
    canvas::lemma_cell(x + dx, y + dy, bw);
    canvas::lemma_cell_bound(x + dx, y + dy, bw, bh);
    if in_pill(r, x, y) {
        law_pill_moves_as_a_whole(a, aw, ah, b, bw, bh, dx, dy, crossings, r, light, shadow, x, y);
    } else {
        let j = (y + dy) * bw + (x + dx);
        assert(canvas::col_of(y * aw + x, aw) == x && canvas::row_of(y * aw + x, aw) == y);
        assert(canvas::col_of(j, bw) == x + dx && canvas::row_of(j, bw) == y + dy);
        law_pill_stays_in_its_box(a, aw, ah, crossings, r, light, shadow, y * aw + x);
        law_pill_stays_in_its_box(b, bw, bh, crossings, q, light, shadow, j);
    }
}

/// A span keeps darkness within opacity, and leaves its own cells opaque where it is opaque.
proof fn lemma_span_inks(
    px: Seq<u32>,
    w: int,
    h: int,
    x0: int,
    y0: int,
    x1: int,
    y1: int,
    a: int,
    r: PillRect,
    light: u32,
    shadow: u32,
    i: int,
)
    requires
        0 <= i < px.len(),
        0 <= a <= 255,
        pixel::dark_within_alpha(px[i]),
    ensures
        ({
            let q = after_span(px, w, h, x0, y0, x1, y1, a, r, light, shadow)[i];
            &&& pixel::dark_within_alpha(q)
            &&& pixel::alpha(px[i]) == 255 ==> q == px[i]
            &&& a == 255 && span_holds(i, w, h, x0, y0, x1, y1) ==> pixel::alpha(q) == 255
        }),
{
    let c = tone(r, light, shadow, canvas::col_of(i, w), canvas::row_of(i, w));
    pixel::lemma_channels(c);
    pixel::lemma_argb(a, pixel::red(c), pixel::green(c), pixel::blue(c));
    let s = pixel::argb(a, pixel::red(c), pixel::green(c), pixel::blue(c));
    pixel::law_under_stays_in_range(px[i], s, BlendMode::Normal);
    if a == 255 && pixel::alpha(px[i]) < 255 {
        pixel::law_opaque_layer_saturates(px[i], s, BlendMode::Normal);
    }
}

/// A corner keeps darkness within opacity, and leaves its runs opaque.
proof fn lemma_corner_inks(
    px: Seq<u32>,
    w: int,
    h: int,
    c: Corner,
    a: int,
    r: PillRect,
    light: u32,
    shadow: u32,
    i: int,
)
    requires
        0 <= i < px.len(),
        0 <= a <= 255,
        pixel::dark_within_alpha(px[i]),
    ensures
        ({
            let q = after_corner(px, w, h, c, a, r, light, shadow)[i];
            &&& pixel::dark_within_alpha(q)
            &&& pixel::alpha(px[i]) == 255 ==> q == px[i]
            &&& span_holds(i, w, h, c.fx0, c.v_row, c.fx1, c.v_row + 1) || span_holds(
                i,
                w,
                h,
                c.h_col,
                c.fy0,
                c.h_col + 1,
                c.fy1,
            ) ==> pixel::alpha(q) == 255
        }),
{
    lemma_span_inks(
        px, w, h, c.v_col, c.v_row, c.v_col + 1, c.v_row + 1, a, r, light, shadow, i,
    );
    let s1 = after_span(
        px, w, h, c.v_col, c.v_row, c.v_col + 1, c.v_row + 1, a, r, light, shadow,
    );
    lemma_span_inks(s1, w, h, c.fx0, c.v_row, c.fx1, c.v_row + 1, 255, r, light, shadow, i);
    let s2 = after_span(s1, w, h, c.fx0, c.v_row, c.fx1, c.v_row + 1, 255, r, light, shadow);
    lemma_span_inks(
        s2, w, h, c.h_col, c.h_row, c.h_col + 1, c.h_row + 1, a, r, light, shadow, i,
    );
    let s3 = after_span(
        s2, w, h, c.h_col, c.h_row, c.h_col + 1, c.h_row + 1, a, r, light, shadow,
    );
    lemma_span_inks(s3, w, h, c.h_col, c.fy0, c.h_col + 1, c.fy1, 255, r, light, shadow, i);
}

/// The corners of an entry keep darkness within opacity, and leave their runs opaque.
proof fn lemma_corners_ink(
    px: Seq<u32>,
    w: int,
    h: int,
    k: int,
    inset: int,
    a: int,
    r: PillRect,
    light: u32,
    shadow: u32,
    n: nat,
    m: int,
    i: int,
)
    requires
        0 <= i < px.len(),
        0 <= a <= 255,
        pixel::dark_within_alpha(px[i]),
    ensures
        ({
            let q = after_corners(px, w, h, k, inset, a, r, light, shadow, n)[i];
            let c = nth_corner(r, k, inset, m);
            &&& pixel::dark_within_alpha(q)
            &&& pixel::alpha(px[i]) == 255 ==> q == px[i]
            &&& 0 <= m < n && (span_holds(i, w, h, c.fx0, c.v_row, c.fx1, c.v_row + 1)
                || span_holds(i, w, h, c.h_col, c.fy0, c.h_col + 1, c.fy1)) ==> pixel::alpha(q)
                == 255
        }),
    decreases n,
{
    if n > 0 {
        let b = (n - 1) as nat;
        lemma_corners_ink(px, w, h, k, inset, a, r, light, shadow, b, m, i);
        lemma_corners_len(px, w, h, k, inset, a, r, light, shadow, b);
        let before = after_corners(px, w, h, k, inset, a, r, light, shadow, b);
        lemma_corner_inks(before, w, h, nth_corner(r, k, inset, n - 1), a, r, light, shadow, i);
    }
}

/// The caps keep darkness within opacity, and leave the runs of their entries opaque.
proof fn lemma_caps_ink(
    px: Seq<u32>,
    w: int,
    h: int,
    crossings: Seq<(u16, u8, u8)>,
    r: PillRect,
    light: u32,
    shadow: u32,
    n: nat,
    k: int,
    m: int,
    i: int,
)
    requires
        0 <= i < px.len(),
        pixel::dark_within_alpha(px[i]),
        0 <= m < 4,
    ensures
        ({
            let q = after_caps(px, w, h, crossings, r, light, shadow, n)[i];
            let c = nth_corner(r, k, crossings[k].0 as int, m);
            &&& pixel::dark_within_alpha(q)
            &&& 0 <= k < n && (span_holds(i, w, h, c.fx0, c.v_row, c.fx1, c.v_row + 1)
                || span_holds(i, w, h, c.h_col, c.fy0, c.h_col + 1, c.fy1)) ==> pixel::alpha(q)
                == 255
        }),
    decreases n,
{
    if n > 0 {
        let b = n - 1;
        lemma_caps_ink(px, w, h, crossings, r, light, shadow, b as nat, k, m, i);
        lemma_caps_len(px, w, h, crossings, r, light, shadow, b as nat);
        lemma_corners_ink(
            after_caps(px, w, h, crossings, r, light, shadow, b as nat),
            w,
            h,
            b,
            crossings[b].0 as int,
            crossings[b].2 as int,
            r,
            light,
            shadow,
            4,
            m,
            i,
        );
    }
}

/// A pill is opaque in all its rows between the caps.
pub proof fn law_pill_is_solid_between_its_caps(
    px: Seq<u32>,
    w: int,
    h: int,
    crossings: Seq<(u16, u8, u8)>,
    r: PillRect,
    light: u32,
    shadow: u32,
    x: int,
    y: int,
)
    requires
        0 <= x < w,
        0 <= y < h,
        w * h <= px.len(),
        pixel::dark_within_alpha(px[y * w + x]),
        r.y <= y < r.y + r.h,
        r.x + r.h / 2 <= x < r.x + r.w - r.h / 2,
    ensures
        pixel::alpha(with_pill(px, w, h, crossings, r, light, shadow)[y * w + x]) == 255,
{
    let i = y * w + x;
    let n = entries(crossings, 0);
    canvas::lemma_cell(x, y, w);
    canvas::lemma_cell_bound(x, y, w, h);
    lemma_caps_ink(px, w, h, crossings, r, light, shadow, n, -1, 0, i);
    lemma_caps_len(px, w, h, crossings, r, light, shadow, n);
    let before = after_caps(px, w, h, crossings, r, light, shadow, n);
    lemma_span_inks(
        before,
        w,
        h,
        r.x + r.h / 2,
        r.y,
        r.x + r.w - r.h / 2,
        r.y + r.h,
        255,
        r,
        light,
        shadow,
        i,
    );
}

/// The caps are opaque from behind the edge pixel to the diagonal of the corner, in each of the four
/// corners and both along the rows and along the columns: `dx` and `dy` are the distances of a pixel
/// from the nearest sides of the box, the radius is half the height, and entry `k` of the table says
/// how far the edge lies in, `k` pixels away from the middle of the cap.
pub proof fn law_caps_are_solid_behind_their_edge(
    px: Seq<u32>,
    w: int,
    h: int,
    crossings: Seq<(u16, u8, u8)>,
    r: PillRect,
    light: u32,
    shadow: u32,
    k: int,
    right: bool,
    bottom: bool,
    dx: int,
    dy: int,
)
    requires
        pill_shows(r, w, h),
        w * h <= px.len(),
        0 <= k < entries(crossings, 0),
        ({
            let x = if right {
                r.x + r.w - 1 - dx
            } else {
                r.x + dx
            };
            let y = if bottom {
                r.y + r.h - 1 - dy
            } else {
                r.y + dy
            };
            &&& 0 <= x < w
            &&& 0 <= y < h
            &&& pixel::dark_within_alpha(px[y * w + x])
        }),
        ({
            ||| dy == r.h / 2 - k && crossings[k].0 < dx <= r.h / 2 - k
            ||| dx == r.h / 2 - k && crossings[k].0 < dy <= r.h / 2 - k
        }),
    ensures
        ({
            let x = if right {
                r.x + r.w - 1 - dx
            } else {
                r.x + dx
            };
            let y = if bottom {
                r.y + r.h - 1 - dy
            } else {
                r.y + dy
            };
            pixel::alpha(with_pill(px, w, h, crossings, r, light, shadow)[y * w + x]) == 255
        }),
{
    let x = if right {
        r.x + r.w - 1 - dx
    } else {
        r.x + dx
    };
    let y = if bottom {
        r.y + r.h - 1 - dy
    } else {
        r.y + dy
    };
    let m: int = if bottom {
        if right {
            3
        } else {
            2
        }
    } else {
        if right {
            1
        } else {
            0
        }
    };
    let i = y * w + x;
    let n = entries(crossings, 0);
    canvas::lemma_cell(x, y, w);
    canvas::lemma_cell_bound(x, y, w, h);
    lemma_caps_ink(px, w, h, crossings, r, light, shadow, n, k, m, i);
    lemma_caps_len(px, w, h, crossings, r, light, shadow, n);
    let before = after_caps(px, w, h, crossings, r, light, shadow, n);
    lemma_span_inks(
        before,
        w,
        h,
        r.x + r.h / 2,
        r.y,
        r.x + r.w - r.h / 2,
        r.y + r.h,
        255,
        r,
        light,
        shadow,
        i,
    );
}

/// A pill is lit from the upper left: its first row is lit, its last row is shaded but for its left
/// corner, its left column is lit and its right column is shaded but for its upper corner, and below a
/// shaded pixel nothing is lit. What is lit left of the middle is so by the diagonal through the lower
/// left corner.
pub proof fn law_pill_is_lit_from_the_upper_left(
    r: PillRect,
    light: u32,
    shadow: u32,
    x: int,
    y: int,
    lower: int,
)
    requires
        r.w > r.h >= 4,
        in_pill(r, x, y),
        in_pill(r, x, lower),
        y <= lower,
    ensures
        y == r.y ==> tone(r, light, shadow, x, y) == light,
        x == r.x ==> tone(r, light, shadow, x, y) == light,
        y == r.y + r.h - 1 && x > r.x ==> tone(r, light, shadow, x, y) == shadow,
        x == r.x + r.w - 1 && y > r.y ==> tone(r, light, shadow, x, y) == shadow,
        tone(r, light, shadow, x, y) == shadow ==> light == shadow || tone(
            r,
            light,
            shadow,
            x,
            lower,
        ) == shadow,
        x - r.x < r.h / 2 ==> tone(r, light, shadow, x, y) == (if (x - r.x) + (y - r.y) < r.h {
            light
        } else {
            shadow
        }),
        r.x + r.w - x <= r.h / 2 ==> tone(r, light, shadow, x, y) == (if (x - r.x) + (y - r.y)
            < r.w {
            light
        } else {
            shadow
        }),
        r.h / 2 < x - r.x && r.h / 2 + 1 < r.x + r.w - x ==> tone(r, light, shadow, x, y) == (
        if y - r.y <= r.h / 2 {
            light
        } else {
            shadow
        }),
{
}

/// What a pill paints between its caps, on an empty buffer, is its tone there.
pub proof fn law_pill_shows_its_tone(
    px: Seq<u32>,
    w: int,
    h: int,
    crossings: Seq<(u16, u8, u8)>,
    r: PillRect,
    light: u32,
    shadow: u32,
    x: int,
    y: int,
)
    requires
        table_fits(crossings, r),
        0 <= x < w,
        0 <= y < h,
        w * h <= px.len(),
        px[y * w + x] == 0,
        r.y <= y < r.y + r.h,
        r.x + r.h / 2 < x < r.x + r.w - 1 - r.h / 2,
    ensures
        ({
            let q = with_pill(px, w, h, crossings, r, light, shadow)[y * w + x];
            let c = tone(r, light, shadow, x, y);
            &&& pixel::alpha(q) == 255
            &&& 256 * pixel::red(q) <= 255 * pixel::red(c) < 256 * pixel::red(q) + 256
            &&& 256 * pixel::green(q) <= 255 * pixel::green(c) < 256 * pixel::green(q) + 256
            &&& 256 * pixel::blue(q) <= 255 * pixel::blue(c) < 256 * pixel::blue(q) + 256
        }),
{
    let i = y * w + x;
    let n = entries(crossings, 0);
    canvas::lemma_cell(x, y, w);
    canvas::lemma_cell_bound(x, y, w, h);
    lemma_caps_spare(px, w, h, crossings, r, light, shadow, n, i);
    let c = tone(r, light, shadow, x, y);
    let s = pixel::argb(255, pixel::red(c), pixel::green(c), pixel::blue(c));
    pixel::lemma_channels(c);
    pixel::lemma_argb(255, pixel::red(c), pixel::green(c), pixel::blue(c));
    assert((0u32 >> 24) == 0 && ((0u32 >> 16) & 0xFF) == 0 && ((0u32 >> 8) & 0xFF) == 0 && (0u32
        & 0xFF) == 0) by (bit_vector);
    pixel::law_layer_takes_its_share(0, s, BlendMode::Normal);
    pixel::law_opaque_layer_saturates(0, s, BlendMode::Normal);
    let q = pixel::under_px(0, s, BlendMode::Normal);
    let taken = pixel::alpha(q) - pixel::alpha(0);
    assert(taken == 255);
    assert(pixel::red(c) * taken == 255 * pixel::red(c) && pixel::green(c) * taken == 255
        * pixel::green(c) && pixel::blue(c) * taken == 255 * pixel::blue(c)) by (nonlinear_arith)
        requires
            taken == 255,
    ;
    assert(with_pill(px, w, h, crossings, r, light, shadow)[i] == q);
}

/// The caps leave the columns between them alone.
proof fn lemma_caps_spare(
    px: Seq<u32>,
    w: int,
    h: int,
    crossings: Seq<(u16, u8, u8)>,
    r: PillRect,
    light: u32,
    shadow: u32,
    n: nat,
    i: int,
)
    requires
        0 <= i < px.len(),
        table_fits(crossings, r),
        n <= entries(crossings, 0),
        r.x + r.h / 2 < canvas::col_of(i, w) < r.x + r.w - 1 - r.h / 2,
    ensures
        after_caps(px, w, h, crossings, r, light, shadow, n)[i] == px[i],
        after_caps(px, w, h, crossings, r, light, shadow, n).len() == px.len(),
    decreases n,
{
    lemma_caps_len(px, w, h, crossings, r, light, shadow, n);
    if n > 0 {
        let k = n - 1;
        lemma_caps_spare(px, w, h, crossings, r, light, shadow, k as nat, i);
        lemma_entries(crossings, 0, k);
        let before = after_caps(px, w, h, crossings, r, light, shadow, k as nat);
        lemma_corners_spare(
            before,
            w,
            h,
            k,
            crossings[k].0 as int,
            crossings[k].2 as int,
            r,
            light,
            shadow,
            4,
            i,
        );
    }
}

proof fn lemma_corners_spare(
    px: Seq<u32>,
    w: int,
    h: int,
    k: int,
    inset: int,
    a: int,
    r: PillRect,
    light: u32,
    shadow: u32,
    n: nat,
    i: int,
)
    requires
        0 <= i < px.len(),
        0 <= inset <= k <= r.h / 2,
        r.x + r.h / 2 < canvas::col_of(i, w) < r.x + r.w - 1 - r.h / 2,
    ensures
        after_corners(px, w, h, k, inset, a, r, light, shadow, n)[i] == px[i],
    decreases n,
{
    if n > 0 {
        let m = (n - 1) as nat;
        lemma_corners_spare(px, w, h, k, inset, a, r, light, shadow, m, i);
        lemma_corners_len(px, w, h, k, inset, a, r, light, shadow, m);
        let c = nth_corner(r, k, inset, n - 1);
        assert(c.fx0 > canvas::col_of(i, w) || c.fx1 <= canvas::col_of(i, w));
        assert(c.v_col != canvas::col_of(i, w) && c.h_col != canvas::col_of(i, w));
    }
}

/// The hit map changes only where the caps are opaque, and the runs of their entries are hit.
proof fn lemma_caps_hit(
    px: Seq<u32>,
    hits: Seq<HitId>,
    w: int,
    h: int,
    crossings: Seq<(u16, u8, u8)>,
    r: PillRect,
    light: u32,
    shadow: u32,
    id: HitId,
    n: nat,
    k: int,
    m: int,
    i: int,
)
    requires
        0 <= i < px.len(),
        i < hits.len(),
        pixel::dark_within_alpha(px[i]),
        0 <= m < 4,
    ensures
        ({
            let q = caps_stamped(hits, w, h, crossings, r, id, n)[i];
            let c = nth_corner(r, k, crossings[k].0 as int, m);
            &&& caps_stamped(hits, w, h, crossings, r, id, n).len() == hits.len()
            &&& q == hits[i] || q == id && pixel::alpha(
                after_caps(px, w, h, crossings, r, light, shadow, n)[i],
            ) == 255
            &&& 0 <= k < n && (span_holds(i, w, h, c.fx0, c.v_row, c.fx1, c.v_row + 1)
                || span_holds(i, w, h, c.h_col, c.fy0, c.h_col + 1, c.fy1)) ==> q == id
        }),
    decreases n,
{
    if n > 0 {
        let b = n - 1;
        lemma_caps_hit(px, hits, w, h, crossings, r, light, shadow, id, b as nat, k, m, i);
        lemma_caps_ink(px, w, h, crossings, r, light, shadow, b as nat, k, m, i);
        lemma_caps_len(px, w, h, crossings, r, light, shadow, b as nat);
        lemma_corners_hit(
            after_caps(px, w, h, crossings, r, light, shadow, b as nat),
            caps_stamped(hits, w, h, crossings, r, id, b as nat),
            w,
            h,
            b,
            crossings[b].0 as int,
            crossings[b].2 as int,
            r,
            light,
            shadow,
            id,
            4,
            m,
            i,
        );
        lemma_corners_ink(
            after_caps(px, w, h, crossings, r, light, shadow, b as nat),
            w,
            h,
            b,
            crossings[b].0 as int,
            crossings[b].2 as int,
            r,
            light,
            shadow,
            4,
            m,
            i,
        );
    }
}

/// The hit map changes only where the corners are opaque, and their runs are hit.
proof fn lemma_corners_hit(
    px: Seq<u32>,
    hits: Seq<HitId>,
    w: int,
    h: int,
    k: int,
    inset: int,
    a: int,
    r: PillRect,
    light: u32,
    shadow: u32,
    id: HitId,
    n: nat,
    m: int,
    i: int,
)
    requires
        0 <= i < px.len(),
        i < hits.len(),
        0 <= a <= 255,
        pixel::dark_within_alpha(px[i]),
    ensures
        ({
            let q = corners_stamped(hits, w, h, k, inset, r, id, n)[i];
            let c = nth_corner(r, k, inset, m);
            &&& corners_stamped(hits, w, h, k, inset, r, id, n).len() == hits.len()
            &&& q == hits[i] || q == id && pixel::alpha(
                after_corners(px, w, h, k, inset, a, r, light, shadow, n)[i],
            ) == 255
            &&& hits[i] == id ==> q == id
            &&& 0 <= m < n && (span_holds(i, w, h, c.fx0, c.v_row, c.fx1, c.v_row + 1)
                || span_holds(i, w, h, c.h_col, c.fy0, c.h_col + 1, c.fy1)) ==> q == id
        }),
    decreases n,
{
    if n > 0 {
        let b = (n - 1) as nat;
        lemma_corners_hit(px, hits, w, h, k, inset, a, r, light, shadow, id, b, m, i);
        lemma_corners_ink(px, w, h, k, inset, a, r, light, shadow, b, m, i);
        lemma_corners_len(px, w, h, k, inset, a, r, light, shadow, b);
        let before = after_corners(px, w, h, k, inset, a, r, light, shadow, b);
        lemma_corner_inks(before, w, h, nth_corner(r, k, inset, n - 1), a, r, light, shadow, i);
    }
}

/// A pill is hit only where it is opaque, and wherever it is opaque between its caps.
pub proof fn law_pill_is_hit_where_it_is_opaque(
    px: Seq<u32>,
    hits: Seq<HitId>,
    w: int,
    h: int,
    crossings: Seq<(u16, u8, u8)>,
    r: PillRect,
    light: u32,
    shadow: u32,
    id: HitId,
    x: int,
    y: int,
)
    requires
        0 <= x < w,
        0 <= y < h,
        w * h <= px.len(),
        w * h <= hits.len(),
        pixel::dark_within_alpha(px[y * w + x]),
    ensures
        ({
            let q = with_pill_hits(hits, w, h, crossings, r, id)[y * w + x];
            let a = pixel::alpha(with_pill(px, w, h, crossings, r, light, shadow)[y * w + x]);
            &&& q == hits[y * w + x] || q == id && a == 255
            &&& r.y <= y < r.y + r.h && r.x + r.h / 2 <= x < r.x + r.w - r.h / 2 ==> q == id && a
                == 255
        }),
{
    let i = y * w + x;
    let n = entries(crossings, 0);
    canvas::lemma_cell(x, y, w);
    canvas::lemma_cell_bound(x, y, w, h);
    lemma_caps_hit(px, hits, w, h, crossings, r, light, shadow, id, n, -1, 0, i);
    lemma_caps_ink(px, w, h, crossings, r, light, shadow, n, -1, 0, i);
    lemma_caps_len(px, w, h, crossings, r, light, shadow, n);
    lemma_span_inks(
        after_caps(px, w, h, crossings, r, light, shadow, n),
        w,
        h,
        r.x + r.h / 2,
        r.y,
        r.x + r.w - r.h / 2,
        r.y + r.h,
        255,
        r,
        light,
        shadow,
        i,
    );
}

/// Drawing a pill damages every pixel of its box that lies in the buffer, and keeps what was damaged.
pub proof fn law_pill_damages_its_box(
    d: Option<PixelRect>,
    w: int,
    h: int,
    r: PillRect,
    x: int,
    y: int,
)
    requires
        0 <= x < w <= usize::MAX,
        0 <= y < h <= usize::MAX,
        in_pill(r, x, y) || d is Some && (d->0).holds(x, y),
    ensures
        pill_damage(d, w, h, r) is Some,
        (pill_damage(d, w, h, r)->0).holds(x, y),
{
}

} // verus!
