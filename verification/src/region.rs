//! Proportional layout: rectangles that are subdivided by weights, with no solver.
use crate::coord::{self, Coord, Ratio, PX, RU_ONE};
use crate::geom::Viewport;
use crate::paint::Clip;
use vstd::prelude::*;

verus! {

/// A rectangle in pixel space that carries its own harmonic-mean span.
#[derive(Clone, Copy, Debug, PartialEq, Eq, Structural)]
pub struct Region {
    /// Left edge.
    pub x: Coord,
    /// Top edge.
    pub y: Coord,
    pub w: Coord,
    pub h: Coord,
    /// The harmonic mean of width and height.
    pub span: Coord,
}

/// The harmonic mean `2ab / (a + b)`, 0 where the sum is 0.
pub open spec fn harmonic_of(a: int, b: int) -> int {
    if a + b == 0 {
        0
    } else if a + b > 0 {
        coord::saturated(coord::truncated(2 * (a * b), a + b))
    } else {
        coord::saturated(coord::truncated(-(2 * (a * b)), -(a + b)))
    }
}

/// The part `frac` of `len`.
pub open spec fn part_of(len: int, frac: int) -> int {
    coord::truncated(len * frac, RU_ONE as int)
}

/// The sum of the first `n` weights.
pub open spec fn weight_sum(weights: Seq<Coord>, n: int) -> int
    decreases n,
{
    if n <= 0 {
        0
    } else {
        weight_sum(weights, n - 1) + weights[n - 1]
    }
}

/// Where band `n` starts when `len` is split by weights whose sum is `total`.
pub open spec fn band_start(len: int, weights: Seq<Coord>, total: int, n: int) -> int
    decreases n,
{
    if n <= 0 {
        0
    } else {
        band_start(len, weights, total, n - 1) + coord::truncated(len * weights[n - 1], total)
    }
}

/// Where band `n` ends: the last band takes what is left.
pub open spec fn band_end(len: int, weights: Seq<Coord>, total: int, n: int) -> int {
    if n == weights.len() - 1 {
        len
    } else {
        band_start(len, weights, total, n + 1)
    }
}

/// Weights that a region can be split by.
pub open spec fn weights_ok(weights: Seq<Coord>) -> bool {
    &&& weights.len() > 0
    &&& weight_sum(weights, weights.len() as int) > 0
    &&& forall|i: int| 0 <= i < weights.len() ==> 0 <= #[trigger] weights[i] <= coord::COORD_MAX
}

proof fn lemma_weight_sum(weights: Seq<Coord>, n: int)
    requires
        0 <= n <= weights.len(),
        weights_ok(weights),
    ensures
        0 <= weight_sum(weights, n) <= n * coord::COORD_MAX,
    decreases n,
{
    if n > 0 {
        lemma_weight_sum(weights, n - 1);
        assert((n - 1) * coord::COORD_MAX + coord::COORD_MAX == n * coord::COORD_MAX)
            by (nonlinear_arith);
    }
}

proof fn lemma_weight_sum_grows(weights: Seq<Coord>, m: int, n: int)
    requires
        0 <= m <= n <= weights.len(),
        weights_ok(weights),
    ensures
        weight_sum(weights, m) <= weight_sum(weights, n),
    decreases n,
{
    if m < n {
        lemma_weight_sum_grows(weights, m, n - 1);
    }
}

proof fn lemma_truncated_part(len: int, weight: int, total: int)
    requires
        total > 0,
        weight >= 0,
    ensures
        len >= 0 ==> 0 <= coord::truncated(len * weight, total) && coord::truncated(
            len * weight,
            total,
        ) * total <= len * weight,
        len <= 0 ==> 0 >= coord::truncated(len * weight, total) && coord::truncated(
            len * weight,
            total,
        ) * total >= len * weight,
{
    let p = len * weight;
    if len >= 0 {
        assert(p >= 0) by (nonlinear_arith)
            requires
                len >= 0,
                weight >= 0,
                p == len * weight,
        ;
        vstd::arithmetic::div_mod::lemma_fundamental_div_mod(p, total);
        vstd::arithmetic::div_mod::lemma_div_pos_is_pos(p, total);
        assert(total * (p / total) == (p / total) * total) by (nonlinear_arith);
    }
    if len <= 0 {
        assert(p <= 0) by (nonlinear_arith)
            requires
                len <= 0,
                weight >= 0,
                p == len * weight,
        ;
        let q = -p;
        vstd::arithmetic::div_mod::lemma_fundamental_div_mod(q, total);
        vstd::arithmetic::div_mod::lemma_div_pos_is_pos(q, total);
        assert(total * (q / total) == (q / total) * total) by (nonlinear_arith);
        assert((-(q / total)) * total == -((q / total) * total)) by (nonlinear_arith);
        if p == 0 {
            assert(0int / total == 0) by (nonlinear_arith)
                requires
                    total > 0,
            ;
        }
    }
}

/// The bands before the last stay inside the length that is split.
pub proof fn lemma_band_start(len: int, weights: Seq<Coord>, n: int)
    requires
        weights_ok(weights),
        0 <= n <= weights.len(),
    ensures
        ({
            let total = weight_sum(weights, weights.len() as int);
            let s = band_start(len, weights, total, n);
            &&& len >= 0 ==> 0 <= s <= len && s * total <= len * weight_sum(weights, n)
            &&& len <= 0 ==> len <= s <= 0 && s * total >= len * weight_sum(weights, n)
        }),
    decreases n,
{
    let total = weight_sum(weights, weights.len() as int);
    let s = band_start(len, weights, total, n);
    let sum = weight_sum(weights, n);
    if n > 0 {
        lemma_band_start(len, weights, n - 1);
        let w = weights[n - 1] as int;
        let t = coord::truncated(len * w, total);
        let s0 = band_start(len, weights, total, n - 1);
        let sum0 = weight_sum(weights, n - 1);
        lemma_truncated_part(len, w, total);
        assert((s0 + t) * total == s0 * total + t * total) by (nonlinear_arith);
        assert(len * (sum0 + w) == len * sum0 + len * w) by (nonlinear_arith);
    } else {
        assert(0 * total == 0 && len * 0 == 0) by (nonlinear_arith);
    }
    lemma_weight_sum_grows(weights, n, weights.len() as int);
    if len >= 0 {
        assert(s <= len) by (nonlinear_arith)
            requires
                s * total <= len * sum,
                sum <= total,
                len >= 0,
                total > 0,
        ;
    }
    if len <= 0 {
        assert(s >= len) by (nonlinear_arith)
            requires
                s * total >= len * sum,
                sum <= total,
                len <= 0,
                total > 0,
        ;
    }
}

/// The harmonic mean `2ab / (a + b)`, 0 where both are 0.
pub fn harmonic(a: Coord, b: Coord) -> (m: Coord)
    requires
        coord::in_sum_range(a as int),
        coord::in_sum_range(b as int),
    ensures
        m as int == harmonic_of(a as int, b as int),
{
    proof {
        lemma_product(a as int, b as int);
    }
    let sum: i64 = a + b;
    let num: i128 = 2 * ((a as i128) * (b as i128));
    if sum == 0 {
        0
    } else if sum > 0 {
        coord::saturate(coord::truncate(num, sum as i128))
    } else {
        coord::saturate(coord::truncate(-num, (-sum) as i128))
    }
}

proof fn lemma_product(a: int, b: int)
    requires
        -0x4000_0000_0000_0000 <= a <= 0x4000_0000_0000_0000,
        -0x4000_0000_0000_0000 <= b <= 0x4000_0000_0000_0000,
    ensures
        -0x1000_0000_0000_0000_0000_0000_0000_0000 <= a * b
            <= 0x1000_0000_0000_0000_0000_0000_0000_0000,
{
    assert(-0x1000_0000_0000_0000_0000_0000_0000_0000 <= a * b
        <= 0x1000_0000_0000_0000_0000_0000_0000_0000) by (nonlinear_arith)
        requires
            -0x4000_0000_0000_0000 <= a <= 0x4000_0000_0000_0000,
            -0x4000_0000_0000_0000 <= b <= 0x4000_0000_0000_0000,
    ;
}

/// The sum of the weights.
fn total_weight<const N: usize>(weights: &[Coord; N]) -> (t: i128)
    requires
        weights_ok(weights@),
    ensures
        t == weight_sum(weights@, N as int),
{
    let mut total: i128 = 0;
    let mut i: usize = 0;
    while i < N
        invariant
            0 <= i <= N,
            weights@.len() == N,
            weights_ok(weights@),
            total == weight_sum(weights@, i as int),
        decreases N - i,
    {
        proof {
            lemma_weight_sum(weights@, i as int);
            lemma_weight_sum(weights@, i + 1);
            assert(0 <= (i + 1) * coord::COORD_MAX <= 0x1_0000_0000_0000_0000 * 0x4000_0000_0000)
                by (nonlinear_arith)
                requires
                    0 <= i < 0x1_0000_0000_0000_0000,
                    coord::COORD_MAX == 0x4000_0000_0000,
            ;
        }
        total = total + weights[i] as i128;
        i = i + 1;
    }
    total
}

impl Region {
    /// The region with these bounds.
    pub open spec fn of(x: int, y: int, w: int, h: int) -> Region {
        Region {
            x: x as Coord,
            y: y as Coord,
            w: w as Coord,
            h: h as Coord,
            span: harmonic_of(w, h) as Coord,
        }
    }

    /// All edges are coordinates of a layout, and the span is that of the size.
    pub open spec fn wf(self) -> bool {
        &&& coord::in_range(self.x as int)
        &&& coord::in_range(self.y as int)
        &&& coord::in_range(self.w as int)
        &&& coord::in_range(self.h as int)
        &&& coord::in_range(self.x + self.w)
        &&& coord::in_range(self.y + self.h)
        &&& self.span as int == harmonic_of(self.w as int, self.h as int)
    }

    /// The point lies in the region.
    pub open spec fn holds(self, px: int, py: int) -> bool {
        self.x <= px < self.x + self.w && self.y <= py < self.y + self.h
    }

    /// Row `n` of the region split by `weights`.
    pub open spec fn row(self, weights: Seq<Coord>, n: int) -> Region {
        let total = weight_sum(weights, weights.len() as int);
        let start = band_start(self.h as int, weights, total, n);
        let end = band_end(self.h as int, weights, total, n);
        Region::of(self.x as int, self.y + start, self.w as int, end - start)
    }

    /// Column `n` of the region split by `weights`.
    pub open spec fn column(self, weights: Seq<Coord>, n: int) -> Region {
        let total = weight_sum(weights, weights.len() as int);
        let start = band_start(self.w as int, weights, total, n);
        let end = band_end(self.w as int, weights, total, n);
        Region::of(self.x + start, self.y as int, end - start, self.h as int)
    }

    /// The region without the parts `fx` of its width and `fy` of its height on each side.
    pub open spec fn shrunk(self, fx: int, fy: int) -> Region {
        let dx = part_of(self.w as int, fx);
        let dy = part_of(self.h as int, fy);
        Region::of(self.x + dx, self.y + dy, self.w - 2 * dx, self.h - 2 * dy)
    }

    /// The middle part `frac` of the width, with the full height.
    pub open spec fn middle_column(self, frac: int) -> Region {
        let w = part_of(self.w as int, frac);
        Region::of(self.x + coord::truncated(self.w - w, 2), self.y as int, w, self.h as int)
    }

    /// The middle part `frac` of the height, with the full width.
    pub open spec fn middle_row(self, frac: int) -> Region {
        let h = part_of(self.h as int, frac);
        Region::of(self.x as int, self.y + coord::truncated(self.h - h, 2), self.w as int, h)
    }

    /// The largest centred square that fits in the region.
    pub open spec fn middle_square(self) -> Region {
        let side = vstd::math::min(self.w as int, self.h as int);
        Region::of(
            self.x + coord::truncated(self.w - side, 2),
            self.y + coord::truncated(self.h - side, 2),
            side,
            side,
        )
    }

    /// The region with these bounds.
    pub fn new(x: Coord, y: Coord, w: Coord, h: Coord) -> (r: Region)
        requires
            coord::in_sum_range(w as int),
            coord::in_sum_range(h as int),
        ensures
            r == Region::of(x as int, y as int, w as int, h as int),
            r.span as int == harmonic_of(w as int, h as int),
    {
        let span: Coord = harmonic(w, h);
        Region { x, y, w, h, span }
    }

    /// The region of the whole viewport.
    pub fn from_viewport(vp: &Viewport) -> (r: Region)
        requires
            vp.width_px <= 0x4000_0000,
            vp.height_px <= 0x4000_0000,
        ensures
            r == Region::of(0, 0, vp.width_px * PX, vp.height_px * PX),
            r.wf(),
    {
        Region::new(0, 0, vp.width_px as i64 * 0x1_0000, vp.height_px as i64 * 0x1_0000)
    }

    /// The right edge.
    pub fn right(&self) -> (e: Coord)
        requires
            self.wf(),
        ensures
            e == self.x + self.w,
    {
        self.x + self.w
    }

    /// The bottom edge.
    pub fn bottom(&self) -> (e: Coord)
        requires
            self.wf(),
        ensures
            e == self.y + self.h,
    {
        self.y + self.h
    }

    /// The centre.
    pub fn center(&self) -> (c: (Coord, Coord))
        requires
            self.wf(),
        ensures
            c.0 == self.x + coord::truncated(self.w as int, 2),
            c.1 == self.y + coord::truncated(self.h as int, 2),
    {
        (self.center_x(), self.center_y())
    }

    /// The x of the centre.
    pub fn center_x(&self) -> (c: Coord)
        requires
            self.wf(),
        ensures
            c == self.x + coord::truncated(self.w as int, 2),
    {
        self.x + coord::half(self.w)
    }

    /// The y of the centre.
    pub fn center_y(&self) -> (c: Coord)
        requires
            self.wf(),
        ensures
            c == self.y + coord::truncated(self.h as int, 2),
    {
        self.y + coord::half(self.h)
    }

    /// The point is in the region: left and top edge count, right and bottom edge do not.
    pub fn contains(&self, px: Coord, py: Coord) -> (b: bool)
        requires
            self.wf(),
        ensures
            b == self.holds(px as int, py as int),
    {
        px >= self.x && px < self.right() && py >= self.y && py < self.bottom()
    }

    /// A size that scales with the region: its span over `divisor`.
    pub fn size(&self, divisor: Coord) -> (s: Coord)
        requires
            divisor != 0,
            divisor > Coord::MIN,
        ensures
            divisor > 0 ==> s == coord::saturated(
                coord::truncated(self.span * PX, divisor as int),
            ),
            divisor < 0 ==> s == coord::saturated(
                coord::truncated(-(self.span * PX), -divisor as int),
            ),
    {
        let num: i128 = (self.span as i128) * 0x1_0000;
        if divisor > 0 {
            coord::saturate(coord::truncate(num, divisor as i128))
        } else {
            coord::saturate(coord::truncate(-num, (-divisor) as i128))
        }
    }

    /// Rows from top to bottom, each with the full width and a height in proportion to its weight.
    /// The last row takes what is left, so the rows tile the region.
    pub fn split_v<const N: usize>(&self, weights: [Coord; N]) -> (bands: [Region; N])
        requires
            self.wf(),
            weights_ok(weights@),
        ensures
            forall|i: int|
                0 <= i < N ==> #[trigger] bands@[i] == self.row(weights@, i) && bands@[i].wf(),
    {
        let total: i128 = total_weight(&weights);
        let mut result: [Region; N] = [*self; N];
        let mut cursor: Coord = self.y;
        let mut i: usize = 0;
        proof {
            lemma_band_start(self.h as int, weights@, 0);
        }
        while i < N - 1
            invariant
                self.wf(),
                weights_ok(weights@),
                0 <= i < N,
                weights@.len() == N,
                result@.len() == N,
                total == weight_sum(weights@, N as int),
                cursor == self.y + band_start(self.h as int, weights@, total as int, i as int),
                forall|j: int|
                    0 <= j < i ==> #[trigger] result@[j] == self.row(weights@, j)
                        && result@[j].wf(),
            decreases N - i,
        {
            proof {
                lemma_band_start(self.h as int, weights@, i as int);
                lemma_band_start(self.h as int, weights@, i + 1);
                lemma_product(self.h as int, weights@[i as int] as int);
            }
            let part: i128 = (self.h as i128) * (weights[i] as i128);
            let band_h: Coord = coord::truncate(part, total) as i64;
            result[i] = Region::new(self.x, cursor, self.w, band_h);
            cursor = cursor + band_h;
            i = i + 1;
        }
        proof {
            lemma_band_start(self.h as int, weights@, i as int);
        }
        let last_h: Coord = self.bottom() - cursor;
        result[N - 1] = Region::new(self.x, cursor, self.w, last_h);
        result
    }

    /// Columns from left to right, each with the full height and a width in proportion to its weight.
    /// The last column takes what is left, so the columns tile the region.
    pub fn split_h<const N: usize>(&self, weights: [Coord; N]) -> (bands: [Region; N])
        requires
            self.wf(),
            weights_ok(weights@),
        ensures
            forall|i: int|
                0 <= i < N ==> #[trigger] bands@[i] == self.column(weights@, i) && bands@[i].wf(),
    {
        let total: i128 = total_weight(&weights);
        let mut result: [Region; N] = [*self; N];
        let mut cursor: Coord = self.x;
        let mut i: usize = 0;
        proof {
            lemma_band_start(self.w as int, weights@, 0);
        }
        while i < N - 1
            invariant
                self.wf(),
                weights_ok(weights@),
                0 <= i < N,
                weights@.len() == N,
                result@.len() == N,
                total == weight_sum(weights@, N as int),
                cursor == self.x + band_start(self.w as int, weights@, total as int, i as int),
                forall|j: int|
                    0 <= j < i ==> #[trigger] result@[j] == self.column(weights@, j)
                        && result@[j].wf(),
            decreases N - i,
        {
            proof {
                lemma_band_start(self.w as int, weights@, i as int);
                lemma_band_start(self.w as int, weights@, i + 1);
                lemma_product(self.w as int, weights@[i as int] as int);
            }
            let part: i128 = (self.w as i128) * (weights[i] as i128);
            let band_w: Coord = coord::truncate(part, total) as i64;
            result[i] = Region::new(cursor, self.y, band_w, self.h);
            cursor = cursor + band_w;
            i = i + 1;
        }
        proof {
            lemma_band_start(self.w as int, weights@, i as int);
        }
        let last_w: Coord = self.right() - cursor;
        result[N - 1] = Region::new(cursor, self.y, last_w, self.h);
        result
    }

    /// The region without the part `frac` of each dimension on each side.
    pub fn inset(&self, frac: Ratio) -> (r: Region)
        requires
            self.wf(),
            coord::in_range(part_of(self.w as int, frac as int)),
            coord::in_range(part_of(self.h as int, frac as int)),
        ensures
            r == self.shrunk(frac as int, frac as int),
    {
        self.inset_xy(frac, frac)
    }

    /// The region without the part `frac_x` of its width and `frac_y` of its height on each side.
    pub fn inset_xy(&self, frac_x: Ratio, frac_y: Ratio) -> (r: Region)
        requires
            self.wf(),
            coord::in_range(part_of(self.w as int, frac_x as int)),
            coord::in_range(part_of(self.h as int, frac_y as int)),
        ensures
            r == self.shrunk(frac_x as int, frac_y as int),
    {
        let dx: Coord = take_part(self.w, frac_x);
        let dy: Coord = take_part(self.h, frac_y);
        Region::new(self.x + dx, self.y + dy, self.w - dx - dx, self.h - dy - dy)
    }

    /// The middle part `frac` of the width, with the full height.
    pub fn center_h(&self, frac: Ratio) -> (r: Region)
        requires
            self.wf(),
            coord::in_range(part_of(self.w as int, frac as int)),
        ensures
            r == self.middle_column(frac as int),
    {
        let new_w: Coord = take_part(self.w, frac);
        let dx: Coord = coord::half(self.w - new_w);
        Region::new(self.x + dx, self.y, new_w, self.h)
    }

    /// The middle part `frac` of the height, with the full width.
    pub fn center_v(&self, frac: Ratio) -> (r: Region)
        requires
            self.wf(),
            coord::in_range(part_of(self.h as int, frac as int)),
        ensures
            r == self.middle_row(frac as int),
    {
        let new_h: Coord = take_part(self.h, frac);
        let dy: Coord = coord::half(self.h - new_h);
        Region::new(self.x, self.y + dy, self.w, new_h)
    }

    /// The largest centred square that fits in the region.
    pub fn square(&self) -> (r: Region)
        requires
            self.wf(),
        ensures
            r == self.middle_square(),
    {
        let side: Coord = if self.w <= self.h {
            self.w
        } else {
            self.h
        };
        let dx: Coord = coord::half(self.w - side);
        let dy: Coord = coord::half(self.h - side);
        Region::new(self.x + dx, self.y + dy, side, side)
    }

    /// The pixels that the region covers, edges truncated; an edge left of or above the origin
    /// counts as 0.
    pub fn to_clip(&self) -> (c: Clip)
        requires
            self.wf(),
        ensures
            c.x_start == px_at(self.x as int),
            c.y_start == px_at(self.y as int),
            c.x_end == px_at(self.x + self.w),
            c.y_end == px_at(self.y + self.h),
    {
        Clip::new(
            pixel_at(self.x),
            pixel_at(self.y),
            pixel_at(self.right()),
            pixel_at(self.bottom()),
        )
    }
}

/// The pixel that holds the coordinate `v`, 0 where it is negative.
pub open spec fn px_at(v: int) -> int {
    if v <= 0 {
        0
    } else {
        v / (PX as int)
    }
}

/// The pixel that holds the coordinate `v`, 0 where it is negative.
pub fn pixel_at(v: Coord) -> (p: usize)
    requires
        v <= 2 * coord::COORD_MAX,
    ensures
        p == px_at(v as int),
{
    if v <= 0 {
        0
    } else {
        let n: u64 = v as u64;
        (n / 0x1_0000) as usize
    }
}

/// The part `frac` of `len`.
fn take_part(len: Coord, frac: Ratio) -> (p: Coord)
    requires
        coord::in_range(part_of(len as int, frac as int)),
        coord::in_range(len as int),
    ensures
        p as int == part_of(len as int, frac as int),
{
    proof {
        assert(-0x8000_0000_0000_0000 * 0x4000_0000_0000 <= len * frac <= 0x8000_0000_0000_0000
            * 0x4000_0000_0000) by (nonlinear_arith)
            requires
                -0x4000_0000_0000 <= len <= 0x4000_0000_0000,
                -0x8000_0000_0000_0000 <= frac <= 0x7FFF_FFFF_FFFF_FFFF,
        ;
    }
    coord::truncate((len as i128) * (frac as i128), 0x1_0000_0000) as i64
}

/// The rows of a split tile the region: the first starts at its top, each of the others where the
/// one before it ends, and the last ends at its bottom.
pub proof fn law_rows_tile_the_region(r: Region, weights: Seq<Coord>, i: int)
    requires
        r.wf(),
        weights_ok(weights),
        0 <= i < weights.len(),
    ensures
        r.row(weights, 0).y == r.y,
        i + 1 < weights.len() ==> r.row(weights, i).y + r.row(weights, i).h == r.row(
            weights,
            i + 1,
        ).y,
        r.row(weights, weights.len() - 1).y + r.row(weights, weights.len() - 1).h == r.y + r.h,
        r.row(weights, i).x == r.x && r.row(weights, i).w == r.w,
{
    lemma_band_start(r.h as int, weights, 0);
    lemma_band_start(r.h as int, weights, i);
    lemma_band_start(r.h as int, weights, i + 1);
    lemma_band_start(r.h as int, weights, weights.len() - 1);
}

/// The columns of a split tile the region from its left edge to its right edge.
pub proof fn law_columns_tile_the_region(r: Region, weights: Seq<Coord>, i: int)
    requires
        r.wf(),
        weights_ok(weights),
        0 <= i < weights.len(),
    ensures
        r.column(weights, 0).x == r.x,
        i + 1 < weights.len() ==> r.column(weights, i).x + r.column(weights, i).w == r.column(
            weights,
            i + 1,
        ).x,
        r.column(weights, weights.len() - 1).x + r.column(weights, weights.len() - 1).w == r.x
            + r.w,
        r.column(weights, i).y == r.y && r.column(weights, i).h == r.h,
{
    lemma_band_start(r.w as int, weights, 0);
    lemma_band_start(r.w as int, weights, i);
    lemma_band_start(r.w as int, weights, i + 1);
    lemma_band_start(r.w as int, weights, weights.len() - 1);
}

/// Whatever lies in a row of a split lies in the region, and the same holds of a column.
pub proof fn law_bands_stay_inside(r: Region, weights: Seq<Coord>, i: int, px: int, py: int)
    requires
        r.wf(),
        r.w >= 0,
        r.h >= 0,
        weights_ok(weights),
        0 <= i < weights.len(),
    ensures
        r.row(weights, i).holds(px, py) ==> r.holds(px, py),
        r.column(weights, i).holds(px, py) ==> r.holds(px, py),
{
    lemma_band_start(r.h as int, weights, i);
    lemma_band_start(r.h as int, weights, i + 1);
    lemma_band_start(r.w as int, weights, i);
    lemma_band_start(r.w as int, weights, i + 1);
}

/// An inset of nothing is the region itself.
pub proof fn law_no_inset_is_neutral(r: Region)
    requires
        r.wf(),
    ensures
        r.shrunk(0, 0) == r,
{
    assert(r.w * 0 == 0 && r.h * 0 == 0);
}

/// The span of a region is 0 where either dimension is.
pub proof fn law_flat_region_has_no_span(w: int)
    ensures
        harmonic_of(w, 0) == 0,
        harmonic_of(0, w) == 0,
{
    assert(w * 0 == 0 && 0 * w == 0);
    if w > 0 {
        assert(0int / w == 0) by (nonlinear_arith)
            requires
                w > 0,
        ;
    }
    if w < 0 {
        let v = -w;
        assert(0int / v == 0) by (nonlinear_arith)
            requires
                v > 0,
        ;
    }
}

/// The harmonic mean of two equal lengths is that length.
pub proof fn law_harmonic_of_equal_lengths(a: int)
    requires
        coord::in_range(a),
    ensures
        harmonic_of(a, a) == a,
{
    if a != 0 {
        let num = 2 * (a * a);
        if a > 0 {
            assert(num / (a + a) == a) by {
                assert(num == a * (a + a)) by (nonlinear_arith)
                    requires
                        num == 2 * (a * a),
                ;
                vstd::arithmetic::div_mod::lemma_div_multiples_vanish(a, a + a);
                assert((a + a) * a == a * (a + a)) by (nonlinear_arith);
            }
            assert(num >= 0) by (nonlinear_arith)
                requires
                    num == 2 * (a * a),
            ;
        } else {
            let b = -a;
            assert(num / (b + b) == b) by {
                assert(num == b * (b + b)) by (nonlinear_arith)
                    requires
                        num == 2 * (a * a),
                        b == -a,
                ;
                vstd::arithmetic::div_mod::lemma_div_multiples_vanish(b, b + b);
                assert((b + b) * b == b * (b + b)) by (nonlinear_arith);
            }
            assert(num > 0) by (nonlinear_arith)
                requires
                    num == 2 * (a * a),
                    a < 0,
            ;
        }
    }
}

/// Bands follow their weights: every row but the last takes its weight's share of the height, and every
/// column but the last that of the width, the fraction dropped.
pub proof fn law_bands_follow_their_weights(r: Region, weights: Seq<Coord>, i: int)
    requires
        r.wf(),
        r.w >= 0,
        r.h >= 0,
        weights_ok(weights),
        0 <= i < weights.len() - 1,
    ensures
        ({
            let total = weight_sum(weights, weights.len() as int);
            let row = r.row(weights, i);
            let column = r.column(weights, i);
            &&& total * row.h <= r.h * weights[i] < total * row.h + total
            &&& total * column.w <= r.w * weights[i] < total * column.w + total
        }),
{
    let total = weight_sum(weights, weights.len() as int);
    lemma_band_start(r.h as int, weights, i);
    lemma_band_start(r.h as int, weights, i + 1);
    lemma_band_start(r.w as int, weights, i);
    lemma_band_start(r.w as int, weights, i + 1);
    assert(r.h * weights[i] >= 0 && r.w * weights[i] >= 0) by (nonlinear_arith)
        requires
            r.h >= 0,
            r.w >= 0,
            weights[i] >= 0,
    ;
    coord::lemma_truncated(r.h * weights[i], total);
    coord::lemma_truncated(r.w * weights[i], total);
}

/// An inset is the same on both sides: what is left lies in the middle of the region, and each margin
/// is the asked part of the side, the fraction dropped.
pub proof fn law_inset_is_the_same_on_both_sides(r: Region, fx: int, fy: int)
    requires
        r.wf(),
        coord::in_range(part_of(r.w as int, fx)),
        coord::in_range(part_of(r.h as int, fy)),
        r.w * fx >= 0,
        r.h * fy >= 0,
    ensures
        ({
            let s = r.shrunk(fx, fy);
            let left = s.x - r.x;
            let top = s.y - r.y;
            &&& (r.x + r.w) - (s.x + s.w) == left
            &&& (r.y + r.h) - (s.y + s.h) == top
            &&& left * RU_ONE <= r.w * fx < left * RU_ONE + RU_ONE
            &&& top * RU_ONE <= r.h * fy < top * RU_ONE + RU_ONE
        }),
{
    coord::lemma_truncated(r.w * fx, RU_ONE as int);
    coord::lemma_truncated(r.h * fy, RU_ONE as int);
}

/// The span of a region is the harmonic mean of its sides, the fraction dropped.
pub proof fn law_span_is_the_harmonic_mean(a: int, b: int)
    requires
        0 <= a <= coord::COORD_MAX,
        0 <= b <= coord::COORD_MAX,
        a + b > 0,
    ensures
        (a + b) * harmonic_of(a, b) <= 2 * (a * b) < (a + b) * harmonic_of(a, b) + (a + b),
        harmonic_of(a, b) == harmonic_of(b, a),
{
    assert(a * b == b * a) by (nonlinear_arith);
    assert(0 <= 2 * (a * b) <= 0x8000_0000_0000 * (a + b)) by (nonlinear_arith)
        requires
            0 <= a <= 0x4000_0000_0000,
            0 <= b <= 0x4000_0000_0000,
    ;
    coord::lemma_truncated(2 * (a * b), a + b);
    let q = coord::truncated(2 * (a * b), a + b);
    assert(q <= 0x8000_0000_0000) by (nonlinear_arith)
        requires
            (a + b) * q <= 0x8000_0000_0000 * (a + b),
            a + b > 0,
    ;
}

/// A pixel holds the coordinates from its own edge up to the next one.
pub proof fn law_pixel_holds_its_coordinates(v: int)
    requires
        v >= 0,
    ensures
        px_at(v) * PX <= v < (px_at(v) + 1) * PX,
{
}

/// `a..a + n` lies in the middle of `b..b + m`: as much of it is left on either side, up to a rounding.
pub open spec fn in_the_middle(a: int, n: int, b: int, m: int) -> bool {
    -1 <= (a - b) - (b + m - a - n) <= 1
}

/// A middle part lies in the middle: a column keeps the rows and takes its part of the width, a row
/// keeps the columns and takes its part of the height, the square is as large as the shorter side
/// lets it be.
pub proof fn law_middle_parts_are_centred(r: Region, frac: int)
    requires
        r.wf(),
        r.w >= 0,
        r.h >= 0,
        0 <= frac <= RU_ONE,
    ensures
        ({
            let c = r.middle_column(frac);
            &&& c.y == r.y && c.h == r.h
            &&& in_the_middle(c.x as int, c.w as int, r.x as int, r.w as int)
            &&& c.w * RU_ONE <= r.w * frac < c.w * RU_ONE + RU_ONE
        }),
        ({
            let c = r.middle_row(frac);
            &&& c.x == r.x && c.w == r.w
            &&& in_the_middle(c.y as int, c.h as int, r.y as int, r.h as int)
            &&& c.h * RU_ONE <= r.h * frac < c.h * RU_ONE + RU_ONE
        }),
        ({
            let c = r.middle_square();
            &&& c.w == c.h
            &&& c.w == r.w || c.h == r.h
            &&& c.w <= r.w && c.h <= r.h
            &&& in_the_middle(c.x as int, c.w as int, r.x as int, r.w as int)
            &&& in_the_middle(c.y as int, c.h as int, r.y as int, r.h as int)
        }),
{
    assert(0 <= r.w * frac <= r.w * 0x1_0000_0000 && 0 <= r.h * frac <= r.h * 0x1_0000_0000)
        by (nonlinear_arith)
        requires
            r.w >= 0,
            r.h >= 0,
            0 <= frac <= 0x1_0000_0000,
    ;
    coord::lemma_truncated(r.w * frac, RU_ONE as int);
    coord::lemma_truncated(r.h * frac, RU_ONE as int);
}

} // verus!
