//! Fixed-point coordinates.
use vstd::prelude::*;

verus! {

/// One relative unit: coordinates in relative units have 32 fractional bits.
pub const RU_ONE: i64 = 0x1_0000_0000;

/// A length or a place in pixels, with 16 fractional bits.
pub type Coord = i64;

/// One pixel.
pub const PX: Coord = 0x1_0000;

/// The largest coordinate of a layout.
pub const COORD_MAX: Coord = 0x4000_0000_0000;

/// A coordinate that a layout can hold.
pub open spec fn in_range(v: int) -> bool {
    -COORD_MAX <= v <= COORD_MAX
}

/// A length that sums of a few coordinates of a layout come to.
pub open spec fn in_sum_range(v: int) -> bool {
    -0x4000_0000_0000_0000 < v < 0x4000_0000_0000_0000
}

/// A fraction with 32 fractional bits.
pub type Ratio = i64;

/// A point or an extent in relative units. The origin is the centre of the viewport.
#[derive(Clone, Copy, Debug, PartialEq, Eq, Structural)]
pub struct RuVec2 {
    pub x: i64,
    pub y: i64,
}

impl RuVec2 {
    pub fn new(x: i64, y: i64) -> (v: RuVec2)
        ensures
            v == (RuVec2 { x, y }),
    {
        RuVec2 { x, y }
    }

    /// The origin.
    pub fn zero() -> (v: RuVec2)
        ensures
            v == (RuVec2 { x: 0, y: 0 }),
    {
        RuVec2 { x: 0, y: 0 }
    }

    /// The same value on both axes.
    pub fn splat(v: i64) -> (r: RuVec2)
        ensures
            r == (RuVec2 { x: v, y: v }),
    {
        RuVec2 { x: v, y: v }
    }
}

/// `num / den` with the fraction dropped, towards zero.
pub open spec fn truncated(num: int, den: int) -> int {
    if num >= 0 {
        num / den
    } else {
        -((-num) / den)
    }
}

/// `num / den` with the fraction dropped, towards zero.
pub fn truncate(num: i128, den: i128) -> (q: i128)
    requires
        den > 0,
        num > i128::MIN,
    ensures
        q as int == truncated(num as int, den as int),
{
    if num >= 0 {
        let n: u128 = num as u128;
        let d: u128 = den as u128;
        proof {
            vstd::arithmetic::div_mod::lemma_div_nonincreasing(n as int, d as int);
        }
        (n / d) as i128
    } else {
        let n: u128 = (-num) as u128;
        let d: u128 = den as u128;
        proof {
            vstd::arithmetic::div_mod::lemma_div_nonincreasing(n as int, d as int);
        }
        -((n / d) as i128)
    }
}

/// `v` limited to the range of a coordinate.
pub open spec fn saturated(v: int) -> int {
    if v < Coord::MIN {
        Coord::MIN as int
    } else if v > Coord::MAX {
        Coord::MAX as int
    } else {
        v
    }
}

/// `v` limited to the range of a coordinate.
pub fn saturate(v: i128) -> (c: Coord)
    ensures
        c as int == saturated(v as int),
{
    if v < -0x8000_0000_0000_0000 {
        -0x8000_0000_0000_0000
    } else if v > 0x7FFF_FFFF_FFFF_FFFF {
        0x7FFF_FFFF_FFFF_FFFF
    } else {
        v as i64
    }
}

/// Half of `v`, rounded towards zero.
pub fn half(v: Coord) -> (h: Coord)
    requires
        v > Coord::MIN,
    ensures
        h as int == truncated(v as int, 2),
{
    truncate(v as i128, 2) as i64
}

/// The whole pixels of `v`, the fraction dropped.
pub fn whole_px(v: Coord) -> (p: isize)
    requires
        in_range(v as int),
    ensures
        p as int == truncated(v as int, PX as int),
{
    truncate(v as i128, 0x1_0000) as isize
}

/// Dropping the fraction goes towards zero by less than one.
pub proof fn lemma_truncated(num: int, den: int)
    requires
        den > 0,
    ensures
        num >= 0 ==> den * truncated(num, den) <= num < den * truncated(num, den) + den
            && truncated(num, den) >= 0,
        num <= 0 ==> den * truncated(num, den) - den < num <= den * truncated(num, den)
            && truncated(num, den) <= 0,
{
    let m = if num >= 0 {
        num
    } else {
        -num
    };
    vstd::arithmetic::div_mod::lemma_fundamental_div_mod(m, den);
    vstd::arithmetic::div_mod::lemma_mod_bound(m, den);
    vstd::arithmetic::div_mod::lemma_div_pos_is_pos(m, den);
    if num < 0 {
        assert(den * (-(m / den)) == -(den * (m / den))) by (nonlinear_arith);
    }
    if num == 0 {
        assert(0int / den == 0) by (nonlinear_arith)
            requires
                den > 0,
        ;
    }
}

/// A larger number has no smaller quotient.
pub proof fn lemma_truncated_order(a: int, b: int, den: int)
    requires
        den > 0,
        a <= b,
    ensures
        truncated(a, den) <= truncated(b, den),
{
    lemma_truncated(a, den);
    lemma_truncated(b, den);
    let s = truncated(a, den);
    let t = truncated(b, den);
    if s > t {
        if t >= 0 {
            assert(den * s >= den * t + den) by (nonlinear_arith)
                requires
                    s >= t + 1,
                    den > 0,
            ;
        } else if s <= 0 {
            assert(den * t <= den * s - den) by (nonlinear_arith)
                requires
                    t <= s - 1,
                    den > 0,
            ;
        }
    }
}

/// The quotient of a sum is that of its parts, give or take one.
pub proof fn lemma_truncated_sum(a: int, b: int, den: int)
    requires
        den > 0,
    ensures
        -1 <= truncated(a + b, den) - truncated(a, den) - truncated(b, den) <= 1,
{
    lemma_truncated(a, den);
    lemma_truncated(b, den);
    lemma_truncated(a + b, den);
    let s = truncated(a, den);
    let t = truncated(b, den);
    let u = truncated(a + b, den);
    let d = u - s - t;
    assert(den * u == den * s + den * t + den * d) by (nonlinear_arith)
        requires
            u == s + t + d,
    ;
    if d >= 2 {
        assert(den * d >= den + den) by (nonlinear_arith)
            requires
                d >= 2,
                den > 0,
        ;
    }
    if d <= -2 {
        assert(den * d <= -den - den) by (nonlinear_arith)
            requires
                d <= -2,
                den > 0,
        ;
    }
}

/// Limiting keeps what fits, and takes anything else to the nearest end of the range.
pub proof fn law_saturated_is_the_nearest(v: int, c: Coord)
    ensures
        Coord::MIN <= saturated(v) <= Coord::MAX,
        v == c ==> saturated(v) == v,
        v <= c ==> saturated(v) <= c,
        v >= c ==> saturated(v) >= c,
{
}

/// Half of a coordinate, twice, is the coordinate, or one step nearer to zero; whole pixels leave less
/// than a pixel. Both keep the sign.
pub proof fn law_fractions_are_dropped_towards_zero(v: int)
    ensures
        v >= 0 ==> 2 * truncated(v, 2) <= v <= 2 * truncated(v, 2) + 1,
        v >= 0 ==> PX * truncated(v, PX as int) <= v < PX * truncated(v, PX as int) + PX,
        truncated(-v, 2) == -truncated(v, 2),
        truncated(-v, PX as int) == -truncated(v, PX as int),
{
    lemma_truncated(v, 2);
    lemma_truncated(v, PX as int);
}

} // verus!
