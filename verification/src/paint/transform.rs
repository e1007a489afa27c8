//! Affine transforms and rotation bins. Transform entries and points have 32 fractional bits.
use crate::coord::{self, Ratio, RU_ONE};
use vstd::prelude::*;

verus! {

/// A 2D affine transform, the matrix `[a c tx; b d ty]`.
#[derive(Clone, Copy, Debug, PartialEq, Eq, Structural)]
pub struct Transform {
    pub a: Ratio,
    pub b: Ratio,
    pub c: Ratio,
    pub d: Ratio,
    pub tx: Ratio,
    pub ty: Ratio,
}

/// `p * x + q * y`, the fraction beyond 32 bits dropped.
pub open spec fn dot(p: int, x: int, q: int, y: int) -> int {
    coord::truncated(p * x + q * y, RU_ONE as int)
}

/// `p * x + q * y`, the fraction beyond 32 bits dropped.
fn dot_of(p: Ratio, x: Ratio, q: Ratio, y: Ratio) -> (r: Ratio)
    requires
        coord::in_range(p as int),
        coord::in_range(x as int),
        coord::in_range(q as int),
        coord::in_range(y as int),
    ensures
        r as int == dot(p as int, x as int, q as int, y as int),
        -0x2000_0000_0000_0000 <= r <= 0x2000_0000_0000_0000,
{
    proof {
        lemma_entry_product(p as int, x as int);
        lemma_entry_product(q as int, y as int);
    }
    let sum: i128 = (p as i128) * (x as i128) + (q as i128) * (y as i128);
    coord::truncate(sum, 0x1_0000_0000) as i64
}

proof fn lemma_entry_product(p: int, x: int)
    requires
        coord::in_range(p),
        coord::in_range(x),
    ensures
        -0x1000_0000_0000_0000_0000_0000 <= p * x <= 0x1000_0000_0000_0000_0000_0000,
{
    assert(-0x1000_0000_0000_0000_0000_0000 <= p * x <= 0x1000_0000_0000_0000_0000_0000)
        by (nonlinear_arith)
        requires
            -0x4000_0000_0000 <= p <= 0x4000_0000_0000,
            -0x4000_0000_0000 <= x <= 0x4000_0000_0000,
    ;
}

impl Transform {
    /// All entries are small enough to be multiplied.
    pub open spec fn wf(self) -> bool {
        &&& coord::in_range(self.a as int)
        &&& coord::in_range(self.b as int)
        &&& coord::in_range(self.c as int)
        &&& coord::in_range(self.d as int)
        &&& coord::in_range(self.tx as int)
        &&& coord::in_range(self.ty as int)
    }

    /// The image of a point.
    pub open spec fn image(self, x: int, y: int) -> (int, int) {
        (
            dot(self.a as int, x, self.c as int, y) + self.tx,
            dot(self.b as int, x, self.d as int, y) + self.ty,
        )
    }

    /// First `self`, then `other`.
    pub open spec fn composed(self, other: Transform) -> Transform {
        Transform {
            a: dot(other.a as int, self.a as int, other.c as int, self.b as int) as Ratio,
            b: dot(other.b as int, self.a as int, other.d as int, self.b as int) as Ratio,
            c: dot(other.a as int, self.c as int, other.c as int, self.d as int) as Ratio,
            d: dot(other.b as int, self.c as int, other.d as int, self.d as int) as Ratio,
            tx: other.image(self.tx as int, self.ty as int).0 as Ratio,
            ty: other.image(self.tx as int, self.ty as int).1 as Ratio,
        }
    }

    /// The transform that changes nothing.
    pub open spec fn neutral() -> Transform {
        Transform { a: RU_ONE, b: 0, c: 0, d: RU_ONE, tx: 0, ty: 0 }
    }

    /// The rotation by the angle with this sine and cosine.
    pub open spec fn rotation(sin: Ratio, cos: Ratio) -> Transform {
        Transform { a: cos, b: sin, c: (-sin) as Ratio, d: cos, tx: 0, ty: 0 }
    }

    /// The scaling by these factors.
    pub open spec fn scaling(sx: Ratio, sy: Ratio) -> Transform {
        Transform { a: sx, b: 0, c: 0, d: sy, tx: 0, ty: 0 }
    }

    /// The skew by these factors.
    pub open spec fn skewing(kx: Ratio, ky: Ratio) -> Transform {
        Transform { a: RU_ONE, b: ky, c: kx, d: RU_ONE, tx: 0, ty: 0 }
    }

    /// The move by this much.
    pub open spec fn translation(tx: Ratio, ty: Ratio) -> Transform {
        Transform { a: RU_ONE, b: 0, c: 0, d: RU_ONE, tx, ty }
    }

    /// The transform that changes nothing.
    pub fn identity() -> (t: Transform)
        ensures
            t == Transform::neutral(),
    {
        Transform { a: RU_ONE, b: 0, c: 0, d: RU_ONE, tx: 0, ty: 0 }
    }

    pub fn new(a: Ratio, b: Ratio, c: Ratio, d: Ratio, tx: Ratio, ty: Ratio) -> (t: Transform)
        ensures
            t == (Transform { a, b, c, d, tx, ty }),
    {
        Transform { a, b, c, d, tx, ty }
    }

    /// The rotation by the angle with this sine and cosine.
    pub fn rotate(sin: Ratio, cos: Ratio) -> (t: Transform)
        requires
            sin > Ratio::MIN,
        ensures
            t == Transform::rotation(sin, cos),
    {
        Transform { a: cos, b: sin, c: -sin, d: cos, tx: 0, ty: 0 }
    }

    pub fn scale(sx: Ratio, sy: Ratio) -> (t: Transform)
        ensures
            t == Transform::scaling(sx, sy),
    {
        Transform { a: sx, b: 0, c: 0, d: sy, tx: 0, ty: 0 }
    }

    pub fn skew(kx: Ratio, ky: Ratio) -> (t: Transform)
        ensures
            t == Transform::skewing(kx, ky),
    {
        Transform { a: RU_ONE, b: ky, c: kx, d: RU_ONE, tx: 0, ty: 0 }
    }

    pub fn translate(tx: Ratio, ty: Ratio) -> (t: Transform)
        ensures
            t == Transform::translation(tx, ty),
    {
        Transform { a: RU_ONE, b: 0, c: 0, d: RU_ONE, tx, ty }
    }

    /// The transform that applies `self` first and `other` to the result.
    pub fn then(self, other: Transform) -> (t: Transform)
        requires
            self.wf(),
            other.wf(),
        ensures
            t == self.composed(other),
    {
        let (tx, ty) = other.apply(self.tx, self.ty);
        Transform {
            a: dot_of(other.a, self.a, other.c, self.b),
            b: dot_of(other.b, self.a, other.d, self.b),
            c: dot_of(other.a, self.c, other.c, self.d),
            d: dot_of(other.b, self.c, other.d, self.d),
            tx,
            ty,
        }
    }

    /// The image of a point.
    pub fn apply(self, x: Ratio, y: Ratio) -> (p: (Ratio, Ratio))
        requires
            self.wf(),
            coord::in_range(x as int),
            coord::in_range(y as int),
        ensures
            (p.0 as int, p.1 as int) == self.image(x as int, y as int),
    {
        (
            dot_of(self.a, x, self.c, y) + self.tx,
            dot_of(self.b, x, self.d, y) + self.ty,
        )
    }

    /// The transform changes nothing.
    pub fn is_identity(self) -> (b: bool)
        ensures
            b == (self == Transform::neutral()),
    {
        self.a == RU_ONE && self.b == 0 && self.c == 0 && self.d == RU_ONE && self.tx == 0
            && self.ty == 0
    }

    /// The bounding box `(min_x, min_y, max_x, max_y)` of the image of the rectangle from the
    /// origin to `(w, h)`.
    pub fn aabb_of_rect(self, w: Ratio, h: Ratio) -> (r: (Ratio, Ratio, Ratio, Ratio))
        requires
            self.wf(),
            coord::in_range(w as int),
            coord::in_range(h as int),
        ensures
            r.0 as int == least(self.corner_xs(w as int, h as int)),
            r.1 as int == least(self.corner_ys(w as int, h as int)),
            r.2 as int == greatest(self.corner_xs(w as int, h as int)),
            r.3 as int == greatest(self.corner_ys(w as int, h as int)),
    {
        let p0 = self.apply(0, 0);
        let p1 = self.apply(w, 0);
        let p2 = self.apply(0, h);
        let p3 = self.apply(w, h);
        (
            least_of(p0.0, p1.0, p2.0, p3.0),
            least_of(p0.1, p1.1, p2.1, p3.1),
            greatest_of(p0.0, p1.0, p2.0, p3.0),
            greatest_of(p0.1, p1.1, p2.1, p3.1),
        )
    }

    /// The x of the images of the rectangle's corners.
    pub open spec fn corner_xs(self, w: int, h: int) -> (int, int, int, int) {
        (self.image(0, 0).0, self.image(w, 0).0, self.image(0, h).0, self.image(w, h).0)
    }

    /// The y of the images of the rectangle's corners.
    pub open spec fn corner_ys(self, w: int, h: int) -> (int, int, int, int) {
        (self.image(0, 0).1, self.image(w, 0).1, self.image(0, h).1, self.image(w, h).1)
    }
}

/// The least of four numbers.
pub open spec fn least(v: (int, int, int, int)) -> int {
    vstd::math::min(vstd::math::min(v.0, v.1), vstd::math::min(v.2, v.3))
}

/// The greatest of four numbers.
pub open spec fn greatest(v: (int, int, int, int)) -> int {
    vstd::math::max(vstd::math::max(v.0, v.1), vstd::math::max(v.2, v.3))
}

fn least_of(a: Ratio, b: Ratio, c: Ratio, d: Ratio) -> (m: Ratio)
    ensures
        m as int == least((a as int, b as int, c as int, d as int)),
{
    let p: Ratio = if a <= b {
        a
    } else {
        b
    };
    let q: Ratio = if c <= d {
        c
    } else {
        d
    };
    if p <= q {
        p
    } else {
        q
    }
}

fn greatest_of(a: Ratio, b: Ratio, c: Ratio, d: Ratio) -> (m: Ratio)
    ensures
        m as int == greatest((a as int, b as int, c as int, d as int)),
{
    let p: Ratio = if a >= b {
        a
    } else {
        b
    };
    let q: Ratio = if c >= d {
        c
    } else {
        d
    };
    if p >= q {
        p
    } else {
        q
    }
}

/// The number of rotation bins: `raw` raised to a multiple of `k`, so that cardinal and octant
/// angles land on bin boundaries.
pub open spec fn divisions(raw: int, k: int) -> int {
    ((raw + k - 1) / k) * k
}

/// The number of rotation bins for glyphs whose outer edge travels `raw` pixels in a full turn.
pub fn rotation_divisions(raw: u32, k: u32) -> (n: u32)
    requires
        k > 0,
        raw + k <= u32::MAX,
    ensures
        n as int == divisions(raw as int, k as int),
        raw <= n < raw + k,
        n % k == 0,
{
    let q: u32 = (raw + k - 1) / k;
    proof {
        let p = raw + k - 1;
        vstd::arithmetic::div_mod::lemma_fundamental_div_mod(p, k as int);
        assert(k * (p / k as int) == (p / k as int) * k) by (nonlinear_arith);
        vstd::arithmetic::div_mod::lemma_mod_multiples_basic(p / k as int, k as int);
    }
    q * k
}

/// The bin of an angle among `divs`. `turn` is the angle as a fraction of a full turn, with 32 bits.
pub open spec fn bin_of(turn: int, divs: int) -> int {
    turn * divs / 0x1_0000_0000
}

/// The first angle of a bin, as a fraction of a full turn with 32 bits.
pub open spec fn bin_start(bin: int, divs: int) -> int {
    (bin * 0x1_0000_0000 + divs - 1) / divs
}

proof fn lemma_bin(turn: int, divs: int)
    requires
        0 <= turn <= 0xFFFF_FFFF,
        0 <= divs <= 0xFFFF_FFFF,
    ensures
        0 <= turn * divs <= 0xFFFF_FFFF * divs,
        0 <= bin_of(turn, divs) <= divs,
        divs > 0 ==> bin_of(turn, divs) < divs,
{
    let p = turn * divs;
    assert(0 <= p <= 0xFFFF_FFFF * divs) by (nonlinear_arith)
        requires
            p == turn * divs,
            0 <= turn <= 0xFFFF_FFFF,
            divs >= 0,
    ;
}

/// The bin of an angle. `turn` is the angle as a fraction of a full turn with 32 bits, which wraps
/// as angles do; `raw` is the number of pixels that the outer edge of a glyph travels in a full
/// turn. Bins are numbered in 16 bits.
pub fn quantize_rotation(turn: u32, raw: u32, k: u32) -> (bin: u16)
    requires
        k > 0,
        raw + k <= u32::MAX,
    ensures
        bin as int == bin_of(turn as int, divisions(raw as int, k as int)) % 0x1_0000,
{
    let divs: u32 = rotation_divisions(raw, k);
    proof {
        lemma_bin(turn as int, divs as int);
    }
    ((((turn as u64) * (divs as u64)) / 0x1_0000_0000) % 0x1_0000) as u16
}

/// The first angle of the bin of `turn`, 0 where there are no bins.
pub fn snap_rotation(turn: u32, raw: u32, k: u32) -> (start: u32)
    requires
        k > 0,
        raw + k <= u32::MAX,
    ensures
        raw == 0 ==> start == 0,
        raw > 0 ==> start as int == bin_start(
            bin_of(turn as int, divisions(raw as int, k as int)),
            divisions(raw as int, k as int),
        ),
        start <= turn,
{
    let divs: u32 = rotation_divisions(raw, k);
    if divs == 0 {
        return 0;
    }
    proof {
        lemma_bin(turn as int, divs as int);
        law_snapped_angle_keeps_its_bin(turn as int, divs as int);
        if raw == 0 {
            lemma_no_bins(k as int);
        }
    }
    let bin: u64 = ((turn as u64) * (divs as u64)) / 0x1_0000_0000;
    ((bin * 0x1_0000_0000 + (divs - 1) as u64) / (divs as u64)) as u32
}

proof fn lemma_no_bins(k: int)
    requires
        k > 0,
    ensures
        divisions(0, k) == 0,
{
    vstd::arithmetic::div_mod::lemma_basic_div(k - 1, k);
    assert(0 * k == 0);
}

/// The identity leaves every point where it is.
pub proof fn law_identity_keeps_points(x: int, y: int)
    ensures
        Transform::neutral().image(x, y) == (x, y),
{
    lemma_whole(x);
    lemma_whole(y);
    assert(0 * x == 0 && 0 * y == 0);
}

/// A multiple of one, the fraction dropped, is the factor.
proof fn lemma_whole(x: int)
    ensures
        coord::truncated(RU_ONE * x, RU_ONE as int) == x,
        RU_ONE * x == x * RU_ONE,
{
    if x >= 0 {
        assert((RU_ONE * x) / (RU_ONE as int) == x);
    } else {
        let y = -x;
        assert((RU_ONE * y) / (RU_ONE as int) == y);
        assert(-(RU_ONE * x) == RU_ONE * y);
    }
}

/// A transform with the identity before or after it is that transform.
pub proof fn law_identity_is_neutral(t: Transform)
    requires
        t.wf(),
    ensures
        t.composed(Transform::neutral()) == t,
        Transform::neutral().composed(t) == t,
{
    lemma_whole(t.a as int);
    lemma_whole(t.b as int);
    lemma_whole(t.c as int);
    lemma_whole(t.d as int);
    lemma_whole(t.tx as int);
    lemma_whole(t.ty as int);
}

/// A translation and then another is the translation by the sum.
pub proof fn law_translations_compose(x0: Ratio, y0: Ratio, x1: Ratio, y1: Ratio, px: int, py: int)
    requires
        Ratio::MIN <= x0 + x1 <= Ratio::MAX,
        Ratio::MIN <= y0 + y1 <= Ratio::MAX,
    ensures
        ({
            let first = Transform { a: RU_ONE, b: 0, c: 0, d: RU_ONE, tx: x0, ty: y0 };
            let second = Transform { a: RU_ONE, b: 0, c: 0, d: RU_ONE, tx: x1, ty: y1 };
            first.composed(second).image(px, py) == second.image(
                first.image(px, py).0,
                first.image(px, py).1,
            )
        }),
{
    lemma_whole(px);
    lemma_whole(py);
    lemma_whole(x0 as int);
    lemma_whole(y0 as int);
    lemma_whole(px + x0);
    lemma_whole(py + y0);
    lemma_whole(RU_ONE as int);
    assert(0int * px == 0 && 0int * py == 0 && 0int * x0 == 0 && 0int * y0 == 0);
}

/// A whole number.
pub open spec fn whole(v: int) -> bool {
    v % (RU_ONE as int) == 0
}

impl Transform {
    /// All entries are whole numbers.
    pub open spec fn is_whole(self) -> bool {
        &&& whole(self.a as int)
        &&& whole(self.b as int)
        &&& whole(self.c as int)
        &&& whole(self.d as int)
        &&& whole(self.tx as int)
        &&& whole(self.ty as int)
    }
}

/// Nothing is dropped where the second factors are whole.
proof fn lemma_dot_whole(p: int, x: int, q: int, y: int)
    ensures
        dot(p, x * RU_ONE, q, y * RU_ONE) == p * x + q * y,
{
    let s = p * x + q * y;
    assert(p * (x * RU_ONE) + q * (y * RU_ONE) == RU_ONE * s) by (nonlinear_arith)
        requires
            s == p * x + q * y,
    ;
    lemma_whole(s);
}

/// A whole number is a multiple of one.
proof fn lemma_multiple(v: int) -> (k: int)
    requires
        whole(v),
    ensures
        v == k * RU_ONE,
{
    let k = v / (RU_ONE as int);
    vstd::arithmetic::div_mod::lemma_fundamental_div_mod(v, RU_ONE as int);
    assert(RU_ONE * k == k * RU_ONE) by (nonlinear_arith);
    k
}

/// An entry times a small whole number, and another, stay in range.
proof fn lemma_small(p: int, x: int, q: int, y: int)
    requires
        coord::in_range(p),
        coord::in_range(q),
        coord::in_range(x * RU_ONE),
        coord::in_range(y * RU_ONE),
    ensures
        -0x2000_0000_0000_0000 <= p * x + q * y <= 0x2000_0000_0000_0000,
{
    assert(-0x4000 <= x <= 0x4000 && -0x4000 <= y <= 0x4000);
    assert(-0x4000_0000_0000 * 0x4000 <= p * x <= 0x4000_0000_0000 * 0x4000) by (nonlinear_arith)
        requires
            -0x4000_0000_0000 <= p <= 0x4000_0000_0000,
            -0x4000 <= x <= 0x4000,
    ;
    assert(-0x4000_0000_0000 * 0x4000 <= q * y <= 0x4000_0000_0000 * 0x4000) by (nonlinear_arith)
        requires
            -0x4000_0000_0000 <= q <= 0x4000_0000_0000,
            -0x4000 <= y <= 0x4000,
    ;
}

/// Both ways to the image of a point, as plain arithmetic.
proof fn lemma_both_ways(
    p: int,
    q: int,
    t: int,
    a: int,
    b: int,
    c: int,
    d: int,
    e: int,
    f: int,
    x: int,
    y: int,
)
    ensures
        (p * a + q * b) * x + (p * c + q * d) * y + (p * e + q * f + t) == p * (a * x + c * y + e)
            + q * (b * x + d * y + f) + t,
{
    assert((p * a + q * b) * x == p * (a * x) + q * (b * x)) by (nonlinear_arith);
    assert((p * c + q * d) * y == p * (c * y) + q * (d * y)) by (nonlinear_arith);
    assert(p * (a * x + c * y + e) == p * (a * x) + p * (c * y) + p * e) by (nonlinear_arith);
    assert(q * (b * x + d * y + f) == q * (b * x) + q * (d * y) + q * f) by (nonlinear_arith);
}

/// The image under a composition is the image under the second transform of the image under the first,
/// where the first transform and the point are whole; with fractions, what is dropped may differ.
pub proof fn law_composition_applies_in_turn(s: Transform, o: Transform, x: int, y: int)
    requires
        s.wf(),
        o.wf(),
        s.is_whole(),
        whole(x),
        whole(y),
    ensures
        s.composed(o).image(x, y) == o.image(s.image(x, y).0, s.image(x, y).1),
{
    let a = lemma_multiple(s.a as int);
    let b = lemma_multiple(s.b as int);
    let c = lemma_multiple(s.c as int);
    let d = lemma_multiple(s.d as int);
    let e = lemma_multiple(s.tx as int);
    let f = lemma_multiple(s.ty as int);
    let u = lemma_multiple(x);
    let v = lemma_multiple(y);
    let t = s.composed(o);
    lemma_dot_whole(o.a as int, a, o.c as int, b);
    lemma_dot_whole(o.b as int, a, o.d as int, b);
    lemma_dot_whole(o.a as int, c, o.c as int, d);
    lemma_dot_whole(o.b as int, c, o.d as int, d);
    lemma_dot_whole(o.a as int, e, o.c as int, f);
    lemma_dot_whole(o.b as int, e, o.d as int, f);
    lemma_small(o.a as int, a, o.c as int, b);
    lemma_small(o.b as int, a, o.d as int, b);
    lemma_small(o.a as int, c, o.c as int, d);
    lemma_small(o.b as int, c, o.d as int, d);
    lemma_small(o.a as int, e, o.c as int, f);
    lemma_small(o.b as int, e, o.d as int, f);
    assert(t.a == o.a * a + o.c * b);
    assert(t.b == o.b * a + o.d * b);
    assert(t.c == o.a * c + o.c * d);
    assert(t.d == o.b * c + o.d * d);
    assert(t.tx == o.a * e + o.c * f + o.tx);
    assert(t.ty == o.b * e + o.d * f + o.ty);
    lemma_dot_whole(t.a as int, u, t.c as int, v);
    lemma_dot_whole(t.b as int, u, t.d as int, v);
    lemma_dot_whole(s.a as int, u, s.c as int, v);
    lemma_dot_whole(s.b as int, u, s.d as int, v);
    let g = a * u + c * v + e;
    let h = b * u + d * v + f;
    assert(s.a * u + s.c * v + s.tx == g * RU_ONE) by (nonlinear_arith)
        requires
            s.a == a * RU_ONE,
            s.c == c * RU_ONE,
            s.tx == e * RU_ONE,
            g == a * u + c * v + e,
    ;
    assert(s.b * u + s.d * v + s.ty == h * RU_ONE) by (nonlinear_arith)
        requires
            s.b == b * RU_ONE,
            s.d == d * RU_ONE,
            s.ty == f * RU_ONE,
            h == b * u + d * v + f,
    ;
    lemma_dot_whole(o.a as int, g, o.c as int, h);
    lemma_dot_whole(o.b as int, g, o.d as int, h);
    lemma_both_ways(o.a as int, o.c as int, o.tx as int, a, b, c, d, e, f, u, v);
    lemma_both_ways(o.b as int, o.d as int, o.ty as int, a, b, c, d, e, f, u, v);
}

/// An angle and the first angle of its bin lie in the same bin, so snapping twice is snapping once.
pub proof fn law_snapped_angle_keeps_its_bin(turn: int, divs: int)
    requires
        0 <= turn < 0x1_0000_0000,
        0 < divs <= 0x1_0000_0000,
    ensures
        bin_of(bin_start(bin_of(turn, divs), divs), divs) == bin_of(turn, divs),
        0 <= bin_start(bin_of(turn, divs), divs) <= turn,
{
    let p = turn * divs;
    let one = 0x1_0000_0000int;
    let bin = p / one;
    let top = bin * one + divs - 1;
    let start = top / divs;
    assert(p >= 0) by (nonlinear_arith)
        requires
            p == turn * divs,
            turn >= 0,
            divs > 0,
    ;
    vstd::arithmetic::div_mod::lemma_fundamental_div_mod(top, divs);
    assert(divs * start == start * divs) by (nonlinear_arith);
    assert(bin * one <= start * divs < bin * one + divs);
    assert(start <= turn) by (nonlinear_arith)
        requires
            start * divs < bin * one + divs,
            bin * one <= p,
            p == turn * divs,
            divs > 0,
    ;
    vstd::arithmetic::div_mod::lemma_div_pos_is_pos(top, divs);
    assert(start * divs / one == bin) by {
        let r = start * divs - bin * one;
        assert(start * divs == bin * one + r && 0 <= r < divs);
        vstd::arithmetic::div_mod::lemma_fundamental_div_mod_converse(start * divs, one, bin, r);
    }
}

/// A rotation takes the unit along x to the angle's cosine and sine, and the unit along y a right angle
/// further; a quarter turn takes x to y and y to the negative x.
pub proof fn law_rotation_turns_the_axes(sin: Ratio, cos: Ratio, v: int)
    requires
        sin > Ratio::MIN,
    ensures
        Transform::rotation(sin, cos).image(RU_ONE as int, 0) == (cos as int, sin as int),
        Transform::rotation(sin, cos).image(0, RU_ONE as int) == (-sin as int, cos as int),
        Transform::rotation(sin, cos).image(0, 0) == (0int, 0int),
        Transform::rotation(RU_ONE, 0).image(v, 0) == (0int, v),
        Transform::rotation(RU_ONE, 0).image(0, v) == (-v, 0int),
{
    let one = RU_ONE as int;
    lemma_one(cos as int);
    lemma_one(sin as int);
    lemma_one(-sin as int);
    lemma_one(v);
    lemma_one(-v);
    assert(one * v == v * one && (-one) * v == (-v) * one) by (nonlinear_arith);
    assert(cos * 0 == 0 && sin * 0 == 0 && (-sin) * 0 == 0 && 0 * v == 0 && one * 0 == 0);
}

/// A unit times a number is the number.
proof fn lemma_one(v: int)
    ensures
        coord::truncated(v * RU_ONE, RU_ONE as int) == v,
        dot(v, RU_ONE as int, 0, 0) == v,
{
    if v < 0 {
        assert(-(v * RU_ONE) == (-v) * RU_ONE) by (nonlinear_arith);
    }
    assert(0int * 0int == 0);
}

/// A scaling multiplies each coordinate by its own factor, a skew adds a part of the other coordinate,
/// and a move adds to each; the fraction beyond 32 bits is dropped.
pub proof fn law_plain_transforms(p: Ratio, q: Ratio, x: int, y: int)
    ensures
        Transform::scaling(p, q).image(x, y) == (
            coord::truncated(p * x, RU_ONE as int),
            coord::truncated(q * y, RU_ONE as int),
        ),
        Transform::translation(p, q).image(x, y) == (x + p, y + q),
        Transform::skewing(p, q).image(x, 0).0 == x,
        Transform::skewing(p, q).image(0, y).1 == y,
        Transform::skewing(p, q).image(0, RU_ONE as int).0 == p,
        Transform::skewing(p, q).image(RU_ONE as int, 0).1 == q,
{
    let one = RU_ONE as int;
    lemma_one(x);
    lemma_one(y);
    lemma_one(p as int);
    lemma_one(q as int);
    assert(0 * y == 0 && 0 * x == 0 && p * 0 == 0 && q * 0 == 0 && one * 0 == 0);
    assert(one * x == x * one && one * y == y * one) by (nonlinear_arith);
}

/// The bounding box of a turned rectangle holds the images of all its corners, and each of its sides
/// goes through one of them.
pub proof fn law_box_holds_the_corners(v: (int, int, int, int))
    ensures
        least(v) <= v.0 <= greatest(v),
        least(v) <= v.1 <= greatest(v),
        least(v) <= v.2 <= greatest(v),
        least(v) <= v.3 <= greatest(v),
        least(v) == v.0 || least(v) == v.1 || least(v) == v.2 || least(v) == v.3,
        greatest(v) == v.0 || greatest(v) == v.1 || greatest(v) == v.2 || greatest(v) == v.3,
{
}

/// The number of bins is the least multiple of `k` that is not below `raw`.
pub proof fn law_divisions_are_the_next_multiple(raw: int, k: int, m: int)
    requires
        raw >= 0,
        k > 0,
    ensures
        divisions(raw, k) % k == 0,
        raw <= divisions(raw, k) < raw + k,
        m * k >= raw ==> divisions(raw, k) <= m * k,
{
    let q = (raw + k - 1) / k;
    vstd::arithmetic::div_mod::lemma_fundamental_div_mod(raw + k - 1, k);
    vstd::arithmetic::div_mod::lemma_mod_bound(raw + k - 1, k);
    assert(k * q == q * k) by (nonlinear_arith);
    vstd::arithmetic::div_mod::lemma_mod_multiples_basic(q, k);
    if m * k >= raw {
        assert(m >= q) by (nonlinear_arith)
            requires
                m * k >= raw,
                q * k < raw + k,
                k > 0,
        ;
        assert(q * k <= m * k) by (nonlinear_arith)
            requires
                q <= m,
                k > 0,
        ;
    }
}

} // verus!
