//! Pixel rectangles, damage tracking and the canvas that the rasterisers draw on.
use vstd::prelude::*;

verus! {

/// The row of cell `i` in a grid `w` cells wide.
pub open spec fn row_of(i: int, w: int) -> int {
    i / w
}

/// The column of cell `i` in a grid `w` cells wide.
pub open spec fn col_of(i: int, w: int) -> int {
    i % w
}

/// Cell `i` of a grid `w` cells wide lies in columns `x0..x1` and rows `y0..y1`.
pub open spec fn in_rect(i: int, w: int, x0: int, y0: int, x1: int, y1: int) -> bool {
    x0 <= col_of(i, w) < x1 && y0 <= row_of(i, w) < y1
}

/// Cell numbers and (column, row) pairs of a grid `w` cells wide are in one-to-one relation.
pub proof fn lemma_grid(w: int)
    requires
        w > 0,
    ensures
        forall|i: int|
            #![trigger row_of(i, w)]
            #![trigger col_of(i, w)]
            i == row_of(i, w) * w + col_of(i, w) && 0 <= col_of(i, w) < w && (i >= 0 ==> row_of(
                i,
                w,
            ) >= 0),
{
    assert forall|i: int|
        #![trigger row_of(i, w)]
        #![trigger col_of(i, w)]
        i == row_of(i, w) * w + col_of(i, w) && 0 <= col_of(i, w) < w && (i >= 0 ==> row_of(i, w)
            >= 0) by {
        vstd::arithmetic::div_mod::lemma_fundamental_div_mod(i, w);
        vstd::arithmetic::mul::lemma_mul_is_commutative(w, i / w);
        if i >= 0 {
            vstd::arithmetic::div_mod::lemma_div_pos_is_pos(i, w);
        }
    }
}

/// The cell at column `x` of row `y`.
pub proof fn lemma_cell(x: int, y: int, w: int)
    requires
        0 <= x < w,
    ensures
        row_of(y * w + x, w) == y,
        col_of(y * w + x, w) == x,
{
    vstd::arithmetic::div_mod::lemma_fundamental_div_mod_converse(y * w + x, w, y, x);
}

/// A cell of the first `h` rows lies in the first `w * h` cells.
pub proof fn lemma_cell_bound(x: int, y: int, w: int, h: int)
    requires
        0 <= x < w,
        0 <= y < h,
    ensures
        0 <= y * w,
        0 <= y * w + x < w * h,
        y * w + w <= w * h,
{
    assert(0 <= y * w && y * w + w <= w * h) by (nonlinear_arith)
        requires
            0 <= x < w,
            0 <= y < h,
    ;
}

/// A half-open pixel rectangle: columns `x0..x1`, rows `y0..y1`.
#[derive(Clone, Copy, Debug, PartialEq, Eq, Structural)]
pub struct PixelRect {
    pub x0: usize,
    pub y0: usize,
    pub x1: usize,
    pub y1: usize,
}

/// The smaller of two sizes.
pub open spec fn min_size(a: usize, b: usize) -> usize {
    if a <= b {
        a
    } else {
        b
    }
}

/// The larger of two sizes.
pub open spec fn max_size(a: usize, b: usize) -> usize {
    if a >= b {
        a
    } else {
        b
    }
}

impl PixelRect {
    /// The rectangle holds no pixel.
    pub open spec fn empty(self) -> bool {
        self.x0 >= self.x1 || self.y0 >= self.y1
    }

    /// Column `x` of row `y` lies in the rectangle.
    pub open spec fn holds(self, x: int, y: int) -> bool {
        self.x0 <= x < self.x1 && self.y0 <= y < self.y1
    }

    /// The smallest rectangle that holds both.
    pub open spec fn hull(self, other: PixelRect) -> PixelRect {
        PixelRect {
            x0: min_size(self.x0, other.x0),
            y0: min_size(self.y0, other.y0),
            x1: max_size(self.x1, other.x1),
            y1: max_size(self.y1, other.y1),
        }
    }

    pub fn new(x0: usize, y0: usize, x1: usize, y1: usize) -> (r: PixelRect)
        ensures
            r == (PixelRect { x0, y0, x1, y1 }),
    {
        PixelRect { x0, y0, x1, y1 }
    }

    pub fn is_empty(&self) -> (e: bool)
        ensures
            e == self.empty(),
    {
        self.x0 >= self.x1 || self.y0 >= self.y1
    }

    /// The smallest rectangle that holds both.
    pub fn union(self, other: PixelRect) -> (r: PixelRect)
        ensures
            r == self.hull(other),
    {
        PixelRect {
            x0: lesser(self.x0, other.x0),
            y0: lesser(self.y0, other.y0),
            x1: greater(self.x1, other.x1),
            y1: greater(self.y1, other.y1),
        }
    }
}

/// The smaller of two sizes.
pub fn lesser(a: usize, b: usize) -> (m: usize)
    ensures
        m == min_size(a, b),
{
    if a <= b {
        a
    } else {
        b
    }
}

/// The larger of two sizes.
pub fn greater(a: usize, b: usize) -> (m: usize)
    ensures
        m == max_size(a, b),
{
    if a >= b {
        a
    } else {
        b
    }
}

/// `rect` joined with `other`, where an empty `other` adds nothing.
pub open spec fn joined(rect: Option<PixelRect>, other: PixelRect) -> Option<PixelRect> {
    if other.empty() {
        rect
    } else {
        match rect {
            None => Some(other),
            Some(r) => Some(r.hull(other)),
        }
    }
}

/// `rect` joined with `other`, where an empty `other` adds nothing.
pub fn join(rect: Option<PixelRect>, other: PixelRect) -> (r: Option<PixelRect>)
    ensures
        r == joined(rect, other),
{
    if other.is_empty() {
        rect
    } else {
        match rect {
            None => Some(other),
            Some(r) => Some(r.union(other)),
        }
    }
}

/// The bounding box of everything drawn since the last reset.
#[derive(Clone, Copy, Debug)]
pub struct Damage {
    bounds: Option<PixelRect>,
}

impl Damage {
    /// The bounding box of what was drawn, `None` where nothing was.
    pub closed spec fn rect(self) -> Option<PixelRect> {
        self.bounds
    }

    pub fn new() -> (d: Damage)
        ensures
            d.rect() is None,
    {
        Damage { bounds: None }
    }

    /// Grows the box to cover columns `x0..x1` of rows `y0..y1`; an empty range adds nothing.
    pub fn add_bounds(&mut self, x0: usize, y0: usize, x1: usize, y1: usize)
        ensures
            final(self).rect() == joined(old(self).rect(), (PixelRect { x0, y0, x1, y1 })),
    {
        self.bounds = join(self.bounds, PixelRect::new(x0, y0, x1, y1));
    }

    /// The bounding box of what was drawn.
    pub fn bounds(&self) -> (r: Option<PixelRect>)
        ensures
            r == self.rect(),
    {
        self.bounds
    }
}

/// A pixel buffer, `width` columns by `height` rows, with the damage that drawing on it does.
pub struct Canvas<'a> {
    pub pixels: &'a mut [u32],
    pub width: usize,
    pub height: usize,
    pub damage: &'a mut Damage,
}

impl<'a> Canvas<'a> {
    /// The buffer holds all rows of the canvas.
    pub open spec fn fits(&self) -> bool {
        self.width * self.height <= self.pixels@.len()
    }

    pub fn new(pixels: &'a mut [u32], width: usize, height: usize, damage: &'a mut Damage) -> (c:
        Canvas<'a>)
        ensures
            c.pixels@ == old(pixels)@,
            c.width == width,
            c.height == height,
            *c.damage == *old(damage),
            final(c.pixels)@ == final(pixels)@,
            *final(c.damage) == *final(damage),
    {
        Canvas { pixels, width, height, damage }
    }
}

/// Replaces every cell in columns `x0..x1` of rows `y0..y1` by what `f` makes of it, its column and its
/// row. Every other cell stays.
pub fn map_rect<T: Copy, F: Fn(T, usize, usize) -> T>(
    pixels: &mut [T],
    w: usize,
    x0: usize,
    y0: usize,
    x1: usize,
    y1: usize,
    f: F,
)
    requires
        x0 < x1 && y0 < y1 ==> x1 <= w && w * y1 <= old(pixels)@.len(),
        forall|p: T, x: usize, y: usize|
            x0 <= x < x1 && y0 <= y < y1 ==> #[trigger] f.requires((p, x, y)),
    ensures
        final(pixels)@.len() == old(pixels)@.len(),
        forall|i: int|
            #![trigger final(pixels)@[i]]
            0 <= i < old(pixels)@.len() ==> if in_rect(
                i,
                w as int,
                x0 as int,
                y0 as int,
                x1 as int,
                y1 as int,
            ) {
                f.ensures(
                    (old(pixels)@[i], col_of(i, w as int) as usize, row_of(i, w as int) as usize),
                    final(pixels)@[i],
                )
            } else {
                final(pixels)@[i] == old(pixels)@[i]
            },
{
    if x0 >= x1 || y0 >= y1 {
        return;
    }
    let n: usize = pixels.len();
    let ghost before = pixels@;
    let ghost width = w as int;
    proof {
        lemma_grid(width);
    }
    let mut y: usize = y0;
    while y < y1
        invariant
            0 < w,
            width == w as int,
            x0 < x1 <= w,
            y0 <= y <= y1,
            w * y1 <= before.len(),
            before.len() == n,
            pixels@.len() == n,
            forall|p: T, x: usize, y: usize|
                x0 <= x < x1 && y0 <= y < y1 ==> #[trigger] f.requires((p, x, y)),
            forall|i: int|
                #![trigger row_of(i, width)]
                #![trigger col_of(i, width)]
                i == row_of(i, width) * width + col_of(i, width) && 0 <= col_of(i, width) < width
                    && (i >= 0 ==> row_of(i, width) >= 0),
            forall|i: int|
                #![trigger pixels@[i]]
                0 <= i < before.len() ==> if in_rect(
                    i,
                    width,
                    x0 as int,
                    y0 as int,
                    x1 as int,
                    y as int,
                ) {
                    f.ensures(
                        (before[i], col_of(i, width) as usize, row_of(i, width) as usize),
                        pixels@[i],
                    )
                } else {
                    pixels@[i] == before[i]
                },
        decreases y1 - y,
    {
        proof {
            lemma_cell_bound(0, y as int, width, y1 as int);
        }
        let base: usize = y * w;
        let mut x: usize = x0;
        while x < x1
            invariant
                0 < w,
                width == w as int,
                x0 < x1 <= w,
                x0 <= x <= x1,
                y0 <= y < y1,
                base == y * w,
                base + w <= before.len(),
                before.len() == n,
                pixels@.len() == n,
                forall|p: T, x: usize, y: usize|
                    x0 <= x < x1 && y0 <= y < y1 ==> #[trigger] f.requires((p, x, y)),
                forall|i: int|
                    #![trigger row_of(i, width)]
                    #![trigger col_of(i, width)]
                    i == row_of(i, width) * width + col_of(i, width) && 0 <= col_of(i, width)
                        < width && (i >= 0 ==> row_of(i, width) >= 0),
                forall|i: int|
                    #![trigger pixels@[i]]
                    0 <= i < before.len() ==> if in_rect(
                        i,
                        width,
                        x0 as int,
                        y0 as int,
                        x1 as int,
                        y as int,
                    ) || in_rect(i, width, x0 as int, y as int, x as int, y + 1) {
                        f.ensures(
                            (before[i], col_of(i, width) as usize, row_of(i, width) as usize),
                            pixels@[i],
                        )
                    } else {
                        pixels@[i] == before[i]
                    },
            decreases x1 - x,
        {
            proof {
                lemma_cell(x as int, y as int, width);
            }
            let idx: usize = base + x;
            let ghost prev = pixels@;
            assert(prev[idx as int] == before[idx as int]);
            let p = pixels[idx];
            let q = f(p, x, y);
            pixels[idx] = q;
            x += 1;
        }
        y += 1;
    }
}

/// As [`map_rect`], on a buffer that may end within the rectangle: cells beyond it are passed over.
pub fn map_cells<T: Copy, F: Fn(T, usize, usize) -> T>(
    pixels: &mut [T],
    w: usize,
    x0: usize,
    y0: usize,
    x1: usize,
    y1: usize,
    f: F,
)
    requires
        x0 < x1 && y0 < y1 ==> x1 <= w,
        forall|p: T, x: usize, y: usize|
            x0 <= x < x1 && y0 <= y < y1 && y * w + x < old(pixels)@.len()
                ==> #[trigger] f.requires((p, x, y)),
    ensures
        final(pixels)@.len() == old(pixels)@.len(),
        forall|i: int|
            #![trigger final(pixels)@[i]]
            0 <= i < old(pixels)@.len() ==> if in_rect(
                i,
                w as int,
                x0 as int,
                y0 as int,
                x1 as int,
                y1 as int,
            ) {
                f.ensures(
                    (old(pixels)@[i], col_of(i, w as int) as usize, row_of(i, w as int) as usize),
                    final(pixels)@[i],
                )
            } else {
                final(pixels)@[i] == old(pixels)@[i]
            },
{
    if x0 >= x1 || y0 >= y1 {
        return;
    }
    let n: usize = pixels.len();
    let ghost before = pixels@;
    let ghost width = w as int;
    let rows: usize = n / w;
    let rest: usize = n % w;
    proof {
        lemma_grid(width);
        vstd::arithmetic::div_mod::lemma_fundamental_div_mod(n as int, width);
        vstd::arithmetic::mul::lemma_mul_is_commutative(width, rows as int);
    }
    let full: usize = lesser(y1, rows);
    proof {
        assert(w * full <= w * rows) by (nonlinear_arith)
            requires
                full <= rows,
        ;
        assert forall|p: T, x: usize, y: usize|
            x0 <= x < x1 && y0 <= y < full implies #[trigger] f.requires((p, x, y)) by {
            lemma_cell_bound(x as int, y as int, width, rows as int);
        }
    }
    map_rect(pixels, w, x0, y0, x1, full, &f);
    if y0 <= rows && rows < y1 {
        let base: usize = rows * w;
        let x_end: usize = lesser(x1, rest);
        let mut x: usize = x0;
        while x < x_end
            invariant
                0 < w,
                width == w as int,
                x0 < x1 <= w,
                x0 <= x,
                x <= x_end || x == x0,
                x_end == min_size(x1, rest),
                y0 <= rows < y1,
                base == rows * w,
                base + rest == n,
                rest < w,
                before.len() == n,
                pixels@.len() == n,
                full == rows,
                forall|p: T, x: usize, y: usize|
                    x0 <= x < x1 && y0 <= y < y1 && y * w + x < n ==> #[trigger] f.requires(
                        (p, x, y),
                    ),
                forall|i: int|
                    #![trigger row_of(i, width)]
                    #![trigger col_of(i, width)]
                    i == row_of(i, width) * width + col_of(i, width) && 0 <= col_of(i, width)
                        < width && (i >= 0 ==> row_of(i, width) >= 0),
                forall|i: int|
                    #![trigger pixels@[i]]
                    0 <= i < n ==> if in_rect(
                        i,
                        width,
                        x0 as int,
                        y0 as int,
                        x1 as int,
                        full as int,
                    ) || in_rect(i, width, x0 as int, rows as int, x as int, rows + 1) {
                        f.ensures(
                            (before[i], col_of(i, width) as usize, row_of(i, width) as usize),
                            pixels@[i],
                        )
                    } else {
                        pixels@[i] == before[i]
                    },
            decreases x_end - x,
        {
            proof {
                lemma_cell(x as int, rows as int, width);
            }
            let idx: usize = base + x;
            assert(pixels@[idx as int] == before[idx as int]);
            let p = pixels[idx];
            let q = f(p, x, rows);
            pixels[idx] = q;
            x += 1;
        }
    }
    proof {
        assert forall|i: int| 0 <= i < n implies row_of(i, width) <= rows && (row_of(i, width)
            == rows ==> col_of(i, width) < rest) by {
            if row_of(i, width) > rows {
                lemma_cell_bound(0, rows as int, width, row_of(i, width));
                vstd::arithmetic::mul::lemma_mul_is_commutative(width, row_of(i, width));
            }
        }
        assert forall|i: int| #![trigger pixels@[i]] 0 <= i < n implies if in_rect(
            i,
            width,
            x0 as int,
            y0 as int,
            x1 as int,
            y1 as int,
        ) {
            f.ensures(
                (before[i], col_of(i, width) as usize, row_of(i, width) as usize),
                pixels@[i],
            )
        } else {
            pixels@[i] == before[i]
        } by {
            assert(row_of(i, width) <= rows);
        }
    }
}

/// The union of two rectangles holds every pixel of both, and no rectangle that does is smaller: each of
/// its edges is an edge of one of them.
pub proof fn law_union_holds_both(a: PixelRect, b: PixelRect, x: int, y: int)
    ensures
        a.holds(x, y) || b.holds(x, y) ==> a.hull(b).holds(x, y),
        forall|c: PixelRect|
            c.x0 <= a.x0 && c.x0 <= b.x0 && c.y0 <= a.y0 && c.y0 <= b.y0 && c.x1 >= a.x1 && c.x1
                >= b.x1 && c.y1 >= a.y1 && c.y1 >= b.y1 && #[trigger] a.hull(b).holds(x, y)
                ==> #[trigger] c.holds(x, y),
        a.hull(b) == b.hull(a),
        a.hull(a) == a,
{
}

/// Damage holds what was damaged before and what is added, and grows by nothing for an empty
/// rectangle.
pub proof fn law_damage_holds_what_was_drawn(
    rect: Option<PixelRect>,
    other: PixelRect,
    x: int,
    y: int,
)
    ensures
        other.holds(x, y) ==> joined(rect, other) is Some && (joined(rect, other)->0).holds(x, y),
        rect is Some && (rect->0).holds(x, y) ==> joined(rect, other) is Some && (joined(
            rect,
            other,
        )->0).holds(x, y),
        other.empty() ==> joined(rect, other) == rect,
        rect is None && !other.empty() ==> joined(rect, other) == Some(other),
{
}

} // verus!
