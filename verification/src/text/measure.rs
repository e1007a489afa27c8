//! The widths of shaped lines.
use crate::coord::{self, Coord, COORD_MAX};
use vstd::prelude::*;

verus! {

/// Where a glyph of a shaped line stands and how far it advances.
#[derive(Clone, Copy, Debug, PartialEq, Eq, Structural)]
pub struct Advance {
    pub x: Coord,
    pub w: Coord,
}

/// The longest line that is measured, in glyphs.
pub const MAX_LINE: usize = 0x1_0000;

/// The places and advances are those of a layout.
pub open spec fn line_ok(line: Seq<Advance>) -> bool {
    forall|i: int|
        0 <= i < line.len() ==> coord::in_range((#[trigger] line[i]).x as int) && coord::in_range(
            line[i].w as int,
        )
}

/// The right end of the first `n` glyphs, at least `floor`.
pub open spec fn right_end(line: Seq<Advance>, floor: int, n: int) -> int
    decreases n,
{
    if n <= 0 {
        floor
    } else {
        vstd::math::max(right_end(line, floor, n - 1), line[n - 1].x + line[n - 1].w)
    }
}

/// The left end of the first `n` glyphs, at least one.
pub open spec fn left_end(line: Seq<Advance>, n: int) -> int
    decreases n,
{
    if n <= 1 {
        line[0].x as int
    } else {
        vstd::math::min(left_end(line, n - 1), line[n - 1].x as int)
    }
}

/// The advances of the first `n` glyphs together.
pub open spec fn advance_sum(line: Seq<Advance>, n: int) -> int
    decreases n,
{
    if n <= 0 {
        0
    } else {
        advance_sum(line, n - 1) + line[n - 1].w
    }
}

/// The right end of a line, counted from its start and never negative: the width of text that starts or
/// ends at its anchor.
pub fn line_reach(line: &[Advance]) -> (w: Coord)
    requires
        line_ok(line@),
    ensures
        w == right_end(line@, 0, line@.len() as int),
        0 <= w <= 2 * COORD_MAX,
{
    let mut reach: Coord = 0;
    let mut i: usize = 0;
    while i < line.len()
        invariant
            0 <= i <= line@.len(),
            line_ok(line@),
            reach == right_end(line@, 0, i as int),
            0 <= reach <= 2 * COORD_MAX,
        decreases line@.len() - i,
    {
        let end: Coord = line[i].x + line[i].w;
        if end > reach {
            reach = end;
        }
        i = i + 1;
    }
    reach
}

/// The distance between the two ends of a line: the width of text that is centred on its anchor. `None`
/// for a line without glyphs.
pub fn line_extent(line: &[Advance]) -> (w: Option<Coord>)
    requires
        line_ok(line@),
    ensures
        match w {
            None => line@.len() == 0,
            Some(v) => line@.len() > 0 && v == right_end(
                line@,
                line@[0].x + line@[0].w,
                line@.len() as int,
            ) - left_end(line@, line@.len() as int),
        },
{
    if line.len() == 0 {
        return None;
    }
    let mut left: Coord = line[0].x;
    let first: Coord = line[0].x + line[0].w;
    let mut right: Coord = first;
    let mut i: usize = 1;
    assert(right_end(line@, first as int, 1) == first) by {
        reveal_with_fuel(right_end, 2);
    }
    while i < line.len()
        invariant
            1 <= i <= line@.len(),
            line_ok(line@),
            first == line@[0].x + line@[0].w,
            left == left_end(line@, i as int),
            right == right_end(line@, first as int, i as int),
            -2 * COORD_MAX <= right <= 2 * COORD_MAX,
            -COORD_MAX <= left <= COORD_MAX,
        decreases line@.len() - i,
    {
        let end: Coord = line[i].x + line[i].w;
        if end > right {
            right = end;
        }
        if line[i].x < left {
            left = line[i].x;
        }
        i = i + 1;
    }
    Some(right - left)
}

/// The advances of a line together: the width of text that is added to a buffer.
pub fn line_advance(line: &[Advance]) -> (w: Coord)
    requires
        line_ok(line@),
        line@.len() <= MAX_LINE,
    ensures
        w == advance_sum(line@, line@.len() as int),
{
    let mut sum: Coord = 0;
    let mut i: usize = 0;
    while i < line.len()
        invariant
            0 <= i <= line@.len(),
            line@.len() <= MAX_LINE,
            line_ok(line@),
            sum == advance_sum(line@, i as int),
            -(i * COORD_MAX) <= sum <= i * COORD_MAX,
        decreases line@.len() - i,
    {
        proof {
            assert(i * COORD_MAX <= MAX_LINE * COORD_MAX) by (nonlinear_arith)
                requires
                    i <= MAX_LINE,
            ;
            assert((i + 1) * COORD_MAX == i * COORD_MAX + COORD_MAX) by (nonlinear_arith);
        }
        sum = sum + line[i].w;
        i = i + 1;
    }
    sum
}

/// The larger of two widths.
pub fn wider(a: Coord, b: Coord) -> (w: Coord)
    ensures
        w == vstd::math::max(a as int, b as int),
{
    if a > b {
        a
    } else {
        b
    }
}

/// The advances of the characters `from..to` together, in whole pixels.
pub open spec fn whole_sum(widths: Seq<usize>, from: int, to: int) -> int
    decreases to - from,
{
    if to <= from {
        0
    } else {
        whole_sum(widths, from, to - 1) + widths[to - 1]
    }
}

/// Where scrolled text ends: behind the last character that is asked for, or behind the text.
pub open spec fn scroll_end(end: int, len: int) -> int {
    vstd::math::min(end, len)
}

/// The columns of the characters `start..end` of a text of `len` characters, where the first of them
/// stands at `x_start` and each moves the next on by its width in whole pixels.
pub fn scroll_places(
    widths: &[usize],
    len: usize,
    start: usize,
    end: usize,
    x_start: Coord,
) -> (places: Vec<Coord>)
    requires
        start < scroll_end(end as int, len as int) ==> scroll_end(end as int, len as int)
            <= widths@.len(),
        coord::in_range(x_start as int),
        start < scroll_end(end as int, len as int) ==> x_start + whole_sum(
            widths@,
            start as int,
            scroll_end(end as int, len as int),
        ) * coord::PX <= Coord::MAX,
    ensures
        places@.len() == (if start < scroll_end(end as int, len as int) {
            scroll_end(end as int, len as int) - start
        } else {
            0
        }),
        forall|i: int|
            0 <= i < places@.len() ==> #[trigger] places@[i] == x_start + whole_sum(
                widths@,
                start as int,
                start + i,
            ) * coord::PX,
{
    let mut places: Vec<Coord> = Vec::new();
    let stop: usize = if end < len {
        end
    } else {
        len
    };
    let mut x: Coord = x_start;
    let mut i: usize = start;
    while i < stop
        invariant
            stop == scroll_end(end as int, len as int),
            start < stop ==> stop <= widths@.len(),
            start <= i,
            i <= stop || i == start,
            coord::in_range(x_start as int),
            start < stop ==> x_start + whole_sum(widths@, start as int, stop as int) * coord::PX
                <= Coord::MAX,
            x == x_start + whole_sum(widths@, start as int, i as int) * coord::PX,
            places@.len() == i - start,
            forall|k: int|
                0 <= k < places@.len() ==> #[trigger] places@[k] == x_start + whole_sum(
                    widths@,
                    start as int,
                    start + k,
                ) * coord::PX,
        decreases stop - i,
    {
        places.push(x);
        proof {
            lemma_whole_sum(widths@, start as int, i as int, i + 1);
            lemma_whole_sum(widths@, start as int, i + 1, stop as int);
            lemma_whole_sum(widths@, start as int, start as int, i as int);
        }
        x = (x as i128 + widths[i] as i128 * 0x1_0000) as i64;
        i = i + 1;
    }
    places
}

/// Widths are never negative, so the sum grows with each character.
proof fn lemma_whole_sum(widths: Seq<usize>, from: int, i: int, to: int)
    requires
        from <= i <= to,
    ensures
        whole_sum(widths, from, i) <= whole_sum(widths, from, to),
        0 <= whole_sum(widths, from, i),
    decreases to - from,
{
    if from < to {
        if i < to {
            lemma_whole_sum(widths, from, i, to - 1);
        } else {
            lemma_whole_sum(widths, from, to - 1, to - 1);
        }
    }
}

/// The right end of a line is the furthest right that a glyph of it reaches, or the floor: no glyph
/// reaches further, and one of them reaches it.
pub proof fn law_right_end_is_the_furthest(line: Seq<Advance>, floor: int, n: int)
    requires
        0 <= n <= line.len(),
    ensures
        right_end(line, floor, n) >= floor,
        forall|i: int| 0 <= i < n ==> right_end(line, floor, n) >= (#[trigger] line[i]).x + line[i].w,
        right_end(line, floor, n) == floor || exists|i: int|
            0 <= i < n && right_end(line, floor, n) == (#[trigger] line[i]).x + line[i].w,
    decreases n,
{
    if n > 0 {
        law_right_end_is_the_furthest(line, floor, n - 1);
        let before = right_end(line, floor, n - 1);
        if right_end(line, floor, n) != before {
            assert(right_end(line, floor, n) == line[n - 1].x + line[n - 1].w);
        } else if before != floor {
            let i = choose|i: int|
                0 <= i < n - 1 && before == (#[trigger] line[i]).x + line[i].w;
            assert(right_end(line, floor, n) == line[i].x + line[i].w);
        }
    }
}

/// The left end of a line is the furthest left that a glyph of it starts: none starts before it, and one
/// of them starts there.
pub proof fn law_left_end_is_the_furthest(line: Seq<Advance>, n: int)
    requires
        1 <= n <= line.len(),
    ensures
        forall|i: int| 0 <= i < n ==> left_end(line, n) <= (#[trigger] line[i]).x,
        exists|i: int| 0 <= i < n && left_end(line, n) == (#[trigger] line[i]).x,
    decreases n,
{
    if n > 1 {
        law_left_end_is_the_furthest(line, n - 1);
        let i = choose|i: int| 0 <= i < n - 1 && left_end(line, n - 1) == (#[trigger] line[i]).x;
        assert(line[i].x == left_end(line, n - 1));
        assert(line[n - 1].x == line[n - 1].x);
    } else {
        assert(left_end(line, n) == line[0].x);
    }
}

/// Advances add up: those of two lines one behind the other are those of both.
pub proof fn law_advances_add_up(a: Seq<Advance>, b: Seq<Advance>, n: int)
    requires
        0 <= n <= b.len(),
    ensures
        advance_sum(a + b, a.len() + n) == advance_sum(a, a.len() as int) + advance_sum(b, n),
        advance_sum(b, 0) == 0,
        n < b.len() ==> advance_sum(b, n + 1) == advance_sum(b, n) + b[n].w,
    decreases n,
{
    if n > 0 {
        law_advances_add_up(a, b, n - 1);
        assert((a + b)[a.len() + n - 1] == b[n - 1]);
    } else {
        lemma_advance_of_first(a, b, a.len() as int);
    }
}

proof fn lemma_advance_of_first(a: Seq<Advance>, b: Seq<Advance>, n: int)
    requires
        0 <= n <= a.len(),
    ensures
        advance_sum(a + b, n) == advance_sum(a, n),
    decreases n,
{
    if n > 0 {
        lemma_advance_of_first(a, b, n - 1);
        assert((a + b)[n - 1] == a[n - 1]);
    }
}

} // verus!
