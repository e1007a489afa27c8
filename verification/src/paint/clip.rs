//! Clip rectangles and alpha masks.
use crate::canvas::{self, PixelRect};
use vstd::prelude::*;

verus! {

/// Per-pixel hit-test identifier.
pub type HitId = u16;

/// The identifier of "no widget here"; registered ones start at 1.
pub const HIT_NONE: HitId = 0;

/// `v` limited to `lo..=hi`.
pub open spec fn clamp_int(v: int, lo: int, hi: int) -> int {
    if v < lo {
        lo
    } else if v > hi {
        hi
    } else {
        v
    }
}

/// A clip rectangle in buffer pixels; `x_end` and `y_end` are exclusive.
#[derive(Clone, Copy, Debug, PartialEq, Eq, Structural)]
pub struct Clip {
    pub x_start: usize,
    pub y_start: usize,
    pub x_end: usize,
    pub y_end: usize,
}

impl Clip {
    /// The whole buffer.
    pub open spec fn whole(w: usize, h: usize) -> Clip {
        Clip { x_start: 0, y_start: 0, x_end: w, y_end: h }
    }

    /// The clip that `opt` stands for on a `w` by `h` buffer.
    pub open spec fn resolved(opt: Option<Clip>, w: usize, h: usize) -> Clip {
        match opt {
            Some(c) => c,
            None => Clip::whole(w, h),
        }
    }

    /// Start does not come after end, and the clip lies inside a `w` by `h` buffer.
    pub open spec fn within(self, w: usize, h: usize) -> bool {
        self.x_start <= self.x_end <= w && self.y_start <= self.y_end <= h
    }

    pub fn new(x_start: usize, y_start: usize, x_end: usize, y_end: usize) -> (c: Clip)
        ensures
            c == (Clip { x_start, y_start, x_end, y_end }),
    {
        Clip { x_start, y_start, x_end, y_end }
    }

    /// The clip that covers the whole buffer.
    pub fn buffer(buf_w: usize, buf_h: usize) -> (c: Clip)
        ensures
            c == Clip::whole(buf_w, buf_h),
    {
        Clip { x_start: 0, y_start: 0, x_end: buf_w, y_end: buf_h }
    }

    /// `None` stands for the full buffer.
    pub fn resolve(opt: Option<Clip>, buf_w: usize, buf_h: usize) -> (c: Clip)
        ensures
            c == Clip::resolved(opt, buf_w, buf_h),
    {
        match opt {
            Some(c) => c,
            None => Clip::buffer(buf_w, buf_h),
        }
    }

    /// The part of the box `x_min..x_max` by `y_min..y_max` that lies in the buffer and in the clip,
    /// as `(x_start, y_start, x_end, y_end)`; `None` where nothing is left.
    pub fn intersect_bbox(
        opt: Option<Clip>,
        buf_w: usize,
        buf_h: usize,
        x_min: i32,
        x_max: i32,
        y_min: i32,
        y_max: i32,
    ) -> (r: Option<(usize, usize, usize, usize)>)
        ensures
            ({
                let c = Clip::resolved(opt, buf_w, buf_h);
                let xs = vstd::math::max(vstd::math::max(x_min as int, 0), c.x_start as int);
                let ys = vstd::math::max(vstd::math::max(y_min as int, 0), c.y_start as int);
                let xe = vstd::math::min(
                    vstd::math::min(vstd::math::max(x_max as int, 0), buf_w as int),
                    c.x_end as int,
                );
                let ye = vstd::math::min(
                    vstd::math::min(vstd::math::max(y_max as int, 0), buf_h as int),
                    c.y_end as int,
                );
                match r {
                    None => xs >= xe || ys >= ye,
                    Some((x0, y0, x1, y1)) => xs < xe && ys < ye && x0 == xs && y0 == ys && x1 == xe
                        && y1 == ye,
                }
            }),
    {
        let c = Clip::resolve(opt, buf_w, buf_h);
        let x_lo: usize = non_negative(x_min);
        let y_lo: usize = non_negative(y_min);
        let x_hi: usize = non_negative(x_max);
        let y_hi: usize = non_negative(y_max);
        let x_start: usize = canvas::greater(x_lo, c.x_start);
        let y_start: usize = canvas::greater(y_lo, c.y_start);
        let x_end: usize = canvas::lesser(canvas::lesser(x_hi, buf_w), c.x_end);
        let y_end: usize = canvas::lesser(canvas::lesser(y_hi, buf_h), c.y_end);
        if x_start >= x_end || y_start >= y_end {
            None
        } else {
            Some((x_start, y_start, x_end, y_end))
        }
    }
}

/// `v`, or 0 where it is negative.
fn non_negative(v: i32) -> (r: usize)
    ensures
        r as int == vstd::math::max(v as int, 0),
{
    if v < 0 {
        0
    } else {
        v as usize
    }
}

/// Columns and rows `(x_min, y_min, x_max, y_max)` of the rectangle at `(x, y)`, `w` by `h`, each
/// edge moved to the nearest place inside the clip.
pub open spec fn clipped(c: Clip, x: int, y: int, w: int, h: int) -> (int, int, int, int) {
    (
        clamp_int(x, c.x_start as int, c.x_end as int),
        clamp_int(y, c.y_start as int, c.y_end as int),
        clamp_int(x + w, c.x_start as int, c.x_end as int),
        clamp_int(y + h, c.y_start as int, c.y_end as int),
    )
}

/// The clipped rectangle as a pixel rectangle.
pub open spec fn clipped_rect(c: Clip, x: int, y: int, w: int, h: int) -> PixelRect {
    let (x0, y0, x1, y1) = clipped(c, x, y, w, h);
    PixelRect { x0: x0 as usize, y0: y0 as usize, x1: x1 as usize, y1: y1 as usize }
}

/// `v` limited to `lo..=hi`.
fn clamp_to(v: isize, lo: usize, hi: usize) -> (r: usize)
    requires
        lo <= hi,
    ensures
        r as int == clamp_int(v as int, lo as int, hi as int),
{
    if v < 0 {
        lo
    } else {
        let u: usize = v as usize;
        if u < lo {
            lo
        } else if u > hi {
            hi
        } else {
            u
        }
    }
}

/// The rectangle at `(x, y)`, `rect_w` by `rect_h`, cut down to the clip. The range is empty where
/// the rectangle lies outside.
pub fn clip_rect(clip: Clip, x: isize, y: isize, rect_w: isize, rect_h: isize) -> (r: (
    usize,
    usize,
    usize,
    usize,
))
    requires
        clip.x_start <= clip.x_end,
        clip.y_start <= clip.y_end,
        isize::MIN <= x + rect_w <= isize::MAX,
        isize::MIN <= y + rect_h <= isize::MAX,
    ensures
        (r.0 as int, r.1 as int, r.2 as int, r.3 as int) == clipped(
            clip,
            x as int,
            y as int,
            rect_w as int,
            rect_h as int,
        ),
{
    (
        clamp_to(x, clip.x_start, clip.x_end),
        clamp_to(y, clip.y_start, clip.y_end),
        clamp_to(x + rect_w, clip.x_start, clip.x_end),
        clamp_to(y + rect_h, clip.y_start, clip.y_end),
    )
}

/// As [`clip_rect`], for a rectangle that may lie far outside.
pub fn clip_area(clip: Clip, x: i128, y: i128, rect_w: i128, rect_h: i128) -> (r: (
    usize,
    usize,
    usize,
    usize,
))
    requires
        clip.x_start <= clip.x_end,
        clip.y_start <= clip.y_end,
        i128::MIN <= x + rect_w <= i128::MAX,
        i128::MIN <= y + rect_h <= i128::MAX,
    ensures
        (r.0 as int, r.1 as int, r.2 as int, r.3 as int) == clipped(
            clip,
            x as int,
            y as int,
            rect_w as int,
            rect_h as int,
        ),
{
    (
        clamp_far(x, clip.x_start, clip.x_end),
        clamp_far(y, clip.y_start, clip.y_end),
        clamp_far(x + rect_w, clip.x_start, clip.x_end),
        clamp_far(y + rect_h, clip.y_start, clip.y_end),
    )
}

/// `v` limited to `lo..=hi`.
fn clamp_far(v: i128, lo: usize, hi: usize) -> (r: usize)
    requires
        lo <= hi,
    ensures
        r as int == clamp_int(v as int, lo as int, hi as int),
{
    if v < lo as i128 {
        lo
    } else if v > hi as i128 {
        hi
    } else {
        v as usize
    }
}

/// A per-pixel alpha mask of the size of the buffer it is used with.
pub struct AlphaMask<'a> {
    pub pixels: &'a [u8],
    pub width: usize,
    pub height: usize,
}

impl<'a> AlphaMask<'a> {
    /// The mask holds one value for each pixel.
    pub open spec fn wf(&self) -> bool {
        self.pixels@.len() == self.width * self.height
    }

    /// The mask belongs to a `w` by `h` buffer.
    pub open spec fn matches(&self, w: usize, h: usize) -> bool {
        self.wf() && self.width == w && self.height == h
    }

    pub fn new(pixels: &'a [u8], width: usize, height: usize) -> (m: AlphaMask<'a>)
        requires
            pixels@.len() == width * height,
        ensures
            m.wf(),
            m.pixels@ == pixels@,
            m.width == width,
            m.height == height,
    {
        AlphaMask { pixels, width, height }
    }
}

/// The mask, where there is one, belongs to a `w` by `h` buffer.
pub open spec fn mask_fits(mask: Option<&AlphaMask>, w: usize, h: usize) -> bool {
    match mask {
        None => true,
        Some(m) => m.matches(w, h),
    }
}

/// The values of the mask, where there is one.
pub open spec fn mask_values(mask: Option<&AlphaMask>) -> Option<Seq<u8>> {
    match mask {
        None => None,
        Some(m) => Some(m.pixels@),
    }
}

/// The mask value of pixel `i`, where there is a mask.
pub open spec fn mask_at(values: Option<Seq<u8>>, i: int) -> Option<u8> {
    match values {
        None => None,
        Some(v) => Some(v[i]),
    }
}

/// A rectangle that was cut down to a clip inside the buffer lies inside the buffer.
pub proof fn law_clipped_rect_is_inside(c: Clip, x: int, y: int, w: int, h: int, bw: usize, bh: usize)
    requires
        c.within(bw, bh),
    ensures
        ({
            let (x0, y0, x1, y1) = clipped(c, x, y, w, h);
            &&& c.x_start <= x0 <= c.x_end <= bw
            &&& c.x_start <= x1 <= c.x_end
            &&& c.y_start <= y0 <= c.y_end <= bh
            &&& c.y_start <= y1 <= c.y_end
        }),
{
}

/// A rectangle that is cut down to a clip holds what both hold, and nothing else.
pub proof fn law_clipped_rect_is_the_common_part(
    c: Clip,
    x: int,
    y: int,
    w: int,
    h: int,
    px: int,
    py: int,
)
    requires
        c.x_start <= c.x_end,
        c.y_start <= c.y_end,
    ensures
        ({
            let (x0, y0, x1, y1) = clipped(c, x, y, w, h);
            (x0 <= px < x1 && y0 <= py < y1) <==> (c.x_start <= px < c.x_end && c.y_start <= py
                < c.y_end && x <= px < x + w && y <= py < y + h)
        }),
{
}

} // verus!
