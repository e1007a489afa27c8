//! What the widgets paint in common: pill faces, cached layers, hit bands, the focus glow, and how
//! their places map to pixels.
use crate::canvas::{self, Canvas, Damage, PixelRect};
use crate::coord::{self, Coord, Ratio, PX, RU_ONE};
use crate::paint::clip::{self, Clip, HitId};
use crate::paint::flatten;
use crate::paint::glow::{self, PillRect};
use crate::paint::ray;
use crate::paint::squircle;
use crate::pixel::{self, BlendMode};
use crate::pool;
use crate::region::{self, Region};
use vstd::prelude::*;

verus! {

/// The part of a layer, `cw` by `ch` at `(ox, oy)`, that lies in the buffer and the clip, as
/// `(x0, y0, x1, y1)`.
pub open spec fn layer_part(
    c: Clip,
    w: int,
    h: int,
    ox: int,
    oy: int,
    cw: int,
    ch: int,
) -> (int, int, int, int) {
    (
        vstd::math::max(clip::clamp_int(ox, 0, w), c.x_start as int),
        vstd::math::max(clip::clamp_int(oy, 0, h), c.y_start as int),
        vstd::math::min(clip::clamp_int(ox + cw, 0, w), c.x_end as int),
        vstd::math::min(clip::clamp_int(oy + ch, 0, h), c.y_end as int),
    )
}

/// The layer cell that lies on cell `i` of a buffer `w` wide.
pub open spec fn layer_cell(i: int, w: int, ox: int, oy: int, cw: int) -> int {
    (canvas::row_of(i, w) - oy) * cw + (canvas::col_of(i, w) - ox)
}

/// The buffer after a cached layer went under it.
pub open spec fn with_layer(
    pixels: Seq<u32>,
    w: int,
    h: int,
    cache: Seq<u32>,
    cw: int,
    ch: int,
    ox: int,
    oy: int,
    c: Clip,
) -> Seq<u32> {
    let v = layer_part(c, w, h, ox, oy, cw, ch);
    Seq::new(
        pixels.len(),
        |i: int|
            if canvas::in_rect(i, w, v.0, v.1, v.2, v.3) {
                flatten::premult_px(pixels[i], cache[layer_cell(i, w, ox, oy, cw)])
            } else {
                pixels[i]
            },
    )
}

/// The hit map after a cached layer was stamped on it: the identifier goes where the layer is opaque.
pub open spec fn with_layer_hits(
    hits: Seq<HitId>,
    w: int,
    h: int,
    cache: Seq<u32>,
    cw: int,
    ch: int,
    ox: int,
    oy: int,
    c: Clip,
    id: HitId,
) -> Seq<HitId> {
    let v = layer_part(c, w, h, ox, oy, cw, ch);
    Seq::new(
        hits.len(),
        |i: int|
            if canvas::in_rect(i, w, v.0, v.1, v.2, v.3) && pixel::alpha(
                cache[layer_cell(i, w, ox, oy, cw)],
            ) == 255 {
                id
            } else {
                hits[i]
            },
    )
}

/// The damage after a cached layer was drawn.
pub open spec fn layer_damage(
    d: Option<PixelRect>,
    w: int,
    h: int,
    cw: int,
    ch: int,
    ox: int,
    oy: int,
    c: Clip,
) -> Option<PixelRect> {
    let v = layer_part(c, w, h, ox, oy, cw, ch);
    if v.0 < v.2 && v.1 < v.3 {
        canvas::joined(
            d,
            PixelRect { x0: v.0 as usize, y0: v.1 as usize, x1: v.2 as usize, y1: v.3 as usize },
        )
    } else {
        d
    }
}

/// `v` limited to `0..=hi`.
fn clamp_px(v: i128, hi: usize) -> (r: usize)
    ensures
        r as int == clip::clamp_int(v as int, 0, hi as int),
{
    if v < 0 {
        0
    } else if v > hi as i128 {
        hi
    } else {
        v as usize
    }
}

/// Lays a cached layer, at `(origin_x, origin_y)`, under the canvas. Where a hit map is given, the
/// identifier is stamped wherever the layer is opaque.
pub fn blit_cache_to_target(
    cache: &[u32],
    cache_w: usize,
    cache_h: usize,
    origin_x: isize,
    origin_y: isize,
    canvas: &mut Canvas,
    hit_map: Option<&mut [HitId]>,
    hit_id: HitId,
    clip: Option<Clip>,
)
    requires
        old(canvas).fits(),
        cache_w * cache_h <= cache@.len(),
        match hit_map {
            Some(m) => old(canvas).width * old(canvas).height <= m@.len(),
            None => true,
        },
    ensures
        ({
            let c = Clip::resolved(clip, old(canvas).width, old(canvas).height);
            let w = old(canvas).width as int;
            let h = old(canvas).height as int;
            &&& final(canvas).pixels@ == with_layer(
                old(canvas).pixels@,
                w,
                h,
                cache@,
                cache_w as int,
                cache_h as int,
                origin_x as int,
                origin_y as int,
                c,
            )
            &&& final(canvas).damage.rect() == layer_damage(
                old(canvas).damage.rect(),
                w,
                h,
                cache_w as int,
                cache_h as int,
                origin_x as int,
                origin_y as int,
                c,
            )
            &&& match hit_map {
                Some(m) => final(m)@ == with_layer_hits(
                    m@,
                    w,
                    h,
                    cache@,
                    cache_w as int,
                    cache_h as int,
                    origin_x as int,
                    origin_y as int,
                    c,
                    hit_id,
                ),
                None => true,
            }
        }),
        final(canvas).width == old(canvas).width,
        final(canvas).height == old(canvas).height,
        final(final(canvas).pixels)@ == final(old(canvas).pixels)@,
        *final(final(canvas).damage) == *final(old(canvas).damage),
{
    let w: usize = canvas.width;
    let h: usize = canvas.height;
    let c = Clip::resolve(clip, w, h);
    let x0: usize = canvas::greater(clamp_px(origin_x as i128, w), c.x_start);
    let y0: usize = canvas::greater(clamp_px(origin_y as i128, h), c.y_start);
    let x1: usize = canvas::lesser(clamp_px(origin_x as i128 + cache_w as i128, w), c.x_end);
    let y1: usize = canvas::lesser(clamp_px(origin_y as i128 + cache_h as i128, h), c.y_end);
    let ghost before = canvas.pixels@;
    let ghost wi = w as int;
    let ghost hi = h as int;
    let cells: usize = cache.len();
    if x0 >= x1 || y0 >= y1 {
        proof {
            if wi > 0 {
                canvas::lemma_grid(wi);
            }
            assert(with_layer(before, wi, hi, cache@, cache_w as int, cache_h as int,
                origin_x as int, origin_y as int, c) =~= before);
        }
        match hit_map {
            Some(m) => {
                let ghost hits = m@;
                proof {
                    assert(with_layer_hits(hits, wi, hi, cache@, cache_w as int, cache_h as int,
                        origin_x as int, origin_y as int, c, hit_id) =~= hits);
                }
            },
            None => {},
        }
        return;
    }
    canvas.damage.add_bounds(x0, y0, x1, y1);
    proof {
        canvas::lemma_grid(wi);
        assert(w * y1 <= w * h) by (nonlinear_arith)
            requires
                y1 <= h,
        ;
    }
    let paint = |d: u32, x: usize, y: usize| -> (q: u32)
        requires
            x0 <= x < x1,
            y0 <= y < y1,
        ensures
            q == flatten::premult_px(d, cache@[(y - origin_y) * cache_w + (x - origin_x)]),
    {
        let cx: usize = (x as i128 - origin_x as i128) as usize;
        let cy: usize = (y as i128 - origin_y as i128) as usize;
        proof {
            canvas::lemma_cell_bound(cx as int, cy as int, cache_w as int, cache_h as int);
        }
        flatten::under_premult(d, cache[cy * cache_w + cx])
    };
    canvas::map_rect(canvas.pixels, w, x0, y0, x1, y1, paint);
    proof {
        assert(canvas.pixels@ =~= with_layer(before, wi, hi, cache@, cache_w as int,
            cache_h as int, origin_x as int, origin_y as int, c));
    }
    match hit_map {
        Some(m) => {
            let ghost hits = m@;
            let n: usize = m.len();
            let stamp = |id: HitId, x: usize, y: usize| -> (q: HitId)
                requires
                    x0 <= x < x1,
                    y0 <= y < y1,
                ensures
                    q == (if pixel::alpha(
                        cache@[(y - origin_y) * cache_w + (x - origin_x)],
                    ) == 255 {
                        hit_id
                    } else {
                        id
                    }),
            {
                let cx: usize = (x as i128 - origin_x as i128) as usize;
                let cy: usize = (y as i128 - origin_y as i128) as usize;
                proof {
                    canvas::lemma_cell_bound(cx as int, cy as int, cache_w as int, cache_h as int);
                }
                if pixel::alpha_of(cache[cy * cache_w + cx]) == 255 {
                    hit_id
                } else {
                    id
                }
            };
            canvas::map_rect(m, w, x0, y0, x1, y1, stamp);
            proof {
                assert(m@ =~= with_layer_hits(hits, wi, hi, cache@, cache_w as int,
                    cache_h as int, origin_x as int, origin_y as int, c, hit_id));
            }
        },
        None => {},
    }
}

/// A hit map after a rectangle was stamped on it.
pub open spec fn with_band(
    hits: Seq<HitId>,
    w: int,
    h: int,
    r: PixelRect,
    id: HitId,
) -> Seq<HitId> {
    Seq::new(
        hits.len(),
        |i: int|
            if canvas::in_rect(
                i,
                w,
                r.x0 as int,
                r.y0 as int,
                vstd::math::min(r.x1 as int, w),
                vstd::math::min(r.y1 as int, h),
            ) {
                id
            } else {
                hits[i]
            },
    )
}

/// Stamps an identifier over a rectangle, as far as it lies in a `w` by `h` map.
pub fn stamp_band(hits: &mut [HitId], w: usize, h: usize, r: PixelRect, id: HitId)
    requires
        w * h <= old(hits)@.len(),
    ensures
        final(hits)@ == with_band(old(hits)@, w as int, h as int, r, id),
{
    let x1: usize = canvas::lesser(r.x1, w);
    let y1: usize = canvas::lesser(r.y1, h);
    let n: usize = hits.len();
    proof {
        if 0 < w {
            canvas::lemma_grid(w as int);
        }
        assert(w * y1 <= w * h) by (nonlinear_arith)
            requires
                y1 <= h,
        ;
    }
    let stamp = |p: HitId, x: usize, y: usize| -> (q: HitId)
        ensures
            q == id,
    {
        id
    };
    canvas::map_rect(hits, w, r.x0, r.y0, x1, y1, stamp);
    proof {
        let after = hits@;
        assert(after =~= with_band(old(hits)@, w as int, h as int, r, id));
    }
}

/// The fill of a pill face: a pill `stroke` pixels inside a `cw` by `ch` box, on nothing.
pub open spec fn face_fill(
    cw: int,
    ch: int,
    stroke: int,
    fill: u32,
    crossings: Seq<(u16, u8, u8)>,
) -> Seq<u32> {
    squircle::with_pill(
        pool::solid(cw * ch, 0),
        cw,
        ch,
        crossings,
        PillRect { x: stroke, y: stroke, w: cw - 2 * stroke, h: ch - 2 * stroke },
        fill,
        fill,
    )
}

/// A pill face: the fill with a two-tone edge under it.
pub open spec fn face_pixels(
    cw: int,
    ch: int,
    stroke: int,
    style: FaceStyle,
    inner: Seq<(u16, u8, u8)>,
    outer: Seq<(u16, u8, u8)>,
) -> Seq<u32> {
    squircle::with_pill(
        face_fill(cw, ch, stroke, style.fill, inner),
        cw,
        ch,
        outer,
        PillRect { x: 0, y: 0, w: cw, h: ch },
        style.light,
        style.shadow,
    )
}

/// The opacity of each pixel.
pub open spec fn opacities(pixels: Seq<u32>) -> Seq<u8> {
    Seq::new(pixels.len(), |i: int| pixel::alpha(pixels[i]) as u8)
}

/// The colours of a pill face.
#[derive(Clone, Copy, Debug, PartialEq, Eq, Structural)]
pub struct FaceStyle {
    pub fill: u32,
    pub light: u32,
    pub shadow: u32,
}

/// The opacity of each pixel.
fn alpha_channel(pixels: &Vec<u32>) -> (m: Vec<u8>)
    ensures
        m@ == opacities(pixels@),
{
    let n: usize = pixels.len();
    let mut m: Vec<u8> = Vec::new();
    let mut i: usize = 0;
    while i < n
        invariant
            0 <= i <= n,
            n == pixels@.len(),
            m@.len() == i,
            forall|k: int| 0 <= k < i ==> #[trigger] m@[k] == pixel::alpha(pixels@[k]) as u8,
        decreases n - i,
    {
        m.push(pixel::alpha_of(pixels[i]) as u8);
        i = i + 1;
    }
    assert(m@ =~= opacities(pixels@));
    m
}

/// Rasterises a pill face on an empty `cw` by `ch` buffer, and the mask of its fill, which text on the
/// face is clipped to.
pub fn paint_face(
    cw: usize,
    ch: usize,
    stroke: isize,
    style: FaceStyle,
    inner: &[(u16, u8, u8)],
    outer: &[(u16, u8, u8)],
) -> (r: (Vec<u32>, Vec<u8>))
    requires
        cw * ch <= usize::MAX,
        cw <= 0x4000_0000,
        ch <= 0x4000_0000,
        -0x1000_0000 <= stroke <= 0x4000_0000_0000,
    ensures
        r.0@ == face_pixels(cw as int, ch as int, stroke as int, style, inner@, outer@),
        r.1@ == opacities(face_fill(cw as int, ch as int, stroke as int, style.fill, inner@)),
        r.0@.len() == cw * ch,
        r.1@.len() == cw * ch,
{
    let n: usize = cw * ch;
    let mut cache: Vec<u32> = vec![0u32; n];
    let mut damage = Damage::new();
    proof {
        assert(cache@ =~= pool::solid(cw * ch, 0));
    }
    {
        let mut canvas = Canvas::new(cache.as_mut_slice(), cw, ch, &mut damage);
        let inner_w: i128 = cw as i128 - 2 * (stroke as i128);
        let inner_h: i128 = ch as i128 - 2 * (stroke as i128);
        if inner_w > 0 && inner_h > 0 {
            crate::paint::draw_squircle_pill(
                &mut canvas,
                stroke,
                stroke,
                inner_w as isize,
                inner_h as isize,
                style.fill,
                inner,
            );
        }
    }
    proof {
        assert(cache@ == face_fill(cw as int, ch as int, stroke as int, style.fill, inner@));
        squircle::lemma_pill_len(
            pool::solid(cw * ch, 0),
            cw as int,
            ch as int,
            inner@,
            PillRect { x: stroke as int, y: stroke as int, w: cw - 2 * stroke, h: ch - 2 * stroke },
            style.fill,
            style.fill,
        );
    }
    let mask: Vec<u8> = alpha_channel(&cache);
    {
        let mut canvas = Canvas::new(cache.as_mut_slice(), cw, ch, &mut damage);
        crate::paint::draw_squircle_pill_two_tone(
            &mut canvas,
            0,
            0,
            cw as isize,
            ch as isize,
            style.light,
            style.shadow,
            outer,
            None,
            0,
        );
    }
    proof {
        squircle::lemma_pill_len(
            face_fill(cw as int, ch as int, stroke as int, style.fill, inner@),
            cw as int,
            ch as int,
            outer@,
            PillRect { x: 0, y: 0, w: cw as int, h: ch as int },
            style.light,
            style.shadow,
        );
    }
    (cache, mask)
}

/// How fast a glow fades, in parts of 256 kept from pixel to pixel, so that it reaches about
/// `quarters` quarters of the font size.
pub open spec fn glow_factor(font_size: int, quarters: int) -> int {
    let target = vstd::math::max(coord::truncated(font_size * quarters, 4), 8 * PX);
    clip::clamp_int(256 - (1240 * PX) / target, 96, 254)
}

/// How fast a glow fades.
pub fn glow_factor_256(font_size: Coord, quarters: u8) -> (f: u32)
    requires
        coord::in_range(font_size as int),
    ensures
        f as int == glow_factor(font_size as int, quarters as int),
        96 <= f <= 254,
{
    proof {
        assert(-0x4000_0000_0000 * 255 <= font_size * quarters <= 0x4000_0000_0000 * 255)
            by (nonlinear_arith)
            requires
                -0x4000_0000_0000 <= font_size <= 0x4000_0000_0000,
                0 <= quarters <= 255,
        ;
    }
    let reach: i128 = coord::truncate(font_size as i128 * quarters as i128, 4);
    let target: i128 = if reach >= 0x8_0000 {
        reach
    } else {
        0x8_0000
    };
    let drop: u128 = 0x4D8_0000u128 / (target as u128);
    proof {
        assert(0x4D8_0000int / (target as int) <= 0x4D8_0000) by (nonlinear_arith)
            requires
                target > 0,
        ;
    }
    if drop >= 160 {
        96
    } else if drop <= 2 {
        254
    } else {
        256 - drop as u32
    }
}

/// The buffer after one pass of the focus glow.
pub open spec fn with_glow(
    pixels: Seq<u32>,
    w: usize,
    h: usize,
    c: Clip,
    r: PillRect,
    vertical: bool,
    forward: bool,
    seed: int,
    factor: int,
    colour: u32,
) -> Seq<u32> {
    let g = glow::glow_pass(w, h, c, r, vertical, forward);
    Seq::new(
        pixels.len(),
        |i: int| glow::pill_glow_px(pixels, i, w as int, g, r, seed, factor, colour),
    )
}

/// The buffer after the focus glow: to the right, to the left, upwards and downwards, the vertical
/// passes at half the strength and half the reach.
pub open spec fn with_focus_glow(
    pixels: Seq<u32>,
    w: usize,
    h: usize,
    c: Clip,
    r: PillRect,
    font_size: int,
    colour: u32,
) -> Seq<u32> {
    let across = glow_factor(font_size, 6);
    let along = glow_factor(font_size, 3);
    let p1 = with_glow(pixels, w, h, c, r, false, true, 0x80, across, colour);
    let p2 = with_glow(p1, w, h, c, r, false, false, 0x80, across, colour);
    let p3 = with_glow(p2, w, h, c, r, true, false, 0x40, along, colour);
    with_glow(p3, w, h, c, r, true, true, 0x40, along, colour)
}

/// The damage after the focus glow.
pub open spec fn focus_glow_damage(
    d: Option<PixelRect>,
    w: usize,
    h: usize,
    c: Clip,
    r: PillRect,
    font_size: int,
) -> Option<PixelRect> {
    let across = glow_factor(font_size, 6);
    let along = glow_factor(font_size, 3);
    let d1 = glow::glow_damage(d, glow::glow_pass(w, h, c, r, false, true), r, 0x80, across);
    let d2 = glow::glow_damage(d1, glow::glow_pass(w, h, c, r, false, false), r, 0x80, across);
    let d3 = glow::glow_damage(d2, glow::glow_pass(w, h, c, r, true, false), r, 0x40, along);
    glow::glow_damage(d3, glow::glow_pass(w, h, c, r, true, true), r, 0x40, along)
}

/// Paints the glow around a focused pill.
pub fn paint_focus_glow(
    canvas: &mut Canvas,
    x: isize,
    y: isize,
    pill_w: isize,
    pill_h: isize,
    font_size: Coord,
    colour: u32,
    clip: Option<Clip>,
)
    requires
        old(canvas).fits(),
        coord::in_range(font_size as int),
        x + pill_w <= isize::MAX,
        y + pill_h <= isize::MAX,
    ensures
        ({
            let c = Clip::resolved(clip, old(canvas).width, old(canvas).height);
            let r = PillRect { x: x as int, y: y as int, w: pill_w as int, h: pill_h as int };
            &&& final(canvas).pixels@ == with_focus_glow(
                old(canvas).pixels@,
                old(canvas).width,
                old(canvas).height,
                c,
                r,
                font_size as int,
                colour,
            )
            &&& final(canvas).damage.rect() == focus_glow_damage(
                old(canvas).damage.rect(),
                old(canvas).width,
                old(canvas).height,
                c,
                r,
                font_size as int,
            )
        }),
        final(canvas).width == old(canvas).width,
        final(canvas).height == old(canvas).height,
        final(final(canvas).pixels)@ == final(old(canvas).pixels)@,
        *final(final(canvas).damage) == *final(old(canvas).damage),
{
    let across: u32 = glow_factor_256(font_size, 6);
    let along: u32 = glow_factor_256(font_size, 3);
    let ghost w = canvas.width;
    let ghost h = canvas.height;
    let ghost c = Clip::resolved(clip, w, h);
    let ghost r = PillRect { x: x as int, y: y as int, w: pill_w as int, h: pill_h as int };
    let ghost p0 = canvas.pixels@;
    crate::paint::apply_textbox_glow_right(
        canvas, x, y, pill_w, pill_h, colour, 0x80, across, clip,
    );
    let ghost p1 = with_glow(p0, w, h, c, r, false, true, 0x80, across as int, colour);
    assert(canvas.pixels@ =~= p1);
    crate::paint::apply_textbox_glow_left(
        canvas, x, y, pill_w, pill_h, colour, 0x80, across, clip,
    );
    let ghost p2 = with_glow(p1, w, h, c, r, false, false, 0x80, across as int, colour);
    assert(canvas.pixels@ =~= p2);
    crate::paint::apply_textbox_glow_top(canvas, x, y, pill_w, pill_h, colour, 0x40, along, clip);
    let ghost p3 = with_glow(p2, w, h, c, r, true, false, 0x40, along as int, colour);
    assert(canvas.pixels@ =~= p3);
    crate::paint::apply_textbox_glow_bottom(
        canvas, x, y, pill_w, pill_h, colour, 0x40, along, clip,
    );
    assert(canvas.pixels@ =~= with_glow(
        p3,
        w,
        h,
        c,
        r,
        true,
        true,
        0x40,
        along as int,
        colour,
    ));
}

/// The rectangle of a widget, given by its centre and its size.
pub open spec fn centred(cx: int, cy: int, w: int, h: int) -> Region {
    Region::of(cx - coord::truncated(w, 2), cy - coord::truncated(h, 2), w, h)
}

/// The rectangle of a widget, given by its centre and its size.
pub fn centred_region(cx: Coord, cy: Coord, w: Coord, h: Coord) -> (r: Region)
    requires
        coord::in_range(cx as int),
        coord::in_range(cy as int),
        coord::in_range(w as int),
        coord::in_range(h as int),
    ensures
        r == centred(cx as int, cy as int, w as int, h as int),
{
    Region::new(cx - coord::half(w), cy - coord::half(h), w, h)
}

/// The reach of a ray of the focus glow, in pixels.
pub open spec fn glow_reach(seed: int, factor: int) -> int {
    ray::reach(seed, factor) as int
}

/// The rectangle of a widget with the reach of its focus glow on every side.
pub open spec fn glow_region(cx: int, cy: int, w: int, h: int, font_size: int) -> Region {
    let px = glow_reach(0x80, glow_factor(font_size, 6)) * PX;
    let py = glow_reach(0x40, glow_factor(font_size, 3)) * PX;
    Region::of(
        cx - coord::truncated(w, 2) - px,
        cy - coord::truncated(h, 2) - py,
        w + 2 * px,
        h + 2 * py,
    )
}

/// The rectangle of a widget with the reach of its focus glow on every side.
pub fn glow_envelope(cx: Coord, cy: Coord, w: Coord, h: Coord, font_size: Coord) -> (r: Region)
    requires
        coord::in_range(cx as int),
        coord::in_range(cy as int),
        coord::in_range(w as int),
        coord::in_range(h as int),
        coord::in_range(font_size as int),
    ensures
        r == glow_region(cx as int, cy as int, w as int, h as int, font_size as int),
        place_ok(cx as int, cy as int, w as int, h as int, font_size as int) ==> edges_ok(r),
{
    let across: u32 = glow_factor_256(font_size, 6);
    let along: u32 = glow_factor_256(font_size, 3);
    let px: Coord = ray::ray_reach_px(0x80, across) as i64 * 0x1_0000;
    let py: Coord = ray::ray_reach_px(0x40, along) as i64 * 0x1_0000;
    Region::new(cx - coord::half(w) - px, cy - coord::half(h) - py, w + 2 * px, h + 2 * py)
}

/// The pixels of a region, inside a `vw` by `vh` viewport.
pub open spec fn region_px(r: Region, vw: usize, vh: usize) -> PixelRect {
    PixelRect {
        x0: vstd::math::min(region::px_at(r.x as int), vw as int) as usize,
        y0: vstd::math::min(region::px_at(r.y as int), vh as int) as usize,
        x1: vstd::math::min(region::px_at(r.x + r.w), vw as int) as usize,
        y1: vstd::math::min(region::px_at(r.y + r.h), vh as int) as usize,
    }
}

/// Edges small enough to be turned into pixels.
pub open spec fn edges_ok(r: Region) -> bool {
    let limit: int = 0x7FFF_0000_0000;
    -limit <= r.x <= limit && -limit <= r.y <= limit && -limit <= r.x + r.w <= limit && -limit
        <= r.y + r.h <= limit
}

/// The pixel that holds the coordinate `v`, at most `limit`, and 0 where it is negative.
fn pixel_within(v: Coord, limit: usize) -> (p: usize)
    ensures
        p as int == vstd::math::min(region::px_at(v as int), limit as int),
{
    if v <= 0 {
        0
    } else {
        let n: u128 = (v as u128) / 0x1_0000;
        if n > limit as u128 {
            limit
        } else {
            n as usize
        }
    }
}

/// The pixels of a region, inside a viewport.
pub fn region_to_pixelrect(r: Region, viewport_w: usize, viewport_h: usize) -> (p: PixelRect)
    requires
        Coord::MIN <= r.x + r.w <= Coord::MAX,
        Coord::MIN <= r.y + r.h <= Coord::MAX,
    ensures
        p == region_px(r, viewport_w, viewport_h),
{
    PixelRect::new(
        pixel_within(r.x, viewport_w),
        pixel_within(r.y, viewport_h),
        pixel_within(r.x + r.w, viewport_w),
        pixel_within(r.y + r.h, viewport_h),
    )
}

/// The pixels of a region, wherever they lie right of and below the origin.
pub open spec fn whole_px_rect(r: Region) -> PixelRect {
    PixelRect {
        x0: region::px_at(r.x as int) as usize,
        y0: region::px_at(r.y as int) as usize,
        x1: region::px_at(r.x + r.w) as usize,
        y1: region::px_at(r.y + r.h) as usize,
    }
}

/// The pixels of a region, wherever they lie right of and below the origin.
pub fn focus_rect(r: Region) -> (p: PixelRect)
    requires
        edges_ok(r),
    ensures
        p == whole_px_rect(r),
{
    PixelRect::new(
        region::pixel_at(r.x),
        region::pixel_at(r.y),
        region::pixel_at(r.x + r.w),
        region::pixel_at(r.y + r.h),
    )
}

/// A coordinate or a size of a widget.
pub open spec fn placeable(v: int) -> bool {
    -0x800_0000_0000 <= v <= 0x800_0000_0000
}

/// A centre, a size and a font size that a widget can have.
pub open spec fn place_ok(cx: int, cy: int, w: int, h: int, font_size: int) -> bool {
    placeable(cx) && placeable(cy) && placeable(w) && placeable(h) && 0 <= font_size
        <= 0x800_0000_0000
}

/// The widest stroke, twice the widest side of a widget.
pub const MAX_STROKE: Coord = 0x1000_0000_0000;

/// A stroke, as a multiple of the font size, that a widget can have.
pub open spec fn stroke_ok(stroke_ru: int, font_size: int) -> bool {
    -MAX_STROKE * RU_ONE <= font_size * stroke_ru <= MAX_STROKE * RU_ONE
}

/// The stroke of a face in pixels: a part of the font size, and one pixel more.
pub open spec fn stroke_px(stroke_ru: int, font_size: int) -> int {
    coord::truncated(region::part_of(font_size, stroke_ru), PX as int) + 1
}

/// The part of the font size that the stroke takes, before the pixel more.
pub fn stroke_part(stroke_ru: Ratio, font_size: Coord) -> (part: Coord)
    requires
        stroke_ok(stroke_ru as int, font_size as int),
    ensures
        part == region::part_of(font_size as int, stroke_ru as int),
        -MAX_STROKE <= part <= MAX_STROKE,
{
    coord::truncate(font_size as i128 * stroke_ru as i128, 0x1_0000_0000) as i64
}

/// The stroke of a face in pixels.
pub fn stroke_width(stroke_ru: Ratio, font_size: Coord) -> (s: isize)
    requires
        stroke_ok(stroke_ru as int, font_size as int),
    ensures
        s as int == stroke_px(stroke_ru as int, font_size as int),
        -0x1000_0000 <= s <= 0x1000_0001,
{
    coord::truncate(stroke_part(stroke_ru, font_size) as i128, 0x1_0000) as isize + 1
}

/// The pixel at which a side of length `len` centred at `c` starts, in a buffer at `offset`.
pub open spec fn target_px(c: int, len: int, offset: int) -> int {
    coord::truncated(c - coord::truncated(len, 2) - offset, PX as int)
}

/// The pixel at which a side of length `len` centred at `c` starts, in a buffer at `offset`.
pub fn target_of(c: Coord, len: Coord, offset: Coord) -> (p: isize)
    requires
        placeable(c as int),
        placeable(len as int),
        placeable(offset as int),
    ensures
        p as int == target_px(c as int, len as int, offset as int),
        -0x3000_0000 <= p <= 0x3000_0000,
{
    coord::whole_px(c - coord::half(len) - offset)
}

/// What is opaque stays as it is: a cached layer cannot paint over it.
pub proof fn law_layers_keep_opaque_pixels(
    pixels: Seq<u32>,
    w: int,
    h: int,
    cache: Seq<u32>,
    cw: int,
    ch: int,
    ox: int,
    oy: int,
    c: Clip,
    i: int,
)
    requires
        0 <= i < pixels.len(),
        pixel::alpha(pixels[i]) == 255,
    ensures
        with_layer(pixels, w, h, cache, cw, ch, ox, oy, c)[i] == pixels[i],
{
}

/// A cached layer comes through unchanged where nothing was painted before it.
pub proof fn law_layer_on_nothing_is_the_layer(
    pixels: Seq<u32>,
    w: int,
    h: int,
    cache: Seq<u32>,
    cw: int,
    ch: int,
    ox: int,
    oy: int,
    c: Clip,
    i: int,
)
    requires
        0 <= i < pixels.len(),
        pixels[i] == 0,
        ({
            let v = layer_part(c, w, h, ox, oy, cw, ch);
            canvas::in_rect(i, w, v.0, v.1, v.2, v.3)
        }),
    ensures
        with_layer(pixels, w, h, cache, cw, ch, ox, oy, c)[i] == cache[layer_cell(
            i,
            w,
            ox,
            oy,
            cw,
        )],
{
    flatten::law_premult_on_empty_is_source(cache[layer_cell(i, w, ox, oy, cw)]);
}

/// Cell `(i, j)` of a layer lands at column `ox + i` of row `oy + j`, where that lies in the clip; cells
/// that no cell of the layer lands on keep their pixel, and so do cells outside the clip.
pub proof fn law_layer_lands_at_its_place(
    pixels: Seq<u32>,
    w: int,
    h: int,
    cache: Seq<u32>,
    cw: int,
    ch: int,
    ox: int,
    oy: int,
    c: Clip,
    x: int,
    y: int,
)
    requires
        0 <= x < w,
        0 <= y < h,
        w * h <= pixels.len(),
    ensures
        ({
            let q = with_layer(pixels, w, h, cache, cw, ch, ox, oy, c)[y * w + x];
            if c.x_start <= x < c.x_end && c.y_start <= y < c.y_end && ox <= x < ox + cw && oy <= y
                < oy + ch {
                q == flatten::premult_px(pixels[y * w + x], cache[(y - oy) * cw + (x - ox)])
            } else {
                q == pixels[y * w + x]
            }
        }),
{
    canvas::lemma_cell(x, y, w);
    canvas::lemma_cell_bound(x, y, w, h);
}

/// A layer is hit exactly where an opaque cell of it lands in the clip.
pub proof fn law_layer_is_hit_where_it_is_opaque(
    hits: Seq<HitId>,
    w: int,
    h: int,
    cache: Seq<u32>,
    cw: int,
    ch: int,
    ox: int,
    oy: int,
    c: Clip,
    id: HitId,
    x: int,
    y: int,
)
    requires
        0 <= x < w,
        0 <= y < h,
        w * h <= hits.len(),
    ensures
        ({
            let q = with_layer_hits(hits, w, h, cache, cw, ch, ox, oy, c, id)[y * w + x];
            if c.x_start <= x < c.x_end && c.y_start <= y < c.y_end && ox <= x < ox + cw && oy <= y
                < oy + ch && pixel::alpha(cache[(y - oy) * cw + (x - ox)]) == 255 {
                q == id
            } else {
                q == hits[y * w + x]
            }
        }),
{
    canvas::lemma_cell(x, y, w);
    canvas::lemma_cell_bound(x, y, w, h);
}

/// A band is hit in all its pixels, and nowhere else.
pub proof fn law_band_is_hit_inside(
    hits: Seq<HitId>,
    w: int,
    h: int,
    r: PixelRect,
    id: HitId,
    x: int,
    y: int,
)
    requires
        0 <= x < w,
        0 <= y < h,
        w * h <= hits.len(),
    ensures
        with_band(hits, w, h, r, id)[y * w + x] == (if r.holds(x, y) {
            id
        } else {
            hits[y * w + x]
        }),
{
    canvas::lemma_cell(x, y, w);
    canvas::lemma_cell_bound(x, y, w, h);
}

/// A glow loses 1240 pixels' worth over its reach, give or take a step, and between 2 and 160 parts in
/// each step; a larger font glows further.
pub proof fn law_larger_fonts_glow_further(font_size: int, larger: int, quarters: int)
    requires
        0 <= font_size <= larger,
        quarters >= 0,
    ensures
        96 <= glow_factor(font_size, quarters) <= glow_factor(larger, quarters) <= 254,
        96 < glow_factor(font_size, quarters) < 254 && font_size * quarters >= 32 * PX ==> ({
            let lost = 256 - glow_factor(font_size, quarters);
            let reach = coord::truncated(font_size * quarters, 4);
            lost * reach <= 1240 * PX < (lost + 1) * reach
        }),
{
    let a = vstd::math::max(coord::truncated(font_size * quarters, 4), 8 * PX);
    let b = vstd::math::max(coord::truncated(larger * quarters, 4), 8 * PX);
    assert(font_size * quarters <= larger * quarters) by (nonlinear_arith)
        requires
            font_size <= larger,
            quarters >= 0,
    ;
    coord::lemma_truncated_order(font_size * quarters, larger * quarters, 4);
    coord::lemma_truncated(font_size * quarters, 4);
    let n = 1240 * PX;
    vstd::arithmetic::div_mod::lemma_div_is_ordered_by_denominator(n, a, b);
    vstd::arithmetic::div_mod::lemma_fundamental_div_mod(n, a);
    vstd::arithmetic::div_mod::lemma_mod_bound(n, a);
    let q = n / a;
    assert(q * a <= n < (q + 1) * a) by (nonlinear_arith)
        requires
            n == a * q + n % a,
            0 <= n % a < a,
    ;
}

/// A widget lies around its centre: the space on both sides of it differs by at most one step.
pub proof fn law_widget_lies_around_its_centre(cx: int, cy: int, w: int, h: int)
    requires
        coord::in_range(cx),
        coord::in_range(cy),
        coord::in_range(w),
        coord::in_range(h),
    ensures
        ({
            let r = centred(cx, cy, w, h);
            &&& r.w == w
            &&& r.h == h
            &&& -1 <= (r.x + r.w - cx) - (cx - r.x) <= 1
            &&& -1 <= (r.y + r.h - cy) - (cy - r.y) <= 1
        }),
{
    coord::lemma_truncated(w, 2);
    coord::lemma_truncated(h, 2);
}

/// A pixel is in the rectangle of a region where its left and upper edges are, and it lies in the
/// viewport.
pub proof fn law_pixels_of_a_region(r: Region, vw: usize, vh: usize, x: int, y: int)
    requires
        r.x >= 0,
        r.y >= 0,
        r.w >= 0,
        r.h >= 0,
        x >= 0,
        y >= 0,
    ensures
        region_px(r, vw, vh).holds(x, y) <==> (r.x < (x + 1) * PX && (x + 1) * PX <= r.x + r.w && r.y
            < (y + 1) * PX && (y + 1) * PX <= r.y + r.h && x < vw && y < vh),
{
}

/// A face shows its fill inside the stroke, its light edge along the top and its shaded edge along the
/// bottom, all of them opaque. This is stated for the columns between the caps of the fill.
pub proof fn law_face_has_a_lit_edge_around_its_fill(
    cw: int,
    ch: int,
    stroke: int,
    style: FaceStyle,
    inner: Seq<(u16, u8, u8)>,
    outer: Seq<(u16, u8, u8)>,
    x: int,
    y: int,
)
    requires
        0 < stroke,
        ch - 2 * stroke >= 2,
        cw >= ch,
        squircle::table_fits(
            inner,
            PillRect { x: stroke, y: stroke, w: cw - 2 * stroke, h: ch - 2 * stroke },
        ),
        squircle::table_fits(outer, PillRect { x: 0, y: 0, w: cw, h: ch }),
        ch / 2 < x < cw - 1 - ch / 2,
        0 <= y < ch,
    ensures
        ({
            let q = face_pixels(cw, ch, stroke, style, inner, outer)[y * cw + x];
            let c = if stroke <= y < ch - stroke {
                style.fill
            } else if y < stroke {
                style.light
            } else {
                style.shadow
            };
            &&& pixel::alpha(q) == 255
            &&& 256 * pixel::red(q) <= 255 * pixel::red(c) < 256 * pixel::red(q) + 256
            &&& 256 * pixel::green(q) <= 255 * pixel::green(c) < 256 * pixel::green(q) + 256
            &&& 256 * pixel::blue(q) <= 255 * pixel::blue(c) < 256 * pixel::blue(q) + 256
        }),
{
    let i = y * cw + x;
    let r = PillRect { x: stroke, y: stroke, w: cw - 2 * stroke, h: ch - 2 * stroke };
    let whole = PillRect { x: 0, y: 0, w: cw, h: ch };
    let blank = pool::solid(cw * ch, 0);
    canvas::lemma_cell(x, y, cw);
    canvas::lemma_cell_bound(x, y, cw, ch);
    let filled = face_fill(cw, ch, stroke, style.fill, inner);
    squircle::lemma_pill_len(blank, cw, ch, inner, r, style.fill, style.fill);
    if stroke <= y < ch - stroke {
        squircle::law_pill_shows_its_tone(blank, cw, ch, inner, r, style.fill, style.fill, x, y);
        squircle::law_pills_keep_opaque_pixels(
            filled,
            cw,
            ch,
            outer,
            whole,
            style.light,
            style.shadow,
            i,
        );
    } else {
        squircle::law_pill_stays_in_its_box(
            blank,
            cw,
            ch,
            inner,
            r,
            style.fill,
            style.fill,
            i,
        );
        squircle::law_pill_shows_its_tone(
            filled,
            cw,
            ch,
            outer,
            whole,
            style.light,
            style.shadow,
            x,
            y,
        );
    }
}

/// Painting a layer damages every pixel that it lands on, and keeps what was damaged.
pub proof fn law_layer_damages_where_it_lands(
    d: Option<PixelRect>,
    w: int,
    h: int,
    cw: int,
    ch: int,
    ox: int,
    oy: int,
    c: Clip,
    x: int,
    y: int,
)
    requires
        0 <= x < w <= usize::MAX,
        0 <= y < h <= usize::MAX,
        (c.x_start <= x < c.x_end && c.y_start <= y < c.y_end && ox <= x < ox + cw && oy <= y < oy
            + ch) || d is Some && (d->0).holds(x, y),
    ensures
        layer_damage(d, w, h, cw, ch, ox, oy, c) is Some,
        (layer_damage(d, w, h, cw, ch, ox, oy, c)->0).holds(x, y),
{
}

/// A pixel is among the whole pixels of a region where its right and lower edges are.
pub proof fn law_whole_pixels_of_a_region(r: Region, x: int, y: int)
    requires
        r.x >= 0,
        r.y >= 0,
        r.w >= 0,
        r.h >= 0,
        edges_ok(r),
        x >= 0,
        y >= 0,
    ensures
        whole_px_rect(r).holds(x, y) <==> (r.x < (x + 1) * PX && (x + 1) * PX <= r.x + r.w && r.y < (y
            + 1) * PX && (y + 1) * PX <= r.y + r.h),
{
}

/// The focus glow leaves a pill to the right at half of full opacity and fades with each step: right of
/// the box of the pill, in its rows, nothing else touches it.
pub proof fn law_focus_glow_leaves_the_pill(
    pixels: Seq<u32>,
    w: usize,
    h: usize,
    r: PillRect,
    font_size: int,
    colour: u32,
    o: int,
    y: int,
    k: int,
)
    requires
        w * h <= pixels.len(),
        0 <= r.x <= o < r.x + r.w <= w,
        0 <= r.y <= y < r.y + r.h <= h,
        pixel::alpha(pixels[y * w + o]) == 255,
        forall|x: int|
            o < x < r.x + r.w ==> pixel::alpha(
                #[trigger] pixels[glow::line_cell(y, x, w as int, false)],
            ) != 255,
        1 <= k <= ray::reach(0x80, glow_factor(font_size, 6)),
        r.x + r.w <= o + k < w,
    ensures
        with_focus_glow(pixels, w, h, Clip::whole(w, h), r, font_size, colour)[y * w + o + k]
            == pixel::under_px(
            pixels[y * w + o + k],
            pixel::argb(
                ray::decayed(0x80, glow_factor(font_size, 6), (k - 1) as nat),
                pixel::red(colour),
                pixel::green(colour),
                pixel::blue(colour),
            ),
            BlendMode::Normal,
        ),
{
    let c = Clip::whole(w, h);
    let across = glow_factor(font_size, 6);
    let along = glow_factor(font_size, 3);
    glow::law_glow_leaves_the_silhouette(pixels, w, h, r, 0x80, across, colour, o, y, k);
    let i = y * w + o + k;
    assert(i == y * w + (o + k));
    canvas::lemma_cell(o + k, y, w as int);
    canvas::lemma_cell_bound(o + k, y, w as int, h as int);
    let p1 = with_glow(pixels, w, h, c, r, false, true, 0x80, across, colour);
    let g = glow::glow_pass(w, h, c, r, false, false);
    glow::lemma_silhouette_place(p1, w as int, false, false, y, g.lo, g.hi);
    let p2 = with_glow(p1, w, h, c, r, false, false, 0x80, across, colour);
    assert(p2[i] == p1[i]);
    let p3 = with_glow(p2, w, h, c, r, true, false, 0x40, along, colour);
    assert(p3[i] == p2[i]);
}

} // verus!
