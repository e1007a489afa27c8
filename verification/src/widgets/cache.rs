//! The cached layers of a widget: its pill face and the text on it.
use crate::canvas::{Canvas, PixelRect};
use crate::paint::clip::{Clip, HitId};
use crate::paint::flatten;
use crate::pixel;
use crate::pool;
use crate::text::{self, GlyphImage};
use crate::widgets::face::{self, FaceStyle};
use vstd::prelude::*;

verus! {

/// The largest side of a cached layer, in pixels.
pub const MAX_SIDE: usize = 0x2000_0000;

/// What the rasterisers need from outside for one frame of a pill widget: the corner tables of the
/// fill and of the edge, and the glyphs of the text, placed on the text layer.
pub struct PillArt<'a> {
    pub inner: &'a [(u16, u8, u8)],
    pub outer: &'a [(u16, u8, u8)],
    pub glyphs: &'a [GlyphImage],
}

impl<'a> PillArt<'a> {
    /// Every glyph is well formed.
    pub open spec fn wf(&self) -> bool {
        forall|i: int| 0 <= i < self.glyphs@.len() ==> (#[trigger] self.glyphs@[i]).wf()
    }
}

/// The cached layers of a pill widget.
pub struct FaceCache {
    pub pill: Vec<u32>,
    pub pill_w: usize,
    pub pill_h: usize,
    pub pill_dirty: bool,
    /// The opacity of the fill, which the text is clipped to.
    pub mask: Vec<u8>,
    pub text: Vec<u32>,
    pub text_w: usize,
    pub text_h: usize,
    pub text_dirty: bool,
}

impl FaceCache {
    /// Each layer is as large as its sides say.
    pub open spec fn wf(&self) -> bool {
        &&& self.pill@.len() == self.pill_w * self.pill_h
        &&& self.mask@.len() == self.pill_w * self.pill_h
        &&& self.text@.len() == self.text_w * self.text_h
    }

    /// A face that is not about to be rasterised again is `cw` by `ch`.
    pub open spec fn sized(&self, cw: int, ch: int) -> bool {
        !self.pill_dirty ==> self.pill_w == cw && self.pill_h == ch
    }

    /// The layers after they were brought up to date for a face `cw` by `ch`: both are clean, the face
    /// has these sides, and so has the text layer if it was rasterised; otherwise its sides stay.
    pub open spec fn updated(
        before: &FaceCache,
        after: &FaceCache,
        text: bool,
        cw: int,
        ch: int,
    ) -> bool {
        &&& after.wf()
        &&& !after.pill_dirty
        &&& !after.text_dirty
        &&& after.pill_w == cw
        &&& after.pill_h == ch
        &&& after.text_w == (if text {
            cw
        } else {
            before.text_w as int
        })
        &&& after.text_h == (if text {
            ch
        } else {
            before.text_h as int
        })
    }

    /// Empty layers, all of them to be rasterised.
    pub fn new() -> (c: FaceCache)
        ensures
            c.wf(),
            c.pill_dirty,
            c.text_dirty,
            c.pill@.len() == 0,
            c.pill_w == 0,
            c.pill_h == 0,
            c.mask@.len() == 0,
            c.text@.len() == 0,
            c.text_w == 0,
            c.text_h == 0,
    {
        FaceCache {
            pill: Vec::new(),
            pill_w: 0,
            pill_h: 0,
            pill_dirty: true,
            mask: Vec::new(),
            text: Vec::new(),
            text_w: 0,
            text_h: 0,
            text_dirty: true,
        }
    }

    /// The layers with other marks.
    pub open spec fn marked(self, pill_dirty: bool, text_dirty: bool) -> FaceCache {
        FaceCache { pill_dirty, text_dirty, ..self }
    }

    /// Has both layers rasterised again.
    pub fn invalidate(&mut self)
        ensures
            *final(self) == old(self).marked(true, true),
    {
        self.pill_dirty = true;
        self.text_dirty = true;
    }

    /// Has the text rasterised again.
    pub fn invalidate_text(&mut self)
        ensures
            *final(self) == old(self).marked(old(self).pill_dirty, true),
    {
        self.text_dirty = true;
    }

    /// Rasterises the face if it is out of date.
    pub fn refresh_pill(
        &mut self,
        cw: usize,
        ch: usize,
        stroke: isize,
        style: FaceStyle,
        inner: &[(u16, u8, u8)],
        outer: &[(u16, u8, u8)],
    )
        requires
            old(self).wf(),
            old(self).sized(cw as int, ch as int),
            cw * ch <= usize::MAX,
            cw <= MAX_SIDE,
            ch <= MAX_SIDE,
            -0x1000_0000 <= stroke <= 0x4000_0000_0000,
        ensures
            final(self).wf(),
            !final(self).pill_dirty,
            final(self).pill_w == cw,
            final(self).pill_h == ch,
            final(self).pill@ == (if old(self).pill_dirty {
                face::face_pixels(cw as int, ch as int, stroke as int, style, inner@, outer@)
            } else {
                old(self).pill@
            }),
            final(self).mask@ == (if old(self).pill_dirty {
                face::opacities(
                    face::face_fill(cw as int, ch as int, stroke as int, style.fill, inner@),
                )
            } else {
                old(self).mask@
            }),
            final(self).text@ == old(self).text@,
            final(self).text_w == old(self).text_w,
            final(self).text_h == old(self).text_h,
            final(self).text_dirty == old(self).text_dirty,
    {
        if self.pill_dirty {
            let (pill, mask) = face::paint_face(cw, ch, stroke, style, inner, outer);
            self.pill = pill;
            self.mask = mask;
            self.pill_w = cw;
            self.pill_h = ch;
            self.pill_dirty = false;
        }
    }

    /// The empty text layer with glyphs drawn on it, clipped to the fill.
    pub open spec fn text_pixels(
        cw: int,
        ch: int,
        glyphs: Seq<GlyphImage>,
        colour: u32,
        mask: Seq<u8>,
    ) -> Seq<u32> {
        text::with_glyphs(
            pool::solid(cw * ch, 0),
            cw,
            glyphs,
            colour,
            Clip::whole(cw as usize, ch as usize),
            Some(mask),
            glyphs.len() as int,
        )
    }

    /// Puts an empty text layer in place.
    pub fn clear_text(&mut self, cw: usize, ch: usize)
        requires
            cw * ch <= usize::MAX,
        ensures
            final(self).text@ == pool::solid(cw * ch, 0),
            final(self).text_w == cw,
            final(self).text_h == ch,
            !final(self).text_dirty,
            final(self).pill == old(self).pill,
            final(self).pill_w == old(self).pill_w,
            final(self).pill_h == old(self).pill_h,
            final(self).pill_dirty == old(self).pill_dirty,
            final(self).mask == old(self).mask,
    {
        self.text = vec![0u32; cw * ch];
        self.text_w = cw;
        self.text_h = ch;
        self.text_dirty = false;
        assert(self.text@ =~= pool::solid(cw * ch, 0));
    }

    /// The canvas after both layers went under it, the text first.
    pub open spec fn over(
        &self,
        pixels: Seq<u32>,
        w: int,
        h: int,
        x: int,
        y: int,
        c: Clip,
    ) -> Seq<u32> {
        face::with_layer(
            face::with_layer(
                pixels,
                w,
                h,
                self.text@,
                self.text_w as int,
                self.text_h as int,
                x,
                y,
                c,
            ),
            w,
            h,
            self.pill@,
            self.pill_w as int,
            self.pill_h as int,
            x,
            y,
            c,
        )
    }

    /// The damage after both layers were drawn.
    pub open spec fn over_damage(
        &self,
        d: Option<PixelRect>,
        w: int,
        h: int,
        x: int,
        y: int,
        c: Clip,
    ) -> Option<PixelRect> {
        face::layer_damage(
            face::layer_damage(d, w, h, self.text_w as int, self.text_h as int, x, y, c),
            w,
            h,
            self.pill_w as int,
            self.pill_h as int,
            x,
            y,
            c,
        )
    }

    /// The hit map after the face was stamped on it.
    pub open spec fn over_hits(
        &self,
        hits: Seq<HitId>,
        w: int,
        h: int,
        x: int,
        y: int,
        c: Clip,
        id: HitId,
    ) -> Seq<HitId> {
        face::with_layer_hits(
            hits,
            w,
            h,
            self.pill@,
            self.pill_w as int,
            self.pill_h as int,
            x,
            y,
            c,
            id,
        )
    }

    /// Lays the text and the face, at `(x, y)`, under the canvas, and stamps the hit map where the face
    /// is opaque.
    pub fn composite(
        &self,
        x: isize,
        y: isize,
        canvas: &mut Canvas,
        hit_map: Option<&mut [HitId]>,
        hit_id: HitId,
        clip: Option<Clip>,
    )
        requires
            self.wf(),
            old(canvas).fits(),
            match hit_map {
                Some(m) => old(canvas).width * old(canvas).height <= m@.len(),
                None => true,
            },
        ensures
            ({
                let c = Clip::resolved(clip, old(canvas).width, old(canvas).height);
                let w = old(canvas).width as int;
                let h = old(canvas).height as int;
                &&& final(canvas).pixels@ == self.over(
                    old(canvas).pixels@,
                    w,
                    h,
                    x as int,
                    y as int,
                    c,
                )
                &&& final(canvas).damage.rect() == self.over_damage(
                    old(canvas).damage.rect(),
                    w,
                    h,
                    x as int,
                    y as int,
                    c,
                )
                &&& match hit_map {
                    Some(m) => final(m)@ == self.over_hits(
                        m@,
                        w,
                        h,
                        x as int,
                        y as int,
                        c,
                        hit_id,
                    ),
                    None => true,
                }
            }),
            final(canvas).pixels@.len() == old(canvas).pixels@.len(),
            final(canvas).width == old(canvas).width,
            final(canvas).height == old(canvas).height,
            final(final(canvas).pixels)@ == final(old(canvas).pixels)@,
            *final(final(canvas).damage) == *final(old(canvas).damage),
    {
        face::blit_cache_to_target(
            &self.text,
            self.text_w,
            self.text_h,
            x,
            y,
            canvas,
            None,
            0,
            clip,
        );
        face::blit_cache_to_target(
            &self.pill,
            self.pill_w,
            self.pill_h,
            x,
            y,
            canvas,
            hit_map,
            hit_id,
            clip,
        );
    }
}

/// Text covers the face: on an empty canvas an opaque pixel of the text layer comes through, and where
/// the text layer is empty the face does.
pub proof fn law_text_lies_over_the_face(
    cache: FaceCache,
    pixels: Seq<u32>,
    w: int,
    h: int,
    ox: int,
    oy: int,
    c: Clip,
    x: int,
    y: int,
)
    requires
        cache.text_w == cache.pill_w,
        cache.text_h == cache.pill_h,
        0 <= x < w,
        0 <= y < h,
        w * h <= pixels.len(),
        c.x_start <= x < c.x_end,
        c.y_start <= y < c.y_end,
        ox <= x < ox + cache.pill_w,
        oy <= y < oy + cache.pill_h,
        pixels[y * w + x] == 0,
    ensures
        ({
            let t = cache.text@[(y - oy) * cache.pill_w + (x - ox)];
            let q = cache.over(pixels, w, h, ox, oy, c)[y * w + x];
            &&& pixel::alpha(t) == 255 ==> q == t
            &&& t == 0 ==> q == cache.pill@[(y - oy) * cache.pill_w + (x - ox)]
        }),
{
    let t = cache.text@[(y - oy) * cache.pill_w + (x - ox)];
    face::law_layer_lands_at_its_place(
        pixels,
        w,
        h,
        cache.text@,
        cache.text_w as int,
        cache.text_h as int,
        ox,
        oy,
        c,
        x,
        y,
    );
    let below = face::with_layer(
        pixels,
        w,
        h,
        cache.text@,
        cache.text_w as int,
        cache.text_h as int,
        ox,
        oy,
        c,
    );
    face::law_layer_lands_at_its_place(
        below,
        w,
        h,
        cache.pill@,
        cache.pill_w as int,
        cache.pill_h as int,
        ox,
        oy,
        c,
        x,
        y,
    );
    flatten::law_premult_on_empty_is_source(t);
    flatten::law_premult_on_empty_is_source(cache.pill@[(y - oy) * cache.pill_w + (x - ox)]);
}

} // verus!
