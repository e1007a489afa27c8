//! Shaped glyphs, rasterised through the glyph cache of `cosmic_text`, and drawn.
//!
//! Shaping gives each glyph a cache key and a place. The cache turns the key into a bitmap: it keeps
//! what it once gave for a key, which is what makes added text removable.
use crate::coord::{self, Coord, RU_ONE};
use crate::paint::clip::{self, AlphaMask, Clip};
use crate::paint::transform::Transform;
use crate::text::{self, additive, BoxMask, GlyphImage};
use cosmic_text::{CacheKey, Command, FontSystem, SwashCache};
use swash::scale::ScaleContext;
use swash::zeno::Point;
use vstd::prelude::*;

verus! {

/// `cosmic_text::CacheKey`: which glyph of which font at which size.
#[verifier::external_type_specification]
#[verifier::external_body]
pub struct ExCacheKey(CacheKey);

/// `cosmic_text::FontSystem`: the fonts at hand.
#[verifier::external_type_specification]
#[verifier::external_body]
pub struct ExFontSystem(FontSystem);

/// `cosmic_text::SwashCache`: the bitmaps that were rasterised.
#[verifier::external_type_specification]
#[verifier::external_body]
pub struct ExSwashCache(SwashCache);

/// A rasterised glyph: its left edge `left` columns right of the pen, its top edge `top` rows above
/// the baseline, and its values, row by row.
#[derive(Debug)]
pub struct Bitmap {
    pub left: i32,
    pub top: i32,
    pub width: u32,
    pub height: u32,
    pub data: Vec<u8>,
}

/// What a rasterised glyph holds: left, top, width, height and values.
pub type Face = (i32, i32, u32, u32, Seq<u8>);

/// What a bitmap holds, `None` for a glyph without one.
pub open spec fn face_of(b: Option<Bitmap>) -> Option<Face> {
    match b {
        Some(m) => Some((m.left, m.top, m.width, m.height, m.data@)),
        None => None,
    }
}

/// What a `cosmic_text::SwashCache` holds: for each key that was asked for, the bitmap or its lack.
pub uninterp spec fn images(cache: SwashCache) -> Map<CacheKey, Option<(i32, i32, u32, u32, Seq<u8>)>>;

/// `cosmic_text::SwashCache::new` makes a cache that holds nothing.
pub assume_specification[ SwashCache::new ]() -> (c: SwashCache)
    ensures
        images(c).dom() == Set::<CacheKey>::empty(),
;

/// The field `font_size_bits` of a `cosmic_text::CacheKey`: the bits of the font size in pixels, as a
/// floating-point number of 32 bits. Sizes that are not negative are ordered as their bits are.
pub uninterp spec fn size_bits(key: CacheKey) -> u32;

/// Reads the field `font_size_bits` of a `cosmic_text::CacheKey`.
#[verifier::external_body]
fn font_size_bits(key: &CacheKey) -> (bits: u32)
    ensures
        bits == size_bits(*key),
{
    key.font_size_bits
}

/// The bits of the largest font size that is rasterised, 2048 pixels. The bits of negative sizes,
/// infinities and numbers that are none lie above. A size of 0 would stand for outlines that are not
/// scaled.
pub const MAX_SIZE_BITS: u32 = 0x4500_0000;

/// The key asks for a size that is rasterised.
pub open spec fn sized(key: CacheKey) -> bool {
    0 < size_bits(key) <= MAX_SIZE_BITS
}

/// Whether a `cosmic_text::SwashCache` holds an entry for the key, by `contains_key` of its map.
#[verifier::external_body]
fn holds(cache: &SwashCache, key: &CacheKey) -> (yes: bool)
    ensures
        yes == images(*cache).contains_key(*key),
{
    cache.image_cache.contains_key(key)
}

/// The font of the key was asked for: a `cosmic_text::FontSystem` keeps each font that it once loaded,
/// and also that one could not be had.
pub uninterp spec fn font_loaded(fonts: FontSystem, key: CacheKey) -> bool;

/// Whether the font of the key has colour outlines, and whether it has colour bitmaps.
pub uninterp spec fn colour_sources(fonts: FontSystem, key: CacheKey) -> (bool, bool);

/// A step of an outline, by its points: those that bend it, and the one that it leads to. A point is
/// a column and a row in pixels, the part behind the point left out.
pub enum Step {
    Move((i32, i32)),
    Line((i32, i32)),
    Quad((i32, i32), (i32, i32)),
    Curve((i32, i32), (i32, i32), (i32, i32)),
    Close,
}

/// The steps of the glyph's outline at the size of the key, `None` where the glyph or its font has
/// none.
pub uninterp spec fn outline_steps(fonts: FontSystem, key: CacheKey) -> Option<Seq<Step>>;

/// The fonts that were loaded are the same.
pub open spec fn kept(before: FontSystem, after: FontSystem) -> bool {
    forall|key: CacheKey| #[trigger]
        font_loaded(before, key) ==> {
            &&& font_loaded(after, key)
            &&& colour_sources(after, key) == colour_sources(before, key)
            &&& outline_steps(after, key) == outline_steps(before, key)
        }
}

/// `has_color_outlines` and `has_color_bitmaps` of the `swash::scale::Scaler` of the font, which
/// `cosmic_text::FontSystem::get_font` loads where it was not yet. A font that cannot be had has
/// neither. The fonts loaded before stay as they are.
#[verifier::external_body]
fn colours(fonts: &mut FontSystem, key: &CacheKey) -> (c: (bool, bool))
    ensures
        font_loaded(*final(fonts), *key),
        c == colour_sources(*final(fonts), *key),
        kept(*old(fonts), *final(fonts)),
{
    match fonts.get_font(key.font_id) {
        Some(font) => {
            let mut context = ScaleContext::new();
            let scaler = context.builder(font.as_swash()).build();
            (scaler.has_color_outlines(), scaler.has_color_bitmaps())
        },
        None => (false, false),
    }
}

/// The steps of an outline, `None` for a glyph without one.
pub open spec fn steps_of(steps: Option<Vec<Step>>) -> Option<Seq<Step>> {
    match steps {
        Some(v) => Some(v@),
        None => None,
    }
}

/// `cosmic_text::SwashCache::get_outline_commands_uncached`, on a cache of its own, scales the outline
/// of the glyph with the font, the size and the hinting that `get_image` has. The fonts loaded before
/// stay as they are.
#[verifier::external_body]
fn outline(fonts: &mut FontSystem, key: CacheKey) -> (steps: Option<Vec<Step>>)
    requires
        sized(key),
        font_loaded(*old(fonts), key),
    ensures
        steps_of(steps) == outline_steps(*old(fonts), key),
        kept(*old(fonts), *final(fonts)),
{
    let path = SwashCache::new().get_outline_commands_uncached(fonts, key)?;
    let at = |p: &Point| (p.x as i32, p.y as i32);
    let step = |c: &Command|
        match c {
            Command::MoveTo(p) => Step::Move(at(p)),
            Command::LineTo(p) => Step::Line(at(p)),
            Command::QuadTo(a, p) => Step::Quad(at(a), at(p)),
            Command::CurveTo(a, b, p) => Step::Curve(at(a), at(b), at(p)),
            Command::Close => Step::Close,
        };
    Some(path.iter().map(step).collect())
}

/// How far from the origin, in pixels, an outline may reach to be rasterised. The rasteriser works in
/// 32 bits, on pixels split in 256 both ways: up to this reach, slanted too, no line of an outline
/// overflows it, nor does the count of an image's cells.
pub const MAX_REACH: i32 = 2047;

/// How many steps an outline may have to be rasterised: as many can all add to one pixel without an
/// overflow.
pub const MAX_STEPS: usize = 4096;

/// The point lies within reach of the origin.
pub open spec fn near(p: (i32, i32)) -> bool {
    -MAX_REACH <= p.0 <= MAX_REACH && -MAX_REACH <= p.1 <= MAX_REACH
}

/// Every point of the step lies within reach of the origin.
pub open spec fn step_near(step: Step) -> bool {
    match step {
        Step::Move(p) => near(p),
        Step::Line(p) => near(p),
        Step::Quad(a, p) => near(a) && near(p),
        Step::Curve(a, b, p) => near(a) && near(b) && near(p),
        Step::Close => true,
    }
}

/// The outline has no more steps than can be rasterised, each within reach of the origin.
pub open spec fn tame(outline: Option<Seq<Step>>) -> bool {
    match outline {
        Some(steps) => steps.len() <= MAX_STEPS && forall|i: int|
            0 <= i < steps.len() ==> step_near(#[trigger] steps[i]),
        None => true,
    }
}

/// Whether the point lies within reach of the origin.
fn is_near(p: (i32, i32)) -> (yes: bool)
    ensures
        yes == near(p),
{
    -MAX_REACH <= p.0 && p.0 <= MAX_REACH && -MAX_REACH <= p.1 && p.1 <= MAX_REACH
}

/// Whether every point of the step lies within reach of the origin.
fn is_step_near(step: &Step) -> (yes: bool)
    ensures
        yes == step_near(*step),
{
    match step {
        Step::Move(p) => is_near(*p),
        Step::Line(p) => is_near(*p),
        Step::Quad(a, p) => is_near(*a) && is_near(*p),
        Step::Curve(a, b, p) => is_near(*a) && is_near(*b) && is_near(*p),
        Step::Close => true,
    }
}

/// Whether the outline can be rasterised.
pub fn is_tame(outline: &Option<Vec<Step>>) -> (yes: bool)
    ensures
        yes == tame(steps_of(*outline)),
{
    match outline {
        Some(steps) => {
            if steps.len() > MAX_STEPS {
                return false;
            }
            let mut i: usize = 0;
            while i < steps.len()
                invariant
                    0 <= i <= steps@.len(),
                    steps@.len() <= MAX_STEPS,
                    steps_of(*outline) == Some(steps@),
                    forall|j: int| 0 <= j < i ==> step_near(#[trigger] steps@[j]),
                decreases steps@.len() - i,
            {
                if !is_step_near(&steps[i]) {
                    assert(!step_near((steps_of(*outline)->0)[i as int]));
                    return false;
                }
                i = i + 1;
            }
            true
        },
        None => true,
    }
}

/// The glyph's font is loaded, and the rasteriser can take the glyph. The fonts with colour outlines
/// or colour bitmaps are held back whole: nothing bounds their layers and strikes beforehand.
pub open spec fn drawable(fonts: FontSystem, key: CacheKey) -> bool {
    &&& sized(key)
    &&& font_loaded(fonts, key)
    &&& colour_sources(fonts, key) == (false, false)
    &&& tame(outline_steps(fonts, key))
}

/// The glyph was looked at, and the rasteriser cannot take it: its size or its outline is too large,
/// or its font has colours. Of a font that has colours, glyphs without any are refused too.
pub open spec fn refused(fonts: FontSystem, key: CacheKey) -> bool {
    !sized(key) || font_loaded(fonts, key) && !drawable(fonts, key)
}

/// `cosmic_text::SwashCache::get_image` gives the image that the cache holds for the key. Where it
/// holds none yet, the glyph is rasterised first and what came of it goes into the cache. What a
/// fresh image shows is left open: it rests on the fonts that are loaded. A glyph that the cache does
/// not hold has to be drawable, since the rasteriser overflows on one of too many cells: it fills the
/// outline that [`outline`] gives, slanted where the key says so, or nothing. The fonts loaded before
/// stay as they are.
#[verifier::external_body]
fn get_image(cache: &mut SwashCache, fonts: &mut FontSystem, key: CacheKey) -> (b: Option<Bitmap>)
    requires
        images(*old(cache)).contains_key(key) || drawable(*old(fonts), key),
    ensures
        images(*final(cache)) == (if images(*old(cache)).contains_key(key) {
            images(*old(cache))
        } else {
            images(*old(cache)).insert(key, face_of(b))
        }),
        images(*final(cache))[key] == face_of(b),
        kept(*old(fonts), *final(fonts)),
{
    match cache.get_image(fonts, key) {
        Some(image) => Some(
            Bitmap {
                left: image.placement.left,
                top: image.placement.top,
                width: image.placement.width,
                height: image.placement.height,
                data: image.data.clone(),
            },
        ),
        None => None,
    }
}

/// A glyph of a shaped line: its key, the pixel of its pen, and how far below that row the baseline
/// lies.
#[derive(Clone, Copy)]
pub struct ShapedGlyph {
    pub key: CacheKey,
    pub x: i32,
    pub y: i32,
    pub baseline: i32,
}

/// The bitmap has a value for each cell, and every cell of it, with the pen at column `x` of row `y`,
/// stands at a column and a row that fit 32 bits.
pub open spec fn usable(x: int, y: int, f: Face) -> bool {
    &&& f.2 * f.3 <= f.4.len()
    &&& f.2 <= i32::MAX
    &&& f.3 <= i32::MAX
    &&& i32::MIN <= x + f.0
    &&& x + f.0 + f.2 <= i32::MAX
    &&& i32::MIN <= y - f.1
    &&& y - f.1 + f.3 <= i32::MAX
}

/// `g` is the bitmap placed with the pen at column `x` of row `y`. A lacking or unusable bitmap has no
/// cells.
pub open spec fn depicts(g: GlyphImage, x: int, y: int, f: Option<Face>) -> bool {
    match f {
        Some(m) => if usable(x, y, m) {
            &&& g.x == x + m.0
            &&& g.y == y - m.1
            &&& g.w == m.2
            &&& g.h == m.3
            &&& g.coverage@ == m.4.subrange(0, m.2 * m.3)
        } else {
            g.w == 0 && g.h == 0
        },
        None => g.w == 0 && g.h == 0,
    }
}

/// Places a bitmap with the pen at column `x` of row `y`.
pub fn place_bitmap(x: i64, y: i64, bitmap: Option<Bitmap>) -> (g: GlyphImage)
    requires
        -0x1_0000_0000 <= x <= 0x1_0000_0000,
        -0x1_0000_0000 <= y <= 0x1_0000_0000,
    ensures
        g.wf(),
        depicts(g, x as int, y as int, face_of(bitmap)),
{
    match bitmap {
        Some(b) => {
            let gx: i64 = x + b.left as i64;
            let gy: i64 = y - b.top as i64;
            let n: usize = b.data.len();
            proof {
                assert(0 <= b.width * b.height <= 0xFFFF_FFFE_0000_0001) by (nonlinear_arith)
                    requires
                        0 <= b.width <= 0xFFFF_FFFF,
                        0 <= b.height <= 0xFFFF_FFFF,
                ;
            }
            let cells: u64 = b.width as u64 * b.height as u64;
            if cells <= n as u64 && b.width <= 0x7FFF_FFFF && b.height <= 0x7FFF_FFFF && gx
                >= -0x8000_0000 && gy >= -0x8000_0000 && gx + b.width as i64 <= 0x7FFF_FFFF && gy
                + b.height as i64 <= 0x7FFF_FFFF {
                let mut coverage: Vec<u8> = b.data;
                coverage.truncate(cells as usize);
                GlyphImage {
                    x: gx as i32,
                    y: gy as i32,
                    w: b.width as usize,
                    h: b.height as usize,
                    coverage,
                }
            } else {
                blank()
            }
        },
        None => blank(),
    }
}

/// A glyph without cells.
fn blank() -> (g: GlyphImage)
    ensures
        g.wf(),
        g.w == 0,
        g.h == 0,
{
    GlyphImage { x: 0, y: 0, w: 0, h: 0, coverage: Vec::new() }
}

/// The images show the glyphs, each as the cache holds it. A glyph that was refused has no cells.
pub open spec fn line_depicted(
    line: Seq<GlyphImage>,
    glyphs: Seq<ShapedGlyph>,
    held: Map<CacheKey, Option<Face>>,
    fonts: FontSystem,
) -> bool {
    &&& line.len() == glyphs.len()
    &&& forall|i: int|
        0 <= i < line.len() ==> {
            &&& (#[trigger] line[i]).wf()
            &&& shown(line[i], glyphs[i], held, fonts)
        }
}

/// The image shows the glyph as the cache holds it, or nothing where the glyph was refused.
pub open spec fn shown(
    g: GlyphImage,
    glyph: ShapedGlyph,
    held: Map<CacheKey, Option<Face>>,
    fonts: FontSystem,
) -> bool {
    if held.contains_key(glyph.key) {
        depicts(g, glyph.x as int, glyph.y + glyph.baseline, held[glyph.key])
    } else {
        refused(fonts, glyph.key) && g.w == 0 && g.h == 0
    }
}

/// One of the first `n` glyphs has this key.
pub open spec fn asked(glyphs: Seq<ShapedGlyph>, key: CacheKey, n: int) -> bool {
    exists|i: int| 0 <= i < n && (#[trigger] glyphs[i]).key == key
}

/// The cache after a line was asked for: it keeps what it had, and has gained keys of the line alone,
/// of glyphs that can be drawn.
pub open spec fn grown(
    before: Map<CacheKey, Option<Face>>,
    after: Map<CacheKey, Option<Face>>,
    glyphs: Seq<ShapedGlyph>,
    n: int,
    fonts: FontSystem,
) -> bool {
    &&& before.submap_of(after)
    &&& forall|key: CacheKey| #[trigger]
        after.contains_key(key) ==> before.contains_key(key) || asked(glyphs, key, n) && drawable(
            fonts,
            key,
        )
}

/// A glyph that was shown is still shown so once the cache has grown.
proof fn lemma_shown_on(
    g: GlyphImage,
    glyph: ShapedGlyph,
    held: Map<CacheKey, Option<Face>>,
    later: Map<CacheKey, Option<Face>>,
    glyphs: Seq<ShapedGlyph>,
    n: int,
    fonts: FontSystem,
    later_fonts: FontSystem,
)
    requires
        shown(g, glyph, held, fonts),
        grown(held, later, glyphs, n, later_fonts),
        kept(fonts, later_fonts),
    ensures
        shown(g, glyph, later, later_fonts),
{
    if held.contains_key(glyph.key) {
        assert(later.contains_key(glyph.key));
        assert(later[glyph.key] == held[glyph.key]);
    } else {
        assert(refused(later_fonts, glyph.key));
        assert(!drawable(later_fonts, glyph.key));
        assert(!later.contains_key(glyph.key));
    }
}

/// The cache grows on with the next glyph of a line.
proof fn lemma_grown_on(
    before: Map<CacheKey, Option<Face>>,
    held: Map<CacheKey, Option<Face>>,
    later: Map<CacheKey, Option<Face>>,
    glyphs: Seq<ShapedGlyph>,
    i: int,
    fonts: FontSystem,
    later_fonts: FontSystem,
)
    requires
        0 <= i < glyphs.len(),
        grown(before, held, glyphs, i, fonts),
        grown(held, later, seq![glyphs[i]], 1, later_fonts),
        kept(fonts, later_fonts),
    ensures
        grown(before, later, glyphs, i + 1, later_fonts),
{
    assert forall|key: CacheKey| #[trigger] before.contains_key(key) implies later.contains_key(key)
        && before[key] == later[key] by {
        assert(before.dom().contains(key));
        assert(held.dom().contains(key));
        assert(later.dom().contains(key));
    }
    assert forall|key: CacheKey| #[trigger] later.contains_key(key) implies before.contains_key(key)
        || asked(glyphs, key, i + 1) && drawable(later_fonts, key) by {
        if held.contains_key(key) {
            if !before.contains_key(key) {
                let k = choose|k: int| 0 <= k < i && (#[trigger] glyphs[k]).key == key;
                assert(glyphs[k].key == key);
            }
        } else {
            let k = choose|k: int| 0 <= k < 1 && (#[trigger] seq![glyphs[i]][k]).key == key;
            assert(glyphs[i].key == key);
        }
    }
}

/// Draws text: the fonts at hand, and the bitmaps rasterised from them.
pub struct TextRenderer {
    pub font_system: FontSystem,
    pub swash_cache: SwashCache,
}

impl TextRenderer {
    /// What the cache holds.
    pub open spec fn held(&self) -> Map<CacheKey, Option<Face>> {
        images(self.swash_cache)
    }

    /// The images show the glyphs, by the cache and the fonts at hand.
    pub open spec fn depicted(&self, line: Seq<GlyphImage>, glyphs: Seq<ShapedGlyph>) -> bool {
        line_depicted(line, glyphs, self.held(), self.font_system)
    }

    /// The renderer after these glyphs were asked for.
    pub open spec fn grew_to(&self, after: &TextRenderer, glyphs: Seq<ShapedGlyph>) -> bool {
        &&& grown(self.held(), after.held(), glyphs, glyphs.len() as int, after.font_system)
        &&& kept(self.font_system, after.font_system)
    }

    /// A renderer with nothing rasterised yet.
    pub fn with_fonts(font_system: FontSystem) -> (t: TextRenderer)
        ensures
            t.font_system == font_system,
            t.held().dom() == Set::<CacheKey>::empty(),
    {
        TextRenderer { font_system, swash_cache: SwashCache::new() }
    }

    /// The image of a glyph, rasterised where the cache does not hold it and the glyph can be drawn.
    pub fn image_of(&mut self, glyph: ShapedGlyph) -> (image: GlyphImage)
        ensures
            image.wf(),
            shown(image, glyph, final(self).held(), final(self).font_system),
            old(self).grew_to(final(self), seq![glyph]),
    {
        proof {
            assert(seq![glyph][0].key == glyph.key);
            assert(asked(seq![glyph], glyph.key, 1));
        }
        let held = holds(&self.swash_cache, &glyph.key);
        let bits: u32 = font_size_bits(&glyph.key);
        if !held {
            if bits == 0 || bits > MAX_SIZE_BITS {
                return blank();
            }
            let (layers, strikes) = colours(&mut self.font_system, &glyph.key);
            let steps = outline(&mut self.font_system, glyph.key);
            if layers || strikes || !is_tame(&steps) {
                return blank();
            }
        }
        let bitmap = get_image(&mut self.swash_cache, &mut self.font_system, glyph.key);
        place_bitmap(glyph.x as i64, glyph.y as i64 + glyph.baseline as i64, bitmap)
    }

    /// The images of a line, each rasterised once for its key.
    pub fn rasterize(&mut self, glyphs: &[ShapedGlyph]) -> (line: Vec<GlyphImage>)
        ensures
            final(self).depicted(line@, glyphs@),
            old(self).grew_to(final(self), glyphs@),
    {
        let mut line: Vec<GlyphImage> = Vec::new();
        let ghost before = self.held();
        let ghost fonts = self.font_system;
        let mut i: usize = 0;
        while i < glyphs.len()
            invariant
                0 <= i <= glyphs@.len(),
                line_depicted(line@, glyphs@.take(i as int), self.held(), self.font_system),
                grown(before, self.held(), glyphs@, i as int, self.font_system),
                kept(fonts, self.font_system),
            decreases glyphs@.len() - i,
        {
            let g: ShapedGlyph = glyphs[i];
            let ghost held = self.held();
            let ghost had = self.font_system;
            let image = self.image_of(g);
            proof {
                lemma_grown_on(before, held, self.held(), glyphs@, i as int, had, self.font_system);
                assert forall|j: int| 0 <= j < i implies {
                    &&& (#[trigger] line@[j]).wf()
                    &&& shown(line@[j], glyphs@[j], self.held(), self.font_system)
                } by {
                    assert(glyphs@.take(i as int)[j] == glyphs@[j]);
                    lemma_shown_on(
                        line@[j],
                        glyphs@[j],
                        held,
                        self.held(),
                        seq![g],
                        1,
                        had,
                        self.font_system,
                    );
                }
            }
            let ghost done = line@;
            line.push(image);
            proof {
                let seen = glyphs@.take(i + 1);
                assert forall|j: int| 0 <= j < line@.len() implies {
                    &&& (#[trigger] line@[j]).wf()
                    &&& shown(line@[j], seen[j], self.held(), self.font_system)
                } by {
                    assert(seen[j] == glyphs@[j]);
                    if j < i {
                        assert(line@[j] == done[j] && done[j].wf());
                    }
                }
            }
            i = i + 1;
        }
        assert(glyphs@.take(i as int) =~= glyphs@);
        line
    }

    /// The fonts at hand, to be added to.
    pub fn font_system_mut(&mut self) -> (fonts: &mut FontSystem)
        ensures
            *fonts == old(self).font_system,
            final(self).font_system == *final(fonts),
            final(self).swash_cache == old(self).swash_cache,
    {
        &mut self.font_system
    }

    /// Draws a line: mixes `colour` into each pixel of the clip that it covers, by its coverage, which
    /// the mask scales where there is one.
    pub fn render_buffer_u32(
        &mut self,
        pixels: &mut [u32],
        buf_w: usize,
        buf_h: usize,
        glyphs: &[ShapedGlyph],
        colour: u32,
        clip: Option<Clip>,
        mask: Option<&AlphaMask>,
    )
        requires
            buf_w * buf_h <= old(pixels)@.len(),
            Clip::resolved(clip, buf_w, buf_h).within(buf_w, buf_h),
            clip::mask_fits(mask, buf_w, buf_h),
        ensures
            old(self).grew_to(final(self), glyphs@),
            exists|line: Seq<GlyphImage>| #[trigger]
                final(self).depicted(line, glyphs@) && final(pixels)@
                    == text::with_glyphs(
                    old(pixels)@,
                    buf_w as int,
                    line,
                    colour,
                    Clip::resolved(clip, buf_w, buf_h),
                    clip::mask_values(mask),
                    line.len() as int,
                ),
    {
        let line = self.rasterize(glyphs);
        text::draw_glyphs(pixels, buf_w, buf_h, line.as_slice(), colour, clip, mask);
        assert(self.depicted(line@, glyphs@));
    }

    /// Draws a line on a buffer with as many bytes to the pixel as `colour` has, turned about the
    /// anchor. Draws nothing, and says so, where a cell of it would fall outside the buffer.
    pub fn render_buffer(
        &mut self,
        pixels: &mut [u8],
        width: u32,
        glyphs: &[ShapedGlyph],
        colour: &Vec<u8>,
        anchor_x: Coord,
        anchor_y: Coord,
        rotation: u16,
    ) -> (drawn: bool)
        requires
            coord::in_range(anchor_x as int),
            coord::in_range(anchor_y as int),
        ensures
            old(self).grew_to(final(self), glyphs@),
            exists|line: Seq<GlyphImage>| #[trigger]
                final(self).depicted(line, glyphs@) && drawn == additive::line_fits(
                    line,
                    width as int,
                    colour@.len() as int,
                    old(pixels)@.len() as int,
                    anchor_x as int,
                    anchor_y as int,
                    rotation,
                ) && final(pixels)@ == (if drawn {
                    additive::with_line_bytes(
                        old(pixels)@,
                        width as int,
                        line,
                        colour@,
                        anchor_x as int,
                        anchor_y as int,
                        rotation,
                        line.len() as int,
                    )
                } else {
                    old(pixels)@
                }),
    {
        let line = self.rasterize(glyphs);
        let len: usize = pixels.len();
        let fits = additive::test_line(
            line.as_slice(),
            width,
            colour.len(),
            len,
            anchor_x,
            anchor_y,
            rotation,
        );
        if fits {
            additive::draw_line_bytes(
                pixels,
                width,
                line.as_slice(),
                colour,
                anchor_x,
                anchor_y,
                rotation,
            );
        }
        assert(self.depicted(line@, glyphs@));
        fits
    }

    /// Adds a line to the buffer, or takes it away, by wrapping arithmetic on whole pixels.
    pub fn render_buffer_additive_u32(
        &mut self,
        pixels: &mut [u32],
        width: usize,
        glyphs: &[ShapedGlyph],
        colour: u32,
        add_mode: bool,
    )
        ensures
            old(self).grew_to(final(self), glyphs@),
            exists|line: Seq<GlyphImage>| #[trigger]
                final(self).depicted(line, glyphs@) && final(pixels)@
                    == additive::with_added(
                    old(pixels)@,
                    width as int,
                    line,
                    colour,
                    add_mode,
                    line.len() as int,
                ),
    {
        let line = self.rasterize(glyphs);
        additive::add_glyphs(pixels, width, line.as_slice(), colour, add_mode);
        assert(self.depicted(line@, glyphs@));
    }

    /// Adds a character to a buffer of four bytes to the pixel, or takes it away, inside a masked box.
    pub fn render_char_additive(
        &mut self,
        pixels: &mut [u8],
        width: u32,
        height: u32,
        glyphs: &[ShapedGlyph],
        colour: [u8; 4],
        mask: &BoxMask,
        add_mode: bool,
    )
        requires
            4 * (width * height) <= old(pixels)@.len(),
            4 * width <= usize::MAX,
        ensures
            old(self).grew_to(final(self), glyphs@),
            exists|line: Seq<GlyphImage>| #[trigger]
                final(self).depicted(line, glyphs@) && final(pixels)@
                    == additive::with_masked_bytes(
                    old(pixels)@,
                    width as int,
                    height as int,
                    line,
                    colour@,
                    mask,
                    add_mode,
                    line.len() as int,
                ),
    {
        let line = self.rasterize(glyphs);
        additive::add_masked_bytes(pixels, width, height, line.as_slice(), colour, mask, add_mode);
        assert(self.depicted(line@, glyphs@));
    }

    /// Adds a character to the buffer, or takes it away, its coverage scaled by the mask.
    pub fn render_char_additive_u32(
        &mut self,
        pixels: &mut [u32],
        width: usize,
        glyphs: &[ShapedGlyph],
        colour: u32,
        textbox_mask: &[u8],
        add_mode: bool,
    )
        requires
            width > 0,
            textbox_mask@.len() >= (old(pixels)@.len() / width as nat) * width,
        ensures
            old(self).grew_to(final(self), glyphs@),
            exists|line: Seq<GlyphImage>| #[trigger]
                final(self).depicted(line, glyphs@) && final(pixels)@
                    == additive::with_masked(
                    old(pixels)@,
                    width as int,
                    line,
                    colour,
                    textbox_mask@,
                    add_mode,
                    line.len() as int,
                ),
    {
        let line = self.rasterize(glyphs);
        additive::add_masked_glyphs(
            pixels,
            width,
            line.as_slice(),
            colour,
            textbox_mask,
            add_mode,
        );
        assert(self.depicted(line@, glyphs@));
    }
}

/// `v` limited to 32 bits.
pub open spec fn narrowed(v: int) -> int {
    clip::clamp_int(v, i32::MIN as int, i32::MAX as int)
}

/// The pixel that a transform takes the pixel at column `x` of row `y` to, its fraction dropped.
pub open spec fn turned(t: Transform, x: int, y: int) -> (int, int) {
    (
        narrowed(coord::truncated(t.a * x + t.c * y + t.tx, RU_ONE as int)),
        narrowed(coord::truncated(t.b * x + t.d * y + t.ty, RU_ONE as int)),
    )
}

/// One coordinate of the pixel that a transform takes a pixel to.
fn turn(u: i64, x: i64, v: i64, y: i64, shift: i64) -> (r: i64)
    requires
        -0x1_0000_0000 <= x <= 0x1_0000_0000,
        -0x1_0000_0000 <= y <= 0x1_0000_0000,
    ensures
        r as int == narrowed(coord::truncated(u * x + v * y + shift, RU_ONE as int)),
        i32::MIN <= r <= i32::MAX,
{
    proof {
        assert(-0x8000_0000_0000_0000 * 0x1_0000_0000 <= u * x <= 0x8000_0000_0000_0000
            * 0x1_0000_0000) by (nonlinear_arith)
            requires
                -0x8000_0000_0000_0000 <= u <= 0x8000_0000_0000_0000,
                -0x1_0000_0000 <= x <= 0x1_0000_0000,
        ;
        assert(-0x8000_0000_0000_0000 * 0x1_0000_0000 <= v * y <= 0x8000_0000_0000_0000
            * 0x1_0000_0000) by (nonlinear_arith)
            requires
                -0x8000_0000_0000_0000 <= v <= 0x8000_0000_0000_0000,
                -0x1_0000_0000 <= y <= 0x1_0000_0000,
        ;
    }
    let q: i128 = coord::truncate(
        u as i128 * x as i128 + v as i128 * y as i128 + shift as i128,
        0x1_0000_0000,
    );
    if q < -0x8000_0000 {
        -0x8000_0000
    } else if q > 0x7FFF_FFFF {
        0x7FFF_FFFF
    } else {
        q as i64
    }
}

/// Places a bitmap whose outline was transformed: the pen goes where the transform takes it, so that
/// the whole line turns as one piece.
pub fn place_turned(t: Transform, x: i32, y: i32, baseline: i32, bitmap: Option<Bitmap>) -> (g:
    GlyphImage)
    ensures
        g.wf(),
        ({
            let at = turned(t, x as int, y + baseline);
            depicts(g, at.0, at.1, face_of(bitmap))
        }),
{
    let row: i64 = y as i64 + baseline as i64;
    let px: i64 = turn(t.a, x as i64, t.c, row, t.tx);
    let py: i64 = turn(t.b, x as i64, t.d, row, t.ty);
    place_bitmap(px, py, bitmap)
}

/// A line that is drawn again has the same ink, whatever other glyphs were asked for in between.
pub proof fn law_line_is_rasterized_alike(
    glyphs: Seq<ShapedGlyph>,
    line: Seq<GlyphImage>,
    before: TextRenderer,
    others: Seq<ShapedGlyph>,
    again: Seq<GlyphImage>,
    after: TextRenderer,
)
    requires
        before.depicted(line, glyphs),
        before.grew_to(&after, others),
        after.depicted(again, glyphs),
    ensures
        additive::same_ink(line, again),
{
    assert forall|i: int, x: int, y: int| 0 <= i < line.len() implies #[trigger] line[i].at(x, y)
        == again[i].at(x, y) by {
        assert(line[i].wf() && again[i].wf());
        lemma_shown_on(
            line[i],
            glyphs[i],
            before.held(),
            after.held(),
            others,
            others.len() as int,
            before.font_system,
            after.font_system,
        );
        assert(shown(again[i], glyphs[i], after.held(), after.font_system));
    }
}

/// Text that a renderer added, it can take away again: whatever it rasterised, it finds in its cache,
/// and what it refused, it refuses again.
pub proof fn law_rendered_text_is_reversible(
    pixels: Seq<u32>,
    w: int,
    glyphs: Seq<ShapedGlyph>,
    colour: u32,
    add_mode: bool,
    before: TextRenderer,
    line: Seq<GlyphImage>,
    after: TextRenderer,
    again: Seq<GlyphImage>,
)
    requires
        before.depicted(line, glyphs),
        before.grew_to(&after, glyphs),
        after.depicted(again, glyphs),
    ensures
        additive::with_added(
            additive::with_added(pixels, w, line, colour, add_mode, line.len() as int),
            w,
            again,
            colour,
            !add_mode,
            again.len() as int,
        ) == pixels,
        after.held() == before.held(),
{
    let held = before.held();
    let later = after.held();
    law_line_is_rasterized_alike(glyphs, line, before, glyphs, again, after);
    additive::law_added_line_is_reversible(pixels, w, line, again, colour, add_mode);
    assert forall|key: CacheKey| #[trigger] later.contains_key(key) implies held.contains_key(
        key,
    ) by {
        if !held.contains_key(key) {
            let i = choose|i: int| 0 <= i < glyphs.len() && (#[trigger] glyphs[i]).key == key;
            assert(line[i].wf());
            assert(shown(line[i], glyphs[i], held, before.font_system));
            assert(refused(after.font_system, key));
        }
    }
    assert(later =~= held);
}

} // verus!
