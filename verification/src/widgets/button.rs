//! A pill-shaped button with a label. It counts its clicks, and the application polls the count.
use crate::canvas::{Canvas, PixelRect};
use crate::coord::{self, Coord, Ratio};
use crate::event::{self, EventResponse, KeyEvent};
use crate::paint::clip::{AlphaMask, Clip, HitId};
use crate::paint::colour;
use crate::paint::overlay;
use crate::paint::glow::PillRect;
use crate::pixel;
use crate::pool;
use crate::region::Region;
use crate::text;
use crate::theme;
use crate::widgets::cache::{FaceCache, PillArt};
use crate::widgets::face::{self, FaceStyle};
use crate::widgets::ident;
use vstd::prelude::*;

verus! {

pub struct Button {
    pub hit_id: HitId,
    pub label: String,
    /// Stroke thickness as a multiple of the font size.
    pub stroke_ru: Ratio,
    pub center_x: Coord,
    pub center_y: Coord,
    pub width: Coord,
    pub height: Coord,
    pub font_size: Coord,
    pub focused: bool,
    pub hovered: bool,
    /// Clicks since construction, wrapping.
    pub click_counter: u32,
    /// The count at the last poll.
    pub last_seen_click_counter: u32,
    pub cache: FaceCache,
    pub last_painted_bbox: Option<PixelRect>,
    pub last_painted_focused: bool,
    pub last_painted_hovered: bool,
}

impl Button {
    /// The geometry is one that a widget can have, and the cached layers are whole.
    pub open spec fn wf(&self) -> bool {
        &&& self.place_ok()
        &&& face::stroke_ok(self.stroke_ru as int, self.font_size as int)
        &&& self.cache.wf()
    }

    pub open spec fn place_ok(&self) -> bool {
        face::place_ok(
            self.center_x as int,
            self.center_y as int,
            self.width as int,
            self.height as int,
            self.font_size as int,
        )
    }

    /// The button was clicked since the last poll.
    pub open spec fn clicked(&self) -> bool {
        self.click_counter != self.last_seen_click_counter
    }

    /// The rectangle of the button.
    pub open spec fn rect(&self) -> Region {
        face::centred(
            self.center_x as int,
            self.center_y as int,
            self.width as int,
            self.height as int,
        )
    }

    /// The rectangle of the button with the reach of its focus glow.
    pub open spec fn glow_rect(&self) -> Region {
        face::glow_region(
            self.center_x as int,
            self.center_y as int,
            self.width as int,
            self.height as int,
            self.font_size as int,
        )
    }

    /// A new button, with the next hit identifier.
    pub fn new(
        hit_counter: &mut HitId,
        center_x: Coord,
        center_y: Coord,
        width: Coord,
        height: Coord,
        font_size: Coord,
        label: String,
    ) -> (b: Button)
        requires
            *old(hit_counter) < HitId::MAX,
        ensures
            *final(hit_counter) == *old(hit_counter) + 1,
            b.hit_id == *final(hit_counter),
            b.label@ == label@,
            b.center_x == center_x,
            b.center_y == center_y,
            b.width == width,
            b.height == height,
            b.font_size == font_size,
            b.stroke_ru == 0,
            !b.focused,
            !b.hovered,
            b.click_counter == 0,
            !b.clicked(),
            b.cache.wf(),
            b.cache.pill_dirty,
            b.cache.text_dirty,
            b.last_painted_bbox is None,
            !b.last_painted_focused,
            !b.last_painted_hovered,
            b.place_ok() ==> b.wf(),
    {
        Button {
            hit_id: ident::next_id(hit_counter),
            label,
            stroke_ru: 0,
            center_x,
            center_y,
            width,
            height,
            font_size,
            focused: false,
            hovered: false,
            click_counter: 0,
            last_seen_click_counter: 0,
            cache: FaceCache::new(),
            last_painted_bbox: None,
            last_painted_focused: false,
            last_painted_hovered: false,
        }
    }

    pub fn hit_id(&self) -> (id: HitId)
        ensures
            id == self.hit_id,
    {
        self.hit_id
    }

    pub fn is_focused(&self) -> (b: bool)
        ensures
            b == self.focused,
    {
        self.focused
    }

    pub fn is_hovered(&self) -> (b: bool)
        ensures
            b == self.hovered,
    {
        self.hovered
    }

    pub fn label(&self) -> (s: &str)
        ensures
            s@ == self.label@,
    {
        self.label.as_str()
    }

    pub fn set_focused(&mut self, focused: bool)
        ensures
            *final(self) == (Button { focused, ..*old(self) }),
    {
        self.focused = focused;
    }

    pub fn set_hovered(&mut self, hovered: bool)
        ensures
            *final(self) == (Button { hovered, ..*old(self) }),
    {
        self.hovered = hovered;
    }

    /// Replaces the label; another text has the text layer rasterised again.
    pub fn set_label(&mut self, label: String)
        ensures
            label@ == old(self).label@ ==> *final(self) == *old(self),
            label@ != old(self).label@ ==> *final(self) == (Button {
                label,
                cache: old(self).cache.marked(old(self).cache.pill_dirty, true),
                ..*old(self)
            }),
    {
        if !(label == self.label) {
            self.label = label;
            self.cache.invalidate_text();
        }
    }

    /// Moves and resizes the button; a change has both layers rasterised again.
    pub fn set_rect(&mut self, center_x: Coord, center_y: Coord, width: Coord, height: Coord)
        ensures
            ({
                let moved = old(self).center_x != center_x || old(self).center_y != center_y || old(
                    self,
                ).width != width || old(self).height != height;
                *final(self) == (Button {
                    center_x,
                    center_y,
                    width,
                    height,
                    cache: if moved {
                        old(self).cache.marked(true, true)
                    } else {
                        old(self).cache
                    },
                    ..*old(self)
                })
            }),
    {
        if self.center_x != center_x || self.center_y != center_y || self.width != width
            || self.height != height {
            self.cache.invalidate();
        }
        self.center_x = center_x;
        self.center_y = center_y;
        self.width = width;
        self.height = height;
    }

    /// Changes the font size; a change has both layers rasterised again.
    pub fn set_font_size(&mut self, font_size: Coord)
        ensures
            *final(self) == (Button {
                font_size,
                cache: if old(self).font_size != font_size {
                    old(self).cache.marked(true, true)
                } else {
                    old(self).cache
                },
                ..*old(self)
            }),
    {
        if self.font_size != font_size {
            self.cache.invalidate();
        }
        self.font_size = font_size;
    }

    /// Whether the button was clicked since the last poll. Clicks between two polls count as one.
    pub fn take_click(&mut self) -> (fired: bool)
        ensures
            fired == old(self).clicked(),
            !final(self).clicked(),
            *final(self) == (Button {
                last_seen_click_counter: old(self).click_counter,
                ..*old(self)
            }),
    {
        if self.click_counter != self.last_seen_click_counter {
            self.last_seen_click_counter = self.click_counter;
            true
        } else {
            false
        }
    }

    /// Clicks since construction, wrapping.
    pub fn click_count(&self) -> (n: u32)
        ensures
            n == self.click_counter,
    {
        self.click_counter
    }

    /// Counts a click.
    pub fn fire(&mut self)
        ensures
            *final(self) == (Button {
                click_counter: old(self).click_counter.wrapping_add(1),
                ..*old(self)
            }),
            !old(self).clicked() ==> final(self).clicked(),
    {
        self.click_counter = self.click_counter.wrapping_add(1);
    }

    /// The space between the edge of the pill and its text.
    pub fn padding(&self) -> (p: Coord)
        requires
            self.place_ok(),
        ensures
            p as int == coord::truncated(self.font_size * 2, 5),
    {
        coord::truncate(self.font_size as i128 * 2, 5) as i64
    }

    pub fn bbox(&self) -> (r: Region)
        requires
            self.place_ok(),
        ensures
            r == self.rect(),
            face::edges_ok(r),
    {
        face::centred_region(self.center_x, self.center_y, self.width, self.height)
    }

    /// The rectangle of the button with the reach of its focus glow on every side.
    pub fn glow_bbox(&self) -> (r: Region)
        requires
            self.place_ok(),
        ensures
            r == self.glow_rect(),
            face::edges_ok(r),
    {
        face::glow_envelope(
            self.center_x,
            self.center_y,
            self.width,
            self.height,
            self.font_size,
        )
    }

    /// Something visible changed since the last paint, or there was none.
    pub open spec fn needs_paint(&self) -> bool {
        ||| self.cache.pill_dirty
        ||| self.cache.text_dirty
        ||| self.focused != self.last_painted_focused
        ||| self.hovered != self.last_painted_hovered
        ||| self.last_painted_bbox is None
    }

    /// The pixels to paint anew, `None` where nothing changed since the last paint. The glow counts
    /// only when focus came or went.
    pub fn damage_rect(&self, viewport_w: usize, viewport_h: usize) -> (d: Option<PixelRect>)
        requires
            self.place_ok(),
        ensures
            d is Some <==> self.needs_paint(),
            self.needs_paint() ==> d == Some(
                ({
                    let current = face::region_px(
                        if self.focused != self.last_painted_focused {
                            self.glow_rect()
                        } else {
                            self.rect()
                        },
                        viewport_w,
                        viewport_h,
                    );
                    match self.last_painted_bbox {
                        Some(prev) => prev.hull(current),
                        None => current,
                    }
                }),
            ),
    {
        let focus_changed = self.focused != self.last_painted_focused;
        let hover_changed = self.hovered != self.last_painted_hovered;
        let pill_dirty = self.cache.pill_dirty || self.cache.text_dirty;
        if !pill_dirty && !focus_changed && !hover_changed && self.last_painted_bbox.is_some() {
            return None;
        }
        let current = if focus_changed {
            face::region_to_pixelrect(self.glow_bbox(), viewport_w, viewport_h)
        } else {
            face::region_to_pixelrect(self.bbox(), viewport_w, viewport_h)
        };
        match self.last_painted_bbox {
            Some(prev) => Some(prev.union(current)),
            None => Some(current),
        }
    }

    /// Where the label goes on the text layer: the left end of a text of that width, and the row of
    /// its middle.
    pub open spec fn label_place(&self, text_width: int) -> (int, int) {
        (
            coord::truncated(self.cols() * coord::PX, 2) - coord::truncated(text_width, 2),
            coord::truncated(self.rows() * coord::PX, 2),
        )
    }

    /// Where the label goes on the text layer: the left end of a text of that width, and the row of
    /// its middle.
    pub fn label_anchor(&self, text_width: Coord) -> (p: (Coord, Coord))
        requires
            self.place_ok(),
            coord::in_range(text_width as int),
        ensures
            (p.0 as int, p.1 as int) == self.label_place(text_width as int),
    {
        let cw: i64 = coord::whole_px(self.width) as i64 * 0x1_0000;
        let ch: i64 = coord::whole_px(self.height) as i64 * 0x1_0000;
        (coord::half(cw) - coord::half(text_width), coord::half(ch))
    }

    /// The width of the face in pixels.
    pub open spec fn cols(&self) -> int {
        coord::truncated(self.width as int, coord::PX as int)
    }

    /// The height of the face in pixels.
    pub open spec fn rows(&self) -> int {
        coord::truncated(self.height as int, coord::PX as int)
    }

    /// The face has a pixel.
    pub open spec fn shows(&self) -> bool {
        self.cols() > 0 && self.rows() > 0
    }

    pub open spec fn style() -> FaceStyle {
        FaceStyle {
            fill: theme::BUTTON_FILL,
            light: theme::TEXTBOX_SHADOW_EDGE,
            shadow: theme::TEXTBOX_LIGHT_EDGE,
        }
    }

    /// Where the face goes on a canvas whose corner is at the offset.
    pub open spec fn pill_at(&self, offset_x: int, offset_y: int) -> PillRect {
        PillRect {
            x: face::target_px(self.center_x as int, self.width as int, offset_x),
            y: face::target_px(self.center_y as int, self.height as int, offset_y),
            w: self.cols(),
            h: self.rows(),
        }
    }

    /// The layers after they were brought up to date.
    pub open spec fn refreshed(before: &Button, after: &Button, art: &PillArt) -> bool {
        let cw = before.cols();
        let ch = before.rows();
        let stroke = face::stroke_px(before.stroke_ru as int, before.font_size as int);
        &&& after.cache.pill@ == (if before.cache.pill_dirty {
            face::face_pixels(cw, ch, stroke, Button::style(), art.inner@, art.outer@)
        } else {
            before.cache.pill@
        })
        &&& after.cache.mask@ == (if before.cache.pill_dirty {
            face::opacities(
                face::face_fill(cw, ch, stroke, Button::style().fill, art.inner@),
            )
        } else {
            before.cache.mask@
        })
        &&& before.cache.text_dirty ==> after.cache.text@ == (if before.label@.len() > 0
            && before.font_size > 0 {
            FaceCache::text_pixels(cw, ch, art.glyphs@, theme::TEXTBOX_TEXT, after.cache.mask@)
        } else {
            pool::solid(cw * ch, 0)
        })
        &&& !before.cache.text_dirty ==> after.cache.text@ == before.cache.text@
        &&& FaceCache::updated(&before.cache, &after.cache, before.cache.text_dirty, cw, ch)
    }

    /// The canvas after the button was painted: text, face, and the glow if the button is focused.
    pub open spec fn painted(
        &self,
        pixels: Seq<u32>,
        w: usize,
        h: usize,
        offset_x: int,
        offset_y: int,
        c: Clip,
    ) -> Seq<u32> {
        let r = self.pill_at(offset_x, offset_y);
        let flat = self.cache.over(pixels, w as int, h as int, r.x, r.y, c);
        if self.focused {
            face::with_focus_glow(flat, w, h, c, r, self.font_size as int, theme::GLOW_DARK)
        } else {
            flat
        }
    }

    /// The damage after the button was painted.
    pub open spec fn painted_damage(
        &self,
        d: Option<PixelRect>,
        w: usize,
        h: usize,
        offset_x: int,
        offset_y: int,
        c: Clip,
    ) -> Option<PixelRect> {
        let r = self.pill_at(offset_x, offset_y);
        let flat = self.cache.over_damage(d, w as int, h as int, r.x, r.y, c);
        if self.focused {
            face::focus_glow_damage(flat, w, h, c, r, self.font_size as int)
        } else {
            flat
        }
    }

    /// Paints the button on a canvas whose corner is at the offset, and stamps its identifier on the
    /// hit map wherever its face is opaque. Layers that are out of date are rasterised first; the
    /// number of them is returned. A button without a pixel paints nothing.
    pub fn render_content_into(
        &mut self,
        canvas: &mut Canvas,
        offset_x: Coord,
        offset_y: Coord,
        art: &PillArt,
        clip: Option<Clip>,
        hit_map: Option<&mut [HitId]>,
        hit_id: HitId,
    ) -> (rasterised: u32)
        requires
            old(self).wf(),
            old(canvas).fits(),
            art.wf(),
            face::placeable(offset_x as int),
            face::placeable(offset_y as int),
            old(self).shows() ==> old(self).cache.sized(old(self).cols(), old(self).rows()),
            old(self).shows() ==> old(self).cols() * old(self).rows() <= usize::MAX,
            match hit_map {
                Some(m) => old(canvas).width * old(canvas).height <= m@.len(),
                None => true,
            },
        ensures
            final(self).wf(),
            !old(self).shows() ==> {
                &&& rasterised == 0
                &&& *final(self) == *old(self)
                &&& final(canvas).pixels@ == old(canvas).pixels@
                &&& final(canvas).damage.rect() == old(canvas).damage.rect()
                &&& match hit_map {
                    Some(m) => final(m)@ == m@,
                    None => true,
                }
            },
            old(self).shows() ==> ({
                let w = old(canvas).width;
                let h = old(canvas).height;
                let c = Clip::resolved(clip, w, h);
                let r = old(self).pill_at(offset_x as int, offset_y as int);
                &&& rasterised == (if old(self).cache.pill_dirty {
                    1int
                } else {
                    0
                }) + (if old(self).cache.text_dirty {
                    1int
                } else {
                    0
                })
                &&& Button::refreshed(old(self), final(self), art)
                &&& final(self).cache.sized(final(self).cols(), final(self).rows())
                &&& *final(self) == (Button {
                    cache: final(self).cache,
                    last_painted_bbox: Some(face::region_px(old(self).rect(), w, h)),
                    last_painted_focused: old(self).focused,
                    last_painted_hovered: old(self).hovered,
                    ..*old(self)
                })
                &&& !final(self).needs_paint()
                &&& final(canvas).pixels@ == final(self).painted(
                    old(canvas).pixels@,
                    w,
                    h,
                    offset_x as int,
                    offset_y as int,
                    c,
                )
                &&& final(canvas).damage.rect() == final(self).painted_damage(
                    old(canvas).damage.rect(),
                    w,
                    h,
                    offset_x as int,
                    offset_y as int,
                    c,
                )
                &&& match hit_map {
                    Some(m) => final(m)@ == final(self).cache.over_hits(
                        m@,
                        w as int,
                        h as int,
                        r.x,
                        r.y,
                        c,
                        hit_id,
                    ),
                    None => true,
                }
            }),
            final(canvas).width == old(canvas).width,
            final(canvas).height == old(canvas).height,
            final(final(canvas).pixels)@ == final(old(canvas).pixels)@,
            *final(final(canvas).damage) == *final(old(canvas).damage),
    {
        let x: isize = face::target_of(self.center_x, self.width, offset_x);
        let y: isize = face::target_of(self.center_y, self.height, offset_y);
        let pill_w: isize = coord::whole_px(self.width);
        let pill_h: isize = coord::whole_px(self.height);
        if pill_w <= 0 || pill_h <= 0 {
            return 0;
        }
        let cw: usize = pill_w as usize;
        let ch: usize = pill_h as usize;
        let stroke: isize = face::stroke_width(self.stroke_ru, self.font_size);
        let mut rasterised: u32 = 0;
        if self.cache.pill_dirty {
            rasterised = 1;
        }
        let style = FaceStyle {
            fill: theme::BUTTON_FILL,
            light: theme::TEXTBOX_SHADOW_EDGE,
            shadow: theme::TEXTBOX_LIGHT_EDGE,
        };
        self.cache.refresh_pill(cw, ch, stroke, style, art.inner, art.outer);
        if self.cache.text_dirty {
            rasterised = rasterised + 1;
            self.cache.clear_text(cw, ch);
            if !self.label.as_str().is_empty() && self.font_size > 0 {
                let mask = AlphaMask::new(self.cache.mask.as_slice(), cw, ch);
                text::draw_glyphs(
                    self.cache.text.as_mut_slice(),
                    cw,
                    ch,
                    art.glyphs,
                    theme::TEXTBOX_TEXT,
                    None,
                    Some(&mask),
                );
                proof {
                    text::lemma_glyphs_len(
                        pool::solid(cw * ch, 0),
                        cw as int,
                        art.glyphs@,
                        theme::TEXTBOX_TEXT,
                        Clip::whole(cw, ch),
                        Some(self.cache.mask@),
                        art.glyphs@.len() as int,
                    );
                }
            }
        }
        self.cache.composite(x, y, canvas, hit_map, hit_id, clip);
        if self.focused {
            face::paint_focus_glow(
                canvas,
                x,
                y,
                pill_w,
                pill_h,
                self.font_size,
                theme::GLOW_DARK,
                clip,
            );
        }
        let bbox = self.bbox();
        self.last_painted_bbox = Some(
            face::region_to_pixelrect(bbox, canvas.width, canvas.height),
        );
        self.last_painted_focused = self.focused;
        self.last_painted_hovered = self.hovered;
        rasterised
    }

    /// A click counts.
    pub fn on_click(&mut self) -> (r: EventResponse)
        ensures
            r == EventResponse::Handled,
            *final(self) == (Button {
                click_counter: old(self).click_counter.wrapping_add(1),
                ..*old(self)
            }),
    {
        self.fire();
        EventResponse::Handled
    }

    /// Enter and Space count as a click.
    pub fn on_key(&mut self, kev: &KeyEvent) -> (r: EventResponse)
        ensures
            event::activates(kev) ==> r == EventResponse::Handled && *final(self) == (Button {
                click_counter: old(self).click_counter.wrapping_add(1),
                ..*old(self)
            }),
            !event::activates(kev) ==> r == EventResponse::Pass && *final(self) == *old(self),
    {
        if event::is_activation(kev) {
            self.fire();
            EventResponse::Handled
        } else {
            EventResponse::Pass
        }
    }

    /// The pixels of the button, for the order in which focus moves.
    pub fn focus_bbox(&self) -> (p: PixelRect)
        requires
            self.place_ok(),
        ensures
            p == face::whole_px_rect(self.rect()),
    {
        face::focus_rect(self.bbox())
    }

    /// The tint over the widget in its state.
    pub open spec fn tint(&self) -> u32 {
        if self.focused {
            colour::sub_rgb(theme::BUTTON_ACTIVE, theme::BUTTON_FILL)
        } else if self.hovered {
            colour::sub_rgb(theme::BUTTON_HOVER, theme::BUTTON_FILL)
        } else {
            0
        }
    }

    /// The tint over the fill: none, hovered, or focused, which wins over hovered.
    pub fn tint_delta(&self) -> (d: u32)
        ensures
            d == self.tint(),
    {
        if self.focused {
            colour::wrap_sub_rgb(theme::BUTTON_ACTIVE, theme::BUTTON_FILL)
        } else if self.hovered {
            colour::wrap_sub_rgb(theme::BUTTON_HOVER, theme::BUTTON_FILL)
        } else {
            0
        }
    }
}

/// A button after `n` clicks.
pub open spec fn clicked_times(b: Button, n: nat) -> Button
    decreases n,
{
    if n == 0 {
        b
    } else {
        let before = clicked_times(b, (n - 1) as nat);
        Button { click_counter: before.click_counter.wrapping_add(1), ..before }
    }
}

/// Any number of clicks between two polls, up to a full turn of the counter, is seen as one.
pub proof fn law_clicks_between_polls_are_one(b: Button, n: nat)
    requires
        !b.clicked(),
        n < 0x1_0000_0000,
    ensures
        clicked_times(b, n).clicked() == (n > 0),
{
    lemma_clicked_times(b, n);
}

/// Clicks add up, modulo the range of the counter.
proof fn lemma_clicked_times(b: Button, n: nat)
    ensures
        clicked_times(b, n).click_counter == (b.click_counter + n) % 0x1_0000_0000,
        clicked_times(b, n).last_seen_click_counter == b.last_seen_click_counter,
    decreases n,
{
    if n > 0 {
        lemma_clicked_times(b, (n - 1) as nat);
    }
}

/// A button at rest shows its fill, a hovered one the hover colour, and a focused one the active
/// colour, once its tint lies over the fill.
pub proof fn law_tint_shows_the_state(b: Button)
    ensures
        ({
            let shown = overlay::tinted(theme::BUTTON_FILL, b.tint());
            &&& b.focused ==> pixel::red(shown) == 255 - pixel::red(theme::BUTTON_ACTIVE) && pixel::green(shown)
                == 255 - pixel::green(theme::BUTTON_ACTIVE) && pixel::blue(shown) == 255 - pixel::blue(
                theme::BUTTON_ACTIVE,
            )
            &&& b.hovered && !b.focused ==> pixel::red(shown) == 255 - pixel::red(theme::BUTTON_HOVER) && pixel::green(
                shown,
            ) == 255 - pixel::green(theme::BUTTON_HOVER) && pixel::blue(shown) == 255 - pixel::blue(
                theme::BUTTON_HOVER,
            )
            &&& !b.hovered && !b.focused ==> pixel::red(shown) == 255 - pixel::red(theme::BUTTON_FILL) && pixel::green(
                shown,
            ) == 255 - pixel::green(theme::BUTTON_FILL) && pixel::blue(shown) == 255 - pixel::blue(
                theme::BUTTON_FILL,
            )
        }),
{
    overlay::law_tint_shows_the_target(theme::BUTTON_FILL, theme::BUTTON_FILL, theme::BUTTON_ACTIVE);
    overlay::law_tint_shows_the_target(theme::BUTTON_FILL, theme::BUTTON_FILL, theme::BUTTON_HOVER);
    overlay::law_untinted_pixel_shows_itself(theme::BUTTON_FILL);
}

/// The label stands in the middle of the face: as much of it lies left of its text as right of it, and
/// its middle row is the middle of the face, up to the rounding of halves.
pub proof fn law_label_is_centred(b: Button, text_width: int)
    requires
        b.place_ok(),
        b.shows(),
        text_width >= 0,
    ensures
        ({
            let (x, y) = b.label_place(text_width);
            let left = x;
            let right = b.cols() * coord::PX - (x + text_width);
            &&& -1 <= left - right <= 1
            &&& -1 <= 2 * y - b.rows() * coord::PX <= 1
        }),
{
}

/// The face lies around the centre of the button: its edges are half its size away from it, give or
/// take dropped fractions of a pixel.
pub proof fn law_face_lies_around_the_centre(b: Button, offset_x: int, offset_y: int)
    requires
        b.place_ok(),
        b.width >= 0,
        b.height >= 0,
    ensures
        ({
            let r = b.pill_at(offset_x, offset_y);
            &&& -2 * coord::PX <= 2 * (r.x * coord::PX) - (2 * (b.center_x - offset_x) - b.width)
                <= 2 * coord::PX
            &&& -2 * coord::PX <= 2 * (r.y * coord::PX) - (2 * (b.center_y - offset_y) - b.height)
                <= 2 * coord::PX
            &&& -coord::PX < r.w * coord::PX - b.width <= 0
            &&& -coord::PX < r.h * coord::PX - b.height <= 0
        }),
{
    coord::lemma_truncated(
        b.center_x - coord::truncated(b.width as int, 2) - offset_x,
        coord::PX as int,
    );
    coord::lemma_truncated(
        b.center_y - coord::truncated(b.height as int, 2) - offset_y,
        coord::PX as int,
    );
    coord::lemma_truncated(b.width as int, coord::PX as int);
    coord::lemma_truncated(b.height as int, coord::PX as int);
}

} // verus!
