//! What a text field paints, and where.
use crate::canvas::{self, Canvas, Damage, PixelRect};
use crate::coord::{self, Coord, PX};
use crate::paint::clip::{AlphaMask, Clip, HitId};
use crate::paint::glow::PillRect;
use crate::paint::rect;
use crate::paint::shape;
use crate::pixel;
use crate::pool;
use crate::region::{self, Region};
use crate::text;
use crate::theme;
use crate::widgets::cache::{FaceCache, PillArt};
use crate::widgets::chars;
use crate::widgets::edit;
use crate::widgets::face::{self, FaceStyle};
use crate::widgets::textbox::Textbox;
use vstd::prelude::*;

verus! {

/// How many characters beyond the visible ones are shaped on each side.
pub const PAD_CHARS: usize = 3;

/// Character `i` of a text that starts at `left` ends right of the left edge.
pub open spec fn reaches_in(widths: Seq<Coord>, left: int, i: int) -> bool {
    left + edit::sum_to(widths, i + 1) > 0
}

/// Character `i` of a text that starts at `left` starts left of the edge at `end`.
pub open spec fn starts_in(widths: Seq<Coord>, left: int, end: int, i: int) -> bool {
    left + edit::sum_to(widths, i) < end
}

/// Characters `first` to `last` of a text that starts at `left` are those that show between 0 and
/// `end`.
pub open spec fn shows_chars(
    widths: Seq<Coord>,
    left: int,
    end: int,
    first: int,
    last: int,
) -> bool {
    &&& 0 <= first <= last < widths.len()
    &&& reaches_in(widths, left, first)
    &&& first > 0 ==> !reaches_in(widths, left, first - 1)
    &&& starts_in(widths, left, end, last)
    &&& last + 1 < widths.len() ==> !starts_in(widths, left, end, last + 1)
}

/// No character of a text that starts at `left` shows between 0 and `end`.
pub open spec fn shows_nothing(widths: Seq<Coord>, left: int, end: int) -> bool {
    forall|i: int|
        0 <= i < widths.len() ==> !(#[trigger] reaches_in(widths, left, i)) || !starts_in(
            widths,
            left,
            end,
            i,
        )
}

/// The first and last character that show between 0 and `end`, where the text starts at `left`.
pub fn visible_span(widths: &Vec<Coord>, left: Coord, end: Coord) -> (r: Option<(usize, usize)>)
    requires
        edit::widths_ok(widths@),
        -0x4000_0000_0000_0000 <= left <= 0x4000_0000_0000_0000,
    ensures
        match r {
            Some((first, last)) => shows_chars(
                widths@,
                left as int,
                end as int,
                first as int,
                last as int,
            ),
            None => shows_nothing(widths@, left as int, end as int),
        },
{
    let n: usize = widths.len();
    let mut sum: Coord = 0;
    let mut first: usize = 0;
    proof {
        if 0 < n {
            edit::lemma_sum(widths@, 0, 1);
        }
    }
    while first < n && left + sum + widths[first] <= 0
        invariant
            0 <= first <= n,
            n == widths@.len(),
            edit::widths_ok(widths@),
            -0x4000_0000_0000_0000 <= left <= 0x4000_0000_0000_0000,
            sum == edit::sum_to(widths@, first as int),
            0 <= sum <= 0x1000_0000_0000_0000,
            first < n ==> sum + widths@[first as int] <= edit::MAX_TEXT,
            forall|i: int|
                0 <= i < first ==> !(#[trigger] reaches_in(widths@, left as int, i)),
        decreases n - first,
    {
        proof {
            edit::lemma_sum(widths@, first as int, first + 1);
        }
        sum = sum + widths[first];
        first = first + 1;
        proof {
            if first < n {
                edit::lemma_sum(widths@, first as int, first + 1);
            }
        }
    }
    if first >= n {
        return None;
    }
    if left + sum >= end {
        proof {
            assert forall|i: int| 0 <= i < n && #[trigger] reaches_in(
                widths@,
                left as int,
                i,
            ) implies !starts_in(widths@, left as int, end as int, i) by {
                edit::lemma_sum(widths@, first as int, i);
            }
        }
        return None;
    }
    let mut last: usize = first;
    let mut before: Coord = sum;
    while last + 1 < n && left + before + widths[last] < end
        invariant
            first <= last < n,
            n == widths@.len(),
            edit::widths_ok(widths@),
            -0x4000_0000_0000_0000 <= left <= 0x4000_0000_0000_0000,
            before == edit::sum_to(widths@, last as int),
            0 <= before <= 0x1000_0000_0000_0000,
            before + widths@[last as int] <= edit::MAX_TEXT,
            starts_in(widths@, left as int, end as int, last as int),
        decreases n - last,
    {
        proof {
            edit::lemma_sum(widths@, last as int, last + 1);
        }
        before = before + widths[last];
        last = last + 1;
        proof {
            edit::lemma_sum(widths@, last as int, last + 1);
        }
    }
    Some((first, last))
}

impl Textbox {
    /// The rectangle of the text field.
    pub open spec fn rect(&self) -> Region {
        face::centred(
            self.center_x as int,
            self.center_y as int,
            self.width as int,
            self.height as int,
        )
    }

    /// The rectangle of the text field with the reach of its focus glow.
    pub open spec fn glow_rect(&self) -> Region {
        face::glow_region(
            self.center_x as int,
            self.center_y as int,
            self.width as int,
            self.height as int,
            self.font_size as int,
        )
    }

    /// Where the cursor is.
    pub open spec fn cursor_px(&self) -> int {
        self.start_x() + self.layout().cursor_x()
    }

    /// The rectangle of the cursor, with the reach of its wave.
    pub open spec fn cursor_rect(&self) -> Region {
        Region::of(
            self.cursor_px() - 8 * PX,
            self.center_y - coord::truncated(self.font_size as int, 2),
            16 * PX,
            self.font_size as int,
        )
    }

    /// The cursor is to be drawn.
    pub open spec fn blinkey_on(&self) -> bool {
        self.focused && self.edit().range() is None && self.blinkey_visible
    }

    /// The bare text field, the glow, text or selection changed since the last paint.
    pub open spec fn pill_changed(&self) -> bool {
        ||| self.cache.pill_dirty
        ||| self.cache.text_dirty
        ||| self.focused != self.last_painted_focused
        ||| self.range() != self.last_painted_selection
    }

    /// Something is to be painted: a change, a cursor that is or was drawn, or the first paint.
    pub open spec fn needs_paint(&self) -> bool {
        self.pill_changed() || self.blinkey_on() || self.last_painted_blinkey_on
            || self.last_painted_bbox is None
    }

    /// The pixels to paint anew: where anything but the cursor changed, the text field, with its glow
    /// only if that comes, goes or moves, and where it was; and the cursor where it is and where it
    /// was.
    pub open spec fn damage(&self, vw: usize, vh: usize) -> Option<PixelRect> {
        let glow = self.focused != self.last_painted_focused || self.cache.pill_dirty;
        let region = if glow {
            self.glow_rect()
        } else {
            self.rect()
        };
        let d1 = if self.pill_changed() {
            let now = canvas::joined(None, face::region_px(region, vw, vh));
            match self.last_painted_bbox {
                Some(prev) => canvas::joined(now, prev),
                None => now,
            }
        } else {
            None
        };
        let d2 = if self.blinkey_on() {
            canvas::joined(d1, face::region_px(self.cursor_rect(), vw, vh))
        } else {
            d1
        };
        match self.last_painted_blinkey_bbox {
            Some(prev) => if self.last_painted_blinkey_on {
                canvas::joined(d2, prev)
            } else {
                d2
            },
            None => d2,
        }
    }

    /// Where the cursor is.
    fn cursor_pixel_x(&self) -> (x: Coord)
        requires
            self.wf(),
        ensures
            x as int == self.cursor_px(),
            -0x5000_0000_0000_0000 <= x <= 0x5000_0000_0000_0000,
    {
        proof {
            edit::lemma_sum(self.widths@, 0, self.cursor as int);
        }
        self.text_start_x() + edit::sum_of(&self.widths, 0, self.cursor)
    }

    /// The rectangle of the cursor, with the reach of its wave.
    pub fn cursor_bbox(&self) -> (r: Region)
        requires
            self.wf(),
        ensures
            r == self.cursor_rect(),
            r.x as int == self.cursor_px() - 8 * PX,
            r.w == 16 * PX,
            r.h == self.font_size,
            r.y as int == self.center_y - coord::truncated(self.font_size as int, 2),
            -0x6000_0000_0000_0000 <= r.x <= 0x6000_0000_0000_0000,
            -0x2000_0000_0000 <= r.y <= 0x2000_0000_0000,
    {
        let x: Coord = self.cursor_pixel_x() - 0x8_0000;
        let y: Coord = self.center_y - coord::half(self.font_size);
        Region::new(x, y, 0x10_0000, self.font_size)
    }

    pub fn bbox(&self) -> (r: Region)
        requires
            self.place_ok(),
        ensures
            r == self.rect(),
            face::edges_ok(r),
    {
        face::centred_region(self.center_x, self.center_y, self.width, self.height)
    }

    /// The rectangle of the text field with the reach of its focus glow on every side.
    pub fn glow_bbox(&self) -> (r: Region)
        requires
            self.place_ok(),
        ensures
            r == self.glow_rect(),
            face::edges_ok(r),
    {
        face::glow_envelope(
            self.center_x,
            self.center_y,
            self.width,
            self.height,
            self.font_size,
        )
    }

    /// The pixels of the text field, for the order in which focus moves.
    pub fn focus_bbox(&self) -> (p: PixelRect)
        requires
            self.place_ok(),
        ensures
            ({
                let hw = coord::truncated(self.width as int, 2);
                let hh = coord::truncated(self.height as int, 2);
                p == (PixelRect {
                    x0: region::px_at(self.center_x - hw) as usize,
                    y0: region::px_at(self.center_y - hh) as usize,
                    x1: region::px_at(self.center_x + hw) as usize,
                    y1: region::px_at(self.center_y + hh) as usize,
                })
            }),
    {
        let hw: Coord = coord::half(self.width);
        let hh: Coord = coord::half(self.height);
        PixelRect::new(
            region::pixel_at(self.center_x - hw),
            region::pixel_at(self.center_y - hh),
            region::pixel_at(self.center_x + hw),
            region::pixel_at(self.center_y + hh),
        )
    }

    /// The pixels to paint anew, `None` where nothing changed since the last paint.
    pub fn damage_rect(&self, viewport_w: usize, viewport_h: usize) -> (d: Option<PixelRect>)
        requires
            self.wf(),
        ensures
            d == (if self.needs_paint() {
                self.damage(viewport_w, viewport_h)
            } else {
                None
            }),
    {
        let focus_changed = self.focused != self.last_painted_focused;
        let selection_changed = !same_range(self.selection_range(), self.last_painted_selection);
        let pill_dirty = self.cache.pill_dirty || self.cache.text_dirty || focus_changed
            || selection_changed;
        let blinkey_want = self.focused && !self.has_selection() && self.blinkey_visible;
        let blinkey_was = self.last_painted_blinkey_on;
        if !pill_dirty && !blinkey_want && !blinkey_was && self.last_painted_bbox.is_some() {
            return None;
        }
        let mut combined: Option<PixelRect> = None;
        if pill_dirty {
            let region = if focus_changed || self.cache.pill_dirty {
                self.glow_bbox()
            } else {
                self.bbox()
            };
            let now = face::region_to_pixelrect(region, viewport_w, viewport_h);
            combined = canvas::join(combined, now);
            match self.last_painted_bbox {
                Some(prev) => {
                    combined = canvas::join(combined, prev);
                },
                None => {},
            }
        }
        if blinkey_want {
            let cur = face::region_to_pixelrect(self.cursor_bbox(), viewport_w, viewport_h);
            combined = canvas::join(combined, cur);
        }
        if blinkey_was {
            match self.last_painted_blinkey_bbox {
                Some(prev) => {
                    combined = canvas::join(combined, prev);
                },
                None => {},
            }
        }
        combined
    }

    /// The text field after it was painted on a `vw` by `vh` viewport.
    pub open spec fn recorded(self, vw: usize, vh: usize) -> Textbox {
        let now = face::region_px(self.rect(), vw, vh);
        let cursor = face::region_px(self.cursor_rect(), vw, vh);
        Textbox {
            last_painted_bbox: if now.empty() {
                None
            } else {
                Some(now)
            },
            last_painted_focused: self.focused,
            last_painted_selection: self.range(),
            last_painted_blinkey_on: self.blinkey_on(),
            last_painted_blinkey_bbox: if self.blinkey_on() && !cursor.empty() {
                Some(cursor)
            } else {
                None
            },
            ..self
        }
    }

    /// Notes what was painted, for the next damage.
    fn record_painted(&mut self, viewport_w: usize, viewport_h: usize)
        requires
            old(self).wf(),
        ensures
            *final(self) == old(self).recorded(viewport_w, viewport_h),
    {
        let now = face::region_to_pixelrect(self.bbox(), viewport_w, viewport_h);
        let selection = self.selection_range();
        let want = self.focused && !self.has_selection() && self.blinkey_visible;
        let cursor = face::region_to_pixelrect(self.cursor_bbox(), viewport_w, viewport_h);
        self.last_painted_bbox = if now.is_empty() {
            None
        } else {
            Some(now)
        };
        self.last_painted_focused = self.focused;
        self.last_painted_selection = selection;
        self.last_painted_blinkey_on = want;
        self.last_painted_blinkey_bbox = if want && !cursor.is_empty() {
            Some(cursor)
        } else {
            None
        };
    }

    /// The width of the face in pixels.
    pub open spec fn cols(&self) -> int {
        coord::truncated(self.width as int, PX as int)
    }

    /// The height of the face in pixels.
    pub open spec fn rows(&self) -> int {
        coord::truncated(self.height as int, PX as int)
    }

    /// The face has a pixel.
    pub open spec fn shows(&self) -> bool {
        self.cols() > 0 && self.rows() > 0
    }

    /// Where the text starts on the text layer.
    pub open spec fn local_left(&self) -> int {
        coord::truncated(self.cols() * PX, 2) - self.layout().text_width() / 2 + self.scroll_offset
    }

    /// The middle row of the text layer.
    pub open spec fn local_middle(&self) -> int {
        coord::truncated(self.rows() * PX, 2)
    }

    /// Where the text starts on the text layer.
    fn local_text_left(&self) -> (x: Coord)
        requires
            self.wf(),
        ensures
            x as int == self.local_left(),
            -0x4000_0000_0000_0000 <= x <= 0x4000_0000_0000_0000,
    {
        let tw: Coord = self.text_width();
        let cw: i64 = coord::whole_px(self.width) as i64 * 0x1_0000;
        coord::half(cw) - coord::half(tw) + self.scroll_offset
    }

    /// The middle row of the text layer, on which text is drawn.
    pub fn text_middle(&self) -> (y: Coord)
        requires
            self.place_ok(),
        ensures
            y as int == self.local_middle(),
    {
        coord::half(coord::whole_px(self.height) as i64 * 0x1_0000)
    }

    /// Some of the text is drawn.
    pub open spec fn text_shows(&self) -> bool {
        self.chars@.len() > 0 && self.font_size > 0 && !shows_nothing(
            self.widths@,
            self.local_left(),
            self.cols() * PX,
        )
    }

    /// The part of the text that shows, with a few characters more on each side, and where it starts on
    /// the text layer; `None` where no character shows.
    pub fn visible_text(&self) -> (r: Option<(String, Coord)>)
        requires
            self.wf(),
        ensures
            r is Some <==> self.text_shows(),
            match r {
                Some((s, x)) => exists|first: int, last: int|
                    {
                        let a = vstd::math::max(first - PAD_CHARS, 0);
                        let b = vstd::math::min(last + PAD_CHARS, self.chars@.len() - 1) + 1;
                        &&& #[trigger] shows_chars(
                            self.widths@,
                            self.local_left(),
                            self.cols() * PX,
                            first,
                            last,
                        )
                        &&& s@ == self.chars@.subrange(a, b)
                        &&& x == self.local_left() + edit::sum_to(self.widths@, a)
                    },
                None => true,
            },
    {
        let n: usize = self.chars.len();
        if n == 0 || self.font_size <= 0 {
            return None;
        }
        let left: Coord = self.local_text_left();
        let end: Coord = coord::whole_px(self.width) as i64 * 0x1_0000;
        match visible_span(&self.widths, left, end) {
            Some((first, last)) => {
                let a: usize = if first >= PAD_CHARS {
                    first - PAD_CHARS
                } else {
                    0
                };
                let b: usize = if PAD_CHARS <= n - 1 - last {
                    last + PAD_CHARS + 1
                } else {
                    n
                };
                let before: Coord = edit::sum_of(&self.widths, 0, a);
                proof {
                    assert(shows_chars(
                        self.widths@,
                        left as int,
                        end as int,
                        first as int,
                        last as int,
                    ));
                    lemma_shows_something(
                        self.widths@,
                        left as int,
                        end as int,
                        first as int,
                        last as int,
                    );
                }
                Some((chars::string_of(self.chars.as_slice(), a, b), left + before))
            },
            None => None,
        }
    }

    /// The rectangle behind what is selected, on the text layer, in pixels: `(x, y, width, height)`.
    pub open spec fn selection_box(&self) -> Option<(int, int, int, int)> {
        match self.edit().range() {
            Some((s, e)) => {
                let x0 = self.local_left() + edit::sum_to(self.widths@, s);
                let x1 = self.local_left() + edit::sum_to(self.widths@, e);
                let y0 = self.local_middle() - coord::truncated(self.font_size as int, 2);
                if x1 - x0 > 0 && self.font_size > 0 {
                    Some(
                        (
                            coord::truncated(x0, PX as int),
                            coord::truncated(y0, PX as int),
                            coord::truncated(x1 - x0, PX as int),
                            coord::truncated(self.font_size as int, PX as int),
                        ),
                    )
                } else {
                    None
                }
            },
            None => None,
        }
    }

    /// The text layer: the glyphs, and the selection under them, both clipped to the fill.
    pub open spec fn text_layer(&self, art: &PillArt, mask: Seq<u8>) -> Seq<u32> {
        let cw = self.cols();
        let ch = self.rows();
        let glyphs = if self.text_shows() {
            FaceCache::text_pixels(cw, ch, art.glyphs@, theme::TEXTBOX_TEXT, mask)
        } else {
            pool::solid(cw * ch, 0)
        };
        match self.selection_box() {
            Some((x, y, w, h)) => rect::with_fill(
                glyphs,
                cw,
                x,
                y,
                w,
                h,
                theme::TEXTBOX_SELECTION_BG,
                Clip::whole(cw as usize, ch as usize),
                Some(mask),
            ),
            None => glyphs,
        }
    }

    /// Rasterises the text layer anew.
    fn refresh_text(&mut self, cw: usize, ch: usize, art: &PillArt)
        requires
            old(self).wf(),
            old(self).edit().anchor_ok(),
            art.wf(),
            cw == old(self).cols(),
            ch == old(self).rows(),
            cw * ch <= usize::MAX,
            !old(self).cache.pill_dirty,
            old(self).cache.sized(cw as int, ch as int),
        ensures
            final(self).wf(),
            final(self).cache.text@ == old(self).text_layer(art, old(self).cache.mask@),
            final(self).cache.text_w == cw,
            final(self).cache.text_h == ch,
            !final(self).cache.text_dirty,
            final(self).cache.pill == old(self).cache.pill,
            final(self).cache.pill_w == old(self).cache.pill_w,
            final(self).cache.pill_h == old(self).cache.pill_h,
            final(self).cache.pill_dirty == old(self).cache.pill_dirty,
            final(self).cache.mask == old(self).cache.mask,
            *final(self) == (Textbox { cache: final(self).cache, ..*old(self) }),
    {
        let shows: bool = self.chars.len() > 0 && self.font_size > 0 && visible_span(
            &self.widths,
            self.local_text_left(),
            coord::whole_px(self.width) as i64 * 0x1_0000,
        ).is_some();
        proof {
            lemma_span_decides(self.widths@, self.local_left(), self.cols() * PX);
        }
        let left: Coord = self.local_text_left();
        let middle: Coord = self.text_middle();
        let selection = self.selection_range();
        let font_size: Coord = self.font_size;
        let selected: Option<(Coord, Coord)> = match selection {
            Some((s, e)) => {
                proof {
                    edit::lemma_sum(self.widths@, s as int, e as int);
                }
                let before: Coord = edit::sum_of(&self.widths, 0, s);
                let wide: Coord = edit::sum_of(&self.widths, s, e);
                if wide > 0 && font_size > 0 {
                    Some((left + before, wide))
                } else {
                    None
                }
            },
            None => None,
        };
        self.cache.clear_text(cw, ch);
        let ghost blank = pool::solid(cw * ch, 0);
        let ghost whole = Clip::whole(cw, ch);
        let mask = AlphaMask::new(self.cache.mask.as_slice(), cw, ch);
        let ghost mv = self.cache.mask@;
        if shows {
            text::draw_glyphs(
                self.cache.text.as_mut_slice(),
                cw,
                ch,
                art.glyphs,
                theme::TEXTBOX_TEXT,
                None,
                Some(&mask),
            );
            proof {
                text::lemma_glyphs_len(
                    blank,
                    cw as int,
                    art.glyphs@,
                    theme::TEXTBOX_TEXT,
                    whole,
                    Some(mv),
                    art.glyphs@.len() as int,
                );
            }
        }
        match selected {
            Some((x0, wide)) => {
                let x: i128 = coord::truncate(x0 as i128, 0x1_0000);
                let y: i128 = coord::truncate(
                    middle as i128 - coord::half(font_size) as i128,
                    0x1_0000,
                );
                let w: i128 = coord::truncate(wide as i128, 0x1_0000);
                let h: i128 = coord::truncate(font_size as i128, 0x1_0000);
                let mut damage = Damage::new();
                let ghost glyphs = self.cache.text@;
                let mut layer = Canvas::new(self.cache.text.as_mut_slice(), cw, ch, &mut damage);
                rect::fill_area(
                    &mut layer,
                    x,
                    y,
                    w,
                    h,
                    theme::TEXTBOX_SELECTION_BG,
                    None,
                    Some(&mask),
                );
                proof {
                    assert(layer.pixels@ =~= rect::with_fill(
                        glyphs,
                        cw as int,
                        x as int,
                        y as int,
                        w as int,
                        h as int,
                        theme::TEXTBOX_SELECTION_BG,
                        whole,
                        Some(mv),
                    ));
                }
            },
            None => {},
        }
    }

    pub open spec fn style() -> FaceStyle {
        FaceStyle {
            fill: theme::TEXTBOX_FILL,
            light: theme::TEXTBOX_LIGHT_EDGE,
            shadow: theme::TEXTBOX_SHADOW_EDGE,
        }
    }

    /// Where the face goes on a canvas whose corner is at the offset.
    pub open spec fn pill_at(&self, offset_x: int, offset_y: int) -> PillRect {
        PillRect {
            x: face::target_px(self.center_x as int, self.width as int, offset_x),
            y: face::target_px(self.center_y as int, self.height as int, offset_y),
            w: self.cols(),
            h: self.rows(),
        }
    }

    /// The text layer is to be rasterised: it is out of date, or the selection changed.
    pub open spec fn text_stale(&self) -> bool {
        self.cache.text_dirty || self.range() != self.last_painted_selection
    }

    /// The layers after they were brought up to date.
    pub open spec fn refreshed(before: &Textbox, after: &Textbox, art: &PillArt) -> bool {
        let cw = before.cols();
        let ch = before.rows();
        let stroke = face::stroke_px(before.stroke_ru as int, before.font_size as int);
        &&& after.cache.pill@ == (if before.cache.pill_dirty {
            face::face_pixels(cw, ch, stroke, Textbox::style(), art.inner@, art.outer@)
        } else {
            before.cache.pill@
        })
        &&& after.cache.mask@ == (if before.cache.pill_dirty {
            face::opacities(
                face::face_fill(cw, ch, stroke, Textbox::style().fill, art.inner@),
            )
        } else {
            before.cache.mask@
        })
        &&& after.cache.text@ == (if before.text_stale() {
            before.text_layer(art, after.cache.mask@)
        } else {
            before.cache.text@
        })
        &&& FaceCache::updated(&before.cache, &after.cache, before.text_stale(), cw, ch)
    }

    /// Where the cursor is drawn on a `w` by `h` canvas whose corner is at the offset: its column, its
    /// first row and its height; `None` where it does not lie on the canvas with the whole of its
    /// wave.
    pub open spec fn blinkey_place(
        &self,
        offset_x: int,
        offset_y: int,
        w: int,
        h: int,
    ) -> Option<(int, int, int)> {
        let bx = coord::truncated(self.cursor_px(), PX as int) - coord::truncated(
            offset_x,
            PX as int,
        );
        let by = region::px_at(
            self.center_y - coord::truncated(self.font_size as int, 2) - offset_y,
        );
        let bh = coord::truncated(self.font_size as int, PX as int);
        if bx >= shape::BLINKEY_REACH && bx + shape::BLINKEY_REACH < w && by + bh <= h {
            Some((bx, by, bh))
        } else {
            None
        }
    }

    /// Where the cursor is drawn.
    fn place_blinkey(&self, offset_x: Coord, offset_y: Coord, w: usize, h: usize) -> (p: Option<
        (usize, usize, usize),
    >)
        requires
            self.wf(),
            face::placeable(offset_x as int),
            face::placeable(offset_y as int),
        ensures
            match p {
                Some((bx, by, bh)) => {
                    &&& self.blinkey_place(offset_x as int, offset_y as int, w as int, h as int)
                        == Some((bx as int, by as int, bh as int))
                    &&& shape::BLINKEY_REACH <= bx
                    &&& bx + shape::BLINKEY_REACH < w
                    &&& by + bh <= h
                    &&& bh <= shape::MAX_CURSOR
                },
                None => self.blinkey_place(
                    offset_x as int,
                    offset_y as int,
                    w as int,
                    h as int,
                ) is None,
            },
    {
        let bx: i128 = coord::truncate(self.cursor_pixel_x() as i128, 0x1_0000) - coord::truncate(
            offset_x as i128,
            0x1_0000,
        );
        let by: usize = region::pixel_at(self.center_y - coord::half(self.font_size) - offset_y);
        let bh: usize = coord::whole_px(self.font_size) as usize;
        if bx >= 7 && bx + 7 < w as i128 && by as i128 + bh as i128 <= h as i128 {
            Some((bx as usize, by, bh))
        } else {
            None
        }
    }

    /// The canvas after the text field was painted: text, face, the glow if it is focused, and the
    /// cursor if it is to be drawn.
    pub open spec fn painted(
        &self,
        pixels: Seq<u32>,
        w: usize,
        h: usize,
        offset_x: int,
        offset_y: int,
        c: Clip,
    ) -> Seq<u32> {
        let r = self.pill_at(offset_x, offset_y);
        let flat = self.cache.over(pixels, w as int, h as int, r.x, r.y, c);
        let lit = if self.focused {
            face::with_focus_glow(flat, w, h, c, r, self.font_size as int, theme::GLOW_DEFAULT)
        } else {
            flat
        };
        match self.blinkey_place(offset_x, offset_y, w as int, h as int) {
            Some((bx, by, bh)) => if self.blinkey_on() {
                shape::with_blinkey(lit, w as int, bx, by, bh, self.blinkey_wave_top)
            } else {
                lit
            },
            None => lit,
        }
    }

    /// The damage after the text field was painted.
    pub open spec fn painted_damage(
        &self,
        d: Option<PixelRect>,
        w: usize,
        h: usize,
        offset_x: int,
        offset_y: int,
        c: Clip,
    ) -> Option<PixelRect> {
        let r = self.pill_at(offset_x, offset_y);
        let flat = self.cache.over_damage(d, w as int, h as int, r.x, r.y, c);
        if self.focused {
            face::focus_glow_damage(flat, w, h, c, r, self.font_size as int)
        } else {
            flat
        }
    }

    /// Rasterises the layers that are out of date, and returns the number of them.
    fn refresh(&mut self, cw: usize, ch: usize, art: &PillArt) -> (rasterised: u32)
        requires
            old(self).wf(),
            old(self).edit().anchor_ok(),
            art.wf(),
            cw == old(self).cols(),
            ch == old(self).rows(),
            cw * ch <= usize::MAX,
            old(self).cache.sized(cw as int, ch as int),
        ensures
            final(self).wf(),
            rasterised == (if old(self).cache.pill_dirty {
                1int
            } else {
                0
            }) + (if old(self).text_stale() {
                1int
            } else {
                0
            }),
            Textbox::refreshed(old(self), final(self), art),
            *final(self) == (Textbox { cache: final(self).cache, ..*old(self) }),
    {
        let stroke: isize = face::stroke_width(self.stroke_ru, self.font_size);
        let mut rasterised: u32 = 0;
        if self.cache.pill_dirty {
            rasterised = 1;
        }
        let style = FaceStyle {
            fill: theme::TEXTBOX_FILL,
            light: theme::TEXTBOX_LIGHT_EDGE,
            shadow: theme::TEXTBOX_SHADOW_EDGE,
        };
        self.cache.refresh_pill(cw, ch, stroke, style, art.inner, art.outer);
        let moved = !same_range(self.selection_range(), self.last_painted_selection);
        if self.cache.text_dirty || moved {
            rasterised = rasterised + 1;
            proof {
                assert(self.text_layer(art, self.cache.mask@) == old(self).text_layer(
                    art,
                    self.cache.mask@,
                ));
            }
            self.refresh_text(cw, ch, art);
        }
        rasterised
    }

    /// Paints the layers, the glow and the cursor.
    fn paint_layers(
        &self,
        canvas: &mut Canvas,
        offset_x: Coord,
        offset_y: Coord,
        clip: Option<Clip>,
        hit_map: Option<&mut [HitId]>,
        hit_id: HitId,
    )
        requires
            self.wf(),
            self.shows(),
            old(canvas).fits(),
            face::placeable(offset_x as int),
            face::placeable(offset_y as int),
            match hit_map {
                Some(m) => old(canvas).width * old(canvas).height <= m@.len(),
                None => true,
            },
        ensures
            ({
                let w = old(canvas).width;
                let h = old(canvas).height;
                let c = Clip::resolved(clip, w, h);
                let r = self.pill_at(offset_x as int, offset_y as int);
                &&& final(canvas).pixels@ == self.painted(
                    old(canvas).pixels@,
                    w,
                    h,
                    offset_x as int,
                    offset_y as int,
                    c,
                )
                &&& final(canvas).damage.rect() == self.painted_damage(
                    old(canvas).damage.rect(),
                    w,
                    h,
                    offset_x as int,
                    offset_y as int,
                    c,
                )
                &&& match hit_map {
                    Some(m) => final(m)@ == self.cache.over_hits(
                        m@,
                        w as int,
                        h as int,
                        r.x,
                        r.y,
                        c,
                        hit_id,
                    ),
                    None => true,
                }
            }),
            final(canvas).width == old(canvas).width,
            final(canvas).height == old(canvas).height,
            final(final(canvas).pixels)@ == final(old(canvas).pixels)@,
            *final(final(canvas).damage) == *final(old(canvas).damage),
    {
        let x: isize = face::target_of(self.center_x, self.width, offset_x);
        let y: isize = face::target_of(self.center_y, self.height, offset_y);
        let pill_w: isize = coord::whole_px(self.width);
        let pill_h: isize = coord::whole_px(self.height);
        let w: usize = canvas.width;
        let h: usize = canvas.height;
        self.cache.composite(x, y, canvas, hit_map, hit_id, clip);
        if self.focused {
            face::paint_focus_glow(
                canvas,
                x,
                y,
                pill_w,
                pill_h,
                self.font_size,
                theme::GLOW_DEFAULT,
                clip,
            );
        }
        if self.focused && !self.has_selection() && self.blinkey_visible {
            match self.place_blinkey(offset_x, offset_y, w, h) {
                Some((bx, by, bh)) => {
                    shape::paint_wave(canvas.pixels, w, h, bx, by, bh, self.blinkey_wave_top);
                },
                None => {},
            }
        }
    }

    /// Paints the text field on a canvas whose corner is at the offset, and stamps the identifier on
    /// the hit map wherever its face is opaque. Layers that are out of date are rasterised first; the
    /// number of them is returned. A text field without a pixel paints nothing.
    pub fn render_content_into(
        &mut self,
        canvas: &mut Canvas,
        offset_x: Coord,
        offset_y: Coord,
        art: &PillArt,
        clip: Option<Clip>,
        hit_map: Option<&mut [HitId]>,
        hit_id: HitId,
    ) -> (rasterised: u32)
        requires
            old(self).wf(),
            old(self).edit().anchor_ok(),
            old(canvas).fits(),
            art.wf(),
            face::placeable(offset_x as int),
            face::placeable(offset_y as int),
            old(self).shows() ==> old(self).cache.sized(old(self).cols(), old(self).rows()),
            old(self).shows() ==> old(self).cols() * old(self).rows() <= usize::MAX,
            match hit_map {
                Some(m) => old(canvas).width * old(canvas).height <= m@.len(),
                None => true,
            },
        ensures
            final(self).wf(),
            !old(self).shows() ==> {
                &&& rasterised == 0
                &&& *final(self) == *old(self)
                &&& final(canvas).pixels@ == old(canvas).pixels@
                &&& final(canvas).damage.rect() == old(canvas).damage.rect()
                &&& match hit_map {
                    Some(m) => final(m)@ == m@,
                    None => true,
                }
            },
            old(self).shows() ==> ({
                let w = old(canvas).width;
                let h = old(canvas).height;
                let c = Clip::resolved(clip, w, h);
                let r = old(self).pill_at(offset_x as int, offset_y as int);
                &&& rasterised == (if old(self).cache.pill_dirty {
                    1int
                } else {
                    0
                }) + (if old(self).text_stale() {
                    1int
                } else {
                    0
                })
                &&& Textbox::refreshed(old(self), final(self), art)
                &&& final(self).cache.sized(final(self).cols(), final(self).rows())
                &&& *final(self) == (Textbox { cache: final(self).cache, ..*old(self) }).recorded(
                    w,
                    h,
                )
                &&& final(canvas).pixels@ == final(self).painted(
                    old(canvas).pixels@,
                    w,
                    h,
                    offset_x as int,
                    offset_y as int,
                    c,
                )
                &&& final(canvas).damage.rect() == final(self).painted_damage(
                    old(canvas).damage.rect(),
                    w,
                    h,
                    offset_x as int,
                    offset_y as int,
                    c,
                )
                &&& match hit_map {
                    Some(m) => final(m)@ == final(self).cache.over_hits(
                        m@,
                        w as int,
                        h as int,
                        r.x,
                        r.y,
                        c,
                        hit_id,
                    ),
                    None => true,
                }
            }),
            final(canvas).width == old(canvas).width,
            final(canvas).height == old(canvas).height,
            final(final(canvas).pixels)@ == final(old(canvas).pixels)@,
            *final(final(canvas).damage) == *final(old(canvas).damage),
    {
        let pill_w: isize = coord::whole_px(self.width);
        let pill_h: isize = coord::whole_px(self.height);
        if pill_w <= 0 || pill_h <= 0 {
            return 0;
        }
        let rasterised: u32 = self.refresh(pill_w as usize, pill_h as usize, art);
        self.paint_layers(canvas, offset_x, offset_y, clip, hit_map, hit_id);
        self.record_painted(canvas.width, canvas.height);
        rasterised
    }

    /// Draws the cursor alone, if it is to be drawn.
    pub fn render_blinkey_into(&self, canvas: &mut Canvas, offset_x: Coord, offset_y: Coord)
        requires
            self.wf(),
            old(canvas).fits(),
            face::placeable(offset_x as int),
            face::placeable(offset_y as int),
        ensures
            match self.blinkey_place(
                offset_x as int,
                offset_y as int,
                old(canvas).width as int,
                old(canvas).height as int,
            ) {
                Some((bx, by, bh)) => if self.blinkey_on() {
                    &&& final(canvas).pixels@ == shape::with_blinkey(
                        old(canvas).pixels@,
                        old(canvas).width as int,
                        bx,
                        by,
                        bh,
                        self.blinkey_wave_top,
                    )
                    &&& final(canvas).damage.rect() == shape::blinkey_damage(
                        old(canvas).damage.rect(),
                        bx,
                        by,
                        bh,
                    )
                } else {
                    &&& final(canvas).pixels@ == old(canvas).pixels@
                    &&& final(canvas).damage.rect() == old(canvas).damage.rect()
                },
                None => {
                    &&& final(canvas).pixels@ == old(canvas).pixels@
                    &&& final(canvas).damage.rect() == old(canvas).damage.rect()
                },
            },
            final(canvas).width == old(canvas).width,
            final(canvas).height == old(canvas).height,
            final(final(canvas).pixels)@ == final(old(canvas).pixels)@,
            *final(final(canvas).damage) == *final(old(canvas).damage),
    {
        if !self.focused || self.has_selection() || !self.blinkey_visible {
            return;
        }
        match self.place_blinkey(offset_x, offset_y, canvas.width, canvas.height) {
            Some((bx, by, bh)) => {
                shape::draw_blinkey(canvas, bx, by, bh, self.blinkey_wave_top);
            },
            None => {},
        }
    }
}

/// Characters that show are not nothing.
proof fn lemma_shows_something(widths: Seq<Coord>, left: int, end: int, first: int, last: int)
    requires
        edit::widths_ok(widths),
        shows_chars(widths, left, end, first, last),
    ensures
        !shows_nothing(widths, left, end),
{
    edit::lemma_sum(widths, first, last);
    assert(reaches_in(widths, left, first) && starts_in(widths, left, end, first));
}

/// Either some characters show or nothing does.
proof fn lemma_span_decides(widths: Seq<Coord>, left: int, end: int)
    requires
        edit::widths_ok(widths),
    ensures
        forall|first: int, last: int|
            #[trigger] shows_chars(widths, left, end, first, last) ==> !shows_nothing(
                widths,
                left,
                end,
            ),
{
    assert forall|first: int, last: int| #[trigger]
        shows_chars(widths, left, end, first, last) implies !shows_nothing(widths, left, end) by {
        lemma_shows_something(widths, left, end, first, last);
    }
}

/// Two selections are the same.
pub fn same_range(a: Option<(usize, usize)>, b: Option<(usize, usize)>) -> (r: bool)
    ensures
        r == (a == b),
{
    match (a, b) {
        (Some((s, e)), Some((t, f))) => s == t && e == f,
        (None, None) => true,
        _ => false,
    }
}

/// What was just painted needs no paint: after a paint that left the layers up to date, nothing is
/// damaged until something changes, unless the cursor is drawn, which is painted every frame.
pub proof fn law_painted_field_rests(t: Textbox, vw: usize, vh: usize)
    requires
        !t.cache.pill_dirty,
        !t.cache.text_dirty,
        !t.blinkey_on(),
        !face::region_px(t.rect(), vw, vh).empty(),
    ensures
        !t.recorded(vw, vh).needs_paint(),
{
}

/// What is painted anew covers the text field and where it was before, as far as they hold pixels.
pub proof fn law_damage_covers_the_field(t: Textbox, vw: usize, vh: usize, x: int, y: int)
    requires
        t.pill_changed(),
        face::region_px(t.rect(), vw, vh).holds(x, y) || (t.last_painted_bbox is Some
            && t.last_painted_bbox->0.holds(x, y)),
        !(t.focused != t.last_painted_focused || t.cache.pill_dirty),
    ensures
        t.damage(vw, vh) is Some,
        t.damage(vw, vh)->0.holds(x, y),
{
}

/// The characters that show are exactly those of which a part may lie in the field: a character ends
/// right of its left edge and starts left of its right edge if and only if it is among them.
pub proof fn law_shown_characters_are_those_in_the_field(
    widths: Seq<Coord>,
    left: int,
    end: int,
    first: int,
    last: int,
    i: int,
)
    requires
        edit::widths_ok(widths),
        shows_chars(widths, left, end, first, last),
        0 <= i < widths.len(),
    ensures
        (left + edit::sum_to(widths, i + 1) > 0 && left + edit::sum_to(widths, i) < end) <==> first
            <= i <= last,
{
    edit::lemma_sum(widths, i, i + 1);
    if i < first {
        edit::lemma_sum(widths, i + 1, first);
    } else {
        edit::lemma_sum(widths, first + 1, i + 1);
    }
    if i <= last {
        edit::lemma_sum(widths, i, last);
    } else {
        edit::lemma_sum(widths, last + 1, i);
    }
}

/// What is painted anew covers where the cursor is and where it was; and, where more than the cursor
/// changed, where the text field was, and where it is.
pub proof fn law_damage_covers_what_changed(t: Textbox, vw: usize, vh: usize, x: int, y: int)
    requires
        ({
            ||| t.blinkey_on() && face::region_px(t.cursor_rect(), vw, vh).holds(x, y)
            ||| t.last_painted_blinkey_on && t.last_painted_blinkey_bbox is Some && (
            t.last_painted_blinkey_bbox->0).holds(x, y)
            ||| t.pill_changed() && t.last_painted_bbox is Some && (t.last_painted_bbox->0).holds(
                x,
                y,
            )
            ||| t.pill_changed() && face::region_px(
                if t.focused != t.last_painted_focused || t.cache.pill_dirty {
                    t.glow_rect()
                } else {
                    t.rect()
                },
                vw,
                vh,
            ).holds(x, y)
        }),
    ensures
        t.damage(vw, vh) is Some,
        (t.damage(vw, vh)->0).holds(x, y),
{
}

/// The text lies over the selection: a pixel that the glyphs made opaque keeps their colour, whatever is
/// selected.
pub proof fn law_text_lies_over_the_selection(
    t: Textbox,
    u: Textbox,
    art: &PillArt,
    mask: Seq<u8>,
    i: int,
)
    requires
        t.selection_box() is None,
        t.cols() == u.cols(),
        t.rows() == u.rows(),
        t.text_shows() == u.text_shows(),
        0 <= i < t.text_layer(art, mask).len(),
        pixel::alpha(t.text_layer(art, mask)[i]) == 255,
    ensures
        u.text_layer(art, mask)[i] == t.text_layer(art, mask)[i],
{
}

} // verus!
