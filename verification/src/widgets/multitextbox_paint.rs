//! What a text field of several lines paints, and where.
use crate::canvas::{self, Canvas, Damage, PixelRect};
use crate::coord::{self, Coord, PX};
use crate::paint::clip::{AlphaMask, Clip, HitId};
use crate::paint::colour;
use crate::paint::overlay;
use crate::paint::glow::PillRect;
use crate::paint::rect;
use crate::paint::shape;
use crate::pixel;
use crate::pool;
use crate::region::{self, Region};
use crate::text::{self, GlyphImage};
use crate::theme;
use crate::widgets::cache::FaceCache;
use crate::widgets::chars;
use crate::widgets::edit;
use crate::widgets::face::{self, FaceStyle};
use crate::widgets::lines;
use crate::widgets::multitextbox::MultiTextbox;
use crate::widgets::textbox_paint;
use vstd::prelude::*;

verus! {

/// What is drawn of one line: its characters, the row of its middle, and the ends of the selection on
/// it.
#[derive(Clone, Copy, Debug)]
pub struct LineDraw {
    pub start: usize,
    pub end: usize,
    pub y_center: Coord,
    pub sel: Option<(Coord, Coord)>,
}

/// What the rasterisers need from outside: the corner tables of the fill and of the edge, and the
/// glyphs of each line that shows, placed on the text layer.
pub struct PageArt<'a> {
    pub inner: &'a [(u16, u8, u8)],
    pub outer: &'a [(u16, u8, u8)],
    pub lines: &'a [Vec<GlyphImage>],
}

impl<'a> PageArt<'a> {
    /// There are glyphs for each of `n` lines, all of them well formed.
    pub open spec fn wf(&self, n: int) -> bool {
        &&& self.lines@.len() == n
        &&& forall|i: int, j: int|
            0 <= i < n && 0 <= j < self.lines@[i]@.len() ==> (#[trigger] self.lines@[i]@[j]).wf()
    }
}

impl MultiTextbox {
    /// The rectangle of the text field.
    pub open spec fn rect(&self) -> Region {
        face::centred(
            self.center_x as int,
            self.center_y as int,
            self.width as int,
            self.height as int,
        )
    }

    /// The rectangle of the text field with its glow.
    pub open spec fn glow_rect(&self) -> Region {
        let pad = coord::truncated(self.font_size * 6, 5);
        Region::of(
            self.center_x - coord::truncated(self.width as int, 2) - pad,
            self.center_y - coord::truncated(self.height as int, 2) - pad,
            self.width + 2 * pad,
            self.height + 2 * pad,
        )
    }

    /// Where the cursor is.
    pub open spec fn cursor_px(&self) -> int {
        self.center_x - coord::truncated(self.width as int, 2) + self.inset_x()
            + self.page().cursor_x()
    }

    /// The top of the line of the cursor.
    pub open spec fn cursor_top(&self) -> int {
        self.center_y - coord::truncated(self.height as int, 2) + self.inset_y()
            + self.page().cursor_line() * self.row() - self.scroll_y
    }

    /// The rectangle of the cursor, with the reach of its wave.
    pub open spec fn cursor_rect(&self) -> Region {
        Region::of(self.cursor_px() - 8 * PX, self.cursor_top(), 16 * PX, self.row())
    }

    /// The cursor is to be drawn.
    pub open spec fn blinkey_on(&self) -> bool {
        self.focused && self.edit().range() is None && self.blinkey_visible
    }

    /// The bare text field, the glow, text or selection changed since the last paint.
    pub open spec fn pill_changed(&self) -> bool {
        ||| self.cache.pill_dirty
        ||| self.cache.text_dirty
        ||| self.focused != self.last_painted_focused
        ||| self.range() != self.last_painted_selection
    }

    /// Something is to be painted again: a change, or a cursor that is or was drawn.
    pub open spec fn needs_repaint(&self) -> bool {
        self.last_painted_bbox is Some && (self.pill_changed() || self.blinkey_on()
            || self.last_painted_blinkey_on)
    }

    /// The pixels to paint anew: where anything but the cursor changed, the text field, with its glow
    /// only if that comes, goes or moves, and where it was; and the cursor where it is and where it
    /// was.
    pub open spec fn damage(&self, vw: usize, vh: usize) -> Option<PixelRect> {
        let glow = self.focused != self.last_painted_focused || self.cache.pill_dirty;
        let region = if glow {
            self.glow_rect()
        } else {
            self.rect()
        };
        let d1 = if self.pill_changed() {
            let now = canvas::joined(None, face::region_px(region, vw, vh));
            match self.last_painted_bbox {
                Some(prev) => canvas::joined(now, prev),
                None => now,
            }
        } else {
            None
        };
        let d2 = if self.blinkey_on() {
            canvas::joined(d1, face::region_px(self.cursor_rect(), vw, vh))
        } else {
            d1
        };
        match self.last_painted_blinkey_bbox {
            Some(prev) => if self.last_painted_blinkey_on {
                canvas::joined(d2, prev)
            } else {
                d2
            },
            None => d2,
        }
    }

    /// The rectangle of the cursor, with the reach of its wave.
    pub fn cursor_bbox(&self) -> (r: Region)
        requires
            self.wf(),
        ensures
            r == self.cursor_rect(),
            r.x as int == self.cursor_px() - 8 * PX,
            r.y as int == self.cursor_top(),
            r.w == 16 * PX,
            r.h as int == self.row(),
            -0x3000_0000_0000_0000 <= r.x <= 0x3000_0000_0000_0000,
            -0x3000_0000_0000_0000 <= r.y <= 0x3000_0000_0000_0000,
    {
        let line: usize = self.line_of(self.cursor);
        let x: Coord = self.center_x - coord::half(self.width) + self.pad_x() + self.x_in_line(
            self.cursor,
        );
        proof {
            self.lemma_lower(line as int, (self.chars@.len() + 1) as int);
        }
        let y: Coord = self.center_y - coord::half(self.height) + self.pad_y() + self.lines_h(line)
            - self.scroll_y;
        Region::new(x - 0x8_0000, y, 0x10_0000, self.row_h())
    }

    pub fn bbox(&self) -> (r: Region)
        requires
            self.place_ok(),
        ensures
            r == self.rect(),
            face::edges_ok(r),
    {
        face::centred_region(self.center_x, self.center_y, self.width, self.height)
    }

    /// The rectangle of the text field with its glow.
    pub fn glow_bbox(&self) -> (r: Region)
        requires
            self.place_ok(),
        ensures
            r == self.glow_rect(),
            face::edges_ok(r),
    {
        let pad: Coord = coord::truncate(self.font_size as i128 * 6, 5) as i64;
        Region::new(
            self.center_x - coord::half(self.width) - pad,
            self.center_y - coord::half(self.height) - pad,
            self.width + 2 * pad,
            self.height + 2 * pad,
        )
    }

    /// The pixels to paint anew, `None` where nothing changed since the last paint or nothing was
    /// painted yet.
    pub fn damage_rect(&self, viewport_w: usize, viewport_h: usize) -> (d: Option<PixelRect>)
        requires
            self.wf(),
        ensures
            d == (if self.needs_repaint() {
                self.damage(viewport_w, viewport_h)
            } else {
                None
            }),
    {
        let focus_changed = self.focused != self.last_painted_focused;
        let selection_changed = !textbox_paint::same_range(
            self.selection_range(),
            self.last_painted_selection,
        );
        let pill_dirty = self.cache.pill_dirty || self.cache.text_dirty || focus_changed
            || selection_changed;
        let blinkey_want = self.focused && !self.has_selection() && self.blinkey_visible;
        let blinkey_was = self.last_painted_blinkey_on;
        if self.last_painted_bbox.is_none() {
            return None;
        }
        if !pill_dirty && !blinkey_want && !blinkey_was {
            return None;
        }
        let mut combined: Option<PixelRect> = None;
        if pill_dirty {
            let region = if focus_changed || self.cache.pill_dirty {
                self.glow_bbox()
            } else {
                self.bbox()
            };
            let now = face::region_to_pixelrect(region, viewport_w, viewport_h);
            combined = canvas::join(combined, now);
            match self.last_painted_bbox {
                Some(prev) => {
                    combined = canvas::join(combined, prev);
                },
                None => {},
            }
        }
        if blinkey_want {
            let cur = face::region_to_pixelrect(self.cursor_bbox(), viewport_w, viewport_h);
            combined = canvas::join(combined, cur);
        }
        if blinkey_was {
            match self.last_painted_blinkey_bbox {
                Some(prev) => {
                    combined = canvas::join(combined, prev);
                },
                None => {},
            }
        }
        combined
    }

    /// The text field after it was painted on a `vw` by `vh` viewport.
    pub open spec fn recorded(self, vw: usize, vh: usize) -> MultiTextbox {
        let now = face::region_px(self.rect(), vw, vh);
        let cursor = face::region_px(self.cursor_rect(), vw, vh);
        MultiTextbox {
            last_painted_bbox: if now.empty() {
                None
            } else {
                Some(now)
            },
            last_painted_focused: self.focused,
            last_painted_selection: self.range(),
            last_painted_blinkey_on: self.blinkey_on(),
            last_painted_blinkey_bbox: if self.blinkey_on() && !cursor.empty() {
                Some(cursor)
            } else {
                None
            },
            ..self
        }
    }

    /// Notes what was painted, for the next damage.
    fn record_painted(&mut self, viewport_w: usize, viewport_h: usize)
        requires
            old(self).wf(),
        ensures
            *final(self) == old(self).recorded(viewport_w, viewport_h),
    {
        let now = face::region_to_pixelrect(self.bbox(), viewport_w, viewport_h);
        let selection = self.selection_range();
        let want = self.focused && !self.has_selection() && self.blinkey_visible;
        let cursor = face::region_to_pixelrect(self.cursor_bbox(), viewport_w, viewport_h);
        self.last_painted_bbox = if now.is_empty() {
            None
        } else {
            Some(now)
        };
        self.last_painted_focused = self.focused;
        self.last_painted_selection = selection;
        self.last_painted_blinkey_on = want;
        self.last_painted_blinkey_bbox = if want && !cursor.is_empty() {
            Some(cursor)
        } else {
            None
        };
    }

    /// The pixels of the text field, for the order in which focus moves.
    pub fn focus_bbox(&self) -> (p: PixelRect)
        requires
            self.place_ok(),
        ensures
            ({
                let hw = coord::truncated(self.width as int, 2);
                let hh = coord::truncated(self.height as int, 2);
                p == (PixelRect {
                    x0: region::px_at(self.center_x - hw) as usize,
                    y0: region::px_at(self.center_y - hh) as usize,
                    x1: region::px_at(self.center_x + hw) as usize,
                    y1: region::px_at(self.center_y + hh) as usize,
                })
            }),
    {
        let hw: Coord = coord::half(self.width);
        let hh: Coord = coord::half(self.height);
        PixelRect::new(
            region::pixel_at(self.center_x - hw),
            region::pixel_at(self.center_y - hh),
            region::pixel_at(self.center_x + hw),
            region::pixel_at(self.center_y + hh),
        )
    }

    /// The pixels over which the text field is hovered.
    pub fn hover_bbox(&self, viewport_w: usize, viewport_h: usize) -> (p: PixelRect)
        requires
            self.place_ok(),
        ensures
            p == face::region_px(self.rect(), viewport_w, viewport_h),
    {
        face::region_to_pixelrect(self.bbox(), viewport_w, viewport_h)
    }

    /// The tint over the widget in its state.
    pub open spec fn tint(&self) -> u32 {
        if self.focused {
            colour::sub_rgb(theme::TEXTBOX_ACTIVE, theme::TEXTBOX_FILL)
        } else if self.hovered {
            colour::sub_rgb(theme::TEXTBOX_HOVER, theme::TEXTBOX_FILL)
        } else {
            0
        }
    }

    /// The tint over the fill: none, hovered, or focused, which wins over hovered.
    pub fn tint_delta(&self) -> (d: u32)
        ensures
            d == self.tint(),
    {
        if self.focused {
            colour::wrap_sub_rgb(theme::TEXTBOX_ACTIVE, theme::TEXTBOX_FILL)
        } else if self.hovered {
            colour::wrap_sub_rgb(theme::TEXTBOX_HOVER, theme::TEXTBOX_FILL)
        } else {
            0
        }
    }

    /// The line at height `v` of the text, at most the last; the one that ends there if `up`.
    pub open spec fn line_at_height(&self, v: int, up: bool) -> int {
        let last = self.line_starts@.len() - 1;
        if v <= 0 {
            0
        } else if self.row() == 0 {
            last
        } else {
            vstd::math::min(
                (if up {
                    v + self.row() - 1
                } else {
                    v
                }) / self.row(),
                last,
            )
        }
    }

    /// The first line that shows.
    pub open spec fn first_line(&self) -> int {
        self.line_at_height(self.scroll_y as int, false)
    }

    /// The last line that is drawn.
    pub open spec fn last_line(&self) -> int {
        self.line_at_height(self.scroll_y + self.frame().inner_h, true)
    }

    /// The line at height `v` of the text.
    fn line_by_height(&self, v: Coord, up: bool) -> (l: usize)
        requires
            self.wf(),
            v <= 0x4000_0000_0000_0000,
        ensures
            l as int == self.line_at_height(v as int, up),
            l < self.line_starts@.len(),
    {
        let last: usize = self.line_starts.len() - 1;
        let row: Coord = self.row_h();
        if v <= 0 {
            0
        } else if row == 0 {
            last
        } else {
            let num: u64 = if up {
                (v + row - 1) as u64
            } else {
                v as u64
            };
            let q: u64 = num / row as u64;
            if q >= last as u64 {
                last
            } else {
                q as usize
            }
        }
    }

    /// The ends of the selection on a line; a selected line break shows as a stub behind the line.
    pub open spec fn selection_on(&self, line: int) -> Option<(int, int)> {
        let t = self.page().starts;
        let ds = t[line];
        let de = lines::draw_end(self.chars@, t, line);
        match self.edit().range() {
            Some((a, b)) => {
                let ls = vstd::math::max(a, ds);
                let le = vstd::math::min(b, de);
                if ls < le {
                    let x0 = self.inset_x() + edit::sum_to(self.widths@, ls) - edit::sum_to(
                        self.widths@,
                        ds,
                    );
                    Some(
                        (
                            x0,
                            x0 + edit::sum_to(self.widths@, le) - edit::sum_to(self.widths@, ls),
                        ),
                    )
                } else if a <= de && b > de && lines::end_of(t, self.chars@.len() as int, line)
                    > de {
                    let x0 = self.inset_x() + edit::sum_to(self.widths@, de) - edit::sum_to(
                        self.widths@,
                        ds,
                    );
                    Some((x0, x0 + coord::truncated(self.font_size * 7, 20)))
                } else {
                    None
                }
            },
            None => None,
        }
    }

    /// The row of the middle of a line, on the text layer.
    pub open spec fn line_middle(&self, line: int) -> int {
        self.inset_y() + line * self.row() - self.scroll_y + coord::truncated(self.row(), 2)
    }

    /// `d` is what is drawn of a line.
    pub open spec fn draws_line(&self, d: LineDraw, line: int) -> bool {
        &&& d.start == self.page().starts[line]
        &&& d.end == lines::draw_end(self.chars@, self.page().starts, line)
        &&& d.y_center == self.line_middle(line)
        &&& match d.sel {
            Some((x0, x1)) => self.selection_on(line) == Some((x0 as int, x1 as int)),
            None => self.selection_on(line) is None,
        }
    }

    /// `draws` is what is drawn of the lines that show.
    pub open spec fn draws_page(&self, draws: Seq<LineDraw>) -> bool {
        let first = self.first_line();
        let last = self.last_line();
        &&& draws.len() == (if first <= last {
            last - first + 1
        } else {
            0
        })
        &&& forall|i: int|
            0 <= i < draws.len() ==> self.draws_line(#[trigger] draws[i], first + i)
    }

    /// The ends of the selection on a line.
    fn selection_on_line(&self, line: usize) -> (r: Option<(Coord, Coord)>)
        requires
            self.wf(),
            self.edit().anchor_ok(),
            line < self.line_starts@.len(),
        ensures
            match r {
                Some((x0, x1)) => {
                    &&& self.selection_on(line as int) == Some((x0 as int, x1 as int))
                    &&& 0 <= x0 <= x1 <= 0x3000_0000_0000_0000
                },
                None => self.selection_on(line as int) is None,
            },
    {
        let (ds, de) = self.line_draw_range(line);
        match self.selection_range() {
            Some((a, b)) => {
                let ls: usize = if a >= ds {
                    a
                } else {
                    ds
                };
                let le: usize = if b <= de {
                    b
                } else {
                    de
                };
                if ls < le {
                    let x0: Coord = self.pad_x() + edit::sum_of(&self.widths, ds, ls);
                    Some((x0, x0 + edit::sum_of(&self.widths, ls, le)))
                } else if a <= de && b > de && self.line_end(line) > de {
                    let x0: Coord = self.pad_x() + edit::sum_of(&self.widths, ds, de);
                    Some((x0, x0 + coord::truncate(self.font_size as i128 * 7, 20) as i64))
                } else {
                    None
                }
            },
            None => None,
        }
    }

    /// What is drawn of the lines that show: shape the characters of each, and place them from
    /// [`MultiTextbox::pad_x`] on, at the row of its middle.
    pub fn line_draws(&self) -> (draws: Vec<LineDraw>)
        requires
            self.wf(),
            self.edit().anchor_ok(),
        ensures
            self.draws_page(draws@),
            forall|i: int|
                0 <= i < draws@.len() ==> {
                    let d = #[trigger] draws@[i];
                    &&& d.start <= d.end <= self.chars@.len()
                    &&& match d.sel {
                        Some((x0, x1)) => 0 <= x0 <= x1 <= 0x3000_0000_0000_0000,
                        None => true,
                    }
                },
    {
        let first: usize = self.line_by_height(self.scroll_y, false);
        let last: usize = self.line_by_height(self.scroll_y + self.inner_h(), true);
        let mut draws: Vec<LineDraw> = Vec::new();
        let mut line: usize = first;
        let row: Coord = self.row_h();
        let n: usize = self.line_starts.len();
        while line <= last
            invariant
                n == self.line_starts@.len(),
                self.wf(),
                self.edit().anchor_ok(),
                first == self.first_line(),
                last == self.last_line(),
                last < self.line_starts@.len(),
                row == self.row(),
                0 <= row <= 2 * self.font_size,
                first <= line,
                line <= last + 1 || line == first,
                draws@.len() == line - first,
                forall|i: int|
                    0 <= i < draws@.len() ==> self.draws_line(
                        #[trigger] draws@[i],
                        first + i,
                    ),
                forall|i: int|
                    0 <= i < draws@.len() ==> {
                        let d = #[trigger] draws@[i];
                        &&& d.start <= d.end <= self.chars@.len()
                        &&& match d.sel {
                            Some((x0, x1)) => 0 <= x0 <= x1 <= 0x3000_0000_0000_0000,
                            None => true,
                        }
                    },
            decreases last + 1 - line,
        {
            let (start, end) = self.line_draw_range(line);
            proof {
                self.lemma_lower(line as int, (self.chars@.len() + 1) as int);
            }
            let y_center: Coord = self.pad_y() + self.lines_h(line) - self.scroll_y + coord::half(
                row,
            );
            let sel = self.selection_on_line(line);
            draws.push(LineDraw { start, end, y_center, sel });
            line = line + 1;
        }
        draws
    }

    /// The characters of a line that is drawn.
    pub fn line_text(&self, d: LineDraw) -> (s: String)
        requires
            d.start <= d.end <= self.chars@.len(),
        ensures
            s@ == self.chars@.subrange(d.start as int, d.end as int),
    {
        chars::string_of(self.chars.as_slice(), d.start, d.end)
    }

    /// The width of the face in pixels.
    pub open spec fn cols(&self) -> int {
        coord::truncated(self.width as int, PX as int)
    }

    /// The height of the face in pixels.
    pub open spec fn rows(&self) -> int {
        coord::truncated(self.height as int, PX as int)
    }

    /// The face has a pixel.
    pub open spec fn shows(&self) -> bool {
        self.cols() > 0 && self.rows() > 0
    }

    pub open spec fn style() -> FaceStyle {
        FaceStyle {
            fill: theme::TEXTBOX_FILL,
            light: theme::TEXTBOX_LIGHT_EDGE,
            shadow: theme::TEXTBOX_SHADOW_EDGE,
        }
    }

    /// The mask of the fill, without the columns that the right inset takes.
    pub open spec fn text_mask(&self, fill_mask: Seq<u8>) -> Seq<u8> {
        if self.right_inset > 0 {
            cut_mask(
                fill_mask,
                self.cols(),
                self.rows(),
                region::px_at(self.cols() * PX - self.right_inset),
            )
        } else {
            fill_mask
        }
    }

    /// The rectangle behind what is selected on a line, in pixels, on the text layer.
    pub open spec fn line_box(&self, d: LineDraw) -> Option<(int, int, int, int)> {
        match d.sel {
            Some((x0, x1)) => Some(
                (
                    coord::truncated(x0 as int, PX as int),
                    coord::truncated(
                        d.y_center - coord::truncated(self.font_size as int, 2),
                        PX as int,
                    ),
                    coord::truncated(x1 - x0, PX as int),
                    coord::truncated(self.font_size as int, PX as int),
                ),
            ),
            None => None,
        }
    }

    /// The layer after the glyphs of the first `n` lines were drawn on it.
    pub open spec fn with_line_glyphs(
        &self,
        pixels: Seq<u32>,
        draws: Seq<LineDraw>,
        art: &PageArt,
        mask: Seq<u8>,
        n: int,
    ) -> Seq<u32>
        decreases n,
    {
        if n <= 0 {
            pixels
        } else {
            let before = self.with_line_glyphs(pixels, draws, art, mask, n - 1);
            if draws[n - 1].start < draws[n - 1].end {
                text::with_glyphs(
                    before,
                    self.cols(),
                    art.lines@[n - 1]@,
                    theme::TEXTBOX_TEXT,
                    Clip::whole(self.cols() as usize, self.rows() as usize),
                    Some(mask),
                    art.lines@[n - 1]@.len() as int,
                )
            } else {
                before
            }
        }
    }

    /// The layer after the selection on the first `n` lines was laid under it.
    pub open spec fn with_line_selections(
        &self,
        pixels: Seq<u32>,
        draws: Seq<LineDraw>,
        mask: Seq<u8>,
        n: int,
    ) -> Seq<u32>
        decreases n,
    {
        if n <= 0 {
            pixels
        } else {
            let before = self.with_line_selections(pixels, draws, mask, n - 1);
            match self.line_box(draws[n - 1]) {
                Some((x, y, w, h)) => rect::with_fill(
                    before,
                    self.cols(),
                    x,
                    y,
                    w,
                    h,
                    theme::TEXTBOX_SELECTION_BG,
                    Clip::whole(self.cols() as usize, self.rows() as usize),
                    Some(mask),
                ),
                None => before,
            }
        }
    }

    /// The text layer: the glyphs of all lines that show, and the selection under them, both clipped to
    /// the fill.
    pub open spec fn text_layer(
        &self,
        draws: Seq<LineDraw>,
        art: &PageArt,
        mask: Seq<u8>,
    ) -> Seq<u32> {
        let n = draws.len() as int;
        self.with_line_selections(
            self.with_line_glyphs(
                pool::solid(self.cols() * self.rows(), 0),
                draws,
                art,
                mask,
                n,
            ),
            draws,
            mask,
            n,
        )
    }

    /// Draws the glyphs of all lines.
    fn draw_line_glyphs(
        &self,
        pixels: &mut [u32],
        cw: usize,
        ch: usize,
        draws: &Vec<LineDraw>,
        art: &PageArt,
        mask: &AlphaMask,
    )
        requires
            cw == self.cols(),
            ch == self.rows(),
            old(pixels)@.len() == cw * ch,
            art.wf(draws@.len() as int),
            mask.matches(cw, ch),
        ensures
            final(pixels)@ == self.with_line_glyphs(
                old(pixels)@,
                draws@,
                art,
                mask.pixels@,
                draws@.len() as int,
            ),
            final(pixels)@.len() == old(pixels)@.len(),
    {
        let mut i: usize = 0;
        while i < draws.len()
            invariant
                0 <= i <= draws@.len(),
                cw == self.cols(),
                ch == self.rows(),
                pixels@.len() == cw * ch,
                art.wf(draws@.len() as int),
                mask.matches(cw, ch),
                pixels@ == self.with_line_glyphs(
                    old(pixels)@,
                    draws@,
                    art,
                    mask.pixels@,
                    i as int,
                ),
            decreases draws@.len() - i,
        {
            if draws[i].start < draws[i].end {
                let glyphs: &Vec<GlyphImage> = &art.lines[i];
                let ghost before = pixels@;
                text::draw_glyphs(
                    pixels,
                    cw,
                    ch,
                    glyphs.as_slice(),
                    theme::TEXTBOX_TEXT,
                    None,
                    Some(mask),
                );
                proof {
                    text::lemma_glyphs_len(
                        before,
                        cw as int,
                        glyphs@,
                        theme::TEXTBOX_TEXT,
                        Clip::whole(cw, ch),
                        Some(mask.pixels@),
                        glyphs@.len() as int,
                    );
                }
            }
            i = i + 1;
        }
    }

    /// Lays the selection on one line under the layer.
    fn fill_line_selection(
        &self,
        pixels: &mut [u32],
        cw: usize,
        ch: usize,
        d: LineDraw,
        mask: &AlphaMask,
    )
        requires
            self.place_ok(),
            cw == self.cols(),
            ch == self.rows(),
            old(pixels)@.len() == cw * ch,
            mask.matches(cw, ch),
            match d.sel {
                Some((x0, x1)) => 0 <= x0 <= x1 <= 0x3000_0000_0000_0000,
                None => true,
            },
        ensures
            final(pixels)@ == (match self.line_box(d) {
                Some((x, y, w, h)) => rect::with_fill(
                    old(pixels)@,
                    self.cols(),
                    x,
                    y,
                    w,
                    h,
                    theme::TEXTBOX_SELECTION_BG,
                    Clip::whole(cw, ch),
                    Some(mask.pixels@),
                ),
                None => old(pixels)@,
            }),
            final(pixels)@.len() == old(pixels)@.len(),
    {
        match d.sel {
            Some((x0, x1)) => {
                let x: i128 = coord::truncate(x0 as i128, 0x1_0000);
                let y: i128 = coord::truncate(
                    d.y_center as i128 - coord::half(self.font_size) as i128,
                    0x1_0000,
                );
                let w: i128 = coord::truncate((x1 - x0) as i128, 0x1_0000);
                let h: i128 = coord::truncate(self.font_size as i128, 0x1_0000);
                let mut damage = Damage::new();
                let ghost before = pixels@;
                let mut layer = Canvas::new(pixels, cw, ch, &mut damage);
                rect::fill_area(
                    &mut layer,
                    x,
                    y,
                    w,
                    h,
                    theme::TEXTBOX_SELECTION_BG,
                    None,
                    Some(mask),
                );
                proof {
                    assert(layer.pixels@ =~= rect::with_fill(
                        before,
                        cw as int,
                        x as int,
                        y as int,
                        w as int,
                        h as int,
                        theme::TEXTBOX_SELECTION_BG,
                        Clip::whole(cw, ch),
                        Some(mask.pixels@),
                    ));
                }
            },
            None => {},
        }
    }

    /// Lays the selection on all lines under the layer.
    fn fill_selections(
        &self,
        pixels: &mut [u32],
        cw: usize,
        ch: usize,
        draws: &Vec<LineDraw>,
        mask: &AlphaMask,
    )
        requires
            self.place_ok(),
            cw == self.cols(),
            ch == self.rows(),
            old(pixels)@.len() == cw * ch,
            mask.matches(cw, ch),
            forall|i: int|
                0 <= i < draws@.len() ==> {
                    let d = #[trigger] draws@[i];
                    match d.sel {
                        Some((x0, x1)) => 0 <= x0 <= x1 <= 0x3000_0000_0000_0000,
                        None => true,
                    }
                },
        ensures
            final(pixels)@ == self.with_line_selections(
                old(pixels)@,
                draws@,
                mask.pixels@,
                draws@.len() as int,
            ),
            final(pixels)@.len() == old(pixels)@.len(),
    {
        let mut i: usize = 0;
        while i < draws.len()
            invariant
                0 <= i <= draws@.len(),
                self.place_ok(),
                cw == self.cols(),
                ch == self.rows(),
                pixels@.len() == cw * ch,
                mask.matches(cw, ch),
                forall|i: int|
                    0 <= i < draws@.len() ==> {
                        let d = #[trigger] draws@[i];
                        match d.sel {
                            Some((x0, x1)) => 0 <= x0 <= x1 <= 0x3000_0000_0000_0000,
                            None => true,
                        }
                    },
                pixels@ == self.with_line_selections(
                    old(pixels)@,
                    draws@,
                    mask.pixels@,
                    i as int,
                ),
            decreases draws@.len() - i,
        {
            self.fill_line_selection(pixels, cw, ch, draws[i], mask);
            i = i + 1;
        }
    }

    /// The text layer is to be rasterised: it is out of date, or the selection changed.
    pub open spec fn text_stale(&self) -> bool {
        self.cache.text_dirty || self.range() != self.last_painted_selection
    }

    /// Where the face goes on a canvas whose corner is at the offset.
    pub open spec fn pill_at(&self, offset_x: int, offset_y: int) -> PillRect {
        PillRect {
            x: face::target_px(self.center_x as int, self.width as int, offset_x),
            y: face::target_px(self.center_y as int, self.height as int, offset_y),
            w: self.cols(),
            h: self.rows(),
        }
    }

    /// The layers after they were brought up to date.
    pub open spec fn refreshed(
        before: &MultiTextbox,
        after: &MultiTextbox,
        draws: Seq<LineDraw>,
        art: &PageArt,
    ) -> bool {
        let cw = before.cols();
        let ch = before.rows();
        let stroke = face::stroke_px(before.stroke_ru as int, before.font_size as int);
        &&& after.cache.pill@ == (if before.cache.pill_dirty {
            face::face_pixels(cw, ch, stroke, MultiTextbox::style(), art.inner@, art.outer@)
        } else {
            before.cache.pill@
        })
        &&& after.cache.mask@ == (if before.cache.pill_dirty {
            before.text_mask(
                face::opacities(
                    face::face_fill(cw, ch, stroke, MultiTextbox::style().fill, art.inner@),
                ),
            )
        } else {
            before.cache.mask@
        })
        &&& after.cache.text@ == (if before.text_stale() {
            before.text_layer(draws, art, after.cache.mask@)
        } else {
            before.cache.text@
        })
        &&& FaceCache::updated(&before.cache, &after.cache, before.text_stale(), cw, ch)
    }

    /// Rasterises the face and its mask, if they are out of date.
    fn refresh_face(&mut self, cw: usize, ch: usize, art: &PageArt)
        requires
            old(self).wf(),
            cw == old(self).cols(),
            ch == old(self).rows(),
            cw * ch <= usize::MAX,
            old(self).cache.sized(cw as int, ch as int),
        ensures
            final(self).wf(),
            !final(self).cache.pill_dirty,
            final(self).cache.pill_w == cw,
            final(self).cache.pill_h == ch,
            ({
                let stroke = face::stroke_px(
                    old(self).stroke_ru as int,
                    old(self).font_size as int,
                );
                &&& final(self).cache.pill@ == (if old(self).cache.pill_dirty {
                    face::face_pixels(
                        cw as int,
                        ch as int,
                        stroke,
                        MultiTextbox::style(),
                        art.inner@,
                        art.outer@,
                    )
                } else {
                    old(self).cache.pill@
                })
                &&& final(self).cache.mask@ == (if old(self).cache.pill_dirty {
                    old(self).text_mask(
                        face::opacities(
                            face::face_fill(
                                cw as int,
                                ch as int,
                                stroke,
                                MultiTextbox::style().fill,
                                art.inner@,
                            ),
                        ),
                    )
                } else {
                    old(self).cache.mask@
                })
            }),
            final(self).cache.text@ == old(self).cache.text@,
            final(self).cache.text_w == old(self).cache.text_w,
            final(self).cache.text_h == old(self).cache.text_h,
            final(self).cache.text_dirty == old(self).cache.text_dirty,
            *final(self) == (MultiTextbox { cache: final(self).cache, ..*old(self) }),
    {
        let stroke: isize = face::stroke_width(self.stroke_ru, self.font_size);
        let dirty: bool = self.cache.pill_dirty;
        let style = FaceStyle {
            fill: theme::TEXTBOX_FILL,
            light: theme::TEXTBOX_LIGHT_EDGE,
            shadow: theme::TEXTBOX_SHADOW_EDGE,
        };
        self.cache.refresh_pill(cw, ch, stroke, style, art.inner, art.outer);
        if dirty && self.right_inset > 0 {
            let cut: usize = region::pixel_at(cw as i64 * 0x1_0000 - self.right_inset);
            cut_columns(&mut self.cache.mask, cw, ch, cut);
        }
    }

    /// Rasterises the text layer anew.
    fn refresh_text(&mut self, cw: usize, ch: usize, draws: &Vec<LineDraw>, art: &PageArt)
        requires
            old(self).wf(),
            cw == old(self).cols(),
            ch == old(self).rows(),
            cw * ch <= usize::MAX,
            !old(self).cache.pill_dirty,
            old(self).cache.sized(cw as int, ch as int),
            art.wf(draws@.len() as int),
            forall|i: int|
                0 <= i < draws@.len() ==> {
                    let d = #[trigger] draws@[i];
                    match d.sel {
                        Some((x0, x1)) => 0 <= x0 <= x1 <= 0x3000_0000_0000_0000,
                        None => true,
                    }
                },
        ensures
            final(self).wf(),
            final(self).cache.text@ == old(self).text_layer(draws@, art, old(self).cache.mask@),
            final(self).cache.text_w == cw,
            final(self).cache.text_h == ch,
            !final(self).cache.text_dirty,
            final(self).cache.pill == old(self).cache.pill,
            final(self).cache.pill_w == old(self).cache.pill_w,
            final(self).cache.pill_h == old(self).cache.pill_h,
            final(self).cache.pill_dirty == old(self).cache.pill_dirty,
            final(self).cache.mask == old(self).cache.mask,
            *final(self) == (MultiTextbox { cache: final(self).cache, ..*old(self) }),
    {
        let mut layer: Vec<u32> = vec![0u32; cw * ch];
        proof {
            assert(layer@ =~= pool::solid(cw * ch, 0));
        }
        let mask = AlphaMask::new(self.cache.mask.as_slice(), cw, ch);
        self.draw_line_glyphs(layer.as_mut_slice(), cw, ch, draws, art, &mask);
        self.fill_selections(layer.as_mut_slice(), cw, ch, draws, &mask);
        self.cache.text = layer;
        self.cache.text_w = cw;
        self.cache.text_h = ch;
        self.cache.text_dirty = false;
    }

    /// Where the cursor is drawn on a `w` by `h` canvas whose corner is at the offset: its column, its
    /// first row and its height; `None` where it does not lie on the canvas with the whole of its
    /// wave.
    pub open spec fn blinkey_place(
        &self,
        offset_x: int,
        offset_y: int,
        w: int,
        h: int,
    ) -> Option<(int, int, int)> {
        let bx = coord::truncated(self.cursor_px() - offset_x, PX as int);
        let by = coord::truncated(self.cursor_top() - offset_y, PX as int);
        let bh = coord::truncated(self.row(), PX as int);
        if bx >= shape::BLINKEY_REACH && bx + shape::BLINKEY_REACH < w && by >= 0 && by + bh <= h {
            Some((bx, by, bh))
        } else {
            None
        }
    }

    /// Where the cursor is drawn.
    fn place_blinkey(&self, offset_x: Coord, offset_y: Coord, w: usize, h: usize) -> (p: Option<
        (usize, usize, usize),
    >)
        requires
            self.wf(),
            face::placeable(offset_x as int),
            face::placeable(offset_y as int),
        ensures
            match p {
                Some((bx, by, bh)) => {
                    &&& self.blinkey_place(offset_x as int, offset_y as int, w as int, h as int)
                        == Some((bx as int, by as int, bh as int))
                    &&& shape::BLINKEY_REACH <= bx
                    &&& bx + shape::BLINKEY_REACH < w
                    &&& by + bh <= h
                    &&& bh <= shape::MAX_CURSOR
                },
                None => self.blinkey_place(
                    offset_x as int,
                    offset_y as int,
                    w as int,
                    h as int,
                ) is None,
            },
    {
        let cb = self.cursor_bbox();
        let bx: i128 = coord::truncate(cb.x as i128 + 0x8_0000 - offset_x as i128, 0x1_0000);
        let by: i128 = coord::truncate(cb.y as i128 - offset_y as i128, 0x1_0000);
        let bh: usize = coord::whole_px(self.row_h()) as usize;
        if bx >= 7 && bx + 7 < w as i128 && by >= 0 && by + bh as i128 <= h as i128 {
            Some((bx as usize, by as usize, bh))
        } else {
            None
        }
    }

    /// The canvas after the text field was painted: text, face, and the cursor if it is to be drawn.
    pub open spec fn painted(
        &self,
        pixels: Seq<u32>,
        w: usize,
        h: usize,
        offset_x: int,
        offset_y: int,
        c: Clip,
    ) -> Seq<u32> {
        let r = self.pill_at(offset_x, offset_y);
        let flat = self.cache.over(pixels, w as int, h as int, r.x, r.y, c);
        match self.blinkey_place(offset_x, offset_y, w as int, h as int) {
            Some((bx, by, bh)) => if self.blinkey_on() {
                shape::with_blinkey(flat, w as int, bx, by, bh, self.blinkey_wave_top)
            } else {
                flat
            },
            None => flat,
        }
    }

    /// The damage after the text field was painted.
    pub open spec fn painted_damage(
        &self,
        d: Option<PixelRect>,
        w: usize,
        h: usize,
        offset_x: int,
        offset_y: int,
        c: Clip,
    ) -> Option<PixelRect> {
        let r = self.pill_at(offset_x, offset_y);
        let flat = self.cache.over_damage(d, w as int, h as int, r.x, r.y, c);
        match self.blinkey_place(offset_x, offset_y, w as int, h as int) {
            Some((bx, by, bh)) => if self.blinkey_on() {
                shape::blinkey_damage(flat, bx, by, bh)
            } else {
                flat
            },
            None => flat,
        }
    }

    /// Paints the layers and the cursor.
    fn paint_layers(
        &self,
        canvas: &mut Canvas,
        offset_x: Coord,
        offset_y: Coord,
        clip: Option<Clip>,
        hit_map: Option<&mut [HitId]>,
        hit_id: HitId,
    )
        requires
            self.wf(),
            self.shows(),
            old(canvas).fits(),
            face::placeable(offset_x as int),
            face::placeable(offset_y as int),
            match hit_map {
                Some(m) => old(canvas).width * old(canvas).height <= m@.len(),
                None => true,
            },
        ensures
            ({
                let w = old(canvas).width;
                let h = old(canvas).height;
                let c = Clip::resolved(clip, w, h);
                let r = self.pill_at(offset_x as int, offset_y as int);
                &&& final(canvas).pixels@ == self.painted(
                    old(canvas).pixels@,
                    w,
                    h,
                    offset_x as int,
                    offset_y as int,
                    c,
                )
                &&& final(canvas).damage.rect() == self.painted_damage(
                    old(canvas).damage.rect(),
                    w,
                    h,
                    offset_x as int,
                    offset_y as int,
                    c,
                )
                &&& match hit_map {
                    Some(m) => final(m)@ == self.cache.over_hits(
                        m@,
                        w as int,
                        h as int,
                        r.x,
                        r.y,
                        c,
                        hit_id,
                    ),
                    None => true,
                }
            }),
            final(canvas).width == old(canvas).width,
            final(canvas).height == old(canvas).height,
            final(final(canvas).pixels)@ == final(old(canvas).pixels)@,
            *final(final(canvas).damage) == *final(old(canvas).damage),
    {
        let x: isize = face::target_of(self.center_x, self.width, offset_x);
        let y: isize = face::target_of(self.center_y, self.height, offset_y);
        self.cache.composite(x, y, canvas, hit_map, hit_id, clip);
        if self.focused && !self.has_selection() && self.blinkey_visible {
            match self.place_blinkey(offset_x, offset_y, canvas.width, canvas.height) {
                Some((bx, by, bh)) => {
                    shape::draw_blinkey(canvas, bx, by, bh, self.blinkey_wave_top);
                },
                None => {},
            }
        }
    }

    /// Paints the text field on a canvas whose corner is at the offset, and stamps the identifier on
    /// the hit map wherever its face is opaque. Layers that are out of date are rasterised first; the
    /// number of them is returned. A text field without a pixel paints nothing.
    pub fn render_content_into(
        &mut self,
        canvas: &mut Canvas,
        offset_x: Coord,
        offset_y: Coord,
        art: &PageArt,
        clip: Option<Clip>,
        hit_map: Option<&mut [HitId]>,
        hit_id: HitId,
    ) -> (rasterised: u32)
        requires
            old(self).wf(),
            old(self).edit().anchor_ok(),
            old(canvas).fits(),
            art.wf(
                if old(self).first_line() <= old(self).last_line() {
                    old(self).last_line() - old(self).first_line() + 1
                } else {
                    0
                },
            ),
            face::placeable(offset_x as int),
            face::placeable(offset_y as int),
            old(self).shows() ==> old(self).cache.sized(old(self).cols(), old(self).rows()),
            old(self).shows() ==> old(self).cols() * old(self).rows() <= usize::MAX,
            match hit_map {
                Some(m) => old(canvas).width * old(canvas).height <= m@.len(),
                None => true,
            },
        ensures
            final(self).wf(),
            !old(self).shows() ==> {
                &&& rasterised == 0
                &&& *final(self) == *old(self)
                &&& final(canvas).pixels@ == old(canvas).pixels@
                &&& final(canvas).damage.rect() == old(canvas).damage.rect()
                &&& match hit_map {
                    Some(m) => final(m)@ == m@,
                    None => true,
                }
            },
            old(self).shows() ==> ({
                let w = old(canvas).width;
                let h = old(canvas).height;
                let c = Clip::resolved(clip, w, h);
                let r = old(self).pill_at(offset_x as int, offset_y as int);
                &&& rasterised == (if old(self).cache.pill_dirty {
                    1int
                } else {
                    0
                }) + (if old(self).text_stale() {
                    1int
                } else {
                    0
                })
                &&& exists|draws: Seq<LineDraw>|
                    old(self).draws_page(draws) && #[trigger] MultiTextbox::refreshed(
                        old(self),
                        final(self),
                        draws,
                        art,
                    )
                &&& final(self).cache.sized(final(self).cols(), final(self).rows())
                &&& *final(self) == (MultiTextbox {
                    cache: final(self).cache,
                    ..*old(self)
                }).recorded(w, h)
                &&& final(canvas).pixels@ == final(self).painted(
                    old(canvas).pixels@,
                    w,
                    h,
                    offset_x as int,
                    offset_y as int,
                    c,
                )
                &&& final(canvas).damage.rect() == final(self).painted_damage(
                    old(canvas).damage.rect(),
                    w,
                    h,
                    offset_x as int,
                    offset_y as int,
                    c,
                )
                &&& match hit_map {
                    Some(m) => final(m)@ == final(self).cache.over_hits(
                        m@,
                        w as int,
                        h as int,
                        r.x,
                        r.y,
                        c,
                        hit_id,
                    ),
                    None => true,
                }
            }),
            final(canvas).width == old(canvas).width,
            final(canvas).height == old(canvas).height,
            final(final(canvas).pixels)@ == final(old(canvas).pixels)@,
            *final(final(canvas).damage) == *final(old(canvas).damage),
    {
        let pill_w: isize = coord::whole_px(self.width);
        let pill_h: isize = coord::whole_px(self.height);
        if pill_w <= 0 || pill_h <= 0 {
            return 0;
        }
        let rasterised: u32 = self.refresh(pill_w as usize, pill_h as usize, art);
        self.paint_layers(canvas, offset_x, offset_y, clip, hit_map, hit_id);
        let ghost draws = choose|draws: Seq<LineDraw>|
            old(self).draws_page(draws) && #[trigger] MultiTextbox::refreshed(
                old(self),
                self,
                draws,
                art,
            );
        self.record_painted(canvas.width, canvas.height);
        proof {
            assert(MultiTextbox::refreshed(old(self), self, draws, art));
        }
        rasterised
    }

    /// Rasterises the layers that are out of date, and returns the number of them.
    fn refresh(&mut self, cw: usize, ch: usize, art: &PageArt) -> (rasterised: u32)
        requires
            old(self).wf(),
            old(self).edit().anchor_ok(),
            art.wf(
                if old(self).first_line() <= old(self).last_line() {
                    old(self).last_line() - old(self).first_line() + 1
                } else {
                    0
                },
            ),
            cw == old(self).cols(),
            ch == old(self).rows(),
            cw * ch <= usize::MAX,
            old(self).cache.sized(cw as int, ch as int),
        ensures
            final(self).wf(),
            rasterised == (if old(self).cache.pill_dirty {
                1int
            } else {
                0
            }) + (if old(self).text_stale() {
                1int
            } else {
                0
            }),
            exists|draws: Seq<LineDraw>|
                old(self).draws_page(draws) && #[trigger] MultiTextbox::refreshed(
                    old(self),
                    final(self),
                    draws,
                    art,
                ),
            *final(self) == (MultiTextbox { cache: final(self).cache, ..*old(self) }),
    {
        let draws: Vec<LineDraw> = self.line_draws();
        let mut rasterised: u32 = 0;
        if self.cache.pill_dirty {
            rasterised = 1;
        }
        self.refresh_face(cw, ch, art);
        let moved = !textbox_paint::same_range(
            self.selection_range(),
            self.last_painted_selection,
        );
        if self.cache.text_dirty || moved {
            rasterised = rasterised + 1;
            proof {
                lemma_layer_of_same(old(self), self, draws@, art, self.cache.mask@);
            }
            self.refresh_text(cw, ch, &draws, art);
        }
        proof {
            assert(MultiTextbox::refreshed(old(self), self, draws@, art));
        }
        rasterised
    }
}

/// The text layer rests on the geometry alone, not on the cached layers.
proof fn lemma_layer_of_same(
    a: &MultiTextbox,
    b: &MultiTextbox,
    draws: Seq<LineDraw>,
    art: &PageArt,
    mask: Seq<u8>,
)
    requires
        a.width == b.width,
        a.height == b.height,
        a.font_size == b.font_size,
    ensures
        a.text_layer(draws, art, mask) == b.text_layer(draws, art, mask),
{
    let n = draws.len() as int;
    let blank = pool::solid(a.cols() * a.rows(), 0);
    lemma_glyphs_of_same(a, b, blank, draws, art, mask, n);
    lemma_selections_of_same(
        a,
        b,
        a.with_line_glyphs(blank, draws, art, mask, n),
        draws,
        mask,
        n,
    );
}

proof fn lemma_glyphs_of_same(
    a: &MultiTextbox,
    b: &MultiTextbox,
    pixels: Seq<u32>,
    draws: Seq<LineDraw>,
    art: &PageArt,
    mask: Seq<u8>,
    n: int,
)
    requires
        a.width == b.width,
        a.height == b.height,
    ensures
        a.with_line_glyphs(pixels, draws, art, mask, n) == b.with_line_glyphs(
            pixels,
            draws,
            art,
            mask,
            n,
        ),
    decreases n,
{
    if n > 0 {
        lemma_glyphs_of_same(a, b, pixels, draws, art, mask, n - 1);
    }
}

proof fn lemma_selections_of_same(
    a: &MultiTextbox,
    b: &MultiTextbox,
    pixels: Seq<u32>,
    draws: Seq<LineDraw>,
    mask: Seq<u8>,
    n: int,
)
    requires
        a.width == b.width,
        a.height == b.height,
        a.font_size == b.font_size,
    ensures
        a.with_line_selections(pixels, draws, mask, n) == b.with_line_selections(
            pixels,
            draws,
            mask,
            n,
        ),
    decreases n,
{
    if n > 0 {
        lemma_selections_of_same(a, b, pixels, draws, mask, n - 1);
    }
}

/// A mask without its columns from `cut` on.
pub open spec fn cut_mask(mask: Seq<u8>, w: int, h: int, cut: int) -> Seq<u8> {
    Seq::new(
        mask.len(),
        |i: int|
            if canvas::in_rect(i, w, cut, 0, w, h) {
                0
            } else {
                mask[i]
            },
    )
}

/// Takes the columns from `cut` on out of a mask.
fn cut_columns(mask: &mut Vec<u8>, w: usize, h: usize, cut: usize)
    requires
        old(mask)@.len() == w * h,
    ensures
        final(mask)@ == cut_mask(old(mask)@, w as int, h as int, cut as int),
{
    let n: usize = mask.len();
    proof {
        if 0 < w {
            canvas::lemma_grid(w as int);
        }
    }
    let clear = |p: u8, x: usize, y: usize| -> (q: u8)
        ensures
            q == 0,
    {
        0
    };
    canvas::map_rect(mask.as_mut_slice(), w, cut, 0, w, h, clear);
    proof {
        let after = mask@;
        assert(after =~= cut_mask(old(mask)@, w as int, h as int, cut as int));
    }
}

/// A text field at rest shows its fill, a hovered one the hover colour, and a focused one the active
/// colour, once its tint lies over the fill.
pub proof fn law_tint_shows_the_state(m: MultiTextbox)
    ensures
        ({
            let shown = overlay::tinted(theme::TEXTBOX_FILL, m.tint());
            &&& m.focused ==> pixel::red(shown) == 255 - pixel::red(theme::TEXTBOX_ACTIVE) && pixel::green(shown)
                == 255 - pixel::green(theme::TEXTBOX_ACTIVE) && pixel::blue(shown) == 255 - pixel::blue(
                theme::TEXTBOX_ACTIVE,
            )
            &&& m.hovered && !m.focused ==> pixel::red(shown) == 255 - pixel::red(theme::TEXTBOX_HOVER) && pixel::green(
                shown,
            ) == 255 - pixel::green(theme::TEXTBOX_HOVER) && pixel::blue(shown) == 255 - pixel::blue(
                theme::TEXTBOX_HOVER,
            )
            &&& !m.hovered && !m.focused ==> pixel::red(shown) == 255 - pixel::red(theme::TEXTBOX_FILL) && pixel::green(
                shown,
            ) == 255 - pixel::green(theme::TEXTBOX_FILL) && pixel::blue(shown) == 255 - pixel::blue(
                theme::TEXTBOX_FILL,
            )
        }),
{
    overlay::law_tint_shows_the_target(theme::TEXTBOX_FILL, theme::TEXTBOX_FILL, theme::TEXTBOX_ACTIVE);
    overlay::law_tint_shows_the_target(theme::TEXTBOX_FILL, theme::TEXTBOX_FILL, theme::TEXTBOX_HOVER);
    overlay::law_untinted_pixel_shows_itself(theme::TEXTBOX_FILL);
}

/// Every line of which a part lies in the view is drawn, and beyond them at most one line below it.
pub proof fn law_lines_in_view_are_drawn(m: MultiTextbox, line: int)
    requires
        m.row() > 0,
        m.scroll_y >= 0,
        0 <= line < m.line_starts@.len(),
    ensures
        (line + 1) * m.row() > m.scroll_y && line * m.row() < m.scroll_y + m.frame().inner_h
            ==> m.first_line() <= line <= m.last_line(),
        m.first_line() <= line <= m.last_line() && line < m.line_starts@.len() - 1 ==> (line + 1)
            * m.row() > m.scroll_y,
        m.first_line() <= line <= m.last_line() && line > 0 ==> line * m.row() < m.scroll_y
            + m.frame().inner_h + m.row(),
{
    let row = m.row();
    let top = m.scroll_y as int;
    let bottom = m.scroll_y + m.frame().inner_h;
    let a = top / row;
    let b = (bottom + row - 1) / row;
    vstd::arithmetic::div_mod::lemma_fundamental_div_mod(top, row);
    vstd::arithmetic::div_mod::lemma_mod_bound(top, row);
    vstd::arithmetic::div_mod::lemma_fundamental_div_mod(bottom + row - 1, row);
    vstd::arithmetic::div_mod::lemma_mod_bound(bottom + row - 1, row);
    assert(line >= a + 1 ==> line * row >= row * a + row) by (nonlinear_arith)
        requires
            row > 0,
    ;
    assert(line < a ==> (line + 1) * row <= row * a) by (nonlinear_arith)
        requires
            row > 0,
    ;
    assert(line >= a ==> (line + 1) * row >= row * a + row) by (nonlinear_arith)
        requires
            row > 0,
    ;
    assert(line > b ==> line * row >= row * b + row) by (nonlinear_arith)
        requires
            row > 0,
    ;
    assert(line <= b ==> line * row <= row * b) by (nonlinear_arith)
        requires
            row > 0,
    ;
    assert(line >= 0 && line > 0 ==> line * row >= row) by (nonlinear_arith)
        requires
            row > 0,
    ;
}

/// What is marked on a line reaches from the first selected place on it to the last: every selected
/// place lies in the mark, every other one on its side of it. Places are measured from the left inset
/// on. A line with nothing selected has no mark, unless its line break is selected.
pub proof fn law_mark_lies_behind_the_selected(m: MultiTextbox, line: int, p: int)
    requires
        m.wf(),
        m.edit().anchor_ok(),
        0 <= line < m.line_starts@.len(),
        m.page().starts[line] <= p <= lines::draw_end(m.chars@, m.page().starts, line),
    ensures
        ({
            let start = m.page().starts[line];
            let end = lines::draw_end(m.chars@, m.page().starts, line);
            let x = m.inset_x() + edit::sum_to(m.widths@, p) - edit::sum_to(m.widths@, start);
            match m.edit().range() {
                Some((a, b)) => if a < end && b > start && a < b && start < end {
                    &&& m.selection_on(line) is Some
                    &&& ({
                        let (x0, x1) = m.selection_on(line)->0;
                        &&& p <= a || p == start ==> x <= x0
                        &&& a <= p <= b ==> x0 <= x <= x1
                        &&& p >= b || p == end ==> x >= x1
                    })
                } else {
                    m.selection_on(line) is Some ==> a <= end < b && (m.selection_on(line)->0).0
                        == m.inset_x() + edit::sum_to(m.widths@, end) - edit::sum_to(
                        m.widths@,
                        start,
                    )
                },
                None => m.selection_on(line) is None,
            }
        }),
{
    let start = m.page().starts[line];
    let end = lines::draw_end(m.chars@, m.page().starts, line);
    edit::lemma_sum(m.widths@, start, p);
    edit::lemma_sum(m.widths@, p, end);
    match m.edit().range() {
        Some((a, b)) => {
            let ls = vstd::math::max(a, start);
            let le = vstd::math::min(b, end);
            if ls < le {
                edit::lemma_sum(m.widths@, start, ls);
                edit::lemma_sum(m.widths@, ls, le);
                edit::lemma_sum(m.widths@, le, end);
                if p <= ls {
                    edit::lemma_sum(m.widths@, p, ls);
                } else {
                    edit::lemma_sum(m.widths@, ls, p);
                }
                if p <= le {
                    edit::lemma_sum(m.widths@, p, le);
                } else {
                    edit::lemma_sum(m.widths@, le, p);
                }
            }
        },
        None => {},
    }
}

/// The cursor stands on its line: the row where the line is drawn is the middle of the cursor, and the
/// text before the cursor ends at it.
pub proof fn law_cursor_stands_on_its_line(m: MultiTextbox)
    ensures
        ({
            let line = m.page().cursor_line();
            let left = m.rect().x;
            let top = m.rect().y;
            &&& coord::in_range(m.center_x as int) && coord::in_range(m.width as int) ==> m.cursor_px()
                == left + m.inset_x() + edit::sum_to(m.widths@, m.cursor as int) - edit::sum_to(
                m.widths@,
                m.page().starts[line],
            )
            &&& coord::in_range(m.center_y as int) && coord::in_range(m.height as int)
                ==> m.cursor_top() + coord::truncated(m.row(), 2) == top + m.line_middle(line)
        }),
{
    coord::lemma_truncated(m.width as int, 2);
    coord::lemma_truncated(m.height as int, 2);
}

/// Lines are drawn one row apart, the first one below the upper inset, and scrolling moves all of them
/// up by as much.
pub proof fn law_lines_are_a_row_apart(m: MultiTextbox, k: MultiTextbox, line: int)
    requires
        m.font_size == k.font_size,
    ensures
        m.line_middle(line + 1) == m.line_middle(line) + m.row(),
        m.line_middle(line) - k.line_middle(line) == k.scroll_y - m.scroll_y,
        m.font_size >= 0 && m.scroll_y == 0 ==> m.inset_y() + m.row() - m.line_middle(0) - 1
            <= m.line_middle(0) - m.inset_y() <= m.inset_y() + m.row() - m.line_middle(0),
{
    coord::lemma_truncated(m.row(), 2);
    coord::lemma_truncated(m.font_size * 7, 5);
    assert((line + 1) * m.row() == line * m.row() + m.row()) by (nonlinear_arith);
    assert(line * m.row() == line * k.row());
    assert(0 * m.row() == 0) by (nonlinear_arith);
}

/// The insets are 11/20 of the font size at the sides and 9/20 above and below, a row is 7/5 of it, and
/// the lines take what the insets leave of the width.
pub proof fn law_frame_follows_the_font(m: MultiTextbox)
    requires
        m.font_size >= 0,
    ensures
        20 * m.inset_x() <= 11 * m.font_size < 20 * m.inset_x() + 20,
        20 * m.inset_y() <= 9 * m.font_size < 20 * m.inset_y() + 20,
        5 * m.row() <= 7 * m.font_size < 5 * m.row() + 5,
        m.frame().line_w >= m.font_size,
        m.frame().line_w > m.font_size ==> m.inset_x() + m.frame().line_w + m.inset_x()
            + m.right_inset == m.width,
        m.inset_y() + m.frame().inner_h + m.inset_y() == m.height,
        m.frame().row_h == m.row(),
{
    coord::lemma_truncated(m.font_size * 11, 20);
    coord::lemma_truncated(m.font_size * 9, 20);
    coord::lemma_truncated(m.font_size * 7, 5);
}

/// What was painted and did not change since is not painted again.
pub proof fn law_painted_field_rests(m: MultiTextbox, vw: usize, vh: usize)
    requires
        !m.cache.pill_dirty,
        !m.cache.text_dirty,
        !m.blinkey_on(),
    ensures
        !m.recorded(vw, vh).needs_repaint(),
{
}

/// What is painted anew covers where the cursor is and where it was; and, where more than the cursor
/// changed, where the text field was, and where it is.
pub proof fn law_damage_covers_what_changed(m: MultiTextbox, vw: usize, vh: usize, x: int, y: int)
    requires
        ({
            ||| m.blinkey_on() && face::region_px(m.cursor_rect(), vw, vh).holds(x, y)
            ||| m.last_painted_blinkey_on && m.last_painted_blinkey_bbox is Some && (
            m.last_painted_blinkey_bbox->0).holds(x, y)
            ||| m.pill_changed() && m.last_painted_bbox is Some && (m.last_painted_bbox->0).holds(
                x,
                y,
            )
            ||| m.pill_changed() && face::region_px(
                if m.focused != m.last_painted_focused || m.cache.pill_dirty {
                    m.glow_rect()
                } else {
                    m.rect()
                },
                vw,
                vh,
            ).holds(x, y)
        }),
    ensures
        m.damage(vw, vh) is Some,
        (m.damage(vw, vh)->0).holds(x, y),
{
}

/// The glow reaches 6/5 of the font size beyond the text field on every side.
pub proof fn law_glow_lies_around_the_field(m: MultiTextbox)
    requires
        m.place_ok(),
        m.font_size >= 0,
        m.width >= 0,
        m.height >= 0,
    ensures
        ({
            let g = m.glow_rect();
            let r = m.rect();
            let pad = r.x - g.x;
            &&& 5 * pad <= 6 * m.font_size < 5 * pad + 5
            &&& r.y - g.y == pad
            &&& (g.x + g.w) - (r.x + r.w) == pad
            &&& (g.y + g.h) - (r.y + r.h) == pad
        }),
{
    coord::lemma_truncated(m.font_size * 6, 5);
    coord::lemma_truncated(m.width as int, 2);
    coord::lemma_truncated(m.height as int, 2);
}

/// Cutting a mask clears its columns from the cut on, in every row, and keeps all others.
pub proof fn law_cut_mask_keeps_the_left(mask: Seq<u8>, w: int, h: int, cut: int, x: int, y: int)
    requires
        mask.len() == w * h,
        0 <= x < w,
        0 <= y < h,
        0 <= cut,
    ensures
        cut_mask(mask, w, h, cut)[y * w + x] == (if x < cut {
            mask[y * w + x]
        } else {
            0
        }),
{
    canvas::lemma_cell(x, y, w);
    canvas::lemma_cell_bound(x, y, w, h);
}

/// The text lies over the selection: a pixel that the glyphs made opaque keeps their colour.
pub proof fn law_text_lies_over_the_selection(
    m: MultiTextbox,
    pixels: Seq<u32>,
    draws: Seq<LineDraw>,
    mask: Seq<u8>,
    n: int,
    i: int,
)
    requires
        0 <= i < pixels.len(),
        pixel::alpha(pixels[i]) == 255,
    ensures
        m.with_line_selections(pixels, draws, mask, n)[i] == pixels[i],
        m.with_line_selections(pixels, draws, mask, n).len() == pixels.len(),
    decreases n,
{
    if n > 0 {
        law_text_lies_over_the_selection(m, pixels, draws, mask, n - 1, i);
    }
}

/// The mark of a selection is as high as the font, and its middle is the row of the middle of its line,
/// give or take what is dropped for whole pixels.
pub proof fn law_mark_lies_around_the_middle_of_its_line(m: MultiTextbox, d: LineDraw)
    requires
        d.sel is Some,
        m.font_size >= 0,
        (d.sel->0).0 >= 0,
        (d.sel->0).0 <= (d.sel->0).1,
        d.y_center >= m.font_size,
    ensures
        m.line_box(d) is Some,
        ({
            let (x, y, w, h) = m.line_box(d)->0;
            &&& x * PX <= (d.sel->0).0 < (x + 1) * PX
            &&& w * PX <= (d.sel->0).1 - (d.sel->0).0 < (w + 1) * PX
            &&& h * PX <= m.font_size < (h + 1) * PX
            &&& y * PX <= d.y_center
            &&& -PX - 1 <= 2 * (y * PX) + m.font_size - 2 * d.y_center + PX <= PX + 1
        }),
{
    coord::lemma_truncated((d.sel->0).0 as int, PX as int);
    coord::lemma_truncated((d.sel->0).1 - (d.sel->0).0, PX as int);
    coord::lemma_truncated(m.font_size as int, PX as int);
    coord::lemma_truncated(m.font_size as int, 2);
    coord::lemma_truncated(d.y_center - coord::truncated(m.font_size as int, 2), PX as int);
}

} // verus!
