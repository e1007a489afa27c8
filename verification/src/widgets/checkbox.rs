//! A labelled box that is on or off: click, Space and Enter flip it, and the application polls for the
//! change.
use crate::canvas::{Canvas, PixelRect};
use crate::coord::{self, Coord};
use crate::event::{self, EventResponse, KeyEvent};
use crate::paint::clip::{Clip, HitId};
use crate::paint::colour;
use crate::paint::overlay;
use crate::paint::figure::{self, Figure};
use crate::paint::shape::{self, Coverage, ShapeBox};
use crate::pixel;
use crate::region::{self, Region};
use crate::text::{self, GlyphImage};
use crate::theme;
use crate::widgets::chars;
use crate::widgets::face;
use crate::widgets::ident;
use crate::widgets::wrap;
use vstd::prelude::*;

verus! {

/// A labelled box. The box stands at the left of the widget's rectangle, the label right of it.
pub struct Checkbox {
    pub hit_id: HitId,
    pub label: String,
    pub checked: bool,
    pub center_x: Coord,
    pub center_y: Coord,
    pub width: Coord,
    pub height: Coord,
    pub font_size: Coord,
    pub focused: bool,
    pub hovered: bool,
    /// Flips since construction, wrapping.
    pub change_counter: u32,
    /// The count at the last poll.
    pub last_seen_change_counter: u32,
    /// The fill of the box while it is off, in place of the usual one.
    pub empty_fill: Option<u32>,
}

/// Where the box of a checkbox goes: its corner, its side, and its stroke, in pixels.
#[derive(Clone, Copy, Debug, PartialEq, Eq, Structural)]
pub struct BoxFrame {
    pub x: i32,
    pub y: i32,
    pub side: i32,
    pub stroke: i32,
}

impl BoxFrame {
    /// The whole box.
    pub open spec fn outer(self) -> ShapeBox {
        ShapeBox {
            x_min: self.x,
            x_max: (self.x + self.side) as i32,
            y_min: self.y,
            y_max: (self.y + self.side) as i32,
        }
    }

    /// The box without its stroke.
    pub open spec fn inner(self) -> ShapeBox {
        ShapeBox {
            x_min: (self.x + self.stroke) as i32,
            x_max: (self.x + self.side - self.stroke) as i32,
            y_min: (self.y + self.stroke) as i32,
            y_max: (self.y + self.side - self.stroke) as i32,
        }
    }

    /// The stroke leaves room for a fill.
    pub open spec fn hollow(self) -> bool {
        self.side - 2 * self.stroke > 0
    }
}

/// What the rasterisers need from outside to paint a checkbox: the fill and the two tones of the edge
/// of the box, and the glyphs of the label.
pub struct CheckArt<'a> {
    pub fill: &'a Coverage,
    pub light: &'a Coverage,
    pub shade: &'a Coverage,
    pub glyphs: &'a [GlyphImage],
}

impl<'a> CheckArt<'a> {
    /// Every shape and glyph is well formed, and the box shapes lie where the box is.
    pub open spec fn wf(&self, frame: BoxFrame) -> bool {
        &&& forall|i: int| 0 <= i < self.glyphs@.len() ==> (#[trigger] self.glyphs@[i]).wf()
        &&& self.light.wf()
        &&& self.light.shape == frame.outer()
        &&& self.shade.wf()
        &&& self.shade.shape == frame.outer()
        &&& frame.hollow() ==> self.fill.wf() && self.fill.shape == frame.inner()
    }
}

impl Checkbox {
    /// The geometry is one that a widget can have.
    pub open spec fn wf(&self) -> bool {
        face::place_ok(
            self.center_x as int,
            self.center_y as int,
            self.width as int,
            self.height as int,
            self.font_size as int,
        )
    }

    /// The box was flipped since the last poll.
    pub open spec fn toggled(&self) -> bool {
        self.change_counter != self.last_seen_change_counter
    }

    /// The checkbox after a flip.
    pub open spec fn flipped(self) -> Checkbox {
        Checkbox {
            checked: !self.checked,
            change_counter: self.change_counter.wrapping_add(1),
            ..self
        }
    }

    /// The rectangle of the checkbox.
    pub open spec fn rect(&self) -> Region {
        face::centred(
            self.center_x as int,
            self.center_y as int,
            self.width as int,
            self.height as int,
        )
    }

    /// The side of the box: 1.3 times the font size, but no more than the widget is high.
    pub open spec fn side(&self) -> int {
        vstd::math::min(
            coord::truncated(self.font_size * 13, 10),
            vstd::math::max(self.height as int, self.font_size as int),
        )
    }

    /// The width that is left for the label.
    pub open spec fn label_width(&self) -> int {
        vstd::math::max(
            self.width - self.side() - coord::truncated(self.font_size * 4, 5),
            self.font_size as int,
        )
    }

    /// A new checkbox, with the next hit identifier.
    pub fn new(
        hit_counter: &mut HitId,
        label: String,
        center_x: Coord,
        center_y: Coord,
        width: Coord,
        height: Coord,
        font_size: Coord,
        checked: bool,
    ) -> (c: Checkbox)
        requires
            *old(hit_counter) < HitId::MAX,
        ensures
            *final(hit_counter) == *old(hit_counter) + 1,
            c == (Checkbox {
                hit_id: *final(hit_counter),
                label,
                checked,
                center_x,
                center_y,
                width,
                height,
                font_size,
                focused: false,
                hovered: false,
                change_counter: 0,
                last_seen_change_counter: 0,
                empty_fill: None,
            }),
            !c.toggled(),
    {
        Checkbox {
            hit_id: ident::next_id(hit_counter),
            label,
            checked,
            center_x,
            center_y,
            width,
            height,
            font_size,
            focused: false,
            hovered: false,
            change_counter: 0,
            last_seen_change_counter: 0,
            empty_fill: None,
        }
    }

    /// Replaces the fill of the box while it is off; `None` brings the usual one back.
    pub fn set_empty_fill(&mut self, fill: Option<u32>)
        ensures
            *final(self) == (Checkbox { empty_fill: fill, ..*old(self) }),
    {
        self.empty_fill = fill;
    }

    pub fn hit_id(&self) -> (id: HitId)
        ensures
            id == self.hit_id,
    {
        self.hit_id
    }

    pub fn is_checked(&self) -> (b: bool)
        ensures
            b == self.checked,
    {
        self.checked
    }

    pub fn is_focused(&self) -> (b: bool)
        ensures
            b == self.focused,
    {
        self.focused
    }

    pub fn is_hovered(&self) -> (b: bool)
        ensures
            b == self.hovered,
    {
        self.hovered
    }

    pub fn label(&self) -> (s: &str)
        ensures
            s@ == self.label@,
    {
        self.label.as_str()
    }

    /// The side of the box.
    pub fn box_side(&self) -> (s: Coord)
        requires
            self.wf(),
        ensures
            s as int == self.side(),
    {
        let natural: Coord = coord::truncate(self.font_size as i128 * 13, 10) as i64;
        let room: Coord = if self.height >= self.font_size {
            self.height
        } else {
            self.font_size
        };
        if natural <= room {
            natural
        } else {
            room
        }
    }

    /// The label broken into lines that fit right of the box. `measure` gives the width of a text.
    pub fn label_lines<F: Fn(&Vec<char>) -> Coord>(&self, measure: &F) -> (lines: Vec<Vec<char>>)
        requires
            self.wf(),
            forall|t: &Vec<char>| #[trigger] measure.requires((t,)),
        ensures
            wrap::lines_ok(
                *measure,
                wrap::words_of(self.label@),
                wrap::views(lines@),
                self.label_width(),
            ),
    {
        let side: Coord = self.box_side();
        let gap: Coord = coord::truncate(self.font_size as i128 * 4, 5) as i64;
        let left: Coord = self.width - side - gap;
        let max_w: Coord = if left >= self.font_size {
            left
        } else {
            self.font_size
        };
        let text: Vec<char> = chars::chars_of(self.label.as_str());
        let words: Vec<Vec<char>> = wrap::split_words(&text);
        wrap::wrap_words(&words, measure, max_w)
    }

    /// The height that a label of that many lines needs: the box, or the lines where they are taller.
    pub fn needed_height(&self, line_count: usize) -> (h: Coord)
        requires
            self.wf(),
            line_count <= 0x1_0000_0000,
        ensures
            ({
                let n = vstd::math::max(line_count as int, 1);
                h == coord::saturated(
                    vstd::math::max(
                        coord::truncated(self.font_size * 13, 10),
                        coord::truncated(n * self.font_size * 5, 4),
                    ),
                )
            }),
    {
        let n: i128 = if line_count >= 1 {
            line_count as i128
        } else {
            1
        };
        let natural: i128 = coord::truncate(self.font_size as i128 * 13, 10);
        proof {
            assert(0 <= n * self.font_size <= 0x1_0000_0000 * 0x1000_0000_0000) by (nonlinear_arith)
                requires
                    0 <= n <= 0x1_0000_0000,
                    0 <= self.font_size <= 0x1000_0000_0000,
            ;
        }
        let tall: i128 = coord::truncate(n * self.font_size as i128 * 5, 4);
        coord::saturate(
            if natural >= tall {
                natural
            } else {
                tall
            },
        )
    }

    pub fn set_label(&mut self, label: String)
        ensures
            *final(self) == (Checkbox { label, ..*old(self) }),
    {
        self.label = label;
    }

    pub fn set_rect(&mut self, center_x: Coord, center_y: Coord, width: Coord, height: Coord)
        ensures
            *final(self) == (Checkbox { center_x, center_y, width, height, ..*old(self) }),
    {
        self.center_x = center_x;
        self.center_y = center_y;
        self.width = width;
        self.height = height;
    }

    pub fn set_font_size(&mut self, font_size: Coord)
        ensures
            *final(self) == (Checkbox { font_size, ..*old(self) }),
    {
        self.font_size = font_size;
    }

    /// Whether the box was flipped since the last poll.
    pub fn take_toggle(&mut self) -> (fired: bool)
        ensures
            fired == old(self).toggled(),
            !final(self).toggled(),
            *final(self) == (Checkbox {
                last_seen_change_counter: old(self).change_counter,
                ..*old(self)
            }),
    {
        if self.change_counter != self.last_seen_change_counter {
            self.last_seen_change_counter = self.change_counter;
            true
        } else {
            false
        }
    }

    /// Flips the box and counts the flip.
    pub fn toggle(&mut self)
        ensures
            *final(self) == old(self).flipped(),
            !old(self).toggled() ==> final(self).toggled(),
    {
        self.checked = !self.checked;
        self.change_counter = self.change_counter.wrapping_add(1);
    }

    /// Sets the state without counting a flip.
    pub fn set_checked(&mut self, checked: bool)
        ensures
            *final(self) == (Checkbox { checked, ..*old(self) }),
            final(self).toggled() == old(self).toggled(),
    {
        self.checked = checked;
    }

    pub fn set_focused(&mut self, focused: bool)
        ensures
            *final(self) == (Checkbox { focused, ..*old(self) }),
    {
        self.focused = focused;
    }

    pub fn set_hovered(&mut self, hovered: bool)
        ensures
            *final(self) == (Checkbox { hovered, ..*old(self) }),
    {
        self.hovered = hovered;
    }

    pub fn bbox(&self) -> (r: Region)
        requires
            self.wf(),
        ensures
            r == self.rect(),
            face::edges_ok(r),
    {
        face::centred_region(self.center_x, self.center_y, self.width, self.height)
    }

    /// Where the box goes.
    pub open spec fn frame(&self) -> BoxFrame {
        BoxFrame {
            x: coord::truncated(
                self.center_x - coord::truncated(self.width as int, 2),
                coord::PX as int,
            ) as i32,
            y: coord::truncated(
                self.center_y - coord::truncated(self.side(), 2),
                coord::PX as int,
            ) as i32,
            side: coord::truncated(self.side(), coord::PX as int) as i32,
            stroke: (coord::truncated(self.font_size as int, 32 * coord::PX) + 1) as i32,
        }
    }

    /// Where the box goes.
    pub fn box_frame(&self) -> (f: BoxFrame)
        requires
            self.wf(),
        ensures
            f == self.frame(),
            -0x2000_0000 <= f.x <= 0x2000_0000,
            -0x2000_0000 <= f.y <= 0x2000_0000,
            -0x2000_0000 <= f.side <= 0x2000_0000,
            1 <= f.stroke <= 0x1000_0000,
    {
        let side: Coord = self.box_side();
        let x: isize = coord::whole_px(self.center_x - coord::half(self.width));
        let y: isize = coord::whole_px(self.center_y - coord::half(side));
        let s: isize = coord::whole_px(side);
        let stroke: i128 = coord::truncate(self.font_size as i128, 0x20_0000) + 1;
        BoxFrame { x: x as i32, y: y as i32, side: s as i32, stroke: stroke as i32 }
    }

    /// The fill of the box.
    pub open spec fn box_fill(&self) -> u32 {
        if self.checked {
            theme::BUTTON_FILL
        } else {
            match self.empty_fill {
                Some(f) => f,
                None => theme::TEXTBOX_FILL,
            }
        }
    }

    /// Where line `i` of a label of `n` lines goes: its left end, and the row of its middle. The lines
    /// are centred on the box.
    pub open spec fn label_place(&self, i: int, n: int) -> (int, int) {
        let step = coord::truncated(self.font_size * 5, 4);
        (
            self.center_x - coord::truncated(self.width as int, 2) + self.side()
                + coord::truncated(self.font_size as int, 2),
            self.center_y - coord::truncated(step * (n - 1), 2) + step * i,
        )
    }

    /// Where line `i` of a label of `n` lines goes: its left end, and the row of its middle. The lines
    /// are centred on the box.
    pub fn label_anchor(&self, i: usize, n: usize) -> (p: (Coord, Coord))
        requires
            self.wf(),
            i < n <= 0x1_0000,
        ensures
            (p.0 as int, p.1 as int) == self.label_place(i as int, n as int),
    {
        let step: Coord = coord::truncate(self.font_size as i128 * 5, 4) as i64;
        proof {
            assert(0 <= step * (n - 1) <= 0x1000_0000_0000 * 0x1_0000 && 0 <= step * i
                <= 0x1000_0000_0000 * 0x1_0000) by (nonlinear_arith)
                requires
                    0 <= step <= 0x1000_0000_0000,
                    0 <= i < n <= 0x1_0000,
            ;
        }
        let x: Coord = self.center_x - coord::half(self.width) + self.box_side() + coord::half(
            self.font_size,
        );
        let first: Coord = self.center_y - coord::half(step * (n - 1) as i64);
        (x, first + step * i as i64)
    }

    /// The two strokes of the tick, at half a right angle to both sides.
    pub open spec fn tick(&self) -> (Figure, Figure) {
        let side = self.side();
        let cx = self.center_x - coord::truncated(self.width as int, 2) + coord::truncated(side, 2);
        let cy = self.center_y as int;
        let thick = vstd::math::max(coord::truncated(self.font_size as int, 12), coord::PX as int);
        let diag = figure::DIAGONAL as int;
        (
            figure::turned_rect_figure(
                cx - coord::truncated(side * 14, 100),
                cy + coord::truncated(side * 14, 100),
                coord::truncated(side * 32, 100),
                thick,
                diag,
                diag,
                theme::TEXTBOX_TEXT,
            ),
            figure::turned_rect_figure(
                cx + coord::truncated(side * 6, 100),
                cy - coord::truncated(side * 2, 100),
                coord::truncated(side * 50, 100),
                thick,
                -diag,
                diag,
                theme::TEXTBOX_TEXT,
            ),
        )
    }

    /// Draws the tick.
    fn draw_tick(&self, canvas: &mut Canvas, clip: Option<Clip>)
        requires
            self.wf(),
            old(canvas).fits(),
        ensures
            ({
                let w = old(canvas).width;
                let h = old(canvas).height;
                let c = Clip::resolved(clip, w, h);
                let (a, b) = self.tick();
                &&& final(canvas).pixels@ == b.over(
                    a.over(old(canvas).pixels@, w, h, theme::TEXTBOX_TEXT, c),
                    w,
                    h,
                    theme::TEXTBOX_TEXT,
                    c,
                )
                &&& final(canvas).damage.rect() == b.damage(
                    a.damage(old(canvas).damage.rect(), w, h, c),
                    w,
                    h,
                    c,
                )
            }),
            final(canvas).pixels@.len() == old(canvas).pixels@.len(),
            final(canvas).width == old(canvas).width,
            final(canvas).height == old(canvas).height,
            final(final(canvas).pixels)@ == final(old(canvas).pixels)@,
            *final(final(canvas).damage) == *final(old(canvas).damage),
    {
        let side: Coord = self.box_side();
        let cx: Coord = self.center_x - coord::half(self.width) + coord::half(side);
        let cy: Coord = self.center_y;
        let thin: Coord = coord::truncate(self.font_size as i128, 12) as i64;
        let thick: Coord = if thin >= 0x1_0000 {
            thin
        } else {
            0x1_0000
        };
        figure::draw_rect_rotated(
            canvas,
            cx - hundredths(side, 14),
            cy + hundredths(side, 14),
            hundredths(side, 32),
            thick,
            figure::DIAGONAL,
            figure::DIAGONAL,
            theme::TEXTBOX_TEXT,
            clip,
        );
        figure::draw_rect_rotated(
            canvas,
            cx + hundredths(side, 6),
            cy - hundredths(side, 2),
            hundredths(side, 50),
            thick,
            -figure::DIAGONAL,
            figure::DIAGONAL,
            theme::TEXTBOX_TEXT,
            clip,
        );
    }

    /// The canvas after the box was painted: the tick where it is on, then the fill and the edge.
    pub open spec fn box_painted(
        &self,
        pixels: Seq<u32>,
        w: usize,
        h: usize,
        art: &CheckArt,
        c: Clip,
    ) -> Seq<u32> {
        let wi = w as int;
        let hi = h as int;
        let whole = Clip::whole(w, h);
        let p1 = if self.checked {
            self.tick().1.over(
                self.tick().0.over(pixels, w, h, theme::TEXTBOX_TEXT, c),
                w,
                h,
                theme::TEXTBOX_TEXT,
                c,
            )
        } else {
            pixels
        };
        let p2 = if self.frame().hollow() {
            art.fill.over(p1, wi, hi, self.box_fill(), whole)
        } else {
            p1
        };
        let p3 = art.light.over(p2, wi, hi, theme::TEXTBOX_SHADOW_EDGE, whole);
        art.shade.over(p3, wi, hi, theme::TEXTBOX_LIGHT_EDGE, whole)
    }

    /// The canvas after the checkbox was painted: the box and the label.
    pub open spec fn painted(
        &self,
        pixels: Seq<u32>,
        w: usize,
        h: usize,
        art: &CheckArt,
        c: Clip,
    ) -> Seq<u32> {
        if self.label@.len() > 0 {
            text::with_glyphs(
                self.box_painted(pixels, w, h, art, c),
                w as int,
                art.glyphs@,
                theme::TEXTBOX_TEXT,
                c,
                None,
                art.glyphs@.len() as int,
            )
        } else {
            self.box_painted(pixels, w, h, art, c)
        }
    }

    /// The damage after the shapes of the checkbox were drawn.
    pub open spec fn painted_damage(
        &self,
        d: Option<PixelRect>,
        w: usize,
        h: usize,
        art: &CheckArt,
        c: Clip,
    ) -> Option<PixelRect> {
        let wi = w as int;
        let hi = h as int;
        let whole = Clip::whole(w, h);
        let d1 = if self.checked {
            self.tick().1.damage(self.tick().0.damage(d, w, h, c), w, h, c)
        } else {
            d
        };
        let d2 = if self.frame().hollow() {
            shape::shape_damage(d1, wi, hi, art.fill.shape, whole)
        } else {
            d1
        };
        let d3 = shape::shape_damage(d2, wi, hi, art.light.shape, whole);
        shape::shape_damage(d3, wi, hi, art.shade.shape, whole)
    }

    /// Paints the box.
    fn draw_box(&self, canvas: &mut Canvas, art: &CheckArt, clip: Option<Clip>)
        requires
            self.wf(),
            old(canvas).fits(),
            art.wf(self.frame()),
        ensures
            ({
                let w = old(canvas).width;
                let h = old(canvas).height;
                let c = Clip::resolved(clip, w, h);
                &&& final(canvas).pixels@ == self.box_painted(old(canvas).pixels@, w, h, art, c)
                &&& final(canvas).damage.rect() == self.painted_damage(
                    old(canvas).damage.rect(),
                    w,
                    h,
                    art,
                    c,
                )
            }),
            final(canvas).pixels@.len() == old(canvas).pixels@.len(),
            final(canvas).width == old(canvas).width,
            final(canvas).height == old(canvas).height,
            final(final(canvas).pixels)@ == final(old(canvas).pixels)@,
            *final(final(canvas).damage) == *final(old(canvas).damage),
    {
        let frame = self.box_frame();
        if self.checked {
            self.draw_tick(canvas, clip);
        }
        let fill: u32 = if self.checked {
            theme::BUTTON_FILL
        } else {
            match self.empty_fill {
                Some(f) => f,
                None => theme::TEXTBOX_FILL,
            }
        };
        if frame.side - 2 * frame.stroke > 0 {
            art.fill.draw(canvas, fill, None);
        }
        art.light.draw(canvas, theme::TEXTBOX_SHADOW_EDGE, None);
        art.shade.draw(canvas, theme::TEXTBOX_LIGHT_EDGE, None);
    }

    /// Stamps the identifier on the hit map.
    fn stamp_hits(&self, hits: &mut [HitId], w: usize, h: usize)
        requires
            self.wf(),
            w * h <= old(hits)@.len(),
        ensures
            final(hits)@ == face::with_band(
                old(hits)@,
                w as int,
                h as int,
                self.hit_rect(),
                self.hit_id,
            ),
    {
        let hw: Coord = coord::half(self.width);
        let hh: Coord = coord::half(self.height);
        let rect = PixelRect::new(
            region::pixel_at(self.center_x - hw),
            region::pixel_at(self.center_y - hh),
            region::pixel_at(self.center_x + hw),
            region::pixel_at(self.center_y + hh),
        );
        face::stamp_band(hits, w, h, rect, self.hit_id);
    }

    /// The pixels on which a click hits the checkbox: box and label.
    pub open spec fn hit_rect(&self) -> PixelRect {
        let hw = coord::truncated(self.width as int, 2);
        let hh = coord::truncated(self.height as int, 2);
        PixelRect {
            x0: region::px_at(self.center_x - hw) as usize,
            y0: region::px_at(self.center_y - hh) as usize,
            x1: region::px_at(self.center_x + hw) as usize,
            y1: region::px_at(self.center_y + hh) as usize,
        }
    }

    /// Paints the checkbox and stamps its identifier on the hit map over the whole row, label
    /// included.
    pub fn render_content_into(
        &self,
        canvas: &mut Canvas,
        art: &CheckArt,
        clip: Option<Clip>,
        hit_map: Option<&mut [HitId]>,
    )
        requires
            self.wf(),
            old(canvas).fits(),
            art.wf(self.frame()),
            Clip::resolved(clip, old(canvas).width, old(canvas).height).within(
                old(canvas).width,
                old(canvas).height,
            ),
            match hit_map {
                Some(m) => old(canvas).width * old(canvas).height <= m@.len(),
                None => true,
            },
        ensures
            ({
                let w = old(canvas).width;
                let h = old(canvas).height;
                let c = Clip::resolved(clip, w, h);
                &&& final(canvas).pixels@ == self.painted(old(canvas).pixels@, w, h, art, c)
                &&& final(canvas).damage.rect() == self.painted_damage(
                    old(canvas).damage.rect(),
                    w,
                    h,
                    art,
                    c,
                )
                &&& match hit_map {
                    Some(m) => final(m)@ == face::with_band(
                        m@,
                        w as int,
                        h as int,
                        self.hit_rect(),
                        self.hit_id,
                    ),
                    None => true,
                }
            }),
            final(canvas).width == old(canvas).width,
            final(canvas).height == old(canvas).height,
            final(final(canvas).pixels)@ == final(old(canvas).pixels)@,
            *final(final(canvas).damage) == *final(old(canvas).damage),
    {
        self.draw_box(canvas, art, clip);
        let w: usize = canvas.width;
        let h: usize = canvas.height;
        if !self.label.as_str().is_empty() {
            text::draw_glyphs(
                canvas.pixels,
                w,
                h,
                art.glyphs,
                theme::TEXTBOX_TEXT,
                clip,
                None,
            );
        }
        match hit_map {
            Some(m) => {
                self.stamp_hits(m, w, h);
            },
            None => {},
        }
    }

    /// A click flips the box.
    pub fn on_click(&mut self) -> (r: EventResponse)
        ensures
            r == EventResponse::Handled,
            *final(self) == old(self).flipped(),
    {
        self.toggle();
        EventResponse::Handled
    }

    /// Enter and Space flip the box.
    pub fn on_key(&mut self, kev: &KeyEvent) -> (r: EventResponse)
        ensures
            event::activates(kev) ==> r == EventResponse::Handled && *final(self) == old(
                self,
            ).flipped(),
            !event::activates(kev) ==> r == EventResponse::Pass && *final(self) == *old(self),
    {
        if event::is_activation(kev) {
            self.toggle();
            EventResponse::Handled
        } else {
            EventResponse::Pass
        }
    }

    /// The pixels of the checkbox, for the order in which focus moves.
    pub fn focus_bbox(&self) -> (p: PixelRect)
        requires
            self.wf(),
        ensures
            p == face::whole_px_rect(self.rect()),
    {
        face::focus_rect(self.bbox())
    }

    /// The tint over the widget in its state.
    pub open spec fn tint(&self) -> u32 {
        if self.hovered {
            colour::sub_rgb(theme::BUTTON_HOVER, theme::BUTTON_FILL)
        } else {
            0
        }
    }

    /// The tint over the fill while the checkbox is hovered.
    pub fn tint_delta(&self) -> (d: u32)
        ensures
            d == self.tint(),
    {
        if self.hovered {
            colour::wrap_sub_rgb(theme::BUTTON_HOVER, theme::BUTTON_FILL)
        } else {
            0
        }
    }
}

/// `n` hundredths of a length.
fn hundredths(v: Coord, n: u8) -> (r: Coord)
    requires
        -0x1000_0000_0000 <= v <= 0x1000_0000_0000,
        n <= 100,
    ensures
        r as int == coord::truncated(v * n, 100),
        -0x1000_0000_0000 <= r <= 0x1000_0000_0000,
        v >= 0 ==> r >= 0,
{
    proof {
        assert(-0x1000_0000_0000 * 100 <= v * n <= 0x1000_0000_0000 * 100) by (nonlinear_arith)
            requires
                -0x1000_0000_0000 <= v <= 0x1000_0000_0000,
                0 <= n <= 100,
        ;
        assert(v >= 0 ==> v * n >= 0) by (nonlinear_arith)
            requires
                0 <= n,
        ;
    }
    coord::truncate(v as i128 * n as i128, 100) as i64
}

/// Two flips bring the state of the box back.
pub proof fn law_two_flips_are_neutral(c: Checkbox)
    ensures
        c.flipped().flipped().checked == c.checked,
        c.flipped().checked != c.checked,
{
}

/// The box of a checkbox that is on shows its fill at rest and the hover colour while it is hovered,
/// once its tint lies over the fill.
pub proof fn law_tint_shows_the_state(c: Checkbox)
    ensures
        ({
            let shown = overlay::tinted(theme::BUTTON_FILL, c.tint());
            &&& c.hovered ==> pixel::red(shown) == 255 - pixel::red(theme::BUTTON_HOVER) && pixel::green(
                shown,
            ) == 255 - pixel::green(theme::BUTTON_HOVER) && pixel::blue(shown) == 255 - pixel::blue(
                theme::BUTTON_HOVER,
            )
            &&& !c.hovered ==> pixel::red(shown) == 255 - pixel::red(theme::BUTTON_FILL) && pixel::green(
                shown,
            ) == 255 - pixel::green(theme::BUTTON_FILL) && pixel::blue(shown) == 255 - pixel::blue(
                theme::BUTTON_FILL,
            )
        }),
{
    overlay::law_tint_shows_the_target(theme::BUTTON_FILL, theme::BUTTON_FILL, theme::BUTTON_HOVER);
    overlay::law_untinted_pixel_shows_itself(theme::BUTTON_FILL);
}

/// The lines of a label go down from line to line and are centred on the checkbox: the first lies as
/// far above its middle as the last lies below it. All start at one column, right of the box.
pub proof fn law_label_lines_are_centred(c: Checkbox, i: int, n: int)
    requires
        c.wf(),
        0 <= i < n,
    ensures
        -1 <= c.label_place(i, n).1 + c.label_place(n - 1 - i, n).1 - 2 * c.center_y <= 1,
        n == 1 ==> c.label_place(i, n).1 == c.center_y,
        c.font_size > 0 && i + 1 < n ==> c.label_place(i, n).1 < c.label_place(i + 1, n).1,
        i + 1 < n ==> c.label_place(i + 1, n).1 - c.label_place(i, n).1 == (c.font_size * 5) / 4,
        c.label_place(i, n).0 == c.label_place(0, n).0,
        c.width >= 0 ==> 2 * c.label_place(i, n).0 >= 2 * c.center_x - c.width + 2 * c.side(),
{
    let step = coord::truncated(c.font_size * 5, 4);
    assert(step * i + step * (n - 1 - i) == step * (n - 1)) by (nonlinear_arith);
    assert(step * (i + 1) == step * i + step) by (nonlinear_arith);
    assert(step * 0 == 0);
    assert(step * (n - 1) >= 0) by (nonlinear_arith)
        requires
            step >= 0,
            n >= 1,
    ;
}

/// The box stands at the left end of the checkbox, in the middle of its height: its corner is where the
/// left edge is, and as much of it lies above the middle as below it, give or take dropped fractions of
/// a pixel. It is no higher than the checkbox, unless the font is.
pub proof fn law_box_stands_at_the_left(c: Checkbox)
    requires
        c.wf(),
    ensures
        ({
            let f = c.frame();
            let px = coord::PX;
            &&& -2 * px <= 2 * (f.x * px) - (2 * c.center_x - c.width) <= 2 * px + 1
            &&& -2 * px <= 2 * (f.y * px) + c.side() - 2 * c.center_y <= 2 * px + 1
            &&& -px < f.side * px - c.side() <= 0
            &&& c.side() <= c.height || c.side() <= c.font_size
            &&& 10 * c.side() <= 13 * c.font_size
            &&& c.height >= 2 * c.font_size ==> 10 * c.side() > 13 * c.font_size - 10
        }),
{
    coord::lemma_truncated(
        c.center_x - coord::truncated(c.width as int, 2),
        coord::PX as int,
    );
    coord::lemma_truncated(c.center_y - coord::truncated(c.side(), 2), coord::PX as int);
    coord::lemma_truncated(c.side(), coord::PX as int);
    coord::lemma_truncated(c.width as int, 2);
}

/// A box that is off is painted without a tick and in the colour of an empty field, or in the one that
/// was set for it; a box that is on has the colour of a button, and a tick first of all, which nothing
/// painted later covers. Turning it on changes nothing but that.
pub proof fn law_tick_tells_the_state(c: Checkbox, on: Checkbox)
    requires
        !c.checked,
        on == (Checkbox { checked: true, ..c }),
    ensures
        on.box_fill() == theme::BUTTON_FILL,
        c.empty_fill is None ==> c.box_fill() == theme::TEXTBOX_FILL,
        c.empty_fill is Some ==> c.box_fill() == c.empty_fill->0,
        c.frame() == on.frame(),
        c.hit_rect() == on.hit_rect(),
        forall|pixels: Seq<u32>, w: usize, h: usize, art: CheckArt, k: Clip|
            !c.frame().hollow() ==> #[trigger] on.box_painted(pixels, w, h, &art, k)
                == c.box_painted(
                on.tick().1.over(
                    on.tick().0.over(pixels, w, h, theme::TEXTBOX_TEXT, k),
                    w,
                    h,
                    theme::TEXTBOX_TEXT,
                    k,
                ),
                w,
                h,
                &art,
                k,
            ),
{
}

/// A click flips the box and is reported once.
pub proof fn law_flip_is_reported(c: Checkbox)
    requires
        !c.toggled(),
    ensures
        c.flipped().toggled(),
        c.flipped().checked != c.checked,
        c.flipped().hit_id == c.hit_id && c.flipped().label == c.label,
{
}

/// The tick has a short stroke that goes down to the right and a long one that goes up to the right:
/// each is covered on its diagonal through its middle, half a pixel inside its ends. The short one lies
/// left of and below the middle of the box, the long one right of and above it.
pub proof fn law_tick_has_a_short_and_a_long_stroke(c: Checkbox, x: int, y: int)
    requires
        c.side() >= 0,
    ensures
        ({
            let side = c.side();
            let cx = c.center_x - coord::truncated(c.width as int, 2) + coord::truncated(side, 2);
            let cy = c.center_y as int;
            let dx = figure::middle(x) - (cx - coord::truncated(side * 14, 100));
            let dy = figure::middle(y) - (cy + coord::truncated(side * 14, 100));
            let ex = figure::middle(x) - (cx + coord::truncated(side * 6, 100));
            let ey = figure::middle(y) - (cy - coord::truncated(side * 2, 100));
            let short = coord::truncated(coord::truncated(side * 32, 100), 2);
            let long = coord::truncated(coord::truncated(side * 50, 100), 2);
            let reach_d = coord::truncated(2 * (dx * figure::DIAGONAL), coord::RU_ONE as int);
            let reach_e = coord::truncated(2 * (ex * figure::DIAGONAL), coord::RU_ONE as int);
            &&& short <= long
            &&& dx == dy && figure::HALF - short <= reach_d <= short - figure::HALF ==> (
            c.tick().0.alpha)(x, y) == pixel::alpha(theme::TEXTBOX_TEXT)
            &&& ex == -ey && figure::HALF - long <= reach_e <= long - figure::HALF ==> (
            c.tick().1.alpha)(x, y) == pixel::alpha(theme::TEXTBOX_TEXT)
        }),
{
    let side = c.side();
    let cx = c.center_x - coord::truncated(c.width as int, 2) + coord::truncated(side, 2);
    let cy = c.center_y as int;
    let thick = vstd::math::max(coord::truncated(c.font_size as int, 12), coord::PX as int);
    let diag = figure::DIAGONAL as int;
    let short = coord::truncated(side * 32, 100);
    let long = coord::truncated(side * 50, 100);
    let (ax, ay) = (cx - coord::truncated(side * 14, 100), cy + coord::truncated(side * 14, 100));
    let (bx, by) = (cx + coord::truncated(side * 6, 100), cy - coord::truncated(side * 2, 100));
    let dx = figure::middle(x) - ax;
    let dy = figure::middle(y) - ay;
    let ex = figure::middle(x) - bx;
    let ey = figure::middle(y) - by;
    coord::lemma_truncated_order(short, long, 2);
    coord::lemma_truncated(thick, 2);
    let hh = coord::truncated(thick, 2);
    assert(hh >= figure::HALF);
    if dx == dy {
        assert(dx * diag + dy * diag == 2 * (dx * diag));
        assert(dy * diag - dx * diag == 0);
        figure::law_turned_rect_covers_its_inside(
            x,
            y,
            ax,
            ay,
            coord::truncated(short, 2),
            hh,
            diag,
            diag,
            theme::TEXTBOX_TEXT,
        );
    }
    if ex == -ey {
        assert(ex * diag + ey * -diag == 2 * (ex * diag) && ey * diag - ex * -diag == 0)
            by (nonlinear_arith)
            requires
                ex == -ey,
        ;
        figure::law_turned_rect_covers_its_inside(
            x,
            y,
            bx,
            by,
            coord::truncated(long, 2),
            hh,
            -diag,
            diag,
            theme::TEXTBOX_TEXT,
        );
    }
}

/// The label takes what the box and a gap of 4/5 of the font size leave of the width, and never less
/// than the font size.
pub proof fn law_label_takes_the_rest_of_the_width(c: Checkbox)
    requires
        c.font_size >= 0,
    ensures
        c.label_width() >= c.font_size,
        c.label_width() > c.font_size ==> ({
            let gap = c.width - c.side() - c.label_width();
            5 * gap <= 4 * c.font_size < 5 * gap + 5
        }),
{
    coord::lemma_truncated(c.font_size * 4, 5);
}

} // verus!
