//! A horizontal slider. Its value runs from 0 to 1, from left to right, and the application polls for
//! changes.
use crate::canvas::{self, Canvas, PixelRect};
use crate::coord::{self, Coord, Ratio, PX, RU_ONE};
use crate::event::{EventResponse, Key, KeyEvent, NamedKey};
use crate::paint::clip::{self, Clip, HitId};
use crate::paint::rect;
use crate::pixel::{self, BlendMode};
use crate::region::{self, Region};
use crate::widgets::face;
use crate::widgets::ident;
use vstd::prelude::*;

verus! {

/// The bar left of the handle: white.
pub const LEFT_FILL: u32 = 0xFF00_0000;

/// The bar right of the handle: black.
pub const RIGHT_FILL: u32 = 0xFFFF_FFFF;

/// The bar left of the handle of a disabled slider.
pub const LEFT_DISABLED: u32 = 0xFFA5_A5A5;

/// The bar right of the handle of a disabled slider.
pub const RIGHT_DISABLED: u32 = 0xFFC3_C3C3;

/// The handle: white.
pub const HANDLE_FILL: u32 = 0xFF00_0000;

/// The handle of a disabled slider.
pub const HANDLE_DISABLED: u32 = 0xFFA5_A5A5;

/// How far an arrow key moves the value.
pub const STEP: Ratio = 0x400_0000;

pub struct Slider {
    pub hit_id: HitId,
    pub center_x: Coord,
    pub center_y: Coord,
    /// The width of the grab band, which the track spans.
    pub width: Coord,
    /// The height of the grab band.
    pub height: Coord,
    pub value: Ratio,
    pub focused: bool,
    pub hovered: bool,
    pub enabled: bool,
    /// Changes of the value since construction, wrapping.
    pub change_counter: u32,
    /// The count at the last poll.
    pub last_seen_change_counter: u32,
    pub last_painted_bbox: Option<PixelRect>,
    pub last_painted_value: Ratio,
    pub last_painted_enabled: bool,
    pub last_painted_focused: bool,
}

/// `v` limited to the values of a slider.
pub open spec fn limited(v: int) -> int {
    clip::clamp_int(v, 0, RU_ONE as int)
}

/// `v` limited to the values of a slider.
fn limit(v: i128) -> (r: Ratio)
    ensures
        r as int == limited(v as int),
{
    if v < 0 {
        0
    } else if v > 0x1_0000_0000 {
        0x1_0000_0000
    } else {
        v as i64
    }
}

/// What a slider paints, in pixels: the band, the track, and the handle.
pub struct SliderShape {
    pub x: isize,
    pub y: isize,
    pub w: isize,
    pub h: isize,
    pub track_y: isize,
    pub track_h: isize,
    pub handle_x: isize,
    pub handle_y: isize,
    pub radius: isize,
}

impl Slider {
    /// The geometry is one that a widget can have, and the value lies between 0 and 1.
    pub open spec fn wf(&self) -> bool {
        &&& self.place_ok()
        &&& 0 <= self.value <= RU_ONE
    }

    pub open spec fn place_ok(&self) -> bool {
        face::place_ok(
            self.center_x as int,
            self.center_y as int,
            self.width as int,
            self.height as int,
            0,
        )
    }

    /// The value changed since the last poll.
    pub open spec fn changed(&self) -> bool {
        self.change_counter != self.last_seen_change_counter
    }

    /// The slider after its value was set: a value other than before counts as a change.
    pub open spec fn moved_to(self, v: int) -> Slider {
        if limited(v) == self.value {
            self
        } else {
            Slider {
                value: limited(v) as Ratio,
                change_counter: self.change_counter.wrapping_add(1),
                ..self
            }
        }
    }

    /// The value at which the handle stands at `x`.
    pub open spec fn value_at(&self, x: int) -> int {
        coord::truncated(
            (x - (self.center_x - coord::truncated(self.width as int, 2))) * RU_ONE,
            vstd::math::max(self.width as int, 1),
        )
    }

    /// The rectangle of the slider.
    pub open spec fn rect(&self) -> Region {
        face::centred(
            self.center_x as int,
            self.center_y as int,
            self.width as int,
            self.height as int,
        )
    }

    /// A new slider, with the next hit identifier.
    pub fn new(
        hit_counter: &mut HitId,
        center_x: Coord,
        center_y: Coord,
        width: Coord,
        height: Coord,
        value: Ratio,
    ) -> (s: Slider)
        requires
            *old(hit_counter) < HitId::MAX,
        ensures
            *final(hit_counter) == *old(hit_counter) + 1,
            s == (Slider {
                hit_id: *final(hit_counter),
                center_x,
                center_y,
                width,
                height,
                value: limited(value as int) as Ratio,
                focused: false,
                hovered: false,
                enabled: true,
                change_counter: 0,
                last_seen_change_counter: 0,
                last_painted_bbox: None,
                last_painted_value: (-1) as Ratio,
                last_painted_enabled: true,
                last_painted_focused: false,
            }),
            s.place_ok() ==> s.wf(),
            !s.changed(),
    {
        Slider {
            hit_id: ident::next_id(hit_counter),
            center_x,
            center_y,
            width,
            height,
            value: limit(value as i128),
            focused: false,
            hovered: false,
            enabled: true,
            change_counter: 0,
            last_seen_change_counter: 0,
            last_painted_bbox: None,
            last_painted_value: -1,
            last_painted_enabled: true,
            last_painted_focused: false,
        }
    }

    pub fn hit_id(&self) -> (id: HitId)
        ensures
            id == self.hit_id,
    {
        self.hit_id
    }

    pub fn value(&self) -> (v: Ratio)
        ensures
            v == self.value,
    {
        self.value
    }

    pub fn is_focused(&self) -> (b: bool)
        ensures
            b == self.focused,
    {
        self.focused
    }

    pub fn is_enabled(&self) -> (b: bool)
        ensures
            b == self.enabled,
    {
        self.enabled
    }

    /// Sets the value, limited to 0 and 1.
    pub fn set_value(&mut self, value: Ratio)
        ensures
            *final(self) == old(self).moved_to(value as int),
    {
        self.put_value(value as i128);
    }

    /// Sets the value, limited to 0 and 1.
    fn put_value(&mut self, value: i128)
        ensures
            *final(self) == old(self).moved_to(value as int),
    {
        let v: Ratio = limit(value);
        if v != self.value {
            self.value = v;
            self.change_counter = self.change_counter.wrapping_add(1);
        }
    }

    /// Moves the handle to `x`, if the slider is enabled.
    pub fn set_value_from_x(&mut self, x: Coord)
        requires
            old(self).place_ok(),
            coord::in_range(x as int),
        ensures
            *final(self) == (if old(self).enabled {
                old(self).moved_to(old(self).value_at(x as int))
            } else {
                *old(self)
            }),
    {
        if !self.enabled {
            return;
        }
        let left: Coord = self.center_x - coord::half(self.width);
        let span: i128 = if self.width >= 1 {
            self.width as i128
        } else {
            1
        };
        let v: i128 = coord::truncate((x - left) as i128 * 0x1_0000_0000, span);
        self.put_value(v);
    }

    /// Whether the value changed since the last poll. Changes between two polls count as one.
    pub fn take_change(&mut self) -> (fired: bool)
        ensures
            fired == old(self).changed(),
            !final(self).changed(),
            *final(self) == (Slider {
                last_seen_change_counter: old(self).change_counter,
                ..*old(self)
            }),
    {
        if self.change_counter != self.last_seen_change_counter {
            self.last_seen_change_counter = self.change_counter;
            true
        } else {
            false
        }
    }

    pub fn set_focused(&mut self, focused: bool)
        ensures
            *final(self) == (Slider { focused, ..*old(self) }),
    {
        self.focused = focused;
    }

    /// Marks the slider as hovered or not; a disabled one does not change.
    pub fn set_hovered(&mut self, hovered: bool)
        ensures
            *final(self) == (if old(self).enabled {
                Slider { hovered, ..*old(self) }
            } else {
                *old(self)
            }),
    {
        if !self.enabled {
            return;
        }
        self.hovered = hovered;
    }

    /// Enables or disables the slider. A disabled one is neither focused nor hovered.
    pub fn set_enabled(&mut self, enabled: bool)
        ensures
            *final(self) == (if enabled || !old(self).enabled {
                Slider { enabled, ..*old(self) }
            } else {
                Slider { enabled, focused: false, hovered: false, ..*old(self) }
            }),
    {
        if enabled == self.enabled {
            return;
        }
        self.enabled = enabled;
        if !enabled {
            self.focused = false;
            self.hovered = false;
        }
    }

    pub fn set_rect(&mut self, center_x: Coord, center_y: Coord, width: Coord, height: Coord)
        ensures
            *final(self) == (Slider { center_x, center_y, width, height, ..*old(self) }),
    {
        self.center_x = center_x;
        self.center_y = center_y;
        self.width = width;
        self.height = height;
    }

    pub fn bbox(&self) -> (r: Region)
        requires
            self.place_ok(),
        ensures
            r == self.rect(),
            face::edges_ok(r),
    {
        face::centred_region(self.center_x, self.center_y, self.width, self.height)
    }

    /// Something visible changed since the last paint, or there was none.
    pub open spec fn needs_paint(&self) -> bool {
        ||| self.value != self.last_painted_value
        ||| self.enabled != self.last_painted_enabled
        ||| self.focused != self.last_painted_focused
        ||| self.last_painted_bbox is None
    }

    /// The pixels to paint anew, `None` where nothing changed since the last paint.
    pub fn damage_rect(&self, viewport_w: usize, viewport_h: usize) -> (d: Option<PixelRect>)
        requires
            self.place_ok(),
        ensures
            d is Some <==> self.needs_paint(),
            self.needs_paint() ==> d == Some(
                ({
                    let current = face::region_px(self.rect(), viewport_w, viewport_h);
                    match self.last_painted_bbox {
                        Some(prev) => prev.hull(current),
                        None => current,
                    }
                }),
            ),
    {
        let dirty = self.value != self.last_painted_value || self.enabled
            != self.last_painted_enabled || self.focused != self.last_painted_focused;
        if !dirty && self.last_painted_bbox.is_some() {
            return None;
        }
        let current = face::region_to_pixelrect(self.bbox(), viewport_w, viewport_h);
        match self.last_painted_bbox {
            Some(prev) => Some(prev.union(current)),
            None => Some(current),
        }
    }

    /// The width of the grab band in pixels.
    pub open spec fn cols(&self) -> int {
        coord::truncated(self.width as int, PX as int)
    }

    /// The height of the grab band in pixels.
    pub open spec fn rows(&self) -> int {
        coord::truncated(self.height as int, PX as int)
    }

    /// The left edge of the band in pixels.
    pub open spec fn band_x(&self) -> int {
        face::target_px(self.center_x as int, self.width as int, 0)
    }

    /// The top edge of the band in pixels.
    pub open spec fn band_y(&self) -> int {
        face::target_px(self.center_y as int, self.height as int, 0)
    }

    /// The height of the track: a quarter of the band, at least 2 pixels.
    pub open spec fn track_h(&self) -> int {
        vstd::math::max(self.rows() / 4, 2)
    }

    /// The top of the track, which is centred in the band.
    pub open spec fn track_y(&self) -> int {
        self.band_y() + coord::truncated(self.rows() - self.track_h(), 2)
    }

    /// The column of the handle.
    pub open spec fn handle_x(&self) -> int {
        self.band_x() + coord::truncated(
            region::part_of(self.width as int, self.value as int),
            PX as int,
        )
    }

    /// The radius of the handle.
    pub open spec fn radius(&self) -> int {
        vstd::math::max(self.rows() / 2 - 1, 2)
    }

    /// The colours of the bar left of the handle, the bar right of it, and the handle.
    pub open spec fn fills(&self) -> (u32, u32, u32) {
        if self.enabled {
            (LEFT_FILL, RIGHT_FILL, HANDLE_FILL)
        } else {
            (LEFT_DISABLED, RIGHT_DISABLED, HANDLE_DISABLED)
        }
    }

    /// The canvas after the slider was painted: the handle, then the bars on both sides of it.
    pub open spec fn painted(&self, pixels: Seq<u32>, w: usize, h: usize) -> Seq<u32> {
        let c = Clip::whole(w, h);
        let (left, right, handle) = self.fills();
        let p1 = rect::with_circle(
            pixels,
            w as int,
            self.handle_x(),
            self.band_y() + self.rows() / 2,
            self.radius(),
            handle,
            c,
            None,
        );
        let p2 = rect::with_fill(
            p1,
            w as int,
            self.band_x(),
            self.track_y(),
            self.handle_x() - self.band_x(),
            self.track_h(),
            left,
            c,
            None,
        );
        rect::with_fill(
            p2,
            w as int,
            self.handle_x(),
            self.track_y(),
            self.band_x() + self.cols() - self.handle_x(),
            self.track_h(),
            right,
            c,
            None,
        )
    }

    /// The damage after the slider was painted.
    pub open spec fn painted_damage(
        &self,
        d: Option<PixelRect>,
        w: usize,
        h: usize,
    ) -> Option<PixelRect> {
        let c = Clip::whole(w, h);
        let r = self.radius();
        let cy = self.band_y() + self.rows() / 2;
        let d1 = canvas::joined(
            d,
            clip::clipped_rect(c, self.handle_x() - r, cy - r, 2 * r + 1, 2 * r + 1),
        );
        let d2 = canvas::joined(
            d1,
            clip::clipped_rect(
                c,
                self.band_x(),
                self.track_y(),
                rect::hairline(self.handle_x() - self.band_x()),
                rect::hairline(self.track_h()),
            ),
        );
        canvas::joined(
            d2,
            clip::clipped_rect(
                c,
                self.handle_x(),
                self.track_y(),
                rect::hairline(self.band_x() + self.cols() - self.handle_x()),
                rect::hairline(self.track_h()),
            ),
        )
    }

    /// The pixels of the grab band.
    pub open spec fn band(&self) -> PixelRect {
        PixelRect {
            x0: vstd::math::max(self.band_x(), 0) as usize,
            y0: vstd::math::max(self.band_y(), 0) as usize,
            x1: vstd::math::max(self.band_x() + self.cols(), 0) as usize,
            y1: vstd::math::max(self.band_y() + self.rows(), 0) as usize,
        }
    }

    /// The band has a pixel.
    pub open spec fn shows(&self) -> bool {
        self.cols() > 0 && self.rows() > 0
    }

    /// The geometry in pixels.
    fn shape(&self) -> (s: SliderShape)
        requires
            self.wf(),
            self.shows(),
        ensures
            s.x == self.band_x(),
            s.y == self.band_y(),
            s.w == self.cols(),
            s.h == self.rows(),
            s.track_y == self.track_y(),
            s.track_h == self.track_h(),
            s.handle_x == self.handle_x(),
            s.handle_y == self.band_y() + self.rows() / 2,
            s.radius == self.radius(),
            -0x3000_0000 <= s.x <= 0x3000_0000,
            -0x3000_0000 <= s.y <= 0x3000_0000,
            0 < s.w <= 0x1000_0000,
            0 < s.h <= 0x1000_0000,
            2 <= s.track_h <= 0x1000_0000,
            -0x4000_0000 <= s.track_y <= 0x4000_0000,
            s.x <= s.handle_x <= s.x + s.w,
            2 <= s.radius <= 0x1000_0000,
    {
        let x: isize = face::target_of(self.center_x, self.width, 0);
        let y: isize = face::target_of(self.center_y, self.height, 0);
        let w: isize = coord::whole_px(self.width);
        let h: isize = coord::whole_px(self.height);
        let quarter: isize = (h as usize / 4) as isize;
        let track_h: isize = if quarter >= 2 {
            quarter
        } else {
            2
        };
        let half_h: isize = (h as usize / 2) as isize;
        let radius: isize = if half_h - 1 >= 2 {
            half_h - 1
        } else {
            2
        };
        let gap: isize = coord::truncate((h - track_h) as i128, 2) as isize;
        proof {
            let p = self.width * self.value;
            assert(0 <= p <= self.width * 0x1_0000_0000) by (nonlinear_arith)
                requires
                    p == self.width * self.value,
                    0 <= self.value <= 0x1_0000_0000,
                    0 <= self.width,
            ;
            assert(0 <= p / 0x1_0000_0000 <= self.width);
            assert(0 <= (p / 0x1_0000_0000) / 0x1_0000 <= self.width as int / 0x1_0000);
        }
        let along: i128 = coord::truncate(self.width as i128 * self.value as i128, 0x1_0000_0000);
        let handle_x: isize = x + coord::truncate(along, 0x1_0000) as isize;
        SliderShape {
            x,
            y,
            w,
            h,
            track_y: y + gap,
            track_h,
            handle_x,
            handle_y: y + half_h,
            radius,
        }
    }

    /// Paints the handle and the bars on both sides of it.
    fn paint_parts(&self, canvas: &mut Canvas, s: &SliderShape)
        requires
            self.wf(),
            self.shows(),
            2 * self.radius() * self.radius() <= isize::MAX,
            old(canvas).fits(),
            s.x == self.band_x(),
            s.w == self.cols(),
            s.track_y == self.track_y(),
            s.track_h == self.track_h(),
            s.handle_x == self.handle_x(),
            s.handle_y == self.band_y() + self.rows() / 2,
            s.radius == self.radius(),
            -0x3000_0000 <= s.x <= 0x3000_0000,
            -0x3000_0000 <= s.y <= 0x3000_0000,
            s.y == self.band_y(),
            s.h == self.rows(),
            0 < s.w <= 0x1000_0000,
            0 < s.h <= 0x1000_0000,
            2 <= s.track_h <= 0x1000_0000,
            -0x4000_0000 <= s.track_y <= 0x4000_0000,
            s.x <= s.handle_x <= s.x + s.w,
            2 <= s.radius <= 0x1000_0000,
        ensures
            final(canvas).pixels@ == self.painted(
                old(canvas).pixels@,
                old(canvas).width,
                old(canvas).height,
            ),
            final(canvas).damage.rect() == self.painted_damage(
                old(canvas).damage.rect(),
                old(canvas).width,
                old(canvas).height,
            ),
            final(canvas).width == old(canvas).width,
            final(canvas).height == old(canvas).height,
            final(final(canvas).pixels)@ == final(old(canvas).pixels)@,
            *final(final(canvas).damage) == *final(old(canvas).damage),
    {
        let (left, right, handle): (u32, u32, u32) = if self.enabled {
            (LEFT_FILL, RIGHT_FILL, HANDLE_FILL)
        } else {
            (LEFT_DISABLED, RIGHT_DISABLED, HANDLE_DISABLED)
        };
        let w: usize = canvas.width;
        let h: usize = canvas.height;
        let ghost c = Clip::whole(w, h);
        let ghost p0 = canvas.pixels@;
        rect::circle_filled(canvas, s.handle_x, s.handle_y, s.radius, handle, None, None);
        let ghost p1 = rect::with_circle(
            p0,
            w as int,
            s.handle_x as int,
            s.handle_y as int,
            s.radius as int,
            handle,
            c,
            None,
        );
        assert(canvas.pixels@ =~= p1);
        rect::fill_rect(
            canvas,
            s.x,
            s.track_y,
            s.handle_x - s.x,
            s.track_h,
            left,
            None,
            None,
        );
        let ghost p2 = rect::with_fill(
            p1,
            w as int,
            s.x as int,
            s.track_y as int,
            s.handle_x - s.x,
            s.track_h as int,
            left,
            c,
            None,
        );
        assert(canvas.pixels@ =~= p2);
        rect::fill_rect(
            canvas,
            s.handle_x,
            s.track_y,
            s.x + s.w - s.handle_x,
            s.track_h,
            right,
            None,
            None,
        );
        assert(canvas.pixels@ =~= rect::with_fill(
            p2,
            w as int,
            s.handle_x as int,
            s.track_y as int,
            s.x + s.w - s.handle_x,
            s.track_h as int,
            right,
            c,
            None,
        ));
    }

    /// Paints the slider and stamps the identifier on the hit map over the whole band. A slider without
    /// a pixel paints nothing.
    pub fn render_content_into(
        &mut self,
        canvas: &mut Canvas,
        hit_map: Option<&mut [HitId]>,
        hit_id: HitId,
    )
        requires
            old(self).wf(),
            old(canvas).fits(),
            old(self).shows() ==> 2 * old(self).radius() * old(self).radius() <= isize::MAX,
            match hit_map {
                Some(m) => old(canvas).width * old(canvas).height <= m@.len(),
                None => true,
            },
        ensures
            final(self).wf(),
            !old(self).shows() ==> {
                &&& *final(self) == *old(self)
                &&& final(canvas).pixels@ == old(canvas).pixels@
                &&& final(canvas).damage.rect() == old(canvas).damage.rect()
                &&& match hit_map {
                    Some(m) => final(m)@ == m@,
                    None => true,
                }
            },
            old(self).shows() ==> ({
                let w = old(canvas).width;
                let h = old(canvas).height;
                &&& *final(self) == (Slider {
                    last_painted_bbox: Some(face::region_px(old(self).rect(), w, h)),
                    last_painted_value: old(self).value,
                    last_painted_enabled: old(self).enabled,
                    last_painted_focused: old(self).focused,
                    ..*old(self)
                })
                &&& !final(self).needs_paint()
                &&& final(canvas).pixels@ == old(self).painted(old(canvas).pixels@, w, h)
                &&& final(canvas).damage.rect() == old(self).painted_damage(
                    old(canvas).damage.rect(),
                    w,
                    h,
                )
                &&& match hit_map {
                    Some(m) => final(m)@ == face::with_band(
                        m@,
                        w as int,
                        h as int,
                        old(self).band(),
                        hit_id,
                    ),
                    None => true,
                }
            }),
            final(canvas).width == old(canvas).width,
            final(canvas).height == old(canvas).height,
            final(final(canvas).pixels)@ == final(old(canvas).pixels)@,
            *final(final(canvas).damage) == *final(old(canvas).damage),
    {
        if coord::whole_px(self.width) <= 0 || coord::whole_px(self.height) <= 0 {
            return;
        }
        let s = self.shape();
        let w: usize = canvas.width;
        let h: usize = canvas.height;
        self.paint_parts(canvas, &s);
        match hit_map {
            Some(m) => {
                let band = PixelRect::new(
                    not_negative(s.x),
                    not_negative(s.y),
                    not_negative(s.x + s.w),
                    not_negative(s.y + s.h),
                );
                face::stamp_band(m, w, h, band, hit_id);
            },
            None => {},
        }
        let bbox = self.bbox();
        self.last_painted_bbox = Some(face::region_to_pixelrect(bbox, w, h));
        self.last_painted_value = self.value;
        self.last_painted_enabled = self.enabled;
        self.last_painted_focused = self.focused;
    }

    /// A click moves the handle to it.
    pub fn on_click(&mut self, x: Coord) -> (r: EventResponse)
        requires
            old(self).place_ok(),
            coord::in_range(x as int),
        ensures
            r == EventResponse::Handled,
            *final(self) == (if old(self).enabled {
                old(self).moved_to(old(self).value_at(x as int))
            } else {
                *old(self)
            }),
    {
        self.set_value_from_x(x);
        EventResponse::Handled
    }

    /// The value that a key asks for.
    pub open spec fn key_value(&self, kev: &KeyEvent) -> Option<int> {
        if !kev.pressed {
            None
        } else {
            match kev.key {
                Key::Named(NamedKey::ArrowLeft) => Some(self.value - STEP),
                Key::Named(NamedKey::ArrowRight) => Some(self.value + STEP),
                Key::Named(NamedKey::Home) => Some(0),
                Key::Named(NamedKey::End) => Some(RU_ONE as int),
                _ => None,
            }
        }
    }

    /// Arrow keys move the value by a step, Home and End to the ends.
    pub fn on_key(&mut self, kev: &KeyEvent) -> (r: EventResponse)
        requires
            old(self).wf(),
        ensures
            final(self).wf(),
            match old(self).key_value(kev) {
                Some(v) => r == EventResponse::Handled && *final(self) == old(self).moved_to(v),
                None => r == EventResponse::Pass && *final(self) == *old(self),
            },
    {
        if !kev.pressed {
            return EventResponse::Pass;
        }
        match kev.key {
            Key::Named(NamedKey::ArrowLeft) => {
                self.set_value(self.value - STEP);
                EventResponse::Handled
            },
            Key::Named(NamedKey::ArrowRight) => {
                self.set_value(self.value + STEP);
                EventResponse::Handled
            },
            Key::Named(NamedKey::Home) => {
                self.set_value(0);
                EventResponse::Handled
            },
            Key::Named(NamedKey::End) => {
                self.set_value(RU_ONE);
                EventResponse::Handled
            },
            _ => EventResponse::Pass,
        }
    }

    /// The pixels of the slider, for the order in which focus moves.
    pub fn focus_bbox(&self) -> (p: PixelRect)
        requires
            self.place_ok(),
        ensures
            p == face::whole_px_rect(self.rect()),
    {
        face::focus_rect(self.bbox())
    }

    /// A slider paints its own changes, so nothing is tinted over it.
    pub fn tint_delta(&self) -> (d: u32)
        ensures
            d == 0,
    {
        0
    }

    /// The slider takes part in clicks, keys, focus and hovering while it is enabled.
    pub fn accepts_input(&self) -> (b: bool)
        ensures
            b == self.enabled,
    {
        self.enabled
    }

    /// A press moves the handle at once; it does not wait for the release.
    pub fn activate_on_release(&self) -> (b: bool)
        ensures
            !b,
    {
        false
    }
}

/// `v`, or 0 where it is negative.
fn not_negative(v: isize) -> (r: usize)
    ensures
        r as int == vstd::math::max(v as int, 0),
{
    if v < 0 {
        0
    } else {
        v as usize
    }
}

/// The value of a slider stays between 0 and 1, whatever it is set to.
pub proof fn law_value_stays_in_range(s: Slider, v: int)
    requires
        0 <= s.value <= RU_ONE,
    ensures
        0 <= s.moved_to(v).value <= RU_ONE,
{
}

/// The handle stands as far along its band as the value says: at the left edge for 0, at the right
/// edge for 1, in between at the value's share of the width, the fraction of a pixel dropped.
pub proof fn law_handle_stands_at_its_share(s: Slider)
    requires
        s.wf(),
        s.shows(),
    ensures
        ({
            let along = s.handle_x() - s.band_x();
            &&& along * (PX * RU_ONE) <= s.width * s.value < (along + 1) * (PX * RU_ONE)
            &&& s.value == 0 ==> s.handle_x() == s.band_x()
            &&& s.value == RU_ONE ==> s.handle_x() == s.band_x() + s.cols()
            &&& s.band_x() <= s.handle_x() <= s.band_x() + s.cols()
        }),
{
    let p = s.width * s.value;
    assert(0 <= p <= s.width * 0x1_0000_0000) by (nonlinear_arith)
        requires
            p == s.width * s.value,
            0 <= s.value <= 0x1_0000_0000,
            0 <= s.width,
    ;
    assert(s.value == 0 ==> p == 0) by (nonlinear_arith)
        requires
            p == s.width * s.value,
    ;
    assert(s.value == 0x1_0000_0000 ==> p == s.width * 0x1_0000_0000) by (nonlinear_arith)
        requires
            p == s.width * s.value,
    ;
    assert(s.handle_x() - s.band_x() == (p / 0x1_0000_0000) / 0x1_0000);
    assert((s.width * 0x1_0000_0000) / 0x1_0000_0000 == s.width);
    let along = s.handle_x() - s.band_x();
    assert(along * (PX * RU_ONE) == along * 0x1_0000_0000_0000 && (along + 1) * (PX * RU_ONE)
        == along * 0x1_0000_0000_0000 + 0x1_0000_0000_0000) by (nonlinear_arith)
        requires
            PX == 0x1_0000,
            RU_ONE == 0x1_0000_0000,
    ;
}

/// A larger value puts the handle no further left.
pub proof fn law_handle_follows_the_value(s: Slider, t: Slider)
    requires
        s.wf(),
        s.shows(),
        t.wf(),
        t.center_x == s.center_x,
        t.width == s.width,
        s.value <= t.value,
    ensures
        s.handle_x() <= t.handle_x(),
{
    let p = s.width * s.value;
    let q = s.width * t.value;
    assert(0 <= p <= q) by (nonlinear_arith)
        requires
            p == s.width * s.value,
            q == s.width * t.value,
            0 <= s.value <= t.value,
            0 <= s.width,
    ;
    assert(p / 0x1_0000_0000 <= q / 0x1_0000_0000);
    assert((p / 0x1_0000_0000) / 0x1_0000 <= (q / 0x1_0000_0000) / 0x1_0000);
}

/// The band is drawn around the centre: its left edge lies half the width left of it, give or take a
/// pixel.
pub proof fn law_band_lies_around_the_centre(s: Slider)
    requires
        s.wf(),
    ensures
        -2 * PX <= 2 * (s.band_x() * PX) - (2 * s.center_x - s.width) <= 2 * PX,
        -2 * PX <= 2 * (s.band_y() * PX) - (2 * s.center_y - s.height) <= 2 * PX,
{
    coord::lemma_truncated(s.center_x - coord::truncated(s.width as int, 2), PX as int);
    coord::lemma_truncated(s.center_y - coord::truncated(s.height as int, 2), PX as int);
    coord::lemma_truncated(s.width as int, 2);
    coord::lemma_truncated(s.height as int, 2);
}

/// Painting and pointing agree: setting the value from a place on the band puts the handle there, no
/// more than two dropped fractions of a pixel away.
pub proof fn law_handle_goes_where_it_is_put(s: Slider, x: int)
    requires
        s.wf(),
        s.shows(),
        2 * s.center_x - s.width <= 2 * x <= 2 * s.center_x + s.width,
    ensures
        ({
            let t = s.moved_to(s.value_at(x));
            -2 * PX - 0x1000 <= t.handle_x() * PX - x <= PX + 1
        }),
{
    let left = s.center_x - coord::truncated(s.width as int, 2);
    let d = x - left;
    let w = s.width as int;
    assert(w >= PX);
    assert(0 <= d <= w);
    let v = (d * RU_ONE) / w;
    vstd::arithmetic::div_mod::lemma_fundamental_div_mod(d * RU_ONE, w);
    vstd::arithmetic::div_mod::lemma_mod_bound(d * RU_ONE, w);
    assert(d * RU_ONE - w < w * v <= d * RU_ONE);
    assert(0 <= v <= RU_ONE) by (nonlinear_arith)
        requires
            w * v <= d * RU_ONE,
            d * RU_ONE - w < w * v,
            0 <= d <= w,
            w > 0,
            RU_ONE == 0x1_0000_0000,
    ;
    let t = s.moved_to(s.value_at(x));
    assert(s.value_at(x) == v);
    assert(t.value == v);
    law_handle_stands_at_its_share(t);
    let along = t.handle_x() - t.band_x();
    coord::lemma_truncated(left, PX as int);
    assert(along * (PX * RU_ONE) == (along * PX) * 0x1_0000_0000) by (nonlinear_arith)
        requires
            PX == 0x1_0000,
            RU_ONE == 0x1_0000_0000,
    ;
    assert((along + 1) * (PX * RU_ONE) == (along * PX + PX) * 0x1_0000_0000) by (nonlinear_arith)
        requires
            PX == 0x1_0000,
            RU_ONE == 0x1_0000_0000,
    ;
    assert(t.width * t.value == w * v);
}

/// The track is one colour left of the handle and the other right of it: white and black where the
/// slider is enabled. Beyond the handle's disc each pixel of the track has the colour of its side laid
/// under it.
pub proof fn law_track_is_split_at_the_handle(
    s: Slider,
    pixels: Seq<u32>,
    w: usize,
    h: usize,
    x: int,
    y: int,
)
    requires
        s.wf(),
        s.shows(),
        w * h <= pixels.len(),
        0 <= x < w,
        0 <= y < h,
        s.track_y() <= y < s.track_y() + s.track_h(),
        s.band_x() <= x < s.band_x() + s.cols(),
    ensures
        x < s.handle_x() - s.radius() ==> s.painted(pixels, w, h)[y * w + x] == pixel::under_px(
            pixels[y * w + x],
            if s.enabled {
                LEFT_FILL
            } else {
                LEFT_DISABLED
            },
            BlendMode::Normal,
        ),
        x > s.handle_x() + s.radius() ==> s.painted(pixels, w, h)[y * w + x] == pixel::under_px(
            pixels[y * w + x],
            if s.enabled {
                RIGHT_FILL
            } else {
                RIGHT_DISABLED
            },
            BlendMode::Normal,
        ),
        pixel::red(LEFT_FILL) == 0 && pixel::green(LEFT_FILL) == 0 && pixel::blue(LEFT_FILL) == 0,
        pixel::red(RIGHT_FILL) == 255 && pixel::green(RIGHT_FILL) == 255 && pixel::blue(RIGHT_FILL)
            == 255,
        pixel::alpha(LEFT_FILL) == 255 && pixel::alpha(RIGHT_FILL) == 255,
{
    canvas::lemma_cell(x, y, w as int);
    canvas::lemma_cell_bound(x, y, w as int, h as int);
    law_handle_stands_at_its_share(s);
    assert((0xFF00_0000u32 >> 24) == 255 && ((0xFF00_0000u32 >> 16) & 0xFF) == 0 && ((0xFF00_0000u32
        >> 8) & 0xFF) == 0 && (0xFF00_0000u32 & 0xFF) == 0 && (0xFFFF_FFFFu32 >> 24) == 255 && ((
    0xFFFF_FFFFu32 >> 16) & 0xFF) == 255 && ((0xFFFF_FFFFu32 >> 8) & 0xFF) == 255 && (0xFFFF_FFFFu32
        & 0xFF) == 255) by (bit_vector);
}

/// The track lies in the middle of the band, and the handle's disc around the middle of the track.
pub proof fn law_track_lies_in_the_middle(s: Slider)
    requires
        s.wf(),
        s.rows() >= 2,
    ensures
        s.band_y() <= s.track_y(),
        s.track_y() + s.track_h() <= s.band_y() + s.rows(),
        -1 <= (s.track_y() - s.band_y()) - (s.band_y() + s.rows() - s.track_y() - s.track_h()) <= 1,
        s.rows() >= 8 ==> 4 * s.track_h() <= s.rows() < 4 * s.track_h() + 4,
        s.rows() >= 6 ==> 2 * s.radius() <= s.rows() <= 2 * s.radius() + 3,
{
}

/// An arrow key moves the value by one part in 64, to the right for a larger value, as far as it goes;
/// Home and End go to the ends.
pub proof fn law_keys_move_the_value(s: Slider, kev: KeyEvent)
    requires
        s.wf(),
        kev.pressed,
    ensures
        kev.key == Key::Named(NamedKey::ArrowRight) ==> ({
            let t = s.moved_to(s.key_value(&kev)->0);
            64 * (t.value - s.value) == RU_ONE || t.value == RU_ONE && 64 * (RU_ONE - s.value)
                <= RU_ONE
        }),
        kev.key == Key::Named(NamedKey::ArrowLeft) ==> ({
            let t = s.moved_to(s.key_value(&kev)->0);
            64 * (s.value - t.value) == RU_ONE || t.value == 0 && 64 * s.value <= RU_ONE
        }),
        kev.key == Key::Named(NamedKey::Home) ==> s.moved_to(s.key_value(&kev)->0).value == 0,
        kev.key == Key::Named(NamedKey::End) ==> s.moved_to(s.key_value(&kev)->0).value == RU_ONE,
{
}

/// Every change of the value is reported by the next poll, and setting the value it has is none.
pub proof fn law_changes_are_reported(s: Slider, v: int)
    requires
        s.wf(),
        !s.changed(),
    ensures
        s.moved_to(v).changed() <==> s.moved_to(v).value != s.value,
        0 <= v <= RU_ONE ==> s.moved_to(v).value == v,
        v < 0 ==> s.moved_to(v).value == 0,
        v > RU_ONE ==> s.moved_to(v).value == RU_ONE,
{
}

/// Painting a slider damages every pixel that it changes, and keeps what was damaged.
pub proof fn law_slider_damages_what_it_changes(
    s: Slider,
    d: Option<PixelRect>,
    pixels: Seq<u32>,
    w: usize,
    h: usize,
    x: int,
    y: int,
)
    requires
        0 <= x < w,
        0 <= y < h,
        w * h <= pixels.len(),
        s.painted(pixels, w, h)[y * w + x] != pixels[y * w + x] || d is Some && (d->0).holds(x, y),
    ensures
        s.painted_damage(d, w, h) is Some,
        (s.painted_damage(d, w, h)->0).holds(x, y),
{
    let c = Clip::whole(w, h);
    let i = y * w + x;
    let (left, right, handle) = s.fills();
    let cy = s.band_y() + s.rows() / 2;
    let hx = s.handle_x();
    let r = s.radius();
    canvas::lemma_cell_bound(x, y, w as int, h as int);
    rect::law_fills_stay_in_their_damage(pixels, w, h, hx, cy, r, r, handle, c, None, x, y);
    let p1 = rect::with_circle(pixels, w as int, hx, cy, r, handle, c, None);
    let (bx, ty, th) = (s.band_x(), s.track_y(), s.track_h());
    rect::law_fills_stay_in_their_damage(p1, w, h, bx, ty, hx - bx, th, left, c, None, x, y);
    let p2 = rect::with_fill(p1, w as int, bx, ty, hx - bx, th, left, c, None);
    let rest = bx + s.cols() - hx;
    rect::law_fills_stay_in_their_damage(p2, w, h, hx, ty, rest, th, right, c, None, x, y);
    let (e1, e2, e3) = (
        clip::clipped_rect(c, hx - r, cy - r, 2 * r + 1, 2 * r + 1),
        clip::clipped_rect(c, bx, ty, rect::hairline(hx - bx), rect::hairline(th)),
        clip::clipped_rect(c, hx, ty, rect::hairline(rest), rect::hairline(th)),
    );
    assert(p1[i] != pixels[i] || p2[i] != p1[i] || s.painted(pixels, w, h)[i] != p2[i] || d is Some
        && (d->0).holds(x, y));
    canvas::law_damage_holds_what_was_drawn(d, e1, x, y);
    let d1 = canvas::joined(d, e1);
    canvas::law_damage_holds_what_was_drawn(d1, e2, x, y);
    canvas::law_damage_holds_what_was_drawn(canvas::joined(d1, e2), e3, x, y);
}

} // verus!
