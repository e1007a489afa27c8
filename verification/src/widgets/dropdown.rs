//! A selector: a pill with the current choice, and a popup that lists the options, one row each. The
//! application polls for changes.
//!
//! Painting is topmost first, so the open popup is painted before whatever it covers.
use crate::canvas::{self, Canvas, Damage, PixelRect};
use crate::coord::{self, Coord, Ratio, PX};
use crate::event::{self, EventResponse, Key, KeyEvent, NamedKey};
use crate::paint::clip::{AlphaMask, Clip, HitId, HIT_NONE};
use crate::paint::colour;
use crate::paint::overlay;
use crate::paint::figure::{self, Figure};
use crate::paint::glow::PillRect;
use crate::paint::squircle;
use crate::pixel;
use crate::pool;
use crate::region::{self, Region};
use crate::text::{self, GlyphImage};
use crate::theme;
use crate::widgets::cache::FaceCache;
use crate::widgets::face::{self, FaceStyle};
use crate::widgets::ident;
use vstd::prelude::*;

verus! {

/// The gap between the pill and the popup.
pub const POPUP_GAP: Coord = 0x2_0000;

/// One row of the popup.
#[derive(Clone, Copy, Debug, PartialEq, Eq, Structural)]
pub struct DropdownRow {
    pub hit_id: HitId,
    /// The option that the row stands for.
    pub index: usize,
    pub hovered: bool,
    /// The row was clicked and the click is not taken yet.
    pub fired: bool,
}

impl DropdownRow {
    pub fn hit_id(&self) -> (id: HitId)
        ensures
            id == self.hit_id,
    {
        self.hit_id
    }

    pub fn index(&self) -> (i: usize)
        ensures
            i == self.index,
    {
        self.index
    }

    /// A click marks the row for the dropdown to take.
    pub fn on_click(&mut self) -> (r: EventResponse)
        ensures
            r == EventResponse::Handled,
            *final(self) == (DropdownRow { fired: true, ..*old(self) }),
    {
        self.fired = true;
        EventResponse::Handled
    }

    pub fn set_hovered(&mut self, hovered: bool)
        ensures
            *final(self) == (DropdownRow { hovered, ..*old(self) }),
    {
        self.hovered = hovered;
    }

    /// The tint over the widget in its state.
    pub open spec fn tint(&self) -> u32 {
        if self.hovered {
            colour::sub_rgb(theme::TEXTBOX_HOVER, theme::TEXTBOX_FILL)
        } else {
            0
        }
    }

    /// The tint over the row while it is hovered.
    pub fn tint_delta(&self) -> (d: u32)
        ensures
            d == self.tint(),
    {
        if self.hovered {
            colour::wrap_sub_rgb(theme::TEXTBOX_HOVER, theme::TEXTBOX_FILL)
        } else {
            0
        }
    }
}

/// The part of a dropdown that input changes.
pub struct DropdownState {
    pub rows: Seq<DropdownRow>,
    pub selected: int,
    pub highlight: int,
    pub open: bool,
    pub enabled: bool,
    pub focused: bool,
    pub hovered: bool,
    pub change_counter: u32,
    pub last_seen: u32,
    pub text_dirty: bool,
    pub popup_dirty: bool,
}

/// Rows of which none is hovered or clicked.
pub open spec fn idle_rows(rows: Seq<DropdownRow>) -> Seq<DropdownRow> {
    Seq::new(rows.len(), |i: int| DropdownRow { hovered: false, fired: false, ..rows[i] })
}

/// Rows of which the one for option `highlight` is hovered.
pub open spec fn lit_rows(rows: Seq<DropdownRow>, highlight: int) -> Seq<DropdownRow> {
    Seq::new(
        rows.len(),
        |i: int| DropdownRow { hovered: rows[i].index == highlight, ..rows[i] },
    )
}

/// Rows of which the one with the identifier is hovered.
pub open spec fn hit_rows(rows: Seq<DropdownRow>, hit: HitId) -> Seq<DropdownRow> {
    Seq::new(rows.len(), |i: int| DropdownRow { hovered: rows[i].hit_id == hit, ..rows[i] })
}

/// The highlight after the first `n` rows were told what is hit: the last row that became hovered.
pub open spec fn hit_highlight(rows: Seq<DropdownRow>, hit: HitId, highlight: int, n: int) -> int
    decreases n,
{
    if n <= 0 {
        highlight
    } else if rows[n - 1].hit_id == hit && !rows[n - 1].hovered {
        rows[n - 1].index as int
    } else {
        hit_highlight(rows, hit, highlight, n - 1)
    }
}

/// The first of the rows from `from` on that was clicked.
pub open spec fn first_fired(rows: Seq<DropdownRow>, from: int) -> Option<int>
    decreases rows.len() - from,
{
    if from < 0 || from >= rows.len() {
        None
    } else if rows[from].fired {
        Some(rows[from].index as int)
    } else {
        first_fired(rows, from + 1)
    }
}

impl DropdownState {
    /// Row `i` stands for option `i`, and the choice and the highlight are options.
    pub open spec fn wf(self) -> bool {
        &&& 0 < self.rows.len() <= 0xFFFF
        &&& 0 <= self.selected < self.rows.len()
        &&& 0 <= self.highlight < self.rows.len()
        &&& forall|i: int| 0 <= i < self.rows.len() ==> (#[trigger] self.rows[i]).index == i
    }

    /// The option nearest to `i`.
    pub open spec fn option_at(self, i: int) -> int {
        vstd::math::min(i, self.rows.len() - 1)
    }

    /// After closing the popup, with nothing chosen.
    pub open spec fn closed(self) -> DropdownState {
        if self.open {
            DropdownState {
                open: false,
                rows: idle_rows(self.rows),
                popup_dirty: true,
                ..self
            }
        } else {
            self
        }
    }

    /// After opening the popup, with the current choice highlighted.
    pub open spec fn opened(self) -> DropdownState {
        if self.open || !self.enabled {
            self
        } else {
            DropdownState {
                open: true,
                highlight: self.selected,
                rows: lit_rows(self.rows, self.selected),
                popup_dirty: true,
                ..self
            }
        }
    }

    /// After opening or closing the popup.
    pub open spec fn toggled(self) -> DropdownState {
        if self.open {
            self.closed()
        } else {
            self.opened()
        }
    }

    /// After option `i` was chosen: that counts as a change, even where it was the choice already.
    pub open spec fn committed(self, i: int) -> DropdownState {
        let k = self.option_at(i);
        (DropdownState {
            selected: k,
            text_dirty: self.text_dirty || k != self.selected,
            change_counter: self.change_counter.wrapping_add(1),
            ..self
        }).closed()
    }

    /// After the highlight went to option `i`.
    pub open spec fn highlighted(self, i: int) -> DropdownState {
        DropdownState {
            highlight: i,
            rows: lit_rows(self.rows, i),
            popup_dirty: true,
            ..self
        }
    }

    /// After the application set the choice.
    pub open spec fn with_selected(self, i: int) -> DropdownState {
        let k = self.option_at(i);
        if k == self.selected {
            self
        } else {
            DropdownState { selected: k, text_dirty: true, popup_dirty: true, ..self }
        }
    }

    /// After focus came or went; losing it closes the popup.
    pub open spec fn with_focus(self, focused: bool) -> DropdownState {
        if focused == self.focused {
            self
        } else if focused {
            DropdownState { focused, ..self }
        } else {
            (DropdownState { focused, ..self }).closed()
        }
    }

    /// After the dropdown was enabled or disabled; a disabled one is closed, and neither focused nor
    /// hovered.
    pub open spec fn with_enabled(self, enabled: bool) -> DropdownState {
        if enabled == self.enabled {
            self
        } else if enabled {
            DropdownState { enabled, text_dirty: true, ..self }
        } else {
            let s = (DropdownState {
                enabled,
                focused: false,
                hovered: false,
                ..self
            }).closed();
            DropdownState { text_dirty: true, ..s }
        }
    }

    /// Some hover state is not what the hit asks for.
    pub open spec fn hover_differs(self, own: HitId, hit: HitId) -> bool {
        self.enabled && (self.hovered != (hit == own) || (self.open && exists|i: int|
            0 <= i < self.rows.len() && #[trigger] self.rows[i].hovered != (self.rows[i].hit_id
                == hit)))
    }

    /// After the pill and the rows were told what is hit.
    pub open spec fn with_hit(self, own: HitId, hit: HitId) -> DropdownState {
        if !self.enabled {
            self
        } else if !self.open {
            DropdownState { hovered: hit == own, ..self }
        } else {
            DropdownState {
                hovered: hit == own,
                rows: hit_rows(self.rows, hit),
                highlight: hit_highlight(self.rows, hit, self.highlight, self.rows.len() as int),
                popup_dirty: self.popup_dirty || self.hover_differs(own, hit),
                ..self
            }
        }
    }

    /// After a click on a row, if there was one, was taken.
    pub open spec fn folded(self) -> DropdownState {
        match first_fired(self.rows, 0) {
            Some(i) => if self.open {
                self.committed(i)
            } else {
                self
            },
            None => self,
        }
    }

    /// After the application asked for changes.
    pub open spec fn polled(self) -> DropdownState {
        let s = self.folded();
        DropdownState { last_seen: s.change_counter, ..s }
    }

    /// What a key does, `None` where it does nothing.
    pub open spec fn after_key(self, kev: &KeyEvent) -> Option<DropdownState> {
        let n = self.rows.len() as int;
        if !kev.pressed {
            None
        } else if event::activates(kev) {
            Some(
                if self.open {
                    self.committed(self.highlight)
                } else {
                    self.opened()
                },
            )
        } else {
            match kev.key {
                Key::Named(NamedKey::ArrowDown) => Some(
                    if self.open {
                        self.highlighted((self.highlight + 1) % n)
                    } else {
                        self.committed((self.selected + 1) % n)
                    },
                ),
                Key::Named(NamedKey::ArrowUp) => Some(
                    if self.open {
                        self.highlighted((self.highlight + n - 1) % n)
                    } else {
                        self.committed((self.selected + n - 1) % n)
                    },
                ),
                Key::Named(NamedKey::Escape) => if self.open {
                    Some(self.closed())
                } else {
                    None
                },
                _ => None,
            }
        }
    }
}

pub struct Dropdown {
    pub hit_id: HitId,
    pub options: Vec<String>,
    pub rows: Vec<DropdownRow>,
    pub selected: usize,
    /// The row that the keyboard is at while the popup is open.
    pub highlight: usize,
    pub open: bool,
    /// Stroke thickness as a multiple of the font size.
    pub stroke_ru: Ratio,
    pub center_x: Coord,
    pub center_y: Coord,
    pub width: Coord,
    pub height: Coord,
    pub font_size: Coord,
    pub focused: bool,
    pub hovered: bool,
    pub enabled: bool,
    /// Changes since construction, wrapping.
    pub change_counter: u32,
    /// The count at the last poll.
    pub last_seen_change_counter: u32,
    pub cache: FaceCache,
    /// The layers were rasterised while the dropdown was disabled.
    pub cache_disabled: bool,
    pub last_painted_bbox: Option<PixelRect>,
    pub last_painted_focused: bool,
    pub last_painted_popup: Option<PixelRect>,
    /// Something about the popup changed since the last paint.
    pub popup_dirty: bool,
}

impl Dropdown {
    /// What input changes.
    pub open spec fn state(&self) -> DropdownState {
        DropdownState {
            rows: self.rows@,
            selected: self.selected as int,
            highlight: self.highlight as int,
            open: self.open,
            enabled: self.enabled,
            focused: self.focused,
            hovered: self.hovered,
            change_counter: self.change_counter,
            last_seen: self.last_seen_change_counter,
            text_dirty: self.cache.text_dirty,
            popup_dirty: self.popup_dirty,
        }
    }

    /// Nothing but what input changes differs.
    pub open spec fn same_rest(&self, other: &Dropdown) -> bool {
        &&& self.hit_id == other.hit_id
        &&& self.options == other.options
        &&& self.stroke_ru == other.stroke_ru
        &&& self.center_x == other.center_x
        &&& self.center_y == other.center_y
        &&& self.width == other.width
        &&& self.height == other.height
        &&& self.font_size == other.font_size
        &&& self.cache.marked(false, false) == other.cache.marked(false, false)
        &&& self.cache.pill_dirty == other.cache.pill_dirty
        &&& self.cache_disabled == other.cache_disabled
        &&& self.last_painted_bbox == other.last_painted_bbox
        &&& self.last_painted_focused == other.last_painted_focused
        &&& self.last_painted_popup == other.last_painted_popup
    }

    pub open spec fn place_ok(&self) -> bool {
        face::place_ok(
            self.center_x as int,
            self.center_y as int,
            self.width as int,
            self.height as int,
            self.font_size as int,
        )
    }

    /// There is an option, each has its row, and the geometry is one that a widget can have.
    pub open spec fn wf(&self) -> bool {
        &&& self.state().wf()
        &&& self.rows@.len() == self.options@.len()
        &&& self.place_ok()
        &&& self.font_size * self.rows@.len() <= 0x800_0000_0000
        &&& face::stroke_ok(self.stroke_ru as int, self.font_size as int)
        &&& self.cache.wf()
    }

    /// A new dropdown, with the next hit identifier for the pill and one after it for each row.
    pub fn new(
        hit_counter: &mut HitId,
        center_x: Coord,
        center_y: Coord,
        width: Coord,
        height: Coord,
        font_size: Coord,
        options: Vec<String>,
    ) -> (d: Dropdown)
        requires
            options@.len() > 0,
            *old(hit_counter) + 1 + options@.len() <= HitId::MAX,
        ensures
            *final(hit_counter) == *old(hit_counter) + 1 + options@.len(),
            d.hit_id == *old(hit_counter) + 1,
            d.options == options,
            d.rows@.len() == options@.len(),
            forall|i: int|
                0 <= i < d.rows@.len() ==> #[trigger] d.rows@[i] == (DropdownRow {
                    hit_id: (*old(hit_counter) + 2 + i) as HitId,
                    index: i as usize,
                    hovered: false,
                    fired: false,
                }),
            d.state() == (DropdownState {
                rows: d.rows@,
                selected: 0,
                highlight: 0,
                open: false,
                enabled: true,
                focused: false,
                hovered: false,
                change_counter: 0,
                last_seen: 0,
                text_dirty: true,
                popup_dirty: false,
            }),
            d.state().wf(),
            d.center_x == center_x,
            d.center_y == center_y,
            d.width == width,
            d.height == height,
            d.font_size == font_size,
            d.stroke_ru == 0x800_0000,
            d.cache.wf(),
            d.cache.pill_dirty,
            !d.cache_disabled,
            d.last_painted_bbox is None,
            !d.last_painted_focused,
            d.last_painted_popup is None,
    {
        let hit_id: HitId = ident::next_id(hit_counter);
        let ghost first = *hit_counter;
        let n: usize = options.len();
        let mut rows: Vec<DropdownRow> = Vec::new();
        let mut i: usize = 0;
        while i < n
            invariant
                0 <= i <= n,
                n == options@.len(),
                first + n <= HitId::MAX,
                *hit_counter == first + i,
                rows@.len() == i,
                forall|k: int|
                    0 <= k < i ==> #[trigger] rows@[k] == (DropdownRow {
                        hit_id: (first + 1 + k) as HitId,
                        index: k as usize,
                        hovered: false,
                        fired: false,
                    }),
            decreases n - i,
        {
            let id: HitId = ident::next_id(hit_counter);
            rows.push(DropdownRow { hit_id: id, index: i, hovered: false, fired: false });
            i = i + 1;
        }
        Dropdown {
            hit_id,
            options,
            rows,
            selected: 0,
            highlight: 0,
            open: false,
            stroke_ru: 0x800_0000,
            center_x,
            center_y,
            width,
            height,
            font_size,
            focused: false,
            hovered: false,
            enabled: true,
            change_counter: 0,
            last_seen_change_counter: 0,
            cache: FaceCache::new(),
            cache_disabled: false,
            last_painted_bbox: None,
            last_painted_focused: false,
            last_painted_popup: None,
            popup_dirty: false,
        }
    }

    pub fn hit_id(&self) -> (id: HitId)
        ensures
            id == self.hit_id,
    {
        self.hit_id
    }

    pub fn is_open(&self) -> (b: bool)
        ensures
            b == self.open,
    {
        self.open
    }

    pub fn is_focused(&self) -> (b: bool)
        ensures
            b == self.focused,
    {
        self.focused
    }

    pub fn is_hovered(&self) -> (b: bool)
        ensures
            b == self.hovered,
    {
        self.hovered
    }

    pub fn is_enabled(&self) -> (b: bool)
        ensures
            b == self.enabled,
    {
        self.enabled
    }

    pub fn selected(&self) -> (i: usize)
        ensures
            i == self.selected,
    {
        self.selected
    }

    pub fn selected_label(&self) -> (s: &str)
        requires
            self.selected < self.options@.len(),
        ensures
            s@ == self.options@[self.selected as int]@,
    {
        self.options[self.selected].as_str()
    }

    pub fn options(&self) -> (o: &[String])
        ensures
            o@ == self.options@,
    {
        self.options.as_slice()
    }

    /// The identifier is that of the pill or of a row.
    pub fn owns_hit(&self, hit: HitId) -> (b: bool)
        ensures
            b == (hit != HIT_NONE && (hit == self.hit_id || exists|i: int|
                0 <= i < self.rows@.len() && #[trigger] self.rows@[i].hit_id == hit)),
    {
        if hit == HIT_NONE {
            return false;
        }
        if hit == self.hit_id {
            return true;
        }
        let mut i: usize = 0;
        while i < self.rows.len()
            invariant
                0 <= i <= self.rows@.len(),
                hit != HIT_NONE,
                hit != self.hit_id,
                forall|k: int| 0 <= k < i ==> #[trigger] self.rows@[k].hit_id != hit,
            decreases self.rows@.len() - i,
        {
            if self.rows[i].hit_id == hit {
                return true;
            }
            i = i + 1;
        }
        false
    }

    /// Sets the choice, without counting a change.
    pub fn set_selected(&mut self, index: usize)
        requires
            old(self).state().wf(),
            old(self).rows@.len() == old(self).options@.len(),
        ensures
            final(self).state() == old(self).state().with_selected(index as int),
            final(self).same_rest(old(self)),
    {
        let last: usize = self.options.len() - 1;
        let index: usize = if index <= last {
            index
        } else {
            last
        };
        if index != self.selected {
            self.selected = index;
            self.cache.text_dirty = true;
            self.popup_dirty = true;
        }
    }

    /// Gives or takes focus; losing it closes the popup without a choice.
    pub fn set_focused(&mut self, focused: bool)
        ensures
            final(self).state() == old(self).state().with_focus(focused),
            final(self).same_rest(old(self)),
    {
        if focused != self.focused {
            self.focused = focused;
            if !focused {
                self.close();
            }
        }
    }

    /// Marks the pill as hovered or not; a disabled one does not change.
    pub fn set_hovered(&mut self, hovered: bool)
        ensures
            *final(self) == (if old(self).enabled {
                Dropdown { hovered, ..*old(self) }
            } else {
                *old(self)
            }),
    {
        if !self.enabled {
            return;
        }
        self.hovered = hovered;
    }

    /// Enables or disables the dropdown.
    pub fn set_enabled(&mut self, enabled: bool)
        ensures
            final(self).state() == old(self).state().with_enabled(enabled),
            final(self).same_rest(old(self)),
    {
        if enabled == self.enabled {
            return;
        }
        self.enabled = enabled;
        if !enabled {
            self.focused = false;
            self.hovered = false;
            self.close();
        }
        self.cache.text_dirty = true;
    }

    /// Opens the popup, with the current choice highlighted.
    pub fn open(&mut self)
        ensures
            final(self).state() == old(self).state().opened(),
            final(self).same_rest(old(self)),
    {
        if self.open || !self.enabled {
            return;
        }
        self.open = true;
        self.highlight = self.selected;
        self.sync_row_highlight();
        self.popup_dirty = true;
    }

    /// Closes the popup without a choice.
    pub fn close(&mut self)
        ensures
            final(self).state() == old(self).state().closed(),
            final(self).same_rest(old(self)),
    {
        if !self.open {
            return;
        }
        self.open = false;
        let ghost rows = self.rows@;
        let n: usize = self.rows.len();
        let mut i: usize = 0;
        while i < n
            invariant
                0 <= i <= n,
                n == rows.len(),
                self.rows@.len() == n,
                forall|k: int|
                    0 <= k < n ==> #[trigger] self.rows@[k] == (if k < i {
                        idle_rows(rows)[k]
                    } else {
                        rows[k]
                    }),
                *self == (Dropdown { rows: self.rows, open: false, ..*old(self) }),
            decreases n - i,
        {
            let row = self.rows[i];
            self.rows.set(i, DropdownRow { hovered: false, fired: false, ..row });
            i = i + 1;
        }
        self.popup_dirty = true;
        assert(self.rows@ =~= idle_rows(rows));
    }

    /// Opens the popup, or closes it.
    fn toggle_open(&mut self)
        ensures
            final(self).state() == old(self).state().toggled(),
            final(self).same_rest(old(self)),
    {
        if self.open {
            self.close();
        } else {
            self.open();
        }
    }

    /// Chooses an option and closes the popup.
    fn commit(&mut self, index: usize)
        requires
            old(self).state().wf(),
            old(self).rows@.len() == old(self).options@.len(),
        ensures
            final(self).state() == old(self).state().committed(index as int),
            final(self).same_rest(old(self)),
    {
        let last: usize = self.options.len() - 1;
        let index: usize = if index <= last {
            index
        } else {
            last
        };
        if index != self.selected {
            self.selected = index;
            self.cache.text_dirty = true;
        }
        self.change_counter = self.change_counter.wrapping_add(1);
        self.close();
    }

    /// Hovers the highlighted row and no other.
    fn sync_row_highlight(&mut self)
        ensures
            final(self).rows@ == lit_rows(old(self).rows@, old(self).highlight as int),
            *final(self) == (Dropdown { rows: final(self).rows, ..*old(self) }),
    {
        let ghost rows = self.rows@;
        let n: usize = self.rows.len();
        let mut i: usize = 0;
        while i < n
            invariant
                0 <= i <= n,
                n == rows.len(),
                self.rows@.len() == n,
                forall|k: int|
                    0 <= k < n ==> #[trigger] self.rows@[k] == (if k < i {
                        lit_rows(rows, old(self).highlight as int)[k]
                    } else {
                        rows[k]
                    }),
                *self == (Dropdown { rows: self.rows, ..*old(self) }),
            decreases n - i,
        {
            let row = self.rows[i];
            self.rows.set(i, DropdownRow { hovered: row.index == self.highlight, ..row });
            i = i + 1;
        }
        assert(self.rows@ =~= lit_rows(rows, self.highlight as int));
    }

    /// Tells the pill and, while the popup is open, the rows what is hit. Whether that changed
    /// anything is returned.
    pub fn sync_hover(&mut self, hit: HitId) -> (changed: bool)
        requires
            old(self).state().wf(),
        ensures
            changed == old(self).state().hover_differs(old(self).hit_id, hit),
            final(self).state() == old(self).state().with_hit(old(self).hit_id, hit),
            final(self).same_rest(old(self)),
    {
        if !self.enabled {
            return false;
        }
        let mut changed: bool = false;
        let pill_hover: bool = hit == self.hit_id;
        if pill_hover != self.hovered {
            self.hovered = pill_hover;
            changed = true;
        }
        if self.open {
            let ghost rows = self.rows@;
            let ghost pill_changed = changed;
            let n: usize = self.rows.len();
            let mut i: usize = 0;
            while i < n
                invariant
                    0 <= i <= n,
                    n == rows.len(),
                    rows == old(self).rows@,
                    self.rows@.len() == n,
                    forall|k: int|
                        0 <= k < n ==> #[trigger] self.rows@[k] == (if k < i {
                            hit_rows(rows, hit)[k]
                        } else {
                            rows[k]
                        }),
                    self.highlight as int == hit_highlight(
                        rows,
                        hit,
                        old(self).highlight as int,
                        i as int,
                    ),
                    changed == (pill_changed || exists|k: int|
                        0 <= k < i && #[trigger] rows[k].hovered != (rows[k].hit_id == hit)),
                    *self == (Dropdown {
                        rows: self.rows,
                        highlight: self.highlight,
                        hovered: pill_hover,
                        ..*old(self)
                    }),
                decreases n - i,
            {
                let row = self.rows[i];
                let want: bool = row.hit_id == hit;
                assert(row == rows[i as int]);
                if row.hovered != want {
                    self.rows.set(i, DropdownRow { hovered: want, ..row });
                    changed = true;
                    if want {
                        self.highlight = row.index;
                    }
                }
                i = i + 1;
            }
            if changed {
                self.popup_dirty = true;
            }
            assert(self.rows@ =~= hit_rows(rows, hit));
        }
        changed
    }

    /// The first row that was clicked.
    fn fired_row(&self) -> (r: Option<usize>)
        ensures
            match r {
                Some(i) => first_fired(self.rows@, 0) == Some(i as int),
                None => first_fired(self.rows@, 0) is None,
            },
    {
        let mut i: usize = 0;
        while i < self.rows.len()
            invariant
                0 <= i <= self.rows@.len(),
                first_fired(self.rows@, 0) == first_fired(self.rows@, i as int),
            decreases self.rows@.len() - i,
        {
            if self.rows[i].fired {
                return Some(self.rows[i].index);
            }
            i = i + 1;
        }
        None
    }

    /// Takes a click on a row as a choice, and then says whether there was a choice since the last
    /// poll.
    pub fn take_change(&mut self) -> (r: Option<usize>)
        requires
            old(self).state().wf(),
            old(self).rows@.len() == old(self).options@.len(),
        ensures
            final(self).state() == old(self).state().polled(),
            final(self).same_rest(old(self)),
            ({
                let s = old(self).state().folded();
                r == (if s.change_counter != s.last_seen {
                    Some(s.selected as usize)
                } else {
                    None
                })
            }),
    {
        if self.open {
            match self.fired_row() {
                Some(i) => {
                    self.commit(i);
                },
                None => {},
            }
        }
        if self.change_counter != self.last_seen_change_counter {
            self.last_seen_change_counter = self.change_counter;
            Some(self.selected)
        } else {
            None
        }
    }

    /// Hands each row to `f` while the popup is open, and not otherwise.
    pub fn visit_rows<F: Fn(DropdownRow) -> DropdownRow>(&mut self, f: F)
        requires
            forall|r: DropdownRow| #[trigger] f.requires((r,)),
        ensures
            final(self).rows@.len() == old(self).rows@.len(),
            forall|i: int|
                #![trigger final(self).rows@[i]]
                0 <= i < old(self).rows@.len() ==> (if old(self).open && old(self).enabled {
                    f.ensures((old(self).rows@[i],), final(self).rows@[i])
                } else {
                    final(self).rows@[i] == old(self).rows@[i]
                }),
            *final(self) == (Dropdown { rows: final(self).rows, ..*old(self) }),
    {
        if !self.open || !self.enabled {
            return;
        }
        let n: usize = self.rows.len();
        let mut i: usize = 0;
        while i < n
            invariant
                0 <= i <= n,
                n == old(self).rows@.len(),
                self.rows@.len() == n,
                forall|r: DropdownRow| #[trigger] f.requires((r,)),
                forall|k: int|
                    #![trigger self.rows@[k]]
                    0 <= k < n ==> (if k < i {
                        f.ensures((old(self).rows@[k],), self.rows@[k])
                    } else {
                        self.rows@[k] == old(self).rows@[k]
                    }),
                *self == (Dropdown { rows: self.rows, ..*old(self) }),
            decreases n - i,
        {
            let row = f(self.rows[i]);
            self.rows.set(i, row);
            i = i + 1;
        }
    }

    /// Moves and resizes the dropdown; a change has both layers and the popup painted again.
    pub fn set_rect(&mut self, center_x: Coord, center_y: Coord, width: Coord, height: Coord)
        ensures
            ({
                let moved = old(self).center_x != center_x || old(self).center_y != center_y || old(
                    self,
                ).width != width || old(self).height != height;
                *final(self) == (Dropdown {
                    center_x,
                    center_y,
                    width,
                    height,
                    cache: if moved {
                        old(self).cache.marked(true, true)
                    } else {
                        old(self).cache
                    },
                    popup_dirty: old(self).popup_dirty || moved,
                    ..*old(self)
                })
            }),
    {
        if self.center_x != center_x || self.center_y != center_y || self.width != width
            || self.height != height {
            self.cache.invalidate();
            self.popup_dirty = true;
        }
        self.center_x = center_x;
        self.center_y = center_y;
        self.width = width;
        self.height = height;
    }

    /// Changes the font size; a change has both layers and the popup painted again.
    pub fn set_font_size(&mut self, font_size: Coord)
        ensures
            *final(self) == (Dropdown {
                font_size,
                cache: if old(self).font_size != font_size {
                    old(self).cache.marked(true, true)
                } else {
                    old(self).cache
                },
                popup_dirty: old(self).popup_dirty || old(self).font_size != font_size,
                ..*old(self)
            }),
    {
        if self.font_size != font_size {
            self.cache.invalidate();
            self.popup_dirty = true;
        }
        self.font_size = font_size;
    }

    /// The rectangle of the pill.
    pub open spec fn rect(&self) -> Region {
        face::centred(
            self.center_x as int,
            self.center_y as int,
            self.width as int,
            self.height as int,
        )
    }

    /// The rectangle of the pill with the reach of its focus glow.
    pub open spec fn glow_rect(&self) -> Region {
        face::glow_region(
            self.center_x as int,
            self.center_y as int,
            self.width as int,
            self.height as int,
            self.font_size as int,
        )
    }

    pub fn bbox(&self) -> (r: Region)
        requires
            self.place_ok(),
        ensures
            r == self.rect(),
            face::edges_ok(r),
    {
        face::centred_region(self.center_x, self.center_y, self.width, self.height)
    }

    /// The rectangle of the pill with the reach of its focus glow on every side.
    pub fn glow_bbox(&self) -> (r: Region)
        requires
            self.place_ok(),
        ensures
            r == self.glow_rect(),
            face::edges_ok(r),
    {
        face::glow_envelope(
            self.center_x,
            self.center_y,
            self.width,
            self.height,
            self.font_size,
        )
    }

    /// The height of a row.
    pub open spec fn row_h(&self) -> int {
        coord::truncated(self.font_size * 8, 5)
    }

    /// The space inside the popup's edge.
    pub open spec fn popup_pad(&self) -> int {
        coord::truncated(self.font_size * 2, 5)
    }

    /// The height of a row.
    pub fn row_height(&self) -> (h: Coord)
        requires
            self.place_ok(),
        ensures
            h as int == self.row_h(),
            0 <= h <= 2 * self.font_size,
    {
        coord::truncate(self.font_size as i128 * 8, 5) as i64
    }

    /// The space inside the popup's edge.
    pub fn popup_padding(&self) -> (p: Coord)
        requires
            self.place_ok(),
        ensures
            p as int == self.popup_pad(),
            0 <= p <= self.font_size,
    {
        coord::truncate(self.font_size as i128 * 2, 5) as i64
    }

    /// The height of the popup.
    pub open spec fn popup_h(&self) -> int {
        self.rows@.len() * self.row_h() + 2 * self.popup_pad()
    }

    /// The rectangle of the popup: below the pill, or above it where the viewport ends before it
    /// does.
    pub open spec fn popup_rect(&self, viewport_h: int) -> Region {
        let hh = coord::truncated(self.height as int, 2);
        let below = self.center_y + hh + POPUP_GAP;
        let above = self.center_y - hh - POPUP_GAP - self.popup_h();
        Region::of(
            self.center_x - coord::truncated(self.width as int, 2),
            if below + self.popup_h() > viewport_h * PX {
                vstd::math::max(above, 0)
            } else {
                below
            },
            self.width as int,
            self.popup_h(),
        )
    }

    /// The rectangle of the popup.
    pub fn popup_region(&self, viewport_h: usize) -> (r: Region)
        requires
            self.wf(),
        ensures
            r == self.popup_rect(viewport_h as int),
            face::edges_ok(r),
            r.x as int == self.center_x - coord::truncated(self.width as int, 2),
            r.w == self.width,
            r.h as int == self.popup_h(),
            0 <= r.h <= 0x4000_0000_0000,
            -0x1000_0000_0000 <= r.y <= 0x1000_0000_0000,
    {
        let pad: Coord = self.popup_padding();
        let row_h: Coord = self.row_height();
        let n: usize = self.rows.len();
        proof {
            assert(0 <= n * row_h <= 2 * (self.font_size * n)) by (nonlinear_arith)
                requires
                    0 <= row_h <= 2 * self.font_size,
                    0 <= n,
            ;
        }
        let h: Coord = n as i64 * row_h + 2 * pad;
        let hh: Coord = coord::half(self.height);
        let below: Coord = self.center_y + hh + POPUP_GAP;
        let y: Coord = if (below + h) as i128 > viewport_h as i128 * 0x1_0000 {
            let above: Coord = self.center_y - hh - POPUP_GAP - h;
            if above >= 0 {
                above
            } else {
                0
            }
        } else {
            below
        };
        Region::new(self.center_x - coord::half(self.width), y, self.width, h)
    }

    /// Something visible changed since the last paint, or there was none.
    pub open spec fn needs_paint(&self) -> bool {
        ||| self.cache.pill_dirty
        ||| self.cache.text_dirty
        ||| self.focused != self.last_painted_focused
        ||| self.popup_dirty
        ||| self.last_painted_bbox is None
    }

    /// The pixels to paint anew: the pill where it was and where it is, and, where the popup changed,
    /// the popup where it was and where it is.
    pub open spec fn damage(&self, vw: usize, vh: usize) -> PixelRect {
        let current = face::region_px(
            if self.focused != self.last_painted_focused {
                self.glow_rect()
            } else {
                self.rect()
            },
            vw,
            vh,
        );
        let d1 = match self.last_painted_bbox {
            Some(prev) => prev.hull(current),
            None => current,
        };
        let d2 = match self.last_painted_popup {
            Some(prev) => if self.popup_dirty {
                d1.hull(prev)
            } else {
                d1
            },
            None => d1,
        };
        if self.popup_dirty && self.open {
            d2.hull(face::region_px(self.popup_rect(vh as int), vw, vh))
        } else {
            d2
        }
    }

    /// The pixels to paint anew, `None` where nothing changed since the last paint.
    pub fn damage_rect(&self, viewport_w: usize, viewport_h: usize) -> (d: Option<PixelRect>)
        requires
            self.wf(),
        ensures
            d == (if self.needs_paint() {
                Some(self.damage(viewport_w, viewport_h))
            } else {
                None
            }),
    {
        let focus_changed = self.focused != self.last_painted_focused;
        let pill_dirty = self.cache.pill_dirty || self.cache.text_dirty;
        if !pill_dirty && !focus_changed && !self.popup_dirty && self.last_painted_bbox.is_some() {
            return None;
        }
        let current = if focus_changed {
            face::region_to_pixelrect(self.glow_bbox(), viewport_w, viewport_h)
        } else {
            face::region_to_pixelrect(self.bbox(), viewport_w, viewport_h)
        };
        let mut combined = match self.last_painted_bbox {
            Some(prev) => prev.union(current),
            None => current,
        };
        if self.popup_dirty {
            match self.last_painted_popup {
                Some(prev) => {
                    combined = combined.union(prev);
                },
                None => {},
            }
            if self.open {
                let popup = self.popup_region(viewport_h);
                let cur = face::region_to_pixelrect(popup, viewport_w, viewport_h);
                combined = combined.union(cur);
            }
        }
        Some(combined)
    }

    /// The colour of the label: dimmed while the dropdown is disabled.
    pub open spec fn label_colour(&self) -> u32 {
        if self.enabled {
            theme::TEXTBOX_TEXT
        } else {
            pixel::argb(
                0x80,
                pixel::red(theme::TEXTBOX_TEXT),
                pixel::green(theme::TEXTBOX_TEXT),
                pixel::blue(theme::TEXTBOX_TEXT),
            )
        }
    }

    /// The colour of the label.
    pub fn text_colour(&self) -> (c: u32)
        ensures
            c == self.label_colour(),
    {
        if self.enabled {
            theme::TEXTBOX_TEXT
        } else {
            pixel::with_alpha(theme::TEXTBOX_TEXT, 0x80)
        }
    }

    /// A click on the pill opens the popup or closes it.
    pub fn on_click(&mut self) -> (r: EventResponse)
        ensures
            r == EventResponse::Handled,
            final(self).state() == old(self).state().toggled(),
            final(self).same_rest(old(self)),
    {
        self.toggle_open();
        EventResponse::Handled
    }

    /// Enter and Space open the popup or choose the highlighted row, arrow keys move the highlight or,
    /// while the popup is closed, the choice, both going round, and Escape closes the popup.
    pub fn on_key(&mut self, kev: &KeyEvent) -> (r: EventResponse)
        requires
            old(self).state().wf(),
            old(self).rows@.len() == old(self).options@.len(),
        ensures
            match old(self).state().after_key(kev) {
                Some(s) => {
                    &&& r == EventResponse::Handled
                    &&& final(self).state() == s
                    &&& final(self).same_rest(old(self))
                },
                None => r == EventResponse::Pass && *final(self) == *old(self),
            },
    {
        if !kev.pressed {
            return EventResponse::Pass;
        }
        let n: usize = self.options.len();
        if event::is_activation(kev) {
            if self.open {
                let i: usize = self.highlight;
                self.commit(i);
            } else {
                self.open();
            }
            return EventResponse::Handled;
        }
        match kev.key {
            Key::Named(NamedKey::ArrowDown) => {
                if self.open {
                    self.highlight = (self.highlight + 1) % n;
                    self.sync_row_highlight();
                    self.popup_dirty = true;
                } else {
                    let i: usize = (self.selected + 1) % n;
                    self.commit(i);
                }
                EventResponse::Handled
            },
            Key::Named(NamedKey::ArrowUp) => {
                if self.open {
                    self.highlight = (self.highlight + n - 1) % n;
                    self.sync_row_highlight();
                    self.popup_dirty = true;
                } else {
                    let i: usize = (self.selected + n - 1) % n;
                    self.commit(i);
                }
                EventResponse::Handled
            },
            Key::Named(NamedKey::Escape) => {
                if self.open {
                    self.close();
                    EventResponse::Handled
                } else {
                    EventResponse::Pass
                }
            },
            _ => EventResponse::Pass,
        }
    }

    /// The pixels of the pill, for the order in which focus moves.
    pub fn focus_bbox(&self) -> (p: PixelRect)
        requires
            self.place_ok(),
        ensures
            p == face::whole_px_rect(self.rect()),
    {
        face::focus_rect(self.bbox())
    }

    /// The tint over the widget in its state.
    pub open spec fn tint(&self) -> u32 {
        if self.focused {
            colour::sub_rgb(theme::BUTTON_ACTIVE, theme::BUTTON_FILL)
        } else if self.hovered {
            colour::sub_rgb(theme::BUTTON_HOVER, theme::BUTTON_FILL)
        } else {
            0
        }
    }

    /// The tint over the fill: none, hovered, or focused, which wins over hovered.
    pub fn tint_delta(&self) -> (d: u32)
        ensures
            d == self.tint(),
    {
        if self.focused {
            colour::wrap_sub_rgb(theme::BUTTON_ACTIVE, theme::BUTTON_FILL)
        } else if self.hovered {
            colour::wrap_sub_rgb(theme::BUTTON_HOVER, theme::BUTTON_FILL)
        } else {
            0
        }
    }

    /// The dropdown takes part in clicks, keys, focus and hovering while it is enabled.
    pub fn accepts_input(&self) -> (b: bool)
        ensures
            b == self.enabled,
    {
        self.enabled
    }
}

/// What the rasterisers need from outside to paint the popup: the glyphs of each label, and the corner
/// tables of the fill and of the edge.
pub struct PopupArt<'a> {
    pub labels: &'a [Vec<GlyphImage>],
    pub inner: &'a [(u16, u8, u8)],
    pub outer: &'a [(u16, u8, u8)],
}

impl<'a> PopupArt<'a> {
    /// There is a label for each of `n` rows, and every glyph is well formed.
    pub open spec fn wf(&self, n: int) -> bool {
        &&& self.labels@.len() == n
        &&& forall|i: int, j: int|
            0 <= i < n && 0 <= j < self.labels@[i]@.len() ==> (#[trigger] self.labels@[i]@[j]).wf()
    }
}

/// What the rasterisers need from outside to paint the pill: its corner tables and the glyphs of the
/// current choice, placed on the text layer.
pub struct SelectorArt<'a> {
    pub inner: &'a [(u16, u8, u8)],
    pub outer: &'a [(u16, u8, u8)],
    pub glyphs: &'a [GlyphImage],
}

impl<'a> SelectorArt<'a> {
    /// Every glyph is well formed.
    pub open spec fn wf(&self) -> bool {
        forall|i: int| 0 <= i < self.glyphs@.len() ==> (#[trigger] self.glyphs@[i]).wf()
    }
}

impl Dropdown {
    /// The top of row `i` of the popup.
    pub open spec fn row_top(&self, r: Region, i: int) -> int {
        r.y + self.popup_pad() + i * self.row_h()
    }

    /// The pixels of row `i` of the popup, clear of its edge.
    pub open spec fn row_band(&self, r: Region, i: int) -> PixelRect {
        let stroke = face::stroke_px(self.stroke_ru as int, self.font_size as int);
        let x = coord::truncated(r.x as int, PX as int);
        let w = coord::truncated(r.w as int, PX as int);
        let top = self.row_top(r, i);
        PixelRect {
            x0: vstd::math::max(x + stroke, 0) as usize,
            y0: vstd::math::max(coord::truncated(top, PX as int), 0) as usize,
            x1: vstd::math::max(x + w - stroke, 0) as usize,
            y1: vstd::math::max(coord::truncated(top + self.row_h(), PX as int), 0) as usize,
        }
    }

    /// The mark of the current choice, in its row.
    pub open spec fn marker(&self, r: Region) -> Figure {
        figure::circle_figure(
            r.x + coord::truncated(self.popup_pad() * 6, 5),
            self.row_top(r, self.selected as int) + coord::truncated(self.row_h(), 2),
            coord::truncated(self.font_size * 7, 50),
            theme::TEXTBOX_TEXT,
        )
    }

    /// The canvas after the first `n` rows of the popup were painted: the mark at the current choice,
    /// and the labels.
    pub open spec fn with_rows(
        &self,
        pixels: Seq<u32>,
        w: usize,
        h: usize,
        art: &PopupArt,
        c: Clip,
        n: int,
    ) -> Seq<u32>
        decreases n,
    {
        if n <= 0 {
            pixels
        } else {
            let before = self.with_rows(pixels, w, h, art, c, n - 1);
            let marked = if n - 1 == self.selected {
                self.marker(self.popup_rect(h as int)).over(before, w, h, theme::TEXTBOX_TEXT, c)
            } else {
                before
            };
            text::with_glyphs(
                marked,
                w as int,
                art.labels@[n - 1]@,
                theme::TEXTBOX_TEXT,
                c,
                None,
                art.labels@[n - 1]@.len() as int,
            )
        }
    }

    /// The hit map after the first `n` rows of the popup were stamped on it.
    pub open spec fn with_row_hits(
        &self,
        hits: Seq<HitId>,
        w: int,
        h: int,
        r: Region,
        n: int,
    ) -> Seq<HitId>
        decreases n,
    {
        if n <= 0 {
            hits
        } else {
            face::with_band(
                self.with_row_hits(hits, w, h, r, n - 1),
                w,
                h,
                self.row_band(r, n - 1),
                self.rows@[n - 1].hit_id,
            )
        }
    }

    /// The popup has a pixel.
    pub open spec fn popup_shows(&self, r: Region) -> bool {
        coord::truncated(r.w as int, PX as int) > 0 && coord::truncated(r.h as int, PX as int) > 0
    }

    /// The canvas after the popup was painted: the rows, the fill and the edge.
    pub open spec fn with_popup(
        &self,
        pixels: Seq<u32>,
        w: usize,
        h: usize,
        art: &PopupArt,
        c: Clip,
    ) -> Seq<u32> {
        let r = self.popup_rect(h as int);
        let stroke = face::stroke_px(self.stroke_ru as int, self.font_size as int);
        let x = coord::truncated(r.x as int, PX as int);
        let y = coord::truncated(r.y as int, PX as int);
        let pw = coord::truncated(r.w as int, PX as int);
        let ph = coord::truncated(r.h as int, PX as int);
        let rows = self.with_rows(pixels, w, h, art, c, self.rows@.len() as int);
        let filled = squircle::with_pill(
            rows,
            w as int,
            h as int,
            art.inner@,
            PillRect {
                x: x + stroke,
                y: y + stroke,
                w: vstd::math::max(pw - 2 * stroke, 0),
                h: vstd::math::max(ph - 2 * stroke, 0),
            },
            theme::TEXTBOX_FILL,
            theme::TEXTBOX_FILL,
        );
        squircle::with_pill(
            filled,
            w as int,
            h as int,
            art.outer@,
            PillRect { x, y, w: pw, h: ph },
            theme::TEXTBOX_LIGHT_EDGE,
            theme::TEXTBOX_SHADOW_EDGE,
        )
    }

    /// Where the label of row `i` of the popup goes: its left end, and the row of its middle.
    pub fn popup_label_anchor(&self, viewport_h: usize, i: usize) -> (p: (Coord, Coord))
        requires
            self.wf(),
            i < self.rows@.len(),
        ensures
            ({
                let r = self.popup_rect(viewport_h as int);
                &&& p.0 == r.x + coord::truncated(self.popup_pad() * 11, 5)
                &&& p.1 == self.row_top(r, i as int) + coord::truncated(self.row_h(), 2)
            }),
    {
        let r = self.popup_region(viewport_h);
        let row_h: Coord = self.row_height();
        let pad: Coord = self.popup_padding();
        proof {
            assert(0 <= i * row_h && i * row_h + row_h <= 2 * (self.font_size * self.rows@.len()))
                by (nonlinear_arith)
                requires
                    0 <= row_h <= 2 * self.font_size,
                    0 <= i < self.rows@.len(),
            ;
        }
        (
            r.x + coord::truncate(pad as i128 * 11, 5) as i64,
            r.y + pad + i as i64 * row_h + coord::half(row_h),
        )
    }

    /// Paints the mark and the label of row `i`.
    fn paint_row(
        &self,
        canvas: &mut Canvas,
        art: &PopupArt,
        clip: Option<Clip>,
        r: Region,
        i: usize,
    )
        requires
            self.wf(),
            old(canvas).fits(),
            art.wf(self.rows@.len() as int),
            i < self.rows@.len(),
            r == self.popup_rect(old(canvas).height as int),
            face::edges_ok(r),
            -0x1000_0000_0000 <= r.y <= 0x1000_0000_0000,
            -0x1000_0000_0000 <= r.x <= 0x1000_0000_0000,
            Clip::resolved(clip, old(canvas).width, old(canvas).height).within(
                old(canvas).width,
                old(canvas).height,
            ),
        ensures
            ({
                let w = old(canvas).width;
                let h = old(canvas).height;
                let c = Clip::resolved(clip, w, h);
                let marked = if i == self.selected {
                    self.marker(r).over(old(canvas).pixels@, w, h, theme::TEXTBOX_TEXT, c)
                } else {
                    old(canvas).pixels@
                };
                final(canvas).pixels@ == text::with_glyphs(
                    marked,
                    w as int,
                    art.labels@[i as int]@,
                    theme::TEXTBOX_TEXT,
                    c,
                    None,
                    art.labels@[i as int]@.len() as int,
                )
            }),
            final(canvas).damage.rect() == (if i == self.selected {
                self.marker(r).damage(
                    old(canvas).damage.rect(),
                    old(canvas).width,
                    old(canvas).height,
                    Clip::resolved(clip, old(canvas).width, old(canvas).height),
                )
            } else {
                old(canvas).damage.rect()
            }),
            final(canvas).pixels@.len() == old(canvas).pixels@.len(),
            final(canvas).width == old(canvas).width,
            final(canvas).height == old(canvas).height,
            final(final(canvas).pixels)@ == final(old(canvas).pixels)@,
            *final(final(canvas).damage) == *final(old(canvas).damage),
    {
        if i == self.selected {
            let row_h: Coord = self.row_height();
            let pad: Coord = self.popup_padding();
            proof {
                assert(0 <= i * row_h && i * row_h + row_h <= 2 * (self.font_size
                    * self.rows@.len())) by (nonlinear_arith)
                    requires
                        0 <= row_h <= 2 * self.font_size,
                        0 <= i < self.rows@.len(),
                ;
            }
            let cx: Coord = r.x + coord::truncate(pad as i128 * 6, 5) as i64;
            let cy: Coord = r.y + pad + i as i64 * row_h + coord::half(row_h);
            let radius: Coord = coord::truncate(self.font_size as i128 * 7, 50) as i64;
            figure::draw_circle(canvas, cx, cy, radius, theme::TEXTBOX_TEXT, clip);
        }
        let w: usize = canvas.width;
        let h: usize = canvas.height;
        let ghost marked = canvas.pixels@;
        let label: &Vec<GlyphImage> = &art.labels[i];
        text::draw_glyphs(
            canvas.pixels,
            w,
            h,
            label.as_slice(),
            theme::TEXTBOX_TEXT,
            clip,
            None,
        );
        proof {
            text::lemma_glyphs_len(
                marked,
                w as int,
                label@,
                theme::TEXTBOX_TEXT,
                Clip::resolved(clip, w, h),
                None,
                label@.len() as int,
            );
        }
    }

    /// The pixels of row `i` of the popup.
    fn band_of_row(&self, r: Region, i: usize) -> (b: PixelRect)
        requires
            self.wf(),
            i < self.rows@.len(),
            face::edges_ok(r),
            -0x1000_0000_0000 <= r.y <= 0x1000_0000_0000,
            r.w == self.width,
            face::placeable(self.width as int),
        ensures
            b == self.row_band(r, i as int),
    {
        let stroke: isize = face::stroke_width(self.stroke_ru, self.font_size);
        let row_h: Coord = self.row_height();
        let pad: Coord = self.popup_padding();
        proof {
            assert(0 <= i * row_h && i * row_h + row_h <= 2 * (self.font_size * self.rows@.len()))
                by (nonlinear_arith)
                requires
                    0 <= row_h <= 2 * self.font_size,
                    0 <= i < self.rows@.len(),
            ;
        }
        let top: Coord = r.y + pad + i as i64 * row_h;
        let x: i128 = coord::truncate(r.x as i128, 0x1_0000);
        let w: i128 = coord::truncate(r.w as i128, 0x1_0000);
        let y0: i128 = coord::truncate(top as i128, 0x1_0000);
        let y1: i128 = coord::truncate((top + row_h) as i128, 0x1_0000);
        PixelRect::new(
            usable(x + stroke as i128),
            usable(y0),
            usable(x + w - stroke as i128),
            usable(y1),
        )
    }

    /// The damage after the first `n` rows of the popup were painted.
    pub open spec fn rows_damage(
        &self,
        d: Option<PixelRect>,
        w: usize,
        h: usize,
        c: Clip,
        n: int,
    ) -> Option<PixelRect> {
        if self.selected < n {
            self.marker(self.popup_rect(h as int)).damage(d, w, h, c)
        } else {
            d
        }
    }

    /// The damage after the popup was painted.
    pub open spec fn popup_damage(
        &self,
        d: Option<PixelRect>,
        w: usize,
        h: usize,
        c: Clip,
    ) -> Option<PixelRect> {
        let r = self.popup_rect(h as int);
        let stroke = face::stroke_px(self.stroke_ru as int, self.font_size as int);
        let x = coord::truncated(r.x as int, PX as int);
        let y = coord::truncated(r.y as int, PX as int);
        let pw = coord::truncated(r.w as int, PX as int);
        let ph = coord::truncated(r.h as int, PX as int);
        let d1 = self.rows_damage(d, w, h, c, self.rows@.len() as int);
        let d2 = squircle::pill_damage(
            d1,
            w as int,
            h as int,
            PillRect {
                x: x + stroke,
                y: y + stroke,
                w: vstd::math::max(pw - 2 * stroke, 0),
                h: vstd::math::max(ph - 2 * stroke, 0),
            },
        );
        squircle::pill_damage(d2, w as int, h as int, PillRect { x, y, w: pw, h: ph })
    }

    /// Paints the marks and labels of all rows.
    fn paint_rows(&self, canvas: &mut Canvas, art: &PopupArt, clip: Option<Clip>, r: Region)
        requires
            self.wf(),
            old(canvas).fits(),
            art.wf(self.rows@.len() as int),
            r == self.popup_rect(old(canvas).height as int),
            face::edges_ok(r),
            -0x1000_0000_0000 <= r.y <= 0x1000_0000_0000,
            -0x1000_0000_0000 <= r.x <= 0x1000_0000_0000,
            Clip::resolved(clip, old(canvas).width, old(canvas).height).within(
                old(canvas).width,
                old(canvas).height,
            ),
        ensures
            final(canvas).pixels@ == self.with_rows(
                old(canvas).pixels@,
                old(canvas).width,
                old(canvas).height,
                art,
                Clip::resolved(clip, old(canvas).width, old(canvas).height),
                self.rows@.len() as int,
            ),
            final(canvas).damage.rect() == self.rows_damage(
                old(canvas).damage.rect(),
                old(canvas).width,
                old(canvas).height,
                Clip::resolved(clip, old(canvas).width, old(canvas).height),
                self.rows@.len() as int,
            ),
            final(canvas).pixels@.len() == old(canvas).pixels@.len(),
            final(canvas).width == old(canvas).width,
            final(canvas).height == old(canvas).height,
            final(final(canvas).pixels)@ == final(old(canvas).pixels)@,
            *final(final(canvas).damage) == *final(old(canvas).damage),
    {
        let n: usize = self.rows.len();
        let mut i: usize = 0;
        while i < n
            invariant
                0 <= i <= n,
                n == self.rows@.len(),
                self.wf(),
                canvas.fits(),
                art.wf(self.rows@.len() as int),
                r == self.popup_rect(old(canvas).height as int),
                face::edges_ok(r),
                -0x1000_0000_0000 <= r.y <= 0x1000_0000_0000,
                -0x1000_0000_0000 <= r.x <= 0x1000_0000_0000,
                Clip::resolved(clip, canvas.width, canvas.height).within(
                    canvas.width,
                    canvas.height,
                ),
                canvas.pixels@ == self.with_rows(
                    old(canvas).pixels@,
                    old(canvas).width,
                    old(canvas).height,
                    art,
                    Clip::resolved(clip, old(canvas).width, old(canvas).height),
                    i as int,
                ),
                canvas.damage.rect() == self.rows_damage(
                    old(canvas).damage.rect(),
                    old(canvas).width,
                    old(canvas).height,
                    Clip::resolved(clip, old(canvas).width, old(canvas).height),
                    i as int,
                ),
                canvas.pixels@.len() == old(canvas).pixels@.len(),
                canvas.width == old(canvas).width,
                canvas.height == old(canvas).height,
                final(canvas.pixels)@ == final(old(canvas).pixels)@,
                *final(canvas.damage) == *final(old(canvas).damage),
            decreases n - i,
        {
            self.paint_row(canvas, art, clip, r, i);
            i = i + 1;
        }
    }

    /// Stamps the identifiers of all rows.
    fn stamp_rows(&self, hits: &mut [HitId], w: usize, h: usize, r: Region)
        requires
            self.wf(),
            w * h <= old(hits)@.len(),
            face::edges_ok(r),
            -0x1000_0000_0000 <= r.y <= 0x1000_0000_0000,
            r.w == self.width,
        ensures
            final(hits)@ == self.with_row_hits(
                old(hits)@,
                w as int,
                h as int,
                r,
                self.rows@.len() as int,
            ),
    {
        let n: usize = self.rows.len();
        let mut i: usize = 0;
        while i < n
            invariant
                0 <= i <= n,
                n == self.rows@.len(),
                self.wf(),
                w * h <= hits@.len(),
                face::edges_ok(r),
                -0x1000_0000_0000 <= r.y <= 0x1000_0000_0000,
                r.w == self.width,
                hits@ == self.with_row_hits(old(hits)@, w as int, h as int, r, i as int),
            decreases n - i,
        {
            let band = self.band_of_row(r, i);
            face::stamp_band(hits, w, h, band, self.rows[i].hit_id);
            i = i + 1;
        }
    }

    /// The popup is about to be painted.
    pub open spec fn popup_paints(&self, viewport_h: int) -> bool {
        self.open && self.enabled && self.popup_shows(self.popup_rect(viewport_h))
    }

    /// Paints the open popup and stamps the identifier of each row over its band. While the popup is
    /// closed, what is known of its last paint is forgotten. Whether anything was rasterised is
    /// returned.
    pub fn render_popup_into(
        &mut self,
        canvas: &mut Canvas,
        art: &PopupArt,
        clip: Option<Clip>,
        hit_map: Option<&mut [HitId]>,
    ) -> (rasterised: bool)
        requires
            old(self).wf(),
            old(canvas).fits(),
            art.wf(old(self).rows@.len() as int),
            Clip::resolved(clip, old(canvas).width, old(canvas).height).within(
                old(canvas).width,
                old(canvas).height,
            ),
            match hit_map {
                Some(m) => old(canvas).width * old(canvas).height <= m@.len(),
                None => true,
            },
        ensures
            rasterised == old(self).popup_paints(old(canvas).height as int),
            ({
                let w = old(canvas).width;
                let h = old(canvas).height;
                let r = old(self).popup_rect(h as int);
                let c = Clip::resolved(clip, w, h);
                if rasterised {
                    &&& *final(self) == (Dropdown {
                        last_painted_popup: Some(face::region_px(r, w, h)),
                        popup_dirty: false,
                        ..*old(self)
                    })
                    &&& final(canvas).pixels@ == old(self).with_popup(
                        old(canvas).pixels@,
                        w,
                        h,
                        art,
                        c,
                    )
                    &&& final(canvas).damage.rect() == old(self).popup_damage(
                        old(canvas).damage.rect(),
                        w,
                        h,
                        c,
                    )
                    &&& match hit_map {
                        Some(m) => final(m)@ == old(self).with_row_hits(
                            m@,
                            w as int,
                            h as int,
                            r,
                            old(self).rows@.len() as int,
                        ),
                        None => true,
                    }
                } else {
                    &&& *final(self) == (if old(self).popup_dirty && !old(self).open {
                        Dropdown { last_painted_popup: None, popup_dirty: false, ..*old(self) }
                    } else {
                        *old(self)
                    })
                    &&& final(canvas).pixels@ == old(canvas).pixels@
                    &&& final(canvas).damage.rect() == old(canvas).damage.rect()
                    &&& match hit_map {
                        Some(m) => final(m)@ == m@,
                        None => true,
                    }
                }
            }),
            final(canvas).width == old(canvas).width,
            final(canvas).height == old(canvas).height,
            final(final(canvas).pixels)@ == final(old(canvas).pixels)@,
            *final(final(canvas).damage) == *final(old(canvas).damage),
    {
        if !self.open || !self.enabled {
            if self.popup_dirty && !self.open {
                self.last_painted_popup = None;
                self.popup_dirty = false;
            }
            return false;
        }
        let vw: usize = canvas.width;
        let vh: usize = canvas.height;
        let r = self.popup_region(vh);
        let x: isize = coord::truncate(r.x as i128, 0x1_0000) as isize;
        let y: isize = coord::truncate(r.y as i128, 0x1_0000) as isize;
        let w: isize = coord::truncate(r.w as i128, 0x1_0000) as isize;
        let h: isize = coord::truncate(r.h as i128, 0x1_0000) as isize;
        if w <= 0 || h <= 0 {
            return false;
        }
        let stroke: isize = face::stroke_width(self.stroke_ru, self.font_size);
        self.paint_rows(canvas, art, clip, r);
        match hit_map {
            Some(m) => {
                self.stamp_rows(m, vw, vh, r);
            },
            None => {},
        }
        let inner_w: isize = if w as i128 - 2 * stroke as i128 > 0 {
            w - 2 * stroke
        } else {
            0
        };
        let inner_h: isize = if h as i128 - 2 * stroke as i128 > 0 {
            h - 2 * stroke
        } else {
            0
        };
        let ghost rows = canvas.pixels@;
        crate::paint::draw_squircle_pill(
            canvas,
            x + stroke,
            y + stroke,
            inner_w,
            inner_h,
            theme::TEXTBOX_FILL,
            art.inner,
        );
        proof {
            squircle::lemma_pill_len(
                rows,
                vw as int,
                vh as int,
                art.inner@,
                PillRect {
                    x: x + stroke,
                    y: y + stroke,
                    w: inner_w as int,
                    h: inner_h as int,
                },
                theme::TEXTBOX_FILL,
                theme::TEXTBOX_FILL,
            );
        }
        crate::paint::draw_squircle_pill_two_tone(
            canvas,
            x,
            y,
            w,
            h,
            theme::TEXTBOX_LIGHT_EDGE,
            theme::TEXTBOX_SHADOW_EDGE,
            art.outer,
            None,
            0,
        );
        self.last_painted_popup = Some(face::region_to_pixelrect(r, vw, vh));
        self.popup_dirty = false;
        true
    }

    /// The width of the pill in pixels.
    pub open spec fn cols(&self) -> int {
        coord::truncated(self.width as int, PX as int)
    }

    /// The height of the pill in pixels.
    pub open spec fn face_rows(&self) -> int {
        coord::truncated(self.height as int, PX as int)
    }

    /// The pill has a pixel.
    pub open spec fn shows(&self) -> bool {
        self.cols() > 0 && self.face_rows() > 0
    }

    /// Where the pill goes on a canvas whose corner is at the offset.
    pub open spec fn pill_at(&self, offset_x: int, offset_y: int) -> PillRect {
        PillRect {
            x: face::target_px(self.center_x as int, self.width as int, offset_x),
            y: face::target_px(self.center_y as int, self.height as int, offset_y),
            w: self.cols(),
            h: self.face_rows(),
        }
    }

    /// The layers were rasterised for the other of enabled and disabled.
    pub open spec fn stale(&self) -> bool {
        self.cache_disabled == self.enabled
    }

    /// The text layer: the label, clipped to the fill, and the chevron.
    pub open spec fn text_layer(&self, art: &SelectorArt, mask: Seq<u8>) -> Seq<u32> {
        let cw = self.cols();
        let ch = self.face_rows();
        let label = if self.font_size > 0 {
            FaceCache::text_pixels(cw, ch, art.glyphs@, self.label_colour(), mask)
        } else {
            pool::solid(cw * ch, 0)
        };
        let whole = Clip::whole(cw as usize, ch as usize);
        let (a, b) = self.chevron();
        b.over(
            a.over(label, cw as usize, ch as usize, self.label_colour(), whole),
            cw as usize,
            ch as usize,
            self.label_colour(),
            whole,
        )
    }

    /// How thick the strokes of the chevron are.
    pub open spec fn chevron_thick(&self) -> int {
        vstd::math::max(
            region::part_of(self.font_size as int, self.stroke_ru as int) + 0x1_8000,
            0x1_8000,
        )
    }

    /// How thick the strokes of the chevron are.
    fn chevron_thickness(&self) -> (thick: Coord)
        requires
            self.wf(),
        ensures
            thick == self.chevron_thick(),
            0x1_8000 <= thick <= face::MAX_STROKE + 0x1_8000,
    {
        let stroke: Coord = face::stroke_part(self.stroke_ru, self.font_size);
        if stroke > 0 {
            stroke + 0x1_8000
        } else {
            0x1_8000
        }
    }

    /// The two strokes of the chevron at the right end of the pill, at half a right angle to both
    /// sides.
    pub open spec fn chevron(&self) -> (Figure, Figure) {
        let wide = coord::truncated(self.font_size * 11, 20);
        let cx = self.cols() * PX - coord::truncated(self.popup_pad() * 3, 2) - coord::truncated(
            wide,
            2,
        );
        let cy = coord::truncated(self.face_rows() * PX, 2);
        let long = region::part_of(wide, figure::DIAGONAL as int);
        let thick = self.chevron_thick();
        let diag = figure::DIAGONAL as int;
        (
            figure::turned_rect_figure(
                cx - coord::truncated(wide, 4),
                cy,
                long,
                thick,
                diag,
                diag,
                self.label_colour(),
            ),
            figure::turned_rect_figure(
                cx + coord::truncated(wide, 4),
                cy,
                long,
                thick,
                -diag,
                diag,
                self.label_colour(),
            ),
        )
    }

    /// Draws the chevron on the text layer.
    fn draw_chevron(&self, layer: &mut Canvas, colour: u32)
        requires
            self.wf(),
            old(layer).fits(),
            old(layer).width == self.cols(),
            old(layer).height == self.face_rows(),
            colour == self.label_colour(),
        ensures
            ({
                let w = old(layer).width;
                let h = old(layer).height;
                let (a, b) = self.chevron();
                final(layer).pixels@ == b.over(
                    a.over(old(layer).pixels@, w, h, colour, Clip::whole(w, h)),
                    w,
                    h,
                    colour,
                    Clip::whole(w, h),
                )
            }),
            final(layer).pixels@.len() == old(layer).pixels@.len(),
            final(final(layer).pixels)@ == final(old(layer).pixels)@,
            *final(final(layer).damage) == *final(old(layer).damage),
    {
        let wide: Coord = coord::truncate(self.font_size as i128 * 11, 20) as i64;
        let pad: Coord = self.popup_padding();
        let cx: Coord = layer.width as i64 * 0x1_0000 - coord::truncate(pad as i128 * 3, 2) as i64
            - coord::half(wide);
        let cy: Coord = coord::half(layer.height as i64 * 0x1_0000);
        let quarter: Coord = coord::truncate(wide as i128, 4) as i64;
        proof {
            assert(0 <= wide * figure::DIAGONAL <= 0x800_0000_0000 * 0x1_0000_0000)
                by (nonlinear_arith)
                requires
                    0 <= wide <= 0x800_0000_0000,
                    figure::DIAGONAL == 0xB504_F334,
            ;
        }
        let long: Coord = coord::truncate(
            wide as i128 * figure::DIAGONAL as i128,
            0x1_0000_0000,
        ) as i64;
        let thick: Coord = self.chevron_thickness();
        figure::draw_rect_rotated(
            layer,
            cx - quarter,
            cy,
            long,
            thick,
            figure::DIAGONAL,
            figure::DIAGONAL,
            colour,
            None,
        );
        figure::draw_rect_rotated(
            layer,
            cx + quarter,
            cy,
            long,
            thick,
            -figure::DIAGONAL,
            figure::DIAGONAL,
            colour,
            None,
        );
    }

    /// Where the label goes on the text layer: its left end, and the row of its middle.
    pub fn label_anchor(&self) -> (p: (Coord, Coord))
        requires
            self.place_ok(),
        ensures
            p.0 == coord::truncated(self.popup_pad() * 3, 2),
            p.1 == coord::truncated(self.face_rows() * PX, 2),
    {
        let pad: Coord = self.popup_padding();
        (
            coord::truncate(pad as i128 * 3, 2) as i64,
            coord::half(coord::whole_px(self.height) as i64 * 0x1_0000),
        )
    }

    pub open spec fn style() -> FaceStyle {
        FaceStyle {
            fill: theme::BUTTON_FILL,
            light: theme::TEXTBOX_SHADOW_EDGE,
            shadow: theme::TEXTBOX_LIGHT_EDGE,
        }
    }

    /// The layers after they were brought up to date.
    pub open spec fn refreshed(before: &Dropdown, after: &Dropdown, art: &SelectorArt) -> bool {
        let cw = before.cols();
        let ch = before.face_rows();
        let stroke = face::stroke_px(before.stroke_ru as int, before.font_size as int);
        let pill = before.cache.pill_dirty || before.stale();
        let text = before.cache.text_dirty || before.stale();
        &&& after.cache.pill@ == (if pill {
            face::face_pixels(cw, ch, stroke, Dropdown::style(), art.inner@, art.outer@)
        } else {
            before.cache.pill@
        })
        &&& after.cache.mask@ == (if pill {
            face::opacities(
                face::face_fill(cw, ch, stroke, Dropdown::style().fill, art.inner@),
            )
        } else {
            before.cache.mask@
        })
        &&& after.cache.text@ == (if text {
            before.text_layer(art, after.cache.mask@)
        } else {
            before.cache.text@
        })
        &&& FaceCache::updated(&before.cache, &after.cache, text, cw, ch)
        &&& after.cache_disabled == !before.enabled
    }

    /// The canvas after the pill was painted: text, face, and the glow if the dropdown is focused.
    pub open spec fn painted(
        &self,
        pixels: Seq<u32>,
        w: usize,
        h: usize,
        offset_x: int,
        offset_y: int,
        c: Clip,
    ) -> Seq<u32> {
        let r = self.pill_at(offset_x, offset_y);
        let flat = self.cache.over(pixels, w as int, h as int, r.x, r.y, c);
        if self.focused {
            face::with_focus_glow(flat, w, h, c, r, self.font_size as int, theme::GLOW_DARK)
        } else {
            flat
        }
    }

    /// The damage after the pill was painted.
    pub open spec fn painted_damage(
        &self,
        d: Option<PixelRect>,
        w: usize,
        h: usize,
        offset_x: int,
        offset_y: int,
        c: Clip,
    ) -> Option<PixelRect> {
        let r = self.pill_at(offset_x, offset_y);
        let flat = self.cache.over_damage(d, w as int, h as int, r.x, r.y, c);
        if self.focused {
            face::focus_glow_damage(flat, w, h, c, r, self.font_size as int)
        } else {
            flat
        }
    }

    /// Rasterises the text layer anew.
    fn refresh_text(&mut self, cw: usize, ch: usize, art: &SelectorArt)
        requires
            old(self).wf(),
            art.wf(),
            cw == old(self).cols(),
            ch == old(self).face_rows(),
            cw * ch <= usize::MAX,
            !old(self).cache.pill_dirty,
            old(self).cache.sized(cw as int, ch as int),
        ensures
            final(self).wf(),
            final(self).cache.text@ == old(self).text_layer(art, old(self).cache.mask@),
            final(self).cache.text_w == cw,
            final(self).cache.text_h == ch,
            !final(self).cache.text_dirty,
            final(self).cache.pill == old(self).cache.pill,
            final(self).cache.pill_w == old(self).cache.pill_w,
            final(self).cache.pill_h == old(self).cache.pill_h,
            final(self).cache.pill_dirty == old(self).cache.pill_dirty,
            final(self).cache.mask == old(self).cache.mask,
            *final(self) == (Dropdown {
                cache: final(self).cache,
                cache_disabled: !old(self).enabled,
                ..*old(self)
            }),
    {
        let colour: u32 = self.text_colour();
        let mut text: Vec<u32> = vec![0u32; cw * ch];
        let ghost blank = pool::solid(cw * ch, 0);
        assert(text@ =~= blank);
        if self.font_size > 0 {
            let mask = AlphaMask::new(self.cache.mask.as_slice(), cw, ch);
            text::draw_glyphs(
                text.as_mut_slice(),
                cw,
                ch,
                art.glyphs,
                colour,
                None,
                Some(&mask),
            );
            proof {
                text::lemma_glyphs_len(
                    blank,
                    cw as int,
                    art.glyphs@,
                    colour,
                    Clip::whole(cw, ch),
                    Some(self.cache.mask@),
                    art.glyphs@.len() as int,
                );
            }
        }
        {
            let mut damage = Damage::new();
            let mut layer = Canvas::new(text.as_mut_slice(), cw, ch, &mut damage);
            self.draw_chevron(&mut layer, colour);
        }
        self.cache.text = text;
        self.cache.text_w = cw;
        self.cache.text_h = ch;
        self.cache.text_dirty = false;
        self.cache_disabled = !self.enabled;
    }

    /// Rasterises the layers that are out of date, and returns the number of them.
    fn refresh(&mut self, cw: usize, ch: usize, art: &SelectorArt) -> (rasterised: u32)
        requires
            old(self).wf(),
            art.wf(),
            cw == old(self).cols(),
            ch == old(self).face_rows(),
            cw * ch <= usize::MAX,
            old(self).cache.sized(cw as int, ch as int),
        ensures
            final(self).wf(),
            rasterised == (if old(self).cache.pill_dirty || old(self).stale() {
                1int
            } else {
                0
            }) + (if old(self).cache.text_dirty || old(self).stale() {
                1int
            } else {
                0
            }),
            Dropdown::refreshed(old(self), final(self), art),
            *final(self) == (Dropdown {
                cache: final(self).cache,
                cache_disabled: !old(self).enabled,
                ..*old(self)
            }),
    {
        let stroke: isize = face::stroke_width(self.stroke_ru, self.font_size);
        if self.cache_disabled == self.enabled {
            self.cache.invalidate();
        }
        let mut rasterised: u32 = 0;
        if self.cache.pill_dirty {
            rasterised = 1;
        }
        let style = FaceStyle {
            fill: theme::BUTTON_FILL,
            light: theme::TEXTBOX_SHADOW_EDGE,
            shadow: theme::TEXTBOX_LIGHT_EDGE,
        };
        self.cache.refresh_pill(cw, ch, stroke, style, art.inner, art.outer);
        if self.cache.text_dirty {
            rasterised = rasterised + 1;
            proof {
                assert(self.text_layer(art, self.cache.mask@) == old(self).text_layer(
                    art,
                    self.cache.mask@,
                ));
            }
            self.refresh_text(cw, ch, art);
        }
        rasterised
    }

    /// Paints the layers and the glow.
    fn paint_layers(
        &self,
        canvas: &mut Canvas,
        offset_x: Coord,
        offset_y: Coord,
        clip: Option<Clip>,
        hit_map: Option<&mut [HitId]>,
    )
        requires
            self.wf(),
            self.shows(),
            old(canvas).fits(),
            face::placeable(offset_x as int),
            face::placeable(offset_y as int),
            match hit_map {
                Some(m) => old(canvas).width * old(canvas).height <= m@.len(),
                None => true,
            },
        ensures
            ({
                let w = old(canvas).width;
                let h = old(canvas).height;
                let c = Clip::resolved(clip, w, h);
                let r = self.pill_at(offset_x as int, offset_y as int);
                &&& final(canvas).pixels@ == self.painted(
                    old(canvas).pixels@,
                    w,
                    h,
                    offset_x as int,
                    offset_y as int,
                    c,
                )
                &&& final(canvas).damage.rect() == self.painted_damage(
                    old(canvas).damage.rect(),
                    w,
                    h,
                    offset_x as int,
                    offset_y as int,
                    c,
                )
                &&& match hit_map {
                    Some(m) => final(m)@ == self.cache.over_hits(
                        m@,
                        w as int,
                        h as int,
                        r.x,
                        r.y,
                        c,
                        self.hit_id,
                    ),
                    None => true,
                }
            }),
            final(canvas).width == old(canvas).width,
            final(canvas).height == old(canvas).height,
            final(final(canvas).pixels)@ == final(old(canvas).pixels)@,
            *final(final(canvas).damage) == *final(old(canvas).damage),
    {
        let x: isize = face::target_of(self.center_x, self.width, offset_x);
        let y: isize = face::target_of(self.center_y, self.height, offset_y);
        let pill_w: isize = coord::whole_px(self.width);
        let pill_h: isize = coord::whole_px(self.height);
        self.cache.composite(x, y, canvas, hit_map, self.hit_id, clip);
        if self.focused {
            face::paint_focus_glow(
                canvas,
                x,
                y,
                pill_w,
                pill_h,
                self.font_size,
                theme::GLOW_DARK,
                clip,
            );
        }
    }

    /// Paints the pill on a canvas whose corner is at the offset, and stamps its identifier on the hit
    /// map wherever its face is opaque. Layers that are out of date, or were rasterised for the other
    /// of enabled and disabled, are rasterised first; the number of them is returned. A dropdown
    /// without a pixel paints nothing.
    pub fn render_content_into(
        &mut self,
        canvas: &mut Canvas,
        offset_x: Coord,
        offset_y: Coord,
        art: &SelectorArt,
        clip: Option<Clip>,
        hit_map: Option<&mut [HitId]>,
    ) -> (rasterised: u32)
        requires
            old(self).wf(),
            old(canvas).fits(),
            art.wf(),
            face::placeable(offset_x as int),
            face::placeable(offset_y as int),
            old(self).shows() ==> old(self).cache.sized(old(self).cols(), old(self).face_rows()),
            old(self).shows() ==> old(self).cols() * old(self).face_rows() <= usize::MAX,
            match hit_map {
                Some(m) => old(canvas).width * old(canvas).height <= m@.len(),
                None => true,
            },
        ensures
            final(self).wf(),
            !old(self).shows() ==> {
                &&& rasterised == 0
                &&& *final(self) == *old(self)
                &&& final(canvas).pixels@ == old(canvas).pixels@
                &&& final(canvas).damage.rect() == old(canvas).damage.rect()
                &&& match hit_map {
                    Some(m) => final(m)@ == m@,
                    None => true,
                }
            },
            old(self).shows() ==> ({
                let w = old(canvas).width;
                let h = old(canvas).height;
                let c = Clip::resolved(clip, w, h);
                let r = old(self).pill_at(offset_x as int, offset_y as int);
                &&& rasterised == (if old(self).cache.pill_dirty || old(self).stale() {
                    1int
                } else {
                    0
                }) + (if old(self).cache.text_dirty || old(self).stale() {
                    1int
                } else {
                    0
                })
                &&& Dropdown::refreshed(old(self), final(self), art)
                &&& final(self).cache.sized(final(self).cols(), final(self).face_rows())
                &&& *final(self) == (Dropdown {
                    cache: final(self).cache,
                    cache_disabled: !old(self).enabled,
                    last_painted_bbox: Some(face::region_px(old(self).rect(), w, h)),
                    last_painted_focused: old(self).focused,
                    ..*old(self)
                })
                &&& final(canvas).pixels@ == final(self).painted(
                    old(canvas).pixels@,
                    w,
                    h,
                    offset_x as int,
                    offset_y as int,
                    c,
                )
                &&& final(canvas).damage.rect() == final(self).painted_damage(
                    old(canvas).damage.rect(),
                    w,
                    h,
                    offset_x as int,
                    offset_y as int,
                    c,
                )
                &&& match hit_map {
                    Some(m) => final(m)@ == final(self).cache.over_hits(
                        m@,
                        w as int,
                        h as int,
                        r.x,
                        r.y,
                        c,
                        old(self).hit_id,
                    ),
                    None => true,
                }
            }),
            final(canvas).width == old(canvas).width,
            final(canvas).height == old(canvas).height,
            final(final(canvas).pixels)@ == final(old(canvas).pixels)@,
            *final(final(canvas).damage) == *final(old(canvas).damage),
    {
        let pill_w: isize = coord::whole_px(self.width);
        let pill_h: isize = coord::whole_px(self.height);
        if pill_w <= 0 || pill_h <= 0 {
            return 0;
        }
        let rasterised: u32 = self.refresh(pill_w as usize, pill_h as usize, art);
        self.paint_layers(canvas, offset_x, offset_y, clip, hit_map);
        let bbox = self.bbox();
        self.last_painted_bbox = Some(
            face::region_to_pixelrect(bbox, canvas.width, canvas.height),
        );
        self.last_painted_focused = self.focused;
        rasterised
    }
}

/// Whatever input does, every row keeps its option, and the choice and the highlight stay options.
pub proof fn law_dropdown_stays_valid(s: DropdownState, own: HitId, hit: HitId, i: int, kev: &KeyEvent)
    requires
        s.wf(),
        i >= 0,
    ensures
        s.closed().wf(),
        s.opened().wf(),
        s.toggled().wf(),
        s.committed(i).wf(),
        s.with_selected(i).wf(),
        s.with_focus(true).wf() && s.with_focus(false).wf(),
        s.with_enabled(true).wf() && s.with_enabled(false).wf(),
        s.with_hit(own, hit).wf(),
        s.polled().wf(),
        match s.after_key(kev) {
            Some(t) => t.wf(),
            None => true,
        },
{
    lemma_highlight(s, hit, s.rows.len() as int);
    lemma_fired(s, 0);
    let n = s.rows.len() as int;
    assert(0 <= (s.highlight + 1) % n < n && 0 <= (s.highlight + n - 1) % n < n && 0 <= (s.selected
        + 1) % n < n && 0 <= (s.selected + n - 1) % n < n) by (nonlinear_arith)
        requires
            n > 0,
    ;
}

proof fn lemma_highlight(s: DropdownState, hit: HitId, n: int)
    requires
        s.wf(),
        n <= s.rows.len(),
    ensures
        0 <= hit_highlight(s.rows, hit, s.highlight, n) < s.rows.len(),
    decreases n,
{
    if n > 0 {
        lemma_highlight(s, hit, n - 1);
        assert(s.rows[n - 1].index == n - 1);
    }
}

proof fn lemma_fired(s: DropdownState, from: int)
    requires
        s.wf(),
        from >= 0,
    ensures
        match first_fired(s.rows, from) {
            Some(i) => 0 <= i < s.rows.len(),
            None => true,
        },
    decreases s.rows.len() - from,
{
    if from < s.rows.len() {
        lemma_fired(s, from + 1);
        assert(s.rows[from].index == from);
    }
}

/// Closing the popup chooses nothing, and a popup that is closed stays as it is.
pub proof fn law_closing_chooses_nothing(s: DropdownState)
    ensures
        s.closed().selected == s.selected,
        s.closed().change_counter == s.change_counter,
        !s.closed().open,
        s.closed().closed() == s.closed(),
{
}

/// A choice is reported once: a poll after it reports a change, and the next poll does not.
pub proof fn law_choice_is_reported_once(s: DropdownState, i: int)
    requires
        s.wf(),
        i >= 0,
        s.change_counter == s.last_seen,
    ensures
        ({
            let chosen = s.committed(i).folded();
            let polled = s.committed(i).polled();
            &&& chosen.change_counter != chosen.last_seen
            &&& chosen.selected == s.option_at(i)
            &&& polled.folded().change_counter == polled.folded().last_seen
        }),
{
}

/// A click on a row chooses its option at the next poll and closes the popup.
pub proof fn law_clicked_row_is_chosen(s: DropdownState, i: int)
    requires
        s.wf(),
        s.open,
        0 <= i < s.rows.len(),
        forall|k: int| 0 <= k < s.rows.len() ==> ((#[trigger] s.rows[k]).fired <==> k == i),
    ensures
        s.polled().selected == i,
        !s.polled().open,
{
    lemma_first_fired(s, i, 0);
}

proof fn lemma_first_fired(s: DropdownState, i: int, from: int)
    requires
        s.wf(),
        0 <= from <= i < s.rows.len(),
        forall|k: int| 0 <= k < s.rows.len() ==> ((#[trigger] s.rows[k]).fired <==> k == i),
    ensures
        first_fired(s.rows, from) == Some(i),
    decreases i - from,
{
    assert(s.rows[from].fired <==> from == i);
    assert(s.rows[from].index == from);
    if from < i {
        lemma_first_fired(s, i, from + 1);
    }
}

/// The arrow keys go round: one step down and one step up lead back.
pub proof fn law_arrow_keys_go_round(i: int, n: int)
    requires
        0 <= i < n,
    ensures
        (((i + 1) % n) + n - 1) % n == i,
        (((i + n - 1) % n) + 1) % n == i,
{
    lemma_turn(i, n);
    if i + 1 == n {
        vstd::arithmetic::div_mod::lemma_mod_self_0(n);
        lemma_turn(n - 1, n);
    } else {
        lemma_turn(i + 1, n);
    }
    if i > 0 {
        lemma_turn(i - 1, n);
    } else {
        lemma_turn(n - 1, n);
        vstd::arithmetic::div_mod::lemma_mod_self_0(n);
    }
}

/// A place on a round of `n`, and the same place one round later.
proof fn lemma_turn(i: int, n: int)
    requires
        0 <= i < n,
    ensures
        i % n == i,
        (i + n) % n == i,
{
    vstd::arithmetic::div_mod::lemma_fundamental_div_mod_converse(i, n, 0, i);
    vstd::arithmetic::div_mod::lemma_fundamental_div_mod_converse(i + n, n, 1, i);
}

/// `v`, or 0 where it is negative.
fn usable(v: i128) -> (r: usize)
    requires
        v <= 0xFFFF_FFFF,
    ensures
        r as int == vstd::math::max(v as int, 0),
{
    if v < 0 {
        0
    } else {
        v as usize
    }
}

/// A row of the popup at rest shows the fill, and a hovered one the hover colour, once its tint lies
/// over the fill.
pub proof fn law_row_tint_shows_the_state(d: DropdownRow)
    ensures
        ({
            let shown = overlay::tinted(theme::TEXTBOX_FILL, d.tint());
            &&& d.hovered ==> pixel::red(shown) == 255 - pixel::red(theme::TEXTBOX_HOVER) && pixel::green(
                shown,
            ) == 255 - pixel::green(theme::TEXTBOX_HOVER) && pixel::blue(shown) == 255 - pixel::blue(
                theme::TEXTBOX_HOVER,
            )
            &&& !d.hovered ==> pixel::red(shown) == 255 - pixel::red(theme::TEXTBOX_FILL) && pixel::green(
                shown,
            ) == 255 - pixel::green(theme::TEXTBOX_FILL) && pixel::blue(shown) == 255 - pixel::blue(
                theme::TEXTBOX_FILL,
            )
        }),
{
    overlay::law_tint_shows_the_target(theme::TEXTBOX_FILL, theme::TEXTBOX_FILL, theme::TEXTBOX_HOVER);
    overlay::law_untinted_pixel_shows_itself(theme::TEXTBOX_FILL);
}

/// A dropdown at rest shows its fill, a hovered one the hover colour, and a focused one the active
/// colour, once its tint lies over the fill.
pub proof fn law_tint_shows_the_state(d: Dropdown)
    ensures
        ({
            let shown = overlay::tinted(theme::BUTTON_FILL, d.tint());
            &&& d.focused ==> pixel::red(shown) == 255 - pixel::red(theme::BUTTON_ACTIVE) && pixel::green(shown)
                == 255 - pixel::green(theme::BUTTON_ACTIVE) && pixel::blue(shown) == 255 - pixel::blue(
                theme::BUTTON_ACTIVE,
            )
            &&& d.hovered && !d.focused ==> pixel::red(shown) == 255 - pixel::red(theme::BUTTON_HOVER) && pixel::green(
                shown,
            ) == 255 - pixel::green(theme::BUTTON_HOVER) && pixel::blue(shown) == 255 - pixel::blue(
                theme::BUTTON_HOVER,
            )
            &&& !d.hovered && !d.focused ==> pixel::red(shown) == 255 - pixel::red(theme::BUTTON_FILL) && pixel::green(
                shown,
            ) == 255 - pixel::green(theme::BUTTON_FILL) && pixel::blue(shown) == 255 - pixel::blue(
                theme::BUTTON_FILL,
            )
        }),
{
    overlay::law_tint_shows_the_target(theme::BUTTON_FILL, theme::BUTTON_FILL, theme::BUTTON_ACTIVE);
    overlay::law_tint_shows_the_target(theme::BUTTON_FILL, theme::BUTTON_FILL, theme::BUTTON_HOVER);
    overlay::law_untinted_pixel_shows_itself(theme::BUTTON_FILL);
}

/// The keys steer the popup: while it is open the arrows move the highlight by one row, round at the
/// ends, Enter and Space choose the highlighted option and close it, and Escape closes it with nothing
/// chosen. While it is closed the arrows choose the neighbouring option at once, and Enter and Space
/// open the popup at the current choice. Every choice counts as a change.
pub proof fn law_keys_steer_the_popup(s: DropdownState, kev: KeyEvent)
    requires
        s.wf(),
        kev.pressed,
        s.enabled,
    ensures
        ({
            let n = s.rows.len() as int;
            let next = |i: int|
                if i + 1 < n {
                    i + 1
                } else {
                    0
                };
            let previous = |i: int|
                if i > 0 {
                    i - 1
                } else {
                    n - 1
                };
            let t = s.after_key(&kev)->0;
            let down = kev.key == Key::Named(NamedKey::ArrowDown);
            let up = kev.key == Key::Named(NamedKey::ArrowUp);
            let go = kev.key == Key::Named(NamedKey::Enter) || kev.key == Key::Named(
                NamedKey::Space,
            );
            &&& (down || up || go) ==> s.after_key(&kev) is Some
            &&& s.open && (down || up) ==> t.open && t.selected == s.selected && t.change_counter
                == s.change_counter && t.highlight == (if down {
                next(s.highlight)
            } else {
                previous(s.highlight)
            })
            &&& !s.open && (down || up) ==> !t.open && t.change_counter
                == s.change_counter.wrapping_add(1) && t.selected == (if down {
                next(s.selected)
            } else {
                previous(s.selected)
            })
            &&& s.open && go ==> !t.open && t.selected == s.highlight && t.change_counter
                == s.change_counter.wrapping_add(1)
            &&& !s.open && go ==> t.open && t.highlight == s.selected && t.selected == s.selected
                && t.change_counter == s.change_counter
            &&& s.open && kev.key == Key::Named(NamedKey::Escape) ==> s.after_key(&kev) is Some
                && !t.open && t.selected == s.selected && t.change_counter == s.change_counter
        }),
{
    let n = s.rows.len() as int;
    lemma_next(s.highlight, n);
    lemma_next(s.selected, n);
}

/// The neighbours of a place on a round of `n`.
proof fn lemma_next(i: int, n: int)
    requires
        0 <= i < n,
    ensures
        (i + 1) % n == (if i + 1 < n {
            i + 1
        } else {
            0
        }),
        (i + n - 1) % n == (if i > 0 {
            i - 1
        } else {
            n - 1
        }),
{
    if i + 1 < n {
        lemma_turn(i + 1, n);
    } else {
        vstd::arithmetic::div_mod::lemma_mod_self_0(n);
    }
    if i > 0 {
        lemma_turn(i - 1, n);
    } else {
        lemma_turn(n - 1, n);
    }
}

/// Pointing at a row of the open popup hovers that row alone and brings the highlight to it; pointing
/// at the pill hovers no row and leaves the highlight.
pub proof fn law_pointed_row_is_highlighted(s: DropdownState, own: HitId, i: int)
    requires
        s.wf(),
        s.open,
        s.enabled,
        0 <= i < s.rows.len(),
        !s.rows[i].hovered,
        forall|j: int, k: int|
            0 <= j < k < s.rows.len() ==> (#[trigger] s.rows[j]).hit_id != (
            #[trigger] s.rows[k]).hit_id,
        forall|j: int| 0 <= j < s.rows.len() ==> (#[trigger] s.rows[j]).hit_id != own,
    ensures
        ({
            let t = s.with_hit(own, s.rows[i].hit_id);
            &&& t.highlight == i
            &&& !t.hovered
            &&& t.selected == s.selected
            &&& forall|j: int|
                0 <= j < s.rows.len() ==> ((#[trigger] t.rows[j]).hovered <==> j == i)
        }),
        ({
            let t = s.with_hit(own, own);
            &&& t.highlight == s.highlight
            &&& t.hovered
            &&& forall|j: int| 0 <= j < s.rows.len() ==> !(#[trigger] t.rows[j]).hovered
        }),
{
    let n = s.rows.len() as int;
    lemma_pointed(s, i, n);
    lemma_not_pointed(s, own, n);
    let t = s.with_hit(own, s.rows[i].hit_id);
    assert forall|j: int| 0 <= j < n implies ((#[trigger] t.rows[j]).hovered <==> j == i) by {
        if j < i {
            assert(s.rows[j].hit_id != s.rows[i].hit_id);
        }
        if i < j {
            assert(s.rows[i].hit_id != s.rows[j].hit_id);
        }
    }
}

proof fn lemma_pointed(s: DropdownState, i: int, n: int)
    requires
        s.wf(),
        0 <= i < n <= s.rows.len(),
        !s.rows[i].hovered,
        forall|j: int, k: int|
            0 <= j < k < s.rows.len() ==> (#[trigger] s.rows[j]).hit_id != (
            #[trigger] s.rows[k]).hit_id,
    ensures
        hit_highlight(s.rows, s.rows[i].hit_id, s.highlight, n) == i,
    decreases n,
{
    assert(s.rows[i].index == i);
    if i < n - 1 {
        assert(s.rows[i].hit_id != s.rows[n - 1].hit_id);
        lemma_pointed(s, i, n - 1);
    }
}

proof fn lemma_not_pointed(s: DropdownState, hit: HitId, n: int)
    requires
        n <= s.rows.len(),
        forall|j: int| 0 <= j < s.rows.len() ==> (#[trigger] s.rows[j]).hit_id != hit,
    ensures
        hit_highlight(s.rows, hit, s.highlight, n) == s.highlight,
    decreases n,
{
    if n > 0 {
        lemma_not_pointed(s, hit, n - 1);
    }
}

/// The popup is as wide as the pill and stands under it, with a gap; where it would leave the viewport
/// at the bottom it stands above the pill, or at the top of the viewport if there is no room there
/// either. So it covers the pill only where neither side has room.
pub proof fn law_popup_stands_beside_the_pill(d: Dropdown, viewport_h: usize)
    requires
        d.wf(),
        d.height >= 0,
    ensures
        ({
            let r = d.popup_rect(viewport_h as int);
            let bottom = d.center_y + d.height as int / 2;
            let top = d.center_y - d.height as int / 2;
            &&& r.w == d.width
            &&& 0 <= 2 * r.x - (2 * d.center_x - d.width) <= 1 || d.width < 0
            &&& bottom + POPUP_GAP + r.h <= viewport_h * PX ==> r.y == bottom + POPUP_GAP
            &&& bottom + POPUP_GAP + r.h > viewport_h * PX ==> r.y + r.h + POPUP_GAP == top || r.y
                == 0
            &&& r.y > bottom || r.y + r.h < top || r.y == 0
            &&& r.h == d.rows@.len() * d.row_h() + 2 * d.popup_pad()
        }),
{
    let n = d.rows@.len() as int;
    assert(0 <= n * d.row_h() <= 2 * (d.font_size * n)) by (nonlinear_arith)
        requires
            0 <= d.row_h() <= 2 * d.font_size,
            0 <= n,
    ;
}

/// The rows of the popup tile it from its upper padding to its lower one: each starts where the one
/// before ends.
pub proof fn law_rows_tile_the_popup(d: Dropdown, viewport_h: usize, i: int)
    requires
        d.wf(),
        0 <= i < d.rows@.len(),
    ensures
        ({
            let r = d.popup_rect(viewport_h as int);
            let n = d.rows@.len() as int;
            &&& d.row_top(r, 0) == r.y + d.popup_pad()
            &&& d.row_top(r, i + 1) == d.row_top(r, i) + d.row_h()
            &&& d.row_top(r, n) == r.y + r.h - d.popup_pad()
            &&& d.row_band(r, i).y1 == d.row_band(r, i + 1).y0
            &&& d.row_band(r, i).x0 == d.row_band(r, 0).x0
        }),
{
    let r = d.popup_rect(viewport_h as int);
    let n = d.rows@.len() as int;
    assert((i + 1) * d.row_h() == i * d.row_h() + d.row_h() && 0 * d.row_h() == 0)
        by (nonlinear_arith);
    assert(0 <= n * d.row_h() <= 2 * (d.font_size * n)) by (nonlinear_arith)
        requires
            0 <= d.row_h() <= 2 * d.font_size,
            0 <= n,
    ;
}

/// Pointing at a row hits it: every pixel of the band of row `i` bears that row's identifier once the
/// popup was stamped, and no pixel outside the bands is touched.
pub proof fn law_row_bands_bear_their_identifiers(
    d: Dropdown,
    hits: Seq<HitId>,
    w: usize,
    h: usize,
    r: Region,
    i: int,
    x: int,
    y: int,
    n: int,
)
    requires
        d.wf(),
        0 <= i < n <= d.rows@.len(),
        w * h <= hits.len(),
        0 <= x < w,
        0 <= y < h,
        d.row_band(r, i).x0 <= x < d.row_band(r, i).x1,
        d.row_band(r, i).y0 <= y < d.row_band(r, i).y1,
        -0x4000_0000_0000 <= r.y <= 0x4000_0000_0000,
    ensures
        d.with_row_hits(hits, w as int, h as int, r, n)[y * w + x] == d.rows@[i].hit_id,
    decreases n,
{
    canvas::lemma_cell(x, y, w as int);
    canvas::lemma_cell_bound(x, y, w as int, h as int);
    lemma_row_hits_len(d, hits, w as int, h as int, r, n - 1);
    if i < n - 1 {
        law_row_bands_bear_their_identifiers(d, hits, w, h, r, i, x, y, n - 1);
        let rh = d.row_h();
        assert((i + 1) * rh == i * rh + rh && (i + 1) * rh <= (n - 1) * rh && (n - 1) * rh
            <= 2 * (d.font_size * d.rows@.len())) by (nonlinear_arith)
            requires
                0 <= rh <= 2 * d.font_size,
                0 <= i < n - 1,
                n <= d.rows@.len(),
        ;
        coord::lemma_truncated_order(d.row_top(r, i) + rh, d.row_top(r, n - 1), PX as int);
        coord::lemma_truncated(d.row_top(r, n - 1), PX as int);
    }
}

proof fn lemma_row_hits_len(d: Dropdown, hits: Seq<HitId>, w: int, h: int, r: Region, n: int)
    ensures
        d.with_row_hits(hits, w, h, r, n).len() == hits.len(),
    decreases n,
{
    if n > 0 {
        lemma_row_hits_len(d, hits, w, h, r, n - 1);
    }
}

/// The label of a disabled dropdown has the colour of the enabled one at half its opacity.
pub proof fn law_disabled_label_is_dimmed(d: Dropdown, e: Dropdown)
    requires
        !d.enabled,
        e.enabled,
    ensures
        pixel::red(d.label_colour()) == pixel::red(e.label_colour()),
        pixel::green(d.label_colour()) == pixel::green(e.label_colour()),
        pixel::blue(d.label_colour()) == pixel::blue(e.label_colour()),
        pixel::alpha(e.label_colour()) == 255,
        2 * pixel::alpha(d.label_colour()) == 256,
{
    let c = theme::TEXTBOX_TEXT;
    pixel::lemma_channels(c);
    pixel::lemma_argb(0x80, pixel::red(c), pixel::green(c), pixel::blue(c));
    assert((theme::TEXTBOX_TEXT >> 24) == 255) by (bit_vector);
}

/// The chevron stands at the right end of the pill, one and a half times the padding clear of it, and
/// its two strokes mirror each other; the left one goes down to the right, the right one down to the
/// left, from each stroke's middle on: it points down.
pub proof fn law_chevron_points_down(d: Dropdown, x: int, x2: int, y: int)
    requires
        d.font_size >= 0,
        ({
            let wide = coord::truncated(d.font_size * 11, 20);
            figure::middle(x) + figure::middle(x2) == 2 * (d.cols() * PX - coord::truncated(
                d.popup_pad() * 3,
                2,
            ) - coord::truncated(wide, 2))
        }),
    ensures
        (d.chevron().0.alpha)(x, y) == (d.chevron().1.alpha)(x2, y),
        ({
            let wide = coord::truncated(d.font_size * 11, 20);
            let dx = figure::middle(x) - (d.cols() * PX - coord::truncated(d.popup_pad() * 3, 2)
                - coord::truncated(wide, 2) - coord::truncated(wide, 4));
            let dy = figure::middle(y) - coord::truncated(d.face_rows() * PX, 2);
            let reach = coord::truncated(region::part_of(wide, figure::DIAGONAL as int), 2);
            dx == dy && -reach + figure::HALF <= coord::truncated(
                2 * (dx * figure::DIAGONAL),
                coord::RU_ONE as int,
            ) <= reach - figure::HALF ==> (d.chevron().0.alpha)(x, y) == pixel::alpha(
                d.label_colour(),
            )
        }),
{
    let wide = coord::truncated(d.font_size * 11, 20);
    let mid = d.cols() * PX - coord::truncated(d.popup_pad() * 3, 2) - coord::truncated(wide, 2);
    let cy = coord::truncated(d.face_rows() * PX, 2);
    let diag = figure::DIAGONAL as int;
    let long = region::part_of(wide, diag);
    let dx = figure::middle(x) - (mid - coord::truncated(wide, 4));
    let ex = figure::middle(x2) - (mid + coord::truncated(wide, 4));
    let dy = figure::middle(y) - cy;
    assert(ex == -dx);
    assert(ex * diag == -(dx * diag) && ex * -diag == dx * diag && dy * -diag == -(dy * diag))
        by (nonlinear_arith)
        requires
            ex == -dx,
    ;
    let one = coord::RU_ONE as int;
    let a = figure::turned(dx, dy, diag, diag);
    let b = figure::turned(ex, dy, -diag, diag);
    assert(a.0 == coord::truncated(dx * diag + dy * diag, one));
    assert(b.0 == coord::truncated(-(dx * diag + dy * diag), one));
    assert(b.0 == -a.0);
    assert(b.1 == a.1);
    let hw = coord::truncated(long, 2);
    let hh = coord::truncated(d.chevron_thick(), 2);
    let (p, q) = (figure::edge_cover(hw - a.0), figure::edge_cover(a.0 + hw));
    assert(p * q == q * p) by (nonlinear_arith);
    if dx == dy {
        assert(a.1 == 0);
        assert(dx * diag + dy * diag == 2 * (dx * diag));
        coord::lemma_truncated(d.chevron_thick(), 2);
        figure::law_turned_rect_covers_its_inside(
            x,
            y,
            mid - coord::truncated(wide, 4),
            cy,
            hw,
            hh,
            diag,
            diag,
            d.label_colour(),
        );
    }
}

/// The mark of the current choice stands in the middle of its row: as much of it lies above as below,
/// and its middle is covered by the colour of text.
pub proof fn law_mark_stands_in_its_row(d: Dropdown, r: Region, x: int, y: int, y2: int)
    requires
        figure::middle(y) + figure::middle(y2) == 2 * (d.row_top(r, d.selected as int)
            + coord::truncated(d.row_h(), 2)),
    ensures
        (d.marker(r).alpha)(x, y) == (d.marker(r).alpha)(x, y2),
        d.marker(r).shows ==> d.font_size >= 8,
        ({
            let dx = figure::middle(x) - r.x - coord::truncated(d.popup_pad() * 6, 5);
            let dy = figure::middle(y) - figure::middle(y2);
            let s = coord::truncated(d.font_size * 7, 50);
            s >= figure::HALF && 4 * (dx * dx) + dy * dy <= (2 * s - PX) * (2 * s - PX) ==> (d.marker(
                r,
            ).alpha)(x, y) == pixel::alpha(theme::TEXTBOX_TEXT)
        }),
{
    let cx = r.x + coord::truncated(d.popup_pad() * 6, 5);
    let cy = d.row_top(r, d.selected as int) + coord::truncated(d.row_h(), 2);
    let s = coord::truncated(d.font_size * 7, 50);
    coord::lemma_truncated(d.font_size * 7, 50);
    assert(figure::gap(figure::middle(y), cy) == figure::gap(figure::middle(y2), cy));
    if s >= figure::HALF {
        figure::law_circle_is_round(x, y, cx, cy, s, theme::TEXTBOX_TEXT, x, y);
        let dx = figure::middle(x) - cx;
        let ey = figure::middle(y) - cy;
        let dy = figure::middle(y) - figure::middle(y2);
        assert(dy == 2 * ey);
        assert(dy * dy == 4 * (ey * ey)) by (nonlinear_arith)
            requires
                dy == 2 * ey,
        ;
        let h = s - figure::HALF;
        assert((2 * s - PX) * (2 * s - PX) == 4 * (h * h)) by (nonlinear_arith)
            requires
                2 * h == 2 * s - PX,
        ;
    }
}

/// The rows of the popup lie over its fill and its edge: a pixel that they made opaque stays.
pub proof fn law_rows_lie_over_the_popup(
    d: Dropdown,
    pixels: Seq<u32>,
    w: usize,
    h: usize,
    art: &PopupArt,
    c: Clip,
    i: int,
)
    requires
        ({
            let rows = d.with_rows(pixels, w, h, art, c, d.rows@.len() as int);
            0 <= i < rows.len() && pixel::alpha(rows[i]) == 255
        }),
    ensures
        d.with_popup(pixels, w, h, art, c)[i] == d.with_rows(
            pixels,
            w,
            h,
            art,
            c,
            d.rows@.len() as int,
        )[i],
{
    let r = d.popup_rect(h as int);
    let stroke = face::stroke_px(d.stroke_ru as int, d.font_size as int);
    let x = coord::truncated(r.x as int, PX as int);
    let y = coord::truncated(r.y as int, PX as int);
    let pw = coord::truncated(r.w as int, PX as int);
    let ph = coord::truncated(r.h as int, PX as int);
    let rows = d.with_rows(pixels, w, h, art, c, d.rows@.len() as int);
    let inner = PillRect {
        x: x + stroke,
        y: y + stroke,
        w: vstd::math::max(pw - 2 * stroke, 0),
        h: vstd::math::max(ph - 2 * stroke, 0),
    };
    squircle::law_pills_keep_opaque_pixels(
        rows,
        w as int,
        h as int,
        art.inner@,
        inner,
        theme::TEXTBOX_FILL,
        theme::TEXTBOX_FILL,
        i,
    );
    squircle::lemma_pill_len(
        rows,
        w as int,
        h as int,
        art.inner@,
        inner,
        theme::TEXTBOX_FILL,
        theme::TEXTBOX_FILL,
    );
    squircle::law_pills_keep_opaque_pixels(
        squircle::with_pill(
            rows,
            w as int,
            h as int,
            art.inner@,
            inner,
            theme::TEXTBOX_FILL,
            theme::TEXTBOX_FILL,
        ),
        w as int,
        h as int,
        art.outer@,
        PillRect { x, y, w: pw, h: ph },
        theme::TEXTBOX_LIGHT_EDGE,
        theme::TEXTBOX_SHADOW_EDGE,
        i,
    );
}

} // verus!
