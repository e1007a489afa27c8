//! A text field of one line: its text, cursor, selection and scroll.
//!
//! Widths of characters come from outside: `measure` gives them for a text at a font size.
use crate::canvas::PixelRect;
use crate::coord::{self, Coord, Ratio, PX};
use crate::event::{EventResponse, Key, KeyEvent, Modifiers, NamedKey};
use crate::paint::clip::{self, HitId};
use crate::widgets::cache::FaceCache;
use crate::widgets::chars;
use crate::widgets::edit::{self, Edit};
use crate::widgets::face;
use crate::widgets::ident;
use vstd::prelude::*;

verus! {

pub struct Textbox {
    pub chars: Vec<char>,
    /// Where text is put in, from 0 to the length of the text.
    pub cursor: usize,
    pub hit_id: HitId,
    pub focused: bool,
    pub hovered: bool,
    /// Stroke thickness as a multiple of the font size.
    pub stroke_ru: Ratio,
    pub center_x: Coord,
    pub center_y: Coord,
    pub width: Coord,
    pub height: Coord,
    pub font_size: Coord,
    /// The width of each character.
    pub widths: Vec<Coord>,
    /// How far the text is shifted to the right of its middle.
    pub scroll_offset: Coord,
    /// The cursor is drawn.
    pub blinkey_visible: bool,
    /// The cursor is bright at the top.
    pub blinkey_wave_top: bool,
    /// The other end of the selection.
    pub selection_anchor: Option<usize>,
    pub cache: FaceCache,
    pub last_painted_blinkey_on: bool,
    pub last_painted_blinkey_bbox: Option<PixelRect>,
    pub last_painted_bbox: Option<PixelRect>,
    pub last_painted_focused: bool,
    pub last_painted_selection: Option<(usize, usize)>,
}

/// The part of a text field that edits change: text and selection, widths, scroll, and whether the
/// text layer is out of date.
pub struct Layout {
    pub edit: Edit,
    pub widths: Seq<Coord>,
    pub scroll: int,
    pub dirty: bool,
}

/// The scroll nearest to `scroll` at which a text of width `tw` leaves no gap in a room of width `uw`;
/// a text that fits is centred.
pub open spec fn bounded_scroll(scroll: int, tw: int, uw: int) -> int {
    if tw <= uw {
        0
    } else {
        clip::clamp_int(scroll, -((tw - uw) / 2), (tw - uw) / 2)
    }
}

/// The scroll at which the cursor, `cx` from the start of the text, has come into view.
pub open spec fn scroll_to(scroll: int, tw: int, uw: int, cx: int) -> int {
    let room = coord::truncated(uw, 2);
    let from_middle = cx - tw / 2;
    if from_middle + scroll < -room {
        -room - from_middle
    } else if from_middle + scroll > room {
        room - from_middle
    } else {
        scroll
    }
}

impl Layout {
    /// The width of the text.
    pub open spec fn text_width(self) -> int {
        edit::sum_to(self.widths, self.widths.len() as int)
    }

    /// Where the cursor is, from the start of the text.
    pub open spec fn cursor_x(self) -> int {
        edit::sum_to(self.widths, self.edit.cursor)
    }

    /// With the scroll within its bounds; a change has the text drawn again.
    pub open spec fn bounded(self, uw: int) -> Layout {
        let s = bounded_scroll(self.scroll, self.text_width(), uw);
        Layout { scroll: s, dirty: self.dirty || s != self.scroll, ..self }
    }

    /// With the cursor in view; a change has the text drawn again.
    pub open spec fn chased(self, uw: int) -> Layout {
        if self.text_width() <= uw {
            self.bounded(uw)
        } else {
            let s = scroll_to(self.scroll, self.text_width(), uw, self.cursor_x());
            (Layout { scroll: s, dirty: self.dirty || s != self.scroll, ..self }).bounded(uw)
        }
    }

    /// With another text, cursor or selection and the widths as they are.
    pub open spec fn with_edit(self, e: Edit) -> Layout {
        Layout { edit: e, ..self }
    }
}

/// What a measure owes: for every text of up to `n` characters one width for each character, none
/// negative, and together not wider than a text can be.
pub open spec fn measures<F: Fn(&Vec<char>, Coord) -> Vec<Coord>>(f: F, n: nat) -> bool {
    &&& forall|t: &Vec<char>, s: Coord| #[trigger] f.requires((t, s))
    &&& forall|t: &Vec<char>, s: Coord, w: Vec<Coord>| #[trigger]
        f.ensures((t, s), w) && t@.len() <= n ==> edit::widths_ok(w@) && w@.len() == t@.len()
}

/// The measure may give these widths for the text; an empty text has none and is not measured.
pub open spec fn measured<F: Fn(&Vec<char>, Coord) -> Vec<Coord>>(
    f: F,
    text: Seq<char>,
    font_size: Coord,
    widths: Seq<Coord>,
) -> bool {
    if text.len() == 0 {
        widths.len() == 0
    } else {
        exists|t: Vec<char>, w: Vec<Coord>|
            t@ == text && w@ == widths && #[trigger] f.ensures((&t, font_size), w)
    }
}

/// The layout `b` is `a` with the text of `e`: measured anew, and with the cursor in view.
pub open spec fn relaid<F: Fn(&Vec<char>, Coord) -> Vec<Coord>>(
    f: F,
    font_size: Coord,
    uw: int,
    a: Layout,
    e: Edit,
    b: Layout,
) -> bool {
    measured(f, e.text, font_size, b.widths) && b == (Layout {
        edit: e,
        widths: b.widths,
        scroll: a.scroll,
        dirty: true,
    }).chased(uw)
}

/// The layout `b` is `a` without what was selected.
pub open spec fn cut_to<F: Fn(&Vec<char>, Coord) -> Vec<Coord>>(
    f: F,
    font_size: Coord,
    uw: int,
    a: Layout,
    b: Layout,
) -> bool {
    if a.edit.range() is Some {
        relaid(f, font_size, uw, a, a.edit.cut(), b)
    } else {
        b == a
    }
}

/// The layout `b` is `a` with characters in place of what was selected.
pub open spec fn pasted_to<F: Fn(&Vec<char>, Coord) -> Vec<Coord>>(
    f: F,
    font_size: Coord,
    uw: int,
    a: Layout,
    s: Seq<char>,
    b: Layout,
) -> bool {
    exists|m: Layout|
        #[trigger] cut_to(f, font_size, uw, a, m) && relaid(
            f,
            font_size,
            uw,
            m,
            m.edit.pasted(s),
            b,
        )
}

/// The layout `b` is `a` with the characters typed one after the other; control characters type
/// nothing.
pub open spec fn typed_to<F: Fn(&Vec<char>, Coord) -> Vec<Coord>>(
    f: F,
    font_size: Coord,
    uw: int,
    a: Layout,
    s: Seq<char>,
    b: Layout,
) -> bool
    decreases s.len(),
{
    if s.len() == 0 {
        b == a
    } else if chars::control(s.last()) {
        typed_to(f, font_size, uw, a, s.drop_last(), b)
    } else {
        exists|m: Layout|
            typed_to(f, font_size, uw, a, s.drop_last(), m) && #[trigger] pasted_to(
                f,
                font_size,
                uw,
                m,
                seq![s.last()],
                b,
            )
    }
}

/// The characters that are not control characters.
pub open spec fn printable(s: Seq<char>) -> Seq<char>
    decreases s.len(),
{
    if s.len() == 0 {
        Seq::empty()
    } else if chars::control(s.last()) {
        printable(s.drop_last())
    } else {
        printable(s.drop_last()).push(s.last())
    }
}

impl Textbox {
    /// Text, cursor and selection.
    pub open spec fn edit(&self) -> Edit {
        Edit {
            text: self.chars@,
            cursor: self.cursor as int,
            anchor: match self.selection_anchor {
                Some(a) => Some(a as int),
                None => None,
            },
        }
    }

    /// What edits change.
    pub open spec fn layout(&self) -> Layout {
        Layout {
            edit: self.edit(),
            widths: self.widths@,
            scroll: self.scroll_offset as int,
            dirty: self.cache.text_dirty,
        }
    }

    /// Nothing but what edits change differs.
    pub open spec fn same_rest(&self, other: &Textbox) -> bool {
        *self == (Textbox {
            chars: self.chars,
            cursor: self.cursor,
            selection_anchor: self.selection_anchor,
            widths: self.widths,
            scroll_offset: self.scroll_offset,
            cache: FaceCache { text_dirty: self.cache.text_dirty, ..other.cache },
            ..*other
        })
    }

    pub open spec fn place_ok(&self) -> bool {
        face::place_ok(
            self.center_x as int,
            self.center_y as int,
            self.width as int,
            self.height as int,
            self.font_size as int,
        )
    }

    /// The cursor is in the text, each character has its width, and the geometry is one that a widget
    /// can have.
    pub open spec fn wf(&self) -> bool {
        &&& self.edit().cursor_ok()
        &&& self.widths@.len() == self.chars@.len()
        &&& edit::widths_ok(self.widths@)
        &&& -0x2000_0000_0000_0000 <= self.scroll_offset <= 0x2000_0000_0000_0000
        &&& self.place_ok()
        &&& face::stroke_ok(self.stroke_ru as int, self.font_size as int)
        &&& self.cache.wf()
    }

    /// The space between the edge of the pill and its text.
    pub open spec fn pad(&self) -> int {
        coord::truncated(self.font_size * 2, 5)
    }

    /// The width that is left for the text.
    pub open spec fn room(&self) -> int {
        self.width - 2 * self.pad()
    }

    /// A new text field, with the next hit identifier.
    pub fn new(
        hit_counter: &mut HitId,
        center_x: Coord,
        center_y: Coord,
        width: Coord,
        height: Coord,
        font_size: Coord,
    ) -> (t: Textbox)
        requires
            *old(hit_counter) < HitId::MAX,
        ensures
            *final(hit_counter) == *old(hit_counter) + 1,
            t.hit_id == *final(hit_counter),
            t.layout() == (Layout {
                edit: Edit { text: Seq::empty(), cursor: 0, anchor: None },
                widths: Seq::empty(),
                scroll: 0,
                dirty: true,
            }),
            t.center_x == center_x,
            t.center_y == center_y,
            t.width == width,
            t.height == height,
            t.font_size == font_size,
            t.stroke_ru == 0,
            !t.focused,
            !t.hovered,
            !t.blinkey_visible,
            t.blinkey_wave_top,
            t.cache.wf(),
            t.cache.pill_dirty,
            !t.last_painted_blinkey_on,
            t.last_painted_blinkey_bbox is None,
            t.last_painted_bbox is None,
            !t.last_painted_focused,
            t.last_painted_selection is None,
            t.place_ok() ==> t.wf(),
    {
        let t = Textbox {
            chars: Vec::new(),
            cursor: 0,
            hit_id: ident::next_id(hit_counter),
            focused: false,
            hovered: false,
            stroke_ru: 0,
            center_x,
            center_y,
            width,
            height,
            font_size,
            widths: Vec::new(),
            scroll_offset: 0,
            blinkey_visible: false,
            blinkey_wave_top: true,
            selection_anchor: None,
            cache: FaceCache::new(),
            last_painted_blinkey_on: false,
            last_painted_blinkey_bbox: None,
            last_painted_bbox: None,
            last_painted_focused: false,
            last_painted_selection: None,
        };
        assert(t.chars@ =~= Seq::<char>::empty());
        assert(t.widths@ =~= Seq::<Coord>::empty());
        t
    }

    /// Has both layers rasterised again.
    pub fn invalidate_cache(&mut self)
        ensures
            *final(self) == (Textbox { cache: old(self).cache.marked(true, true), ..*old(self) }),
    {
        self.cache.invalidate();
    }

    /// The width of the text.
    pub fn text_width(&self) -> (w: Coord)
        requires
            self.wf(),
        ensures
            w as int == self.layout().text_width(),
            0 <= w <= 0x1000_0000_0000_0000,
    {
        edit::sum_of(&self.widths, 0, self.widths.len())
    }

    /// The space between the edge of the pill and its text.
    pub fn padding(&self) -> (p: Coord)
        requires
            self.place_ok(),
        ensures
            p as int == self.pad(),
            0 <= p <= self.font_size,
    {
        coord::truncate(self.font_size as i128 * 2, 5) as i64
    }

    /// The left end of the room for the text.
    pub fn text_left(&self) -> (x: Coord)
        requires
            self.place_ok(),
        ensures
            x == self.center_x - coord::truncated(self.width as int, 2) + self.pad(),
    {
        self.center_x - coord::half(self.width) + self.padding()
    }

    /// The right end of the room for the text.
    pub fn text_right(&self) -> (x: Coord)
        requires
            self.place_ok(),
        ensures
            x == self.center_x + coord::truncated(self.width as int, 2) - self.pad(),
    {
        self.center_x + coord::half(self.width) - self.padding()
    }

    /// The width that is left for the text.
    pub fn usable_width(&self) -> (w: Coord)
        requires
            self.place_ok(),
        ensures
            w as int == self.room(),
            -0x4000_0000_0000 <= w <= 0x4000_0000_0000,
    {
        self.width - 2 * self.padding()
    }

    /// Puts the scroll at `v`, within its bounds.
    fn put_scroll(&mut self, v: i128)
        requires
            old(self).wf(),
            -0x1000_0000_0000_0000_0000_0000_0000_0000 <= v
                <= 0x1000_0000_0000_0000_0000_0000_0000_0000,
        ensures
            final(self).wf(),
            final(self).scroll_offset as int == bounded_scroll(
                v as int,
                old(self).layout().text_width(),
                old(self).room(),
            ),
            *final(self) == (Textbox { scroll_offset: final(self).scroll_offset, ..*old(self) }),
    {
        let tw: Coord = self.text_width();
        let uw: Coord = self.usable_width();
        if tw <= uw {
            self.scroll_offset = 0;
        } else {
            let bound: i128 = coord::truncate((tw - uw) as i128, 2);
            self.scroll_offset = if v < -bound {
                (-bound) as i64
            } else if v > bound {
                bound as i64
            } else {
                v as i64
            };
        }
    }

    /// Brings the scroll within its bounds.
    fn clamp_scroll_to_bounds(&mut self)
        requires
            old(self).wf(),
        ensures
            final(self).wf(),
            final(self).layout() == old(self).layout().bounded(old(self).room()),
            *final(self) == (Textbox {
                scroll_offset: final(self).scroll_offset,
                cache: old(self).cache.marked(
                    old(self).cache.pill_dirty,
                    final(self).cache.text_dirty,
                ),
                ..*old(self)
            }),
    {
        let before: Coord = self.scroll_offset;
        self.put_scroll(before as i128);
        if self.scroll_offset != before {
            self.cache.text_dirty = true;
        }
    }

    /// Scrolls the cursor into view.
    fn update_scroll(&mut self)
        requires
            old(self).wf(),
        ensures
            final(self).wf(),
            final(self).layout() == old(self).layout().chased(old(self).room()),
            final(self).same_rest(old(self)),
    {
        let tw: Coord = self.text_width();
        let uw: Coord = self.usable_width();
        if tw > uw {
            let room: Coord = coord::half(uw);
            let cursor_px: Coord = edit::sum_of(&self.widths, 0, self.cursor);
            let from_middle: Coord = cursor_px - coord::half(tw);
            let target: Coord = if from_middle + self.scroll_offset < -room {
                -room - from_middle
            } else if from_middle + self.scroll_offset > room {
                room - from_middle
            } else {
                self.scroll_offset
            };
            if self.scroll_offset != target {
                self.scroll_offset = target;
                self.cache.text_dirty = true;
            }
        }
        self.clamp_scroll_to_bounds();
    }

    /// Measures the text anew.
    fn recalc_widths<F: Fn(&Vec<char>, Coord) -> Vec<Coord>>(&mut self, measure: &F)
        requires
            measures(*measure, old(self).chars@.len()),
        ensures
            measured(*measure, old(self).chars@, old(self).font_size, final(self).widths@),
            edit::widths_ok(final(self).widths@),
            final(self).widths@.len() == old(self).chars@.len(),
            *final(self) == (Textbox {
                widths: final(self).widths,
                cache: old(self).cache.marked(old(self).cache.pill_dirty, true),
                ..*old(self)
            }),
    {
        if self.chars.len() == 0 {
            self.widths = Vec::new();
        } else {
            self.widths = measure(&self.chars, self.font_size);
        }
        self.cache.text_dirty = true;
    }

    /// Measures the text anew and scrolls the cursor into view.
    fn relay<F: Fn(&Vec<char>, Coord) -> Vec<Coord>>(&mut self, measure: &F)
        requires
            measures(*measure, old(self).chars@.len()),
            old(self).edit().cursor_ok(),
            -0x2000_0000_0000_0000 <= old(self).scroll_offset <= 0x2000_0000_0000_0000,
            old(self).place_ok(),
            face::stroke_ok(old(self).stroke_ru as int, old(self).font_size as int),
            old(self).cache.wf(),
        ensures
            final(self).wf(),
            relaid(
                *measure,
                old(self).font_size,
                old(self).room(),
                old(self).layout(),
                old(self).edit(),
                final(self).layout(),
            ),
            final(self).same_rest(old(self)),
    {
        self.recalc_widths(measure);
        self.update_scroll();
    }

    /// Types a character in place of the selection. A control character types nothing.
    pub fn insert_char<F: Fn(&Vec<char>, Coord) -> Vec<Coord>>(&mut self, c: char, measure: &F)
        requires
            old(self).wf(),
            old(self).edit().anchor_ok(),
            measures(*measure, old(self).chars@.len() + 1),
            old(self).chars@.len() < usize::MAX,
        ensures
            final(self).wf(),
            final(self).edit().anchor_ok(),
            final(self).chars@.len() <= old(self).chars@.len() + 1,
            final(self).same_rest(old(self)),
            if chars::control(c) {
                final(self).layout() == old(self).layout()
            } else {
                pasted_to(
                    *measure,
                    old(self).font_size,
                    old(self).room(),
                    old(self).layout(),
                    seq![c],
                    final(self).layout(),
                )
            },
    {
        if c.is_control() {
            return;
        }
        self.delete_selection(measure);
        let ghost m = self.layout();
        let n: usize = self.chars.len();
        self.chars.insert(self.cursor, c);
        self.cursor = self.cursor + 1;
        assert(self.edit().text =~= m.edit.pasted(seq![c]).text);
        self.relay(measure);
        proof {
            assert(cut_to(*measure, old(self).font_size, old(self).room(), old(self).layout(), m));
        }
    }

    /// Takes out the selection or, where there is none, the character before the cursor.
    pub fn backspace<F: Fn(&Vec<char>, Coord) -> Vec<Coord>>(&mut self, measure: &F)
        requires
            old(self).wf(),
            old(self).edit().anchor_ok(),
            measures(*measure, old(self).chars@.len()),
        ensures
            final(self).wf(),
            final(self).same_rest(old(self)),
            if old(self).edit().range() is None && old(self).cursor == 0 {
                final(self).layout() == old(self).layout()
            } else {
                relaid(
                    *measure,
                    old(self).font_size,
                    old(self).room(),
                    old(self).layout(),
                    old(self).edit().backspaced(),
                    final(self).layout(),
                )
            },
    {
        if self.has_selection() {
            self.delete_selection(measure);
            return;
        }
        if self.cursor == 0 {
            return;
        }
        self.cursor = self.cursor - 1;
        self.chars.remove(self.cursor);
        self.relay(measure);
    }

    /// Takes out the selection or, where there is none, the character behind the cursor.
    pub fn delete_forward<F: Fn(&Vec<char>, Coord) -> Vec<Coord>>(&mut self, measure: &F)
        requires
            old(self).wf(),
            old(self).edit().anchor_ok(),
            measures(*measure, old(self).chars@.len()),
        ensures
            final(self).wf(),
            final(self).edit().anchor_ok(),
            final(self).same_rest(old(self)),
            if old(self).edit().range() is None && old(self).cursor == old(self).chars@.len() {
                final(self).layout() == old(self).layout()
            } else {
                relaid(
                    *measure,
                    old(self).font_size,
                    old(self).room(),
                    old(self).layout(),
                    old(self).edit().deleted(),
                    final(self).layout(),
                )
            },
    {
        if self.has_selection() {
            self.delete_selection(measure);
            return;
        }
        if self.cursor >= self.chars.len() {
            return;
        }
        self.chars.remove(self.cursor);
        self.relay(measure);
    }

    /// One character to the left.
    pub fn cursor_left(&mut self)
        requires
            old(self).wf(),
        ensures
            final(self).wf(),
            final(self).layout() == moved_left(old(self).layout(), old(self).room()),
            final(self).same_rest(old(self)),
    {
        if self.cursor > 0 {
            self.cursor = self.cursor - 1;
            self.update_scroll();
        }
    }

    /// One character to the right.
    pub fn cursor_right(&mut self)
        requires
            old(self).wf(),
        ensures
            final(self).wf(),
            final(self).layout() == moved_right(old(self).layout(), old(self).room()),
            final(self).same_rest(old(self)),
    {
        if self.cursor < self.chars.len() {
            self.cursor = self.cursor + 1;
            self.update_scroll();
        }
    }

    /// To the start of the text.
    pub fn cursor_home(&mut self)
        requires
            old(self).wf(),
        ensures
            final(self).wf(),
            final(self).layout() == moved_home(old(self).layout(), old(self).room()),
            final(self).same_rest(old(self)),
    {
        self.cursor = 0;
        self.update_scroll();
    }

    /// To the end of the text.
    pub fn cursor_end(&mut self)
        requires
            old(self).wf(),
        ensures
            final(self).wf(),
            final(self).layout() == moved_end(old(self).layout(), old(self).room()),
            final(self).same_rest(old(self)),
    {
        self.cursor = self.chars.len();
        self.update_scroll();
    }

    /// Something is selected.
    pub fn has_selection(&self) -> (b: bool)
        ensures
            b == (self.edit().range() is Some),
    {
        match self.selection_anchor {
            Some(a) => a != self.cursor,
            None => false,
        }
    }

    /// What is selected, from the lower end to the upper.
    pub open spec fn range(&self) -> Option<(usize, usize)> {
        match self.edit().range() {
            Some((s, e)) => Some((s as usize, e as usize)),
            None => None,
        }
    }

    /// What is selected, from the lower end to the upper.
    pub fn selection_range(&self) -> (r: Option<(usize, usize)>)
        ensures
            r == self.range(),
            match r {
                Some((s, e)) => self.edit().range() == Some((s as int, e as int)),
                None => self.edit().range() is None,
            },
    {
        edit::selected_range(self.selection_anchor, self.cursor)
    }

    /// Selects everything.
    pub fn select_all(&mut self)
        ensures
            final(self).layout() == old(self).layout().with_edit(old(self).edit().all_selected()),
            final(self).same_rest(old(self)),
    {
        self.selection_anchor = Some(0);
        self.cursor = self.chars.len();
    }

    /// Selects the run of one class around a character; past the end, around the last one.
    pub fn select_word_at(&mut self, idx: usize)
        ensures
            final(self).same_rest(old(self)),
            old(self).chars@.len() == 0 ==> final(self).layout() == old(self).layout(),
            old(self).chars@.len() > 0 ==> {
                &&& final(self).selection_anchor is Some
                &&& edit::is_run(
                    old(self).chars@,
                    vstd::math::min(idx as int, old(self).chars@.len() - 1),
                    final(self).selection_anchor->0 as int,
                    final(self).cursor as int,
                    false,
                )
                &&& final(self).layout() == old(self).layout().with_edit(
                    (Edit {
                        text: old(self).chars@,
                        cursor: final(self).cursor as int,
                        anchor: Some(final(self).selection_anchor->0 as int),
                    }),
                )
            },
    {
        if self.chars.len() == 0 {
            return;
        }
        let (start, end) = edit::word_run(&self.chars, idx, false);
        self.selection_anchor = Some(start);
        self.cursor = end;
    }

    /// Takes out what is selected.
    pub fn delete_selection<F: Fn(&Vec<char>, Coord) -> Vec<Coord>>(&mut self, measure: &F)
        requires
            old(self).wf(),
            old(self).edit().anchor_ok(),
            measures(*measure, old(self).chars@.len()),
        ensures
            final(self).wf(),
            final(self).edit().anchor_ok(),
            final(self).chars@.len() <= old(self).chars@.len(),
            final(self).edit() == old(self).edit().cut(),
            cut_to(
                *measure,
                old(self).font_size,
                old(self).room(),
                old(self).layout(),
                final(self).layout(),
            ),
            final(self).same_rest(old(self)),
    {
        match self.selection_range() {
            Some((start, end)) => {
                edit::remove_range(&mut self.chars, start, end);
                self.cursor = start;
                self.selection_anchor = None;
                self.relay(measure);
            },
            None => {},
        }
    }

    /// The characters that are selected.
    pub fn selected_text(&self) -> (s: Option<String>)
        requires
            self.edit().wf(),
        ensures
            match s {
                Some(t) => self.edit().range() is Some && t@ == self.edit().selection(),
                None => self.edit().range() is None,
            },
    {
        match self.selection_range() {
            Some((start, end)) => Some(chars::string_of(self.chars.as_slice(), start, end)),
            None => None,
        }
    }

    /// Puts a string in place of the selection, without its control characters.
    pub fn insert_str<F: Fn(&Vec<char>, Coord) -> Vec<Coord>>(&mut self, s: &str, measure: &F)
        requires
            old(self).wf(),
            old(self).edit().anchor_ok(),
            measures(*measure, old(self).chars@.len() + s@.len()),
            old(self).chars@.len() + s@.len() <= usize::MAX,
        ensures
            final(self).wf(),
            final(self).edit().anchor_ok(),
            final(self).same_rest(old(self)),
            pasted_to(
                *measure,
                old(self).font_size,
                old(self).room(),
                old(self).layout(),
                printable(s@),
                final(self).layout(),
            ),
    {
        self.delete_selection(measure);
        let ghost m = self.layout();
        let all: Vec<char> = chars::chars_of(s);
        let items: Vec<char> = without_controls(&all);
        let n: usize = self.chars.len();
        proof {
            lemma_printable_len(s@);
        }
        edit::insert_all(&mut self.chars, self.cursor, &items);
        self.cursor = self.cursor + items.len();
        self.relay(measure);
        proof {
            assert(cut_to(*measure, old(self).font_size, old(self).room(), old(self).layout(), m));
        }
    }

    /// How far the text is shifted to the right of its middle.
    pub fn scroll_offset(&self) -> (s: Coord)
        ensures
            s == self.scroll_offset,
    {
        self.scroll_offset
    }

    /// Scrolls to `offset`, within the bounds.
    pub fn set_scroll_offset(&mut self, offset: Coord)
        requires
            old(self).wf(),
            -0x2000_0000_0000_0000 <= offset <= 0x2000_0000_0000_0000,
        ensures
            final(self).wf(),
            final(self).layout() == (Layout {
                scroll: offset as int,
                dirty: old(self).cache.text_dirty || offset != old(self).scroll_offset,
                ..old(self).layout()
            }).bounded(old(self).room()),
            final(self).same_rest(old(self)),
    {
        if self.scroll_offset != offset {
            self.scroll_offset = offset;
            self.cache.text_dirty = true;
        }
        self.clamp_scroll_to_bounds();
    }

    /// Scrolls by `delta`, within the bounds.
    pub fn nudge_scroll_offset(&mut self, delta: Coord)
        requires
            old(self).wf(),
            -0x2000_0000_0000_0000 <= old(self).scroll_offset + delta <= 0x2000_0000_0000_0000,
        ensures
            final(self).wf(),
            final(self).layout() == (if delta == 0 {
                old(self).layout()
            } else {
                (Layout {
                    scroll: old(self).scroll_offset + delta,
                    dirty: true,
                    ..old(self).layout()
                }).bounded(old(self).room())
            }),
            final(self).same_rest(old(self)),
    {
        if delta != 0 {
            self.scroll_offset = self.scroll_offset + delta;
            self.cache.text_dirty = true;
            self.clamp_scroll_to_bounds();
        }
    }

    /// Where the text starts.
    pub open spec fn start_x(&self) -> int {
        let tw = self.layout().text_width();
        if tw <= self.room() {
            self.center_x - tw / 2
        } else {
            self.center_x - tw / 2 + self.scroll_offset
        }
    }

    /// Where the text starts: centred where it fits, else shifted by the scroll.
    pub fn text_start_x(&self) -> (x: Coord)
        requires
            self.wf(),
        ensures
            x as int == self.start_x(),
            -0x3000_0000_0000_0000 <= x <= 0x3000_0000_0000_0000,
    {
        let tw: Coord = self.text_width();
        let uw: Coord = self.usable_width();
        if tw <= uw {
            self.center_x - coord::half(tw)
        } else {
            self.center_x - coord::half(tw) + self.scroll_offset
        }
    }

    /// The place in the text nearest to `click_x`: before a character up to its middle, and behind it
    /// from there on.
    pub fn cursor_index_from_x(&self, click_x: Coord) -> (i: usize)
        requires
            self.wf(),
        ensures
            i as int == nearest_place(self.widths@, click_x - self.start_x()),
            i <= self.chars@.len(),
    {
        let start: Coord = self.text_start_x();
        let x: i128 = click_x as i128 - start as i128;
        let n: usize = self.widths.len();
        if x <= 0 {
            return 0;
        }
        let mut sum: Coord = 0;
        let mut i: usize = 0;
        while i < n
            invariant
                0 <= i <= n,
                n == self.widths@.len(),
                n == self.chars@.len(),
                self.wf(),
                x > 0,
                x == click_x - self.start_x(),
                sum == edit::sum_to(self.widths@, i as int),
                nearest_place(self.widths@, x as int) == place_from(
                    self.widths@,
                    x as int,
                    i as int,
                ),
            decreases n - i,
        {
            proof {
                edit::lemma_sum(self.widths@, i as int, i + 1);
                edit::lemma_sum(self.widths@, i + 1, n as int);
            }
            let w: Coord = self.widths[i];
            if x < (sum + coord::half(w)) as i128 {
                return i;
            }
            sum = sum + w;
            i = i + 1;
        }
        n
    }

    /// The point is in the rectangle of the text field.
    pub open spec fn holds(&self, x: int, y: int) -> bool {
        let hw = coord::truncated(self.width as int, 2);
        let hh = coord::truncated(self.height as int, 2);
        self.center_x - hw <= x < self.center_x + hw && self.center_y - hh <= y < self.center_y + hh
    }

    /// The point is in the rectangle of the text field.
    pub fn contains(&self, x: Coord, y: Coord) -> (b: bool)
        requires
            self.place_ok(),
        ensures
            b == self.holds(x as int, y as int),
    {
        let half_w: Coord = coord::half(self.width);
        let half_h: Coord = coord::half(self.height);
        x >= self.center_x - half_w && x < self.center_x + half_w && y >= self.center_y - half_h
            && y < self.center_y + half_h
    }

    /// A click inside gives focus and puts the cursor there; one outside takes focus away. Either way
    /// nothing is selected.
    pub fn handle_click(&mut self, x: Coord, y: Coord)
        requires
            old(self).wf(),
        ensures
            final(self).wf(),
            *final(self) == (if old(self).holds(x as int, y as int) {
                Textbox {
                    focused: true,
                    cursor: nearest_place(old(self).widths@, x - old(self).start_x()) as usize,
                    selection_anchor: None,
                    blinkey_visible: true,
                    blinkey_wave_top: true,
                    ..*old(self)
                }
            } else {
                Textbox {
                    focused: false,
                    selection_anchor: None,
                    blinkey_visible: false,
                    ..*old(self)
                }
            }),
    {
        if self.contains(x, y) {
            self.focused = true;
            self.cursor = self.cursor_index_from_x(x);
            self.selection_anchor = None;
            self.blinkey_visible = true;
            self.blinkey_wave_top = true;
        } else {
            self.focused = false;
            self.blinkey_visible = false;
            self.selection_anchor = None;
        }
    }

    /// Turns the cursor wave upside down, while the text field is focused.
    pub fn flip_blinkey(&mut self) -> (redraw: bool)
        ensures
            redraw == old(self).focused,
            *final(self) == (if old(self).focused {
                Textbox {
                    blinkey_wave_top: !old(self).blinkey_wave_top,
                    blinkey_visible: true,
                    ..*old(self)
                }
            } else {
                *old(self)
            }),
    {
        if !self.focused {
            return false;
        }
        self.blinkey_wave_top = !self.blinkey_wave_top;
        self.blinkey_visible = true;
        true
    }

    /// Moves and resizes the text field. The text stays where it is, as far as the scroll's bounds let
    /// it; a change has both layers rasterised again.
    pub fn set_rect(&mut self, center_x: Coord, center_y: Coord, width: Coord, height: Coord)
        requires
            old(self).wf(),
            face::place_ok(
                center_x as int,
                center_y as int,
                width as int,
                height as int,
                old(self).font_size as int,
            ),
        ensures
            final(self).wf(),
            ({
                let moved = old(self).center_x != center_x || old(self).center_y != center_y || old(
                    self,
                ).width != width || old(self).height != height;
                let s = bounded_scroll(
                    old(self).scroll_offset as int,
                    old(self).layout().text_width(),
                    width - 2 * old(self).pad(),
                );
                *final(self) == (Textbox {
                    center_x,
                    center_y,
                    width,
                    height,
                    scroll_offset: s as Coord,
                    cache: old(self).cache.marked(
                        old(self).cache.pill_dirty || moved,
                        old(self).cache.text_dirty || moved || s != old(self).scroll_offset,
                    ),
                    ..*old(self)
                })
            }),
    {
        if self.center_x != center_x || self.center_y != center_y || self.width != width
            || self.height != height {
            self.cache.invalidate();
        }
        self.center_x = center_x;
        self.center_y = center_y;
        self.width = width;
        self.height = height;
        self.clamp_scroll_to_bounds();
    }

    /// The scroll at another font size: it scales with the font, so that what stood in the middle
    /// stays there.
    pub open spec fn rescaled(&self, font_size: Coord) -> int {
        if self.font_size > 0 {
            coord::truncated(self.scroll_offset * font_size, self.font_size as int)
        } else {
            self.scroll_offset as int
        }
    }

    /// Changes the font size and measures the text anew; a change has both layers rasterised again.
    pub fn set_font_size<F: Fn(&Vec<char>, Coord) -> Vec<Coord>>(
        &mut self,
        font_size: Coord,
        measure: &F,
    )
        requires
            old(self).wf(),
            0 <= font_size <= 0x800_0000_0000,
            face::stroke_ok(old(self).stroke_ru as int, font_size as int),
            measures(*measure, old(self).chars@.len()),
        ensures
            final(self).wf(),
            measured(*measure, old(self).chars@, font_size, final(self).widths@),
            final(self).scroll_offset as int == bounded_scroll(
                old(self).rescaled(font_size),
                edit::sum_to(final(self).widths@, final(self).widths@.len() as int),
                old(self).width - 2 * coord::truncated(font_size * 2, 5),
            ),
            *final(self) == (Textbox {
                font_size,
                widths: final(self).widths,
                scroll_offset: final(self).scroll_offset,
                cache: old(self).cache.marked(
                    old(self).cache.pill_dirty || font_size != old(self).font_size,
                    true,
                ),
                ..*old(self)
            }),
    {
        proof {
            assert(-0x2000_0000_0000_0000 * 0x1000_0000_0000 <= self.scroll_offset * font_size
                <= 0x2000_0000_0000_0000 * 0x1000_0000_0000) by (nonlinear_arith)
                requires
                    -0x2000_0000_0000_0000 <= self.scroll_offset <= 0x2000_0000_0000_0000,
                    0 <= font_size <= 0x1000_0000_0000,
            ;
            if font_size == self.font_size && self.font_size > 0 {
                lemma_truncated_self(self.scroll_offset as int, font_size as int);
            }
        }
        let scaled: i128 = if self.font_size > 0 {
            coord::truncate(self.scroll_offset as i128 * font_size as i128, self.font_size as i128)
        } else {
            self.scroll_offset as i128
        };
        proof {
            lemma_truncated_bound(
                self.scroll_offset * font_size,
                if self.font_size > 0 {
                    self.font_size as int
                } else {
                    1
                },
            );
        }
        if self.font_size != font_size {
            self.cache.invalidate();
        }
        self.font_size = font_size;
        self.recalc_widths(measure);
        self.put_scroll(scaled);
    }

    pub fn hit_id(&self) -> (id: HitId)
        ensures
            id == self.hit_id,
    {
        self.hit_id
    }

    pub fn is_focused(&self) -> (b: bool)
        ensures
            b == self.focused,
    {
        self.focused
    }

    /// Gives or takes focus. The cursor shows while there is focus; text and selection stay as they
    /// are.
    pub fn set_focused(&mut self, focused: bool)
        ensures
            *final(self) == (if focused == old(self).focused {
                *old(self)
            } else if focused {
                Textbox {
                    focused,
                    blinkey_visible: true,
                    blinkey_wave_top: true,
                    ..*old(self)
                }
            } else {
                Textbox { focused, blinkey_visible: false, ..*old(self) }
            }),
    {
        if focused == self.focused {
            return;
        }
        self.focused = focused;
        if focused {
            self.blinkey_visible = true;
            self.blinkey_wave_top = true;
        } else {
            self.blinkey_visible = false;
        }
    }

    pub fn is_hovered(&self) -> (b: bool)
        ensures
            b == self.hovered,
    {
        self.hovered
    }

    pub fn set_hovered(&mut self, hovered: bool)
        ensures
            *final(self) == (Textbox { hovered, ..*old(self) }),
    {
        self.hovered = hovered;
    }

    /// A click puts the cursor there and ends the selection.
    pub fn on_click(&mut self, x: Coord) -> (r: EventResponse)
        requires
            old(self).wf(),
        ensures
            final(self).wf(),
            r == EventResponse::Handled,
            *final(self) == (Textbox {
                cursor: nearest_place(old(self).widths@, x - old(self).start_x()) as usize,
                selection_anchor: None,
                ..*old(self)
            }),
    {
        self.cursor = self.cursor_index_from_x(x);
        self.selection_anchor = None;
        EventResponse::Handled
    }

    /// Starts the selection, lets it go on, or ends it, before the cursor moves.
    fn start_selection(&mut self, shift: bool)
        ensures
            final(self).layout() == old(self).layout().with_edit(old(self).edit().ready(shift)),
            *final(self) == (Textbox {
                selection_anchor: final(self).selection_anchor,
                ..*old(self)
            }),
    {
        if shift && self.selection_anchor.is_none() {
            self.selection_anchor = Some(self.cursor);
        } else if !shift {
            self.selection_anchor = None;
        }
    }

    /// Types characters one after the other. Whether there was any that types is returned.
    fn type_all<F: Fn(&Vec<char>, Coord) -> Vec<Coord>>(&mut self, s: &Vec<char>, measure: &F) -> (
        changed: bool)
        requires
            old(self).wf(),
            old(self).edit().anchor_ok(),
            measures(*measure, old(self).chars@.len() + s@.len()),
            old(self).chars@.len() + s@.len() <= usize::MAX,
        ensures
            final(self).wf(),
            final(self).edit().anchor_ok(),
            final(self).same_rest(old(self)),
            changed == (printable(s@).len() > 0),
            typed_to(
                *measure,
                old(self).font_size,
                old(self).room(),
                old(self).layout(),
                s@,
                final(self).layout(),
            ),
    {
        let mut changed: bool = false;
        let mut i: usize = 0;
        let ghost uw = self.room();
        let ghost fs = self.font_size;
        assert(s@.take(0) =~= Seq::<char>::empty());
        while i < s.len()
            invariant
                0 <= i <= s@.len(),
                self.wf(),
                self.edit().anchor_ok(),
                measures(*measure, old(self).chars@.len() + s@.len()),
                self.chars@.len() + (s@.len() - i) <= old(self).chars@.len() + s@.len(),
                old(self).chars@.len() + s@.len() <= usize::MAX,
                self.same_rest(old(self)),
                uw == old(self).room(),
                fs == old(self).font_size,
                changed == (printable(s@.take(i as int)).len() > 0),
                typed_to(
                    *measure,
                    fs,
                    uw,
                    old(self).layout(),
                    s@.take(i as int),
                    self.layout(),
                ),
            decreases s@.len() - i,
        {
            let c = s[i];
            let ghost m = self.layout();
            proof {
                assert(s@.take(i + 1).drop_last() =~= s@.take(i as int));
                assert(s@.take(i + 1).last() == c);
                assert(self.room() == uw);
            }
            if !c.is_control() {
                self.insert_char(c, measure);
                changed = true;
                proof {
                    lemma_typed_step(
                        *measure,
                        fs,
                        uw,
                        old(self).layout(),
                        s@.take(i as int),
                        m,
                        c,
                        self.layout(),
                    );
                    assert(s@.take(i as int).push(c) =~= s@.take(i + 1));
                }
            }
            i = i + 1;
        }
        assert(s@.take(s@.len() as int) =~= s@);
        changed
    }

    /// A key of a text field: editing and moving keys, select all, and typing. Anything else, and a
    /// key that is released, is passed on.
    pub fn on_key<F: Fn(&Vec<char>, Coord) -> Vec<Coord>>(
        &mut self,
        kev: &KeyEvent,
        mods: Modifiers,
        measure: &F,
    ) -> (r: EventResponse)
        requires
            old(self).wf(),
            key_edits(kev, mods) ==> old(self).edit().anchor_ok(),
            measures(*measure, old(self).chars@.len() + kev.text@.len()),
            old(self).chars@.len() + kev.text@.len() <= usize::MAX,
        ensures
            final(self).wf(),
            final(self).same_rest(old(self)),
            after_key(
                *measure,
                old(self).font_size,
                old(self).room(),
                kev,
                mods,
                old(self).layout(),
                final(self).layout(),
                r,
            ),
    {
        if !kev.pressed {
            return EventResponse::Pass;
        }
        match kev.key {
            Key::Named(NamedKey::Backspace) => {
                self.backspace(measure);
                EventResponse::Handled
            },
            Key::Named(NamedKey::Delete) => {
                self.delete_forward(measure);
                EventResponse::Handled
            },
            Key::Named(NamedKey::ArrowLeft) => {
                self.start_selection(mods.shift);
                self.cursor_left();
                EventResponse::Handled
            },
            Key::Named(NamedKey::ArrowRight) => {
                self.start_selection(mods.shift);
                self.cursor_right();
                EventResponse::Handled
            },
            Key::Named(NamedKey::Home) => {
                self.start_selection(mods.shift);
                self.cursor_home();
                EventResponse::Handled
            },
            Key::Named(NamedKey::End) => {
                self.start_selection(mods.shift);
                self.cursor_end();
                EventResponse::Handled
            },
            _ => {
                let select: bool = match kev.key {
                    Key::Character(c) => mods.is_chord() && (c == 'a' || c == 'A'),
                    _ => false,
                };
                if select {
                    self.select_all();
                    EventResponse::Handled
                } else if mods.is_chord() {
                    EventResponse::Pass
                } else if self.type_all(&kev.text, measure) {
                    EventResponse::Handled
                } else {
                    EventResponse::Pass
                }
            },
        }
    }
}

/// The key asks for everything to be selected.
pub open spec fn selects_all(kev: &KeyEvent, mods: Modifiers) -> bool {
    mods.chord() && (kev.key == Key::Character('a') || kev.key == Key::Character('A'))
}

/// The key moves the cursor.
pub open spec fn moves(key: Key) -> bool {
    ||| key == Key::Named(NamedKey::ArrowLeft)
    ||| key == Key::Named(NamedKey::ArrowRight)
    ||| key == Key::Named(NamedKey::Home)
    ||| key == Key::Named(NamedKey::End)
}

/// The key may take out what is selected.
pub open spec fn key_edits(kev: &KeyEvent, mods: Modifiers) -> bool {
    kev.pressed && !moves(kev.key) && !selects_all(kev, mods)
}

/// What a key does: the layout `b` that it leaves of `a`, and the response.
pub open spec fn after_key<F: Fn(&Vec<char>, Coord) -> Vec<Coord>>(
    f: F,
    font_size: Coord,
    uw: int,
    kev: &KeyEvent,
    mods: Modifiers,
    a: Layout,
    b: Layout,
    r: EventResponse,
) -> bool {
    let ready = a.with_edit(a.edit.ready(mods.shift));
    if !kev.pressed {
        b == a && r == EventResponse::Pass
    } else if kev.key == Key::Named(NamedKey::Backspace) {
        r == EventResponse::Handled && if a.edit.range() is None && a.edit.cursor == 0 {
            b == a
        } else {
            relaid(f, font_size, uw, a, a.edit.backspaced(), b)
        }
    } else if kev.key == Key::Named(NamedKey::Delete) {
        r == EventResponse::Handled && if a.edit.range() is None && a.edit.cursor
            == a.edit.text.len() {
            b == a
        } else {
            relaid(f, font_size, uw, a, a.edit.deleted(), b)
        }
    } else if kev.key == Key::Named(NamedKey::ArrowLeft) {
        r == EventResponse::Handled && b == moved_left(ready, uw)
    } else if kev.key == Key::Named(NamedKey::ArrowRight) {
        r == EventResponse::Handled && b == moved_right(ready, uw)
    } else if kev.key == Key::Named(NamedKey::Home) {
        r == EventResponse::Handled && b == moved_home(ready, uw)
    } else if kev.key == Key::Named(NamedKey::End) {
        r == EventResponse::Handled && b == moved_end(ready, uw)
    } else if selects_all(kev, mods) {
        r == EventResponse::Handled && b == a.with_edit(a.edit.all_selected())
    } else if mods.chord() {
        r == EventResponse::Pass && b == a
    } else {
        &&& typed_to(f, font_size, uw, a, kev.text@, b)
        &&& r == (if printable(kev.text@).len() > 0 {
            EventResponse::Handled
        } else {
            EventResponse::Pass
        })
    }
}

/// The place from `i` on nearest to `x`, counted from the start of the text.
pub open spec fn place_from(widths: Seq<Coord>, x: int, i: int) -> int
    decreases widths.len() - i,
{
    if i < 0 || i >= widths.len() {
        widths.len() as int
    } else if x < edit::sum_to(widths, i) + coord::truncated(widths[i] as int, 2) {
        i
    } else {
        place_from(widths, x, i + 1)
    }
}

/// The place in a text nearest to `x`, counted from the start of the text.
pub open spec fn nearest_place(widths: Seq<Coord>, x: int) -> int {
    if x <= 0 {
        0
    } else {
        place_from(widths, x, 0)
    }
}

proof fn lemma_truncated_self(a: int, b: int)
    requires
        b > 0,
    ensures
        coord::truncated(a * b, b) == a,
{
    let p = if a >= 0 {
        a
    } else {
        -a
    };
    vstd::arithmetic::div_mod::lemma_div_multiples_vanish(p, b);
    assert(b * p == p * b) by (nonlinear_arith);
    assert((-a) * b == -(a * b)) by (nonlinear_arith);
    assert(a >= 0 ==> a * b >= 0) by (nonlinear_arith)
        requires
            b > 0,
    ;
    assert(a < 0 ==> a * b < 0) by (nonlinear_arith)
        requires
            b > 0,
    ;
}

proof fn lemma_truncated_bound(a: int, b: int)
    requires
        b > 0,
    ensures
        a >= 0 ==> 0 <= coord::truncated(a, b) <= a,
        a < 0 ==> a <= coord::truncated(a, b) <= 0,
{
    let p = if a >= 0 {
        a
    } else {
        -a
    };
    vstd::arithmetic::div_mod::lemma_div_nonincreasing(p, b);
    vstd::arithmetic::div_mod::lemma_div_pos_is_pos(p, b);
}

/// After one step to the left, if there is one.
pub open spec fn moved_left(a: Layout, uw: int) -> Layout {
    if a.edit.cursor > 0 {
        a.with_edit(a.edit.left()).chased(uw)
    } else {
        a
    }
}

/// After one step to the right, if there is one.
pub open spec fn moved_right(a: Layout, uw: int) -> Layout {
    if a.edit.cursor < a.edit.text.len() {
        a.with_edit(a.edit.right()).chased(uw)
    } else {
        a
    }
}

/// After a move to the start.
pub open spec fn moved_home(a: Layout, uw: int) -> Layout {
    a.with_edit(a.edit.at(0)).chased(uw)
}

/// After a move to the end.
pub open spec fn moved_end(a: Layout, uw: int) -> Layout {
    a.with_edit(a.edit.at(a.edit.text.len() as int)).chased(uw)
}

/// Typing one more character.
proof fn lemma_typed_step<F: Fn(&Vec<char>, Coord) -> Vec<Coord>>(
    f: F,
    font_size: Coord,
    uw: int,
    a: Layout,
    s: Seq<char>,
    m: Layout,
    c: char,
    b: Layout,
)
    requires
        !chars::control(c),
        typed_to(f, font_size, uw, a, s, m),
        pasted_to(f, font_size, uw, m, seq![c], b),
    ensures
        typed_to(f, font_size, uw, a, s.push(c), b),
{
    assert(s.push(c).drop_last() =~= s);
    assert(pasted_to(f, font_size, uw, m, seq![s.push(c).last()], b));
}

/// The characters that are not control characters.
fn without_controls(s: &Vec<char>) -> (r: Vec<char>)
    ensures
        r@ == printable(s@),
{
    let mut r: Vec<char> = Vec::new();
    let mut i: usize = 0;
    assert(s@.take(0) =~= Seq::<char>::empty());
    while i < s.len()
        invariant
            0 <= i <= s@.len(),
            r@ == printable(s@.take(i as int)),
        decreases s@.len() - i,
    {
        let c = s[i];
        if !c.is_control() {
            r.push(c);
        }
        i = i + 1;
        assert(s@.take(i as int).drop_last() =~= s@.take(i - 1));
    }
    assert(s@.take(s@.len() as int) =~= s@);
    r
}

proof fn lemma_printable_len(s: Seq<char>)
    ensures
        printable(s).len() <= s.len(),
    decreases s.len(),
{
    if s.len() > 0 {
        lemma_printable_len(s.drop_last());
    }
}

/// The text leaves no gap on one side while it overflows on the other: a text that fits is centred,
/// and one that does not reaches both ends of its room.
pub proof fn law_scroll_leaves_no_gap(l: Layout, uw: int)
    ensures
        ({
            let s = l.bounded(uw).scroll;
            let tw = l.text_width();
            &&& tw <= uw ==> s == 0
            &&& tw > uw ==> s - tw / 2 <= -(uw / 2) && uw / 2 <= s + (tw + 1) / 2
        }),
        l.bounded(uw).bounded(uw).scroll == l.bounded(uw).scroll,
{
}

/// After a move or an edit the cursor is in view: in a text that overflows it stands within its room,
/// up to the rounding of halves.
pub proof fn law_cursor_is_in_view(l: Layout, uw: int)
    requires
        l.edit.cursor_ok(),
        l.widths.len() == l.edit.text.len(),
        edit::widths_ok(l.widths),
        uw >= 0,
        l.text_width() > uw,
    ensures
        ({
            let c = l.chased(uw);
            let place = c.cursor_x() - c.text_width() / 2 + c.scroll;
            -(uw / 2) - 1 <= place <= uw / 2 + 1
        }),
{
    edit::lemma_sum(l.widths, l.edit.cursor, l.widths.len() as int);
}

/// A place in the text is never beyond its end, and the ends of the text are nearest to whatever lies
/// beyond them.
pub proof fn law_nearest_place_is_in_the_text(widths: Seq<Coord>, x: int)
    requires
        edit::widths_ok(widths),
    ensures
        0 <= nearest_place(widths, x) <= widths.len(),
        x <= 0 ==> nearest_place(widths, x) == 0,
        x > edit::sum_to(widths, widths.len() as int) ==> nearest_place(widths, x) == widths.len(),
{
    lemma_place_from(widths, x, 0);
    edit::lemma_sum(widths, 0, widths.len() as int);
}

proof fn lemma_place_from(widths: Seq<Coord>, x: int, i: int)
    requires
        edit::widths_ok(widths),
        0 <= i <= widths.len(),
    ensures
        i <= place_from(widths, x, i) <= widths.len(),
        x > edit::sum_to(widths, widths.len() as int) ==> place_from(widths, x, i) == widths.len(),
    decreases widths.len() - i,
{
    if i < widths.len() {
        lemma_place_from(widths, x, i + 1);
        edit::lemma_sum(widths, i + 1, widths.len() as int);
    }
}

/// The place that a click finds is the one nearest to it: no other place of the text is nearer, but for
/// the rounding of halves.
pub proof fn law_click_finds_the_nearest_place(widths: Seq<Coord>, x: int, other: int)
    requires
        edit::widths_ok(widths),
        0 <= other <= widths.len(),
    ensures
        ({
            let p = nearest_place(widths, x);
            &&& 0 <= p <= widths.len()
            &&& vstd::math::abs(x - edit::sum_to(widths, p)) <= vstd::math::abs(
                x - edit::sum_to(widths, other),
            ) + 1
        }),
{
    let p = nearest_place(widths, x);
    edit::lemma_sum(widths, 0, other);
    if x > 0 {
        lemma_place_side(widths, x, 0);
        if other < p {
            edit::lemma_sum(widths, other, p - 1);
            edit::lemma_sum(widths, p - 1, p);
        }
        if other > p {
            edit::lemma_sum(widths, p, p + 1);
            edit::lemma_sum(widths, p + 1, other);
        }
    }
}

/// `x` lies behind the middle of the character before the place, and before the middle of the one
/// behind it.
proof fn lemma_place_side(widths: Seq<Coord>, x: int, i: int)
    requires
        edit::widths_ok(widths),
        0 <= i <= widths.len(),
        i > 0 ==> 2 * (x - edit::sum_to(widths, i - 1)) + 1 >= widths[i - 1],
    ensures
        ({
            let p = place_from(widths, x, i);
            &&& i <= p <= widths.len()
            &&& p > 0 ==> 2 * (x - edit::sum_to(widths, p - 1)) + 1 >= widths[p - 1]
            &&& p < widths.len() ==> 2 * (x - edit::sum_to(widths, p)) < widths[p]
        }),
    decreases widths.len() - i,
{
    if i < widths.len() && !(x < edit::sum_to(widths, i) + coord::truncated(widths[i] as int, 2)) {
        lemma_place_side(widths, x, i + 1);
    }
}

/// A text is drawn around the middle of its field as long as it fits, moved by the scroll where it
/// does not; clicks go by the same place. On the text layer, which starts at the left edge of the
/// field, it starts there too, give or take two dropped fractions of a pixel.
pub proof fn law_text_starts_where_clicks_expect_it(t: Textbox)
    requires
        t.wf(),
        t.width >= 0,
        t.layout().text_width() <= t.room() ==> t.scroll_offset == 0,
    ensures
        ({
            let tw = t.layout().text_width();
            &&& 0 <= 2 * (t.start_x() - t.scroll_offset - t.center_x) + tw <= 1
            &&& -2 * PX <= t.pill_at(0, 0).x * PX + t.local_left() - t.start_x() <= 2 * PX
        }),
{
    edit::lemma_sum(t.widths@, 0, t.widths@.len() as int);
    coord::lemma_truncated(t.center_x - coord::truncated(t.width as int, 2), PX as int);
    coord::lemma_truncated(t.width as int, PX as int);
}

/// A click on the cursor leaves it where it is, unless the character behind it has no width to click
/// on.
pub proof fn law_click_on_the_cursor_keeps_it(t: Textbox)
    requires
        t.wf(),
        t.cursor < t.widths@.len() ==> t.widths@[t.cursor as int] >= 2,
        forall|i: int| 0 <= i < t.cursor ==> #[trigger] t.widths@[i] > 0,
    ensures
        nearest_place(t.widths@, t.cursor_px() - t.start_x()) == t.cursor,
{
    edit::lemma_sum(t.widths@, 0, t.cursor as int);
    if t.cursor > 0 {
        edit::lemma_sum(t.widths@, 0, t.cursor - 1);
    }
    lemma_place_of_cursor(t.widths@, t.cursor as int, 0);
}

proof fn lemma_place_of_cursor(widths: Seq<Coord>, c: int, i: int)
    requires
        edit::widths_ok(widths),
        0 <= i <= c <= widths.len(),
        c < widths.len() ==> widths[c] >= 2,
    ensures
        place_from(widths, edit::sum_to(widths, c), i) == c,
    decreases c - i,
{
    if i < c {
        edit::lemma_sum(widths, i + 1, c);
        lemma_place_of_cursor(widths, c, i + 1);
    }
}

/// What is selected is marked from the left edge of its first character to the right edge of its last,
/// in the pixels of the text layer, fractions dropped.
pub proof fn law_selection_is_marked_under_its_text(t: Textbox)
    requires
        t.wf(),
        t.selection_box() is Some,
        t.edit().anchor_ok(),
    ensures
        t.edit().range() is Some,
        ({
            let (s, e) = t.edit().range()->0;
            let (x, y, w, h) = t.selection_box()->0;
            let left = t.local_left() + edit::sum_to(t.widths@, s);
            let right = t.local_left() + edit::sum_to(t.widths@, e);
            &&& -PX < x * PX - left < PX
            &&& -2 * PX < (x + w) * PX - right < PX
            &&& -PX < h * PX - t.font_size <= 0
            &&& -2 * PX <= 2 * (y * PX - t.local_middle()) + t.font_size <= 2 * PX
        }),
{
    let (s, e) = t.edit().range()->0;
    let left = t.local_left() + edit::sum_to(t.widths@, s);
    let right = t.local_left() + edit::sum_to(t.widths@, e);
    coord::lemma_truncated(left, PX as int);
    coord::lemma_truncated(right - left, PX as int);
    coord::lemma_truncated(t.font_size as int, PX as int);
    coord::lemma_truncated(
        t.local_middle() - coord::truncated(t.font_size as int, 2),
        PX as int,
    );
}

/// Chasing the cursor changes the scroll and nothing of the text.
proof fn lemma_chased_edit(l: Layout, uw: int)
    ensures
        l.chased(uw).edit == l.edit,
        l.chased(uw).widths == l.widths,
{
}

/// Each moving key goes where it says: one character left or right, to the start or to the end. With
/// shift the selection starts where the cursor was, or goes on; without it, it ends. A key that is
/// released does nothing.
pub proof fn law_moving_keys_move_the_cursor<F: Fn(&Vec<char>, Coord) -> Vec<Coord>>(
    f: F,
    font_size: Coord,
    uw: int,
    kev: KeyEvent,
    mods: Modifiers,
    a: Layout,
    b: Layout,
    r: EventResponse,
)
    requires
        a.edit.wf(),
        after_key(f, font_size, uw, &kev, mods, a, b, r),
    ensures
        !kev.pressed ==> b == a && r == EventResponse::Pass,
        kev.pressed && moves(kev.key) ==> {
            &&& b.edit.text == a.edit.text
            &&& b.widths == a.widths
            &&& r == EventResponse::Handled
            &&& mods.shift && a.edit.anchor is None ==> b.edit.anchor == Some(a.edit.cursor)
            &&& mods.shift && a.edit.anchor is Some ==> b.edit.anchor == a.edit.anchor
            &&& !mods.shift ==> b.edit.anchor is None
        },
        kev.pressed && kev.key == Key::Named(NamedKey::ArrowLeft) ==> b.edit.cursor
            == vstd::math::max(a.edit.cursor - 1, 0),
        kev.pressed && kev.key == Key::Named(NamedKey::ArrowRight) ==> b.edit.cursor
            == vstd::math::min(a.edit.cursor + 1, a.edit.text.len() as int),
        kev.pressed && kev.key == Key::Named(NamedKey::Home) ==> b.edit.cursor == 0,
        kev.pressed && kev.key == Key::Named(NamedKey::End) ==> b.edit.cursor == a.edit.text.len(),
        kev.pressed && mods.chord() && kev.key == Key::Character('a') ==> b.edit.cursor
            == a.edit.text.len() && b.edit.anchor == Some(0int) && b.edit.text == a.edit.text,
{
}

/// Backspace and Delete take away one character beside the cursor, or what is selected.
pub proof fn law_deleting_keys_take_text_away<F: Fn(&Vec<char>, Coord) -> Vec<Coord>>(
    f: F,
    font_size: Coord,
    uw: int,
    kev: KeyEvent,
    mods: Modifiers,
    a: Layout,
    b: Layout,
    r: EventResponse,
)
    requires
        a.edit.wf(),
        kev.pressed,
        after_key(f, font_size, uw, &kev, mods, a, b, r),
        kev.key == Key::Named(NamedKey::Backspace) || kev.key == Key::Named(NamedKey::Delete),
    ensures
        ({
            let (s, e) = match a.edit.range() {
                Some(range) => range,
                None => if kev.key == Key::Named(NamedKey::Backspace) {
                    (vstd::math::max(a.edit.cursor - 1, 0), a.edit.cursor)
                } else {
                    (
                        a.edit.cursor,
                        vstd::math::min(a.edit.cursor + 1, a.edit.text.len() as int),
                    )
                },
            };
            &&& b.edit.text == a.edit.text.take(s) + a.edit.text.skip(e)
            &&& b.edit.cursor == s
            &&& r == EventResponse::Handled
        }),
{
    let (s, e) = match a.edit.range() {
        Some(range) => range,
        None => if kev.key == Key::Named(NamedKey::Backspace) {
            (vstd::math::max(a.edit.cursor - 1, 0), a.edit.cursor)
        } else {
            (a.edit.cursor, vstd::math::min(a.edit.cursor + 1, a.edit.text.len() as int))
        },
    };
    assert(b.edit.text =~= a.edit.text.take(s) + a.edit.text.skip(e));
}

/// Typing puts what types something in at the cursor, in order, in place of what was selected; control
/// characters type nothing.
pub proof fn law_typed_text_stands_at_the_cursor<F: Fn(&Vec<char>, Coord) -> Vec<Coord>>(
    f: F,
    font_size: Coord,
    uw: int,
    a: Layout,
    s: Seq<char>,
    b: Layout,
)
    requires
        a.edit.wf(),
        a.edit.anchor is None || a.edit.range() is Some,
        typed_to(f, font_size, uw, a, s, b),
    ensures
        printable(s).len() == 0 ==> b == a,
        printable(s).len() > 0 ==> ({
            let (from, to) = match a.edit.range() {
                Some(range) => range,
                None => (a.edit.cursor, a.edit.cursor),
            };
            &&& b.edit.text == a.edit.text.take(from) + printable(s) + a.edit.text.skip(to)
            &&& b.edit.cursor == from + printable(s).len()
            &&& b.edit.anchor is None
        }),
    decreases s.len(),
{
    let (from, to) = match a.edit.range() {
        Some(range) => range,
        None => (a.edit.cursor, a.edit.cursor),
    };
    if s.len() > 0 {
        let head = s.drop_last();
        if chars::control(s.last()) {
            law_typed_text_stands_at_the_cursor(f, font_size, uw, a, head, b);
        } else {
            let m = choose|m: Layout|
                typed_to(f, font_size, uw, a, head, m) && #[trigger] pasted_to(
                    f,
                    font_size,
                    uw,
                    m,
                    seq![s.last()],
                    b,
                );
            law_typed_text_stands_at_the_cursor(f, font_size, uw, a, head, m);
            let k = choose|k: Layout|
                #[trigger] cut_to(f, font_size, uw, m, k) && relaid(
                    f,
                    font_size,
                    uw,
                    k,
                    k.edit.pasted(seq![s.last()]),
                    b,
                );
            assert(k.edit == m.edit.cut());
            assert(b.edit == k.edit.pasted(seq![s.last()]));
            if printable(head).len() == 0 {
                assert(printable(s) =~= seq![s.last()]);
            }
            assert(b.edit.text =~= a.edit.text.take(from) + printable(s) + a.edit.text.skip(to));
        }
    }
}

/// The scroll grows with the font: it keeps its proportion to the font size, up to a dropped fraction
/// towards the middle; the same font size keeps it.
pub proof fn law_scroll_keeps_its_proportion(t: Textbox, font_size: Coord)
    requires
        t.font_size > 0,
        font_size >= 0,
    ensures
        t.scroll_offset >= 0 ==> t.font_size * t.rescaled(font_size) <= t.scroll_offset * font_size
            < t.font_size * t.rescaled(font_size) + t.font_size,
        t.scroll_offset <= 0 ==> t.font_size * t.rescaled(font_size) - t.font_size < t.scroll_offset
            * font_size <= t.font_size * t.rescaled(font_size),
{
    let v = t.scroll_offset as int;
    assert(v >= 0 ==> v * font_size >= 0) by (nonlinear_arith)
        requires
            font_size >= 0,
    ;
    assert(v <= 0 ==> v * font_size <= 0) by (nonlinear_arith)
        requires
            font_size >= 0,
    ;
    coord::lemma_truncated(t.scroll_offset * font_size, t.font_size as int);
}

/// The view rests while the cursor shows: a scroll that leaves no gap stays as it is as long as the
/// cursor stands in the room of the text, and otherwise moves just so far that the cursor comes to
/// stand at the end of the room that it left by, or as far as the text goes.
pub proof fn law_view_rests_while_the_cursor_shows(l: Layout, uw: int)
    requires
        l.edit.cursor_ok(),
        l.widths.len() == l.edit.text.len(),
        edit::widths_ok(l.widths),
        uw >= 0,
        l.text_width() > uw,
        l.bounded(uw).scroll == l.scroll,
    ensures
        ({
            let place = l.cursor_x() - l.text_width() / 2 + l.scroll;
            let after = l.cursor_x() - l.text_width() / 2 + l.chased(uw).scroll;
            let most = (l.text_width() - uw) / 2;
            &&& -(uw / 2) <= place <= uw / 2 ==> l.chased(uw).scroll == l.scroll
            &&& place < -(uw / 2) ==> l.chased(uw).scroll >= l.scroll && (after == -(uw / 2)
                || l.chased(uw).scroll == most)
            &&& place > uw / 2 ==> l.chased(uw).scroll <= l.scroll && (after == uw / 2
                || l.chased(uw).scroll == -most)
        }),
{
    edit::lemma_sum(l.widths, l.edit.cursor, l.widths.len() as int);
}

/// A scroll out of bounds goes to the nearest bound: no other scroll that leaves no gap is nearer.
pub proof fn law_bounded_scroll_is_the_nearest(scroll: int, tw: int, uw: int, other: int)
    requires
        tw > uw,
        -((tw - uw) / 2) <= other <= (tw - uw) / 2,
    ensures
        ({
            let s = bounded_scroll(scroll, tw, uw);
            &&& -((tw - uw) / 2) <= s <= (tw - uw) / 2
            &&& scroll <= s ==> s - scroll <= other - scroll || s == scroll
            &&& scroll >= s ==> scroll - s <= scroll - other || s == scroll
        }),
{
}

/// Nothing but control characters is left out of a text, and the others keep their order.
pub proof fn law_printable_leaves_out_controls(s: Seq<char>, t: Seq<char>, c: char)
    ensures
        printable(s + t) == printable(s) + printable(t),
        printable(seq![c]) == (if c as u32 <= 0x1F || 0x7F <= c as u32 <= 0x9F {
            Seq::<char>::empty()
        } else {
            seq![c]
        }),
        printable(s).len() <= s.len(),
    decreases s.len() + t.len(),
{
    assert(seq![c].drop_last() =~= Seq::<char>::empty());
    assert(printable(Seq::<char>::empty()) =~= Seq::<char>::empty());
    assert(printable(seq![c]) =~= (if chars::control(c) {
        Seq::<char>::empty()
    } else {
        seq![c]
    }));
    if t.len() == 0 {
        assert(s + t =~= s);
        assert(printable(s) + printable(t) =~= printable(s));
        if s.len() > 0 {
            law_printable_leaves_out_controls(s.drop_last(), t, c);
        }
    } else {
        law_printable_leaves_out_controls(s, t.drop_last(), c);
        assert((s + t).drop_last() =~= s + t.drop_last());
        assert((s + t).last() == t.last());
        assert(printable(s + t) =~= printable(s) + printable(t));
    }
}

/// The padding is 2/5 of the font size on either side, the rest of the width is room for the text, and
/// a point is in the text field where it is no farther from the centre than half the sides.
pub proof fn law_field_lies_around_its_centre(t: Textbox, x: int, y: int)
    requires
        t.font_size >= 0,
        t.width >= 0,
        t.height >= 0,
        t.width % 2 == 0,
        t.height % 2 == 0,
    ensures
        5 * t.pad() <= 2 * t.font_size < 5 * t.pad() + 5,
        t.pad() + t.room() + t.pad() == t.width,
        t.holds(x, y) <==> (2 * (t.center_x - x) <= t.width && 2 * (x - t.center_x) < t.width && 2 * (
        t.center_y - y) <= t.height && 2 * (y - t.center_y) < t.height),
{
    coord::lemma_truncated(t.font_size * 2, 5);
    coord::lemma_truncated(t.width as int, 2);
    coord::lemma_truncated(t.height as int, 2);
}

} // verus!
