//! A text field of several lines: wrapped text, a cursor that moves between lines, and a height that
//! follows the text up to a limit.
//!
//! Widths of characters come from outside: `measure` gives the width of a character at a font size.
use crate::canvas::PixelRect;
use crate::coord::{self, Coord, Ratio, PX};
use crate::event::{EventResponse, Key, KeyEvent, Modifiers, NamedKey};
use crate::paint::clip::{self, HitId};
use crate::widgets::cache::FaceCache;
use crate::widgets::chars;
use crate::widgets::edit::{self, Edit};
use crate::widgets::face;
use crate::widgets::ident;
use crate::widgets::lines;
use vstd::prelude::*;

verus! {

/// The largest font size of a text field of several lines.
pub const MAX_FONT: Coord = 0x1_0000_0000;

pub struct MultiTextbox {
    /// The text; a line break is a character of it.
    pub chars: Vec<char>,
    /// Where text is put in, from 0 to the length of the text.
    pub cursor: usize,
    /// The other end of the selection.
    pub selection_anchor: Option<usize>,
    pub hit_id: HitId,
    pub focused: bool,
    pub hovered: bool,
    pub enabled: bool,
    /// Stroke thickness as a multiple of the font size.
    pub stroke_ru: Ratio,
    pub center_x: Coord,
    pub center_y: Coord,
    pub width: Coord,
    /// The height that the layout gave.
    pub height: Coord,
    pub font_size: Coord,
    /// How far the text stays away from the right edge.
    pub right_inset: Coord,
    /// The width of each character; a line break has none.
    pub widths: Vec<Coord>,
    /// Where each line starts.
    pub line_starts: Vec<usize>,
    /// How far the text is scrolled up.
    pub scroll_y: Coord,
    /// The x that the cursor keeps while it moves up and down.
    pub goal_x: Option<Coord>,
    /// The cursor is drawn.
    pub blinkey_visible: bool,
    /// The cursor is bright at the top.
    pub blinkey_wave_top: bool,
    pub cache: FaceCache,
    pub last_painted_bbox: Option<PixelRect>,
    pub last_painted_focused: bool,
    pub last_painted_selection: Option<(usize, usize)>,
    pub last_painted_blinkey_on: bool,
    pub last_painted_blinkey_bbox: Option<PixelRect>,
}

/// The part of a text field that edits change.
pub struct Page {
    pub edit: Edit,
    pub widths: Seq<Coord>,
    pub starts: Seq<int>,
    pub scroll: int,
    pub goal: Option<int>,
    pub dirty: bool,
}

/// What edits go by: the width of a line, the height of a row, and the height of the room for them.
pub struct Frame {
    pub line_w: int,
    pub row_h: int,
    pub inner_h: int,
}

impl Frame {
    /// The furthest scroll for that many lines.
    pub open spec fn max_scroll(self, lines: int) -> int {
        vstd::math::max(lines * self.row_h - self.inner_h, 0)
    }

    /// The scroll within its bounds.
    pub open spec fn bounded(self, scroll: int, lines: int) -> int {
        clip::clamp_int(scroll, 0, self.max_scroll(lines))
    }
}

impl Page {
    /// The line of the cursor.
    pub open spec fn cursor_line(self) -> int {
        lines::line_at(self.starts, self.edit.cursor)
    }

    /// Where the cursor is on its line.
    pub open spec fn cursor_x(self) -> int {
        edit::sum_to(self.widths, self.edit.cursor) - edit::sum_to(
            self.widths,
            self.starts[self.cursor_line()],
        )
    }

    /// Broken into lines anew.
    pub open spec fn rewrapped(self, f: Frame) -> Page {
        let starts = lines::wrapped(self.edit.text, self.widths, f.line_w);
        Page {
            starts,
            scroll: f.bounded(self.scroll, starts.len() as int),
            dirty: true,
            ..self
        }
    }

    /// Scrolled so that the line of the cursor shows.
    pub open spec fn revealed(self, f: Frame) -> Page {
        let top = self.cursor_line() * f.row_h;
        let bottom = top + f.row_h;
        let s = if top < self.scroll {
            top
        } else if bottom > self.scroll + f.inner_h {
            bottom - f.inner_h
        } else {
            self.scroll
        };
        Page { scroll: f.bounded(s, self.starts.len() as int), ..self }
    }

    /// After an edit: lines, scroll and cursor follow the text.
    pub open spec fn settled(self, f: Frame) -> Page {
        (Page { goal: None, ..self }).rewrapped(f).revealed(f)
    }

    /// Without what was selected.
    pub open spec fn cut(self) -> Page {
        Page {
            edit: self.edit.cut().collapsed(),
            widths: match self.edit.range() {
                Some((s, e)) => self.widths.subrange(0, s) + self.widths.subrange(
                    e,
                    self.widths.len() as int,
                ),
                None => self.widths,
            },
            ..self
        }
    }

    /// With characters of the given widths put in at the cursor.
    pub open spec fn pasted(self, s: Seq<char>, w: Seq<Coord>) -> Page {
        Page {
            edit: self.edit.pasted(s),
            widths: self.widths.subrange(0, self.edit.cursor) + w + self.widths.subrange(
                self.edit.cursor,
                self.widths.len() as int,
            ),
            ..self
        }
    }

    /// Without the selection or, where there is none, without the character before the cursor.
    pub open spec fn backspaced(self) -> Page {
        if self.edit.range() is Some {
            self.cut()
        } else if self.edit.cursor > 0 {
            Page {
                edit: self.edit.backspaced(),
                widths: self.widths.remove(self.edit.cursor - 1),
                ..self
            }
        } else {
            self
        }
    }

    /// Without the selection or, where there is none, without the character behind the cursor.
    pub open spec fn deleted(self) -> Page {
        if self.edit.range() is Some {
            self.cut()
        } else if self.edit.cursor < self.edit.text.len() {
            Page {
                edit: self.edit.deleted(),
                widths: self.widths.remove(self.edit.cursor),
                ..self
            }
        } else {
            self
        }
    }

    /// With another cursor or selection.
    pub open spec fn with_edit(self, e: Edit) -> Page {
        Page { edit: e, ..self }
    }

    /// After a move within the text: the column is forgotten, and the cursor shows.
    pub open spec fn moved(self, e: Edit, f: Frame) -> Page {
        Page { dirty: true, ..(Page { edit: e, goal: None, ..self }).revealed(f) }
    }

    /// One character to the left.
    pub open spec fn left(self, f: Frame) -> Page {
        self.moved(self.edit.left(), f)
    }

    /// One character to the right.
    pub open spec fn right(self, f: Frame) -> Page {
        self.moved(self.edit.right(), f)
    }

    /// To the start of the line.
    pub open spec fn home(self, f: Frame) -> Page {
        self.moved(self.edit.at(self.starts[self.cursor_line()]), f)
    }

    /// To the end of the line.
    pub open spec fn end(self, f: Frame) -> Page {
        self.moved(
            self.edit.at(lines::draw_end(self.edit.text, self.starts, self.cursor_line())),
            f,
        )
    }

    /// The place on a line nearest to `x`.
    pub open spec fn place_on(self, line: int, x: int) -> int {
        lines::line_place(
            self.widths,
            x,
            self.starts[line],
            self.starts[line],
            lines::draw_end(self.edit.text, self.starts, line),
        )
    }

    /// Where a move to the line below or above goes, if there is one: the place nearest to the x that
    /// the cursor keeps, and that x.
    pub open spec fn vertical_place(self, down: bool) -> Option<(int, int)> {
        let line = self.cursor_line();
        let x = match self.goal {
            Some(g) => g,
            None => self.cursor_x(),
        };
        if down {
            if line + 1 >= self.starts.len() {
                None
            } else {
                Some((self.place_on(line + 1, x), x))
            }
        } else {
            if line == 0 {
                None
            } else {
                Some((self.place_on(line - 1, x), x))
            }
        }
    }

    /// To the line below or above, if there is one, at the x that the cursor keeps.
    pub open spec fn vertical(self, down: bool, f: Frame) -> Page {
        match self.vertical_place(down) {
            Some((place, x)) => Page {
                dirty: true,
                ..(Page { edit: self.edit.at(place), goal: Some(x), ..self }).revealed(f)
            },
            None => self,
        }
    }
}

/// What a measure owes: for every character a width that is not negative, and small enough for `k`
/// such characters to find room beside a text `used` wide.
pub open spec fn measures_chars<F: Fn(char, Coord) -> Coord>(f: F, used: int, k: int) -> bool {
    &&& forall|c: char, s: Coord| #[trigger] f.requires((c, s))
    &&& forall|c: char, s: Coord, w: Coord| #[trigger]
        f.ensures((c, s), w) ==> 0 <= w && used + k * w <= edit::MAX_TEXT
}

/// What finds room many times beside a wide text finds it fewer times beside a narrower one.
proof fn lemma_fewer<F: Fn(char, Coord) -> Coord>(f: F, used: int, k: int, less: int, j: int)
    requires
        measures_chars(f, used, k),
        less <= used,
        0 <= j <= k,
    ensures
        measures_chars(f, less, j),
{
    assert forall|c: char, s: Coord, w: Coord| #[trigger] f.ensures((c, s), w) implies 0 <= w
        && less + j * w <= edit::MAX_TEXT by {
        assert(j * w <= k * w) by (nonlinear_arith)
            requires
                0 <= w,
                j <= k,
        ;
    }
}

/// Widths of which `k` each find room find it together, `n` of them `n` parts in `k`.
proof fn lemma_shares(w: Seq<Coord>, k: int, room: int, n: int)
    requires
        0 <= n <= w.len(),
        forall|i: int| 0 <= i < w.len() ==> k * #[trigger] w[i] <= room,
    ensures
        k * edit::sum_to(w, n) <= n * room,
    decreases n,
{
    if n > 0 {
        lemma_shares(w, k, room, n - 1);
        let a = edit::sum_to(w, n - 1);
        let b = w[n - 1] as int;
        assert(k * b <= room);
        assert(k * (a + b) == k * a + k * b) by (nonlinear_arith);
        assert(n * room == (n - 1) * room + room) by (nonlinear_arith);
    } else {
        assert(k * 0 == 0 && 0 * room == 0);
    }
}

/// After some of `k` characters took their room, the others still find theirs.
proof fn lemma_room_left<F: Fn(char, Coord) -> Coord>(f: F, used: int, k: int, w: Seq<Coord>)
    requires
        measures_chars(f, used, k),
        used <= edit::MAX_TEXT,
        w.len() <= k,
        forall|i: int| 0 <= i < w.len() ==> 0 <= #[trigger] w[i] && used + k * w[i] <= edit::MAX_TEXT,
    ensures
        used + edit::total(w) <= edit::MAX_TEXT,
        measures_chars(f, used + edit::total(w), k - w.len()),
{
    let room = edit::MAX_TEXT - used;
    let n = w.len() as int;
    let t = edit::total(w);
    assert forall|i: int| 0 <= i < w.len() implies k * #[trigger] w[i] <= room by {
        assert(used + k * w[i] <= edit::MAX_TEXT);
    }
    lemma_shares(w, k, room, n);
    if k > 0 {
        assert(t <= room) by (nonlinear_arith)
            requires
                k * t <= n * room,
                0 <= n <= k,
                0 < k,
                0 <= room,
        ;
    }
    assert forall|c: char, s: Coord, v: Coord| #[trigger] f.ensures((c, s), v) implies 0 <= v
        && used + t + (k - n) * v <= edit::MAX_TEXT by {
        if k > 0 {
            let rest = (k - n) * v;
            assert(k * rest <= (k - n) * room) by (nonlinear_arith)
                requires
                    rest == (k - n) * v,
                    k * v <= room,
                    0 <= k - n,
            ;
            assert(t + rest <= room) by (nonlinear_arith)
                requires
                    k * t <= n * room,
                    k * rest <= (k - n) * room,
                    0 < k,
            ;
        } else {
            assert((k - n) * v == 0) by (nonlinear_arith)
                requires
                    k == 0,
                    n == 0,
            ;
        }
    }
}

/// The measure may give this width for a character; a line break has none and is not measured.
pub open spec fn char_measured<F: Fn(char, Coord) -> Coord>(
    f: F,
    font_size: Coord,
    c: char,
    w: Coord,
) -> bool {
    if c == '\n' {
        w == 0
    } else {
        f.ensures((c, font_size), w)
    }
}

/// The measure may give these widths for characters.
pub open spec fn chars_measured<F: Fn(char, Coord) -> Coord>(
    f: F,
    font_size: Coord,
    s: Seq<char>,
    w: Seq<Coord>,
) -> bool {
    w.len() == s.len() && forall|i: int|
        0 <= i < s.len() ==> char_measured(f, font_size, s[i], #[trigger] w[i])
}

/// The page `b` is `a` with characters in place of what was selected.
pub open spec fn pasted_to<F: Fn(char, Coord) -> Coord>(
    f: F,
    font_size: Coord,
    frame: Frame,
    a: Page,
    s: Seq<char>,
    b: Page,
) -> bool {
    exists|w: Seq<Coord>|
        #[trigger] chars_measured(f, font_size, s, w) && b == a.cut().pasted(s, w).settled(frame)
}

impl MultiTextbox {
    /// Text, cursor and selection.
    pub open spec fn edit(&self) -> Edit {
        Edit {
            text: self.chars@,
            cursor: self.cursor as int,
            anchor: match self.selection_anchor {
                Some(a) => Some(a as int),
                None => None,
            },
        }
    }

    /// What edits change.
    pub open spec fn page(&self) -> Page {
        Page {
            edit: self.edit(),
            widths: self.widths@,
            starts: lines::table(self.line_starts@),
            scroll: self.scroll_y as int,
            goal: match self.goal_x {
                Some(g) => Some(g as int),
                None => None,
            },
            dirty: self.cache.text_dirty,
        }
    }

    /// Nothing but what edits change differs.
    pub open spec fn same_rest(&self, other: &MultiTextbox) -> bool {
        *self == (MultiTextbox {
            chars: self.chars,
            cursor: self.cursor,
            selection_anchor: self.selection_anchor,
            widths: self.widths,
            line_starts: self.line_starts,
            scroll_y: self.scroll_y,
            goal_x: self.goal_x,
            cache: FaceCache { text_dirty: self.cache.text_dirty, ..other.cache },
            ..*other
        })
    }

    pub open spec fn place_ok(&self) -> bool {
        &&& face::place_ok(
            self.center_x as int,
            self.center_y as int,
            self.width as int,
            self.height as int,
            self.font_size as int,
        )
        &&& self.font_size <= MAX_FONT
        &&& face::placeable(self.right_inset as int)
    }

    /// The cursor is in the text, each character has its width, and there is height for a line for
    /// each.
    pub open spec fn text_ok(&self) -> bool {
        &&& self.edit().cursor_ok()
        &&& self.widths@.len() == self.chars@.len()
        &&& edit::widths_ok(self.widths@)
        &&& self.tall_enough(self.chars@.len() as int)
    }

    /// The lines of `n` characters, one more than those at the most, are not higher than a text can be.
    pub open spec fn tall_enough(&self, n: int) -> bool {
        (n + 1) * self.row() <= edit::MAX_TEXT
    }

    /// `k` more characters find room, in width and in height.
    pub open spec fn room_for<F: Fn(char, Coord) -> Coord>(&self, f: F, k: int) -> bool {
        &&& self.chars@.len() + k <= usize::MAX
        &&& self.tall_enough(self.chars@.len() + k)
        &&& measures_chars(f, edit::total(self.widths@), k)
    }

    /// The lines start in the text.
    pub open spec fn lines_ok(&self) -> bool {
        lines::starts_ok(lines::table(self.line_starts@), self.chars@.len() as int)
            && self.line_starts@.len() <= self.chars@.len() + 1
    }

    /// The rest of what holds of every text field.
    pub open spec fn base_ok(&self) -> bool {
        &&& self.place_ok()
        &&& 0 <= self.scroll_y <= 0x2000_0000_0000_0000
        &&& face::stroke_ok(self.stroke_ru as int, self.font_size as int)
        &&& self.cache.wf()
    }

    pub open spec fn wf(&self) -> bool {
        self.text_ok() && self.lines_ok() && self.base_ok()
    }

    /// The space left and right of the text.
    pub open spec fn inset_x(&self) -> int {
        coord::truncated(self.font_size * 11, 20)
    }

    /// The space above and below the text.
    pub open spec fn inset_y(&self) -> int {
        coord::truncated(self.font_size * 9, 20)
    }

    /// The height of a row.
    pub open spec fn row(&self) -> int {
        coord::truncated(self.font_size * 7, 5)
    }

    /// The width of a line.
    pub open spec fn line_width(&self) -> int {
        vstd::math::max(self.width - 2 * self.inset_x() - self.right_inset, self.font_size as int)
    }

    /// What edits go by.
    pub open spec fn frame(&self) -> Frame {
        Frame {
            line_w: self.line_width(),
            row_h: self.row(),
            inner_h: self.height - 2 * self.inset_y(),
        }
    }

    /// A new text field, with the next hit identifier.
    pub fn new(hit_counter: &mut HitId, font_size: Coord) -> (t: MultiTextbox)
        requires
            *old(hit_counter) < HitId::MAX,
        ensures
            *final(hit_counter) == *old(hit_counter) + 1,
            t.hit_id == *final(hit_counter),
            t.page() == (Page {
                edit: Edit { text: Seq::empty(), cursor: 0, anchor: None },
                widths: Seq::empty(),
                starts: seq![0],
                scroll: 0,
                goal: None,
                dirty: true,
            }),
            !t.focused,
            !t.hovered,
            t.enabled,
            t.stroke_ru == 0x800_0000,
            t.center_x == 0 && t.center_y == 0 && t.width == PX && t.height == PX,
            t.font_size == font_size,
            t.right_inset == 0,
            t.blinkey_visible,
            t.blinkey_wave_top,
            t.cache.wf(),
            t.cache.pill_dirty,
            t.last_painted_bbox is None,
            !t.last_painted_focused,
            t.last_painted_selection is None,
            !t.last_painted_blinkey_on,
            t.last_painted_blinkey_bbox is None,
            0 <= font_size <= MAX_FONT ==> t.wf(),
    {
        let mut line_starts: Vec<usize> = Vec::new();
        line_starts.push(0);
        let t = MultiTextbox {
            chars: Vec::new(),
            cursor: 0,
            selection_anchor: None,
            hit_id: ident::next_id(hit_counter),
            focused: false,
            hovered: false,
            enabled: true,
            stroke_ru: 0x800_0000,
            center_x: 0,
            center_y: 0,
            width: PX,
            height: PX,
            font_size,
            right_inset: 0,
            widths: Vec::new(),
            line_starts,
            scroll_y: 0,
            goal_x: None,
            blinkey_visible: true,
            blinkey_wave_top: true,
            cache: FaceCache::new(),
            last_painted_bbox: None,
            last_painted_focused: false,
            last_painted_selection: None,
            last_painted_blinkey_on: false,
            last_painted_blinkey_bbox: None,
        };
        assert(t.chars@ =~= Seq::<char>::empty());
        assert(t.widths@ =~= Seq::<Coord>::empty());
        assert(lines::table(t.line_starts@) =~= seq![0int]);
        t
    }

    /// The space left and right of the text.
    pub fn pad_x(&self) -> (p: Coord)
        requires
            self.place_ok(),
        ensures
            p as int == self.inset_x(),
            0 <= p <= self.font_size,
    {
        coord::truncate(self.font_size as i128 * 11, 20) as i64
    }

    /// The space above and below the text.
    pub fn pad_y(&self) -> (p: Coord)
        requires
            self.place_ok(),
        ensures
            p as int == self.inset_y(),
            0 <= p <= self.font_size,
    {
        coord::truncate(self.font_size as i128 * 9, 20) as i64
    }

    /// The height of a row.
    pub fn row_h(&self) -> (h: Coord)
        requires
            self.place_ok(),
        ensures
            h as int == self.row(),
            0 <= h <= 2 * self.font_size,
    {
        coord::truncate(self.font_size as i128 * 7, 5) as i64
    }

    /// The width of a line.
    fn usable_w(&self) -> (w: Coord)
        requires
            self.place_ok(),
        ensures
            w as int == self.line_width(),
            -0x1000_0000_0000_0000 <= w <= 0x1000_0000_0000_0000,
    {
        let left: Coord = self.width - 2 * self.pad_x() - self.right_inset;
        if left >= self.font_size {
            left
        } else {
            self.font_size
        }
    }

    /// The height of the room for the lines.
    pub fn inner_h(&self) -> (h: Coord)
        requires
            self.place_ok(),
        ensures
            h as int == self.frame().inner_h,
            -0x2000_0000_0000 <= h <= 0x2000_0000_0000,
    {
        self.height - 2 * self.pad_y()
    }

    /// The height of that many lines.
    pub fn lines_h(&self, n: usize) -> (h: Coord)
        requires
            self.place_ok(),
            n * self.row() <= edit::MAX_TEXT,
        ensures
            h as int == n * self.row(),
            0 <= h <= 0x1000_0000_0000_0000,
    {
        let row: Coord = self.row_h();
        proof {
            assert(0 <= n * row <= 0xFFFF_FFFF_FFFF_FFFF * 0x2_0000_0000) by (nonlinear_arith)
                requires
                    0 <= n <= 0xFFFF_FFFF_FFFF_FFFF,
                    0 <= row <= 0x2_0000_0000,
            ;
        }
        (n as i128 * row as i128) as i64
    }

    /// Fewer lines are not higher.
    pub proof fn lemma_lower(&self, n: int, m: int)
        requires
            self.place_ok(),
            n <= m,
        ensures
            n * self.row() <= m * self.row(),
    {
        assert(0 <= self.row());
        assert(n * self.row() <= m * self.row()) by (nonlinear_arith)
            requires
                n <= m,
                0 <= self.row(),
        ;
    }

    /// The height of the whole text with the space above and below it.
    pub fn content_h(&self) -> (h: Coord)
        requires
            self.place_ok(),
            self.lines_ok(),
            self.tall_enough(self.chars@.len() as int),
        ensures
            h as int == self.line_starts@.len() * self.row() + 2 * self.inset_y(),
    {
        proof {
            self.lemma_lower(self.line_starts@.len() as int, (self.chars@.len() + 1) as int);
        }
        self.lines_h(self.line_starts.len()) + 2 * self.pad_y()
    }

    /// How many lines there are.
    pub fn line_count(&self) -> (n: usize)
        ensures
            n == self.line_starts@.len(),
    {
        self.line_starts.len()
    }

    /// Brings the scroll within its bounds.
    fn clamp_scroll(&mut self)
        requires
            old(self).place_ok(),
            old(self).lines_ok(),
            old(self).tall_enough(old(self).chars@.len() as int),
        ensures
            final(self).scroll_y as int == old(self).frame().bounded(
                old(self).scroll_y as int,
                old(self).line_starts@.len() as int,
            ),
            0 <= final(self).scroll_y <= 0x1800_0000_0000_0000,
            *final(self) == (MultiTextbox { scroll_y: final(self).scroll_y, ..*old(self) }),
    {
        proof {
            self.lemma_lower(self.line_starts@.len() as int, (self.chars@.len() + 1) as int);
        }
        let furthest: Coord = self.lines_h(self.line_starts.len()) - self.inner_h();
        let max: Coord = if furthest >= 0 {
            furthest
        } else {
            0
        };
        if self.scroll_y < 0 {
            self.scroll_y = 0;
        } else if self.scroll_y > max {
            self.scroll_y = max;
        }
    }

    /// Breaks the text into lines anew.
    fn rewrap(&mut self)
        requires
            old(self).text_ok(),
            old(self).base_ok(),
        ensures
            final(self).wf(),
            final(self).page() == old(self).page().rewrapped(old(self).frame()),
            *final(self) == (MultiTextbox {
                line_starts: final(self).line_starts,
                scroll_y: final(self).scroll_y,
                cache: old(self).cache.marked(old(self).cache.pill_dirty, true),
                ..*old(self)
            }),
    {
        let max_w: Coord = self.usable_w();
        self.line_starts = lines::wrap_text(&self.chars, &self.widths, max_w);
        self.clamp_scroll();
        self.cache.text_dirty = true;
    }

    /// Scrolls so that the line of the cursor shows.
    fn ensure_cursor_visible(&mut self)
        requires
            old(self).wf(),
        ensures
            final(self).wf(),
            final(self).page() == old(self).page().revealed(old(self).frame()),
            *final(self) == (MultiTextbox { scroll_y: final(self).scroll_y, ..*old(self) }),
    {
        let line: usize = lines::line_of(&self.line_starts, self.cursor, self.chars.len());
        proof {
            self.lemma_lower(line as int, (self.chars@.len() + 1) as int);
        }
        let top: Coord = self.lines_h(line);
        let row: Coord = self.row_h();
        let inner: Coord = self.inner_h();
        if top < self.scroll_y {
            self.scroll_y = top;
        } else if top + row > self.scroll_y + inner {
            self.scroll_y = top + row - inner;
        }
        self.clamp_scroll();
    }

    /// Lines, scroll and cursor follow the text.
    fn settle(&mut self)
        requires
            old(self).text_ok(),
            old(self).base_ok(),
        ensures
            final(self).wf(),
            final(self).page() == old(self).page().settled(old(self).frame()),
            *final(self) == (MultiTextbox {
                line_starts: final(self).line_starts,
                scroll_y: final(self).scroll_y,
                goal_x: None,
                cache: old(self).cache.marked(old(self).cache.pill_dirty, true),
                ..*old(self)
            }),
    {
        self.goal_x = None;
        self.rewrap();
        self.ensure_cursor_visible();
    }

    /// Measures the text anew and breaks it into lines.
    fn relayout<F: Fn(char, Coord) -> Coord>(&mut self, measure: &F)
        requires
            measures_chars(*measure, 0, old(self).chars@.len() as int),
            old(self).edit().cursor_ok(),
            old(self).tall_enough(old(self).chars@.len() as int),
            old(self).base_ok(),
        ensures
            final(self).wf(),
            chars_measured(*measure, old(self).font_size, old(self).chars@, final(self).widths@),
            final(self).page() == (Page {
                widths: final(self).widths@,
                ..old(self).page()
            }).rewrapped(old(self).frame()),
            *final(self) == (MultiTextbox {
                widths: final(self).widths,
                line_starts: final(self).line_starts,
                scroll_y: final(self).scroll_y,
                cache: old(self).cache.marked(old(self).cache.pill_dirty, true),
                ..*old(self)
            }),
    {
        self.widths = measure_chars(
            measure,
            self.font_size,
            &self.chars,
            Ghost(0),
            Ghost(self.chars@.len() as int),
        );
        proof {
            lemma_room_left(*measure, 0, self.chars@.len() as int, self.widths@);
        }
        self.rewrap();
    }

    /// The height of the smallest text field: one row.
    pub open spec fn min_h(&self) -> int {
        self.row() + 2 * self.inset_y()
    }

    /// The height that follows the text, up to `max_h`.
    pub open spec fn natural_h(&self, n: int, max_h: int) -> int {
        clip::clamp_int(
            n * self.row() + 2 * self.inset_y(),
            self.min_h(),
            vstd::math::max(max_h, self.min_h()),
        )
    }

    /// Takes a new place and width; another width has the text measured anew.
    fn take_width<F: Fn(char, Coord) -> Coord>(
        &mut self,
        center_x: Coord,
        width: Coord,
        measure: &F,
    )
        requires
            old(self).wf(),
            measures_chars(*measure, 0, old(self).chars@.len() as int),
            face::placeable(center_x as int),
            face::placeable(width as int),
        ensures
            final(self).wf(),
            ({
                let wide = far(old(self).width as int, width as int);
                let between = MultiTextbox { width: final(self).width, ..*old(self) };
                &&& final(self).width == (if wide {
                    width
                } else {
                    old(self).width
                })
                &&& if wide {
                    &&& chars_measured(
                        *measure,
                        old(self).font_size,
                        old(self).chars@,
                        final(self).widths@,
                    )
                    &&& lines::table(final(self).line_starts@) == lines::wrapped(
                        old(self).chars@,
                        final(self).widths@,
                        between.line_width(),
                    )
                    &&& final(self).scroll_y == between.frame().bounded(
                        old(self).scroll_y as int,
                        final(self).line_starts@.len() as int,
                    )
                } else {
                    &&& final(self).widths == old(self).widths
                    &&& final(self).line_starts == old(self).line_starts
                    &&& final(self).scroll_y == old(self).scroll_y
                }
                &&& *final(self) == (MultiTextbox {
                    center_x,
                    width: final(self).width,
                    widths: final(self).widths,
                    line_starts: final(self).line_starts,
                    scroll_y: final(self).scroll_y,
                    cache: old(self).cache.marked(
                        old(self).cache.pill_dirty || wide,
                        old(self).cache.text_dirty || wide,
                    ),
                    ..*old(self)
                })
            }),
    {
        let wide: bool = is_far(self.width, width);
        self.center_x = center_x;
        if wide {
            self.width = width;
            self.relayout(measure);
            self.cache.pill_dirty = true;
        }
    }

    /// The height that follows the text, up to `max_h`.
    fn height_within(&self, max_h: Coord) -> (h: Coord)
        requires
            self.wf(),
            face::placeable(max_h as int),
        ensures
            h == self.natural_h(self.line_starts@.len() as int, max_h as int),
            face::placeable(h as int),
    {
        let min_h: Coord = self.row_h() + 2 * self.pad_y();
        let top: Coord = if max_h >= min_h {
            max_h
        } else {
            min_h
        };
        let content: Coord = self.content_h();
        if content < min_h {
            min_h
        } else if content > top {
            top
        } else {
            content
        }
    }

    /// Takes the height that follows the text, with the bottom edge at `bottom_y`.
    fn take_height(&mut self, bottom_y: Coord, max_h: Coord)
        requires
            old(self).wf(),
            -0x400_0000_0000 <= bottom_y <= 0x400_0000_0000,
            face::placeable(max_h as int),
        ensures
            final(self).wf(),
            ({
                let n = old(self).line_starts@.len() as int;
                let h = old(self).natural_h(n, max_h as int);
                let tall = far(old(self).height as int, h);
                let cy = bottom_y - coord::truncated(final(self).height as int, 2);
                &&& final(self).height == (if tall {
                    h
                } else {
                    old(self).height as int
                })
                &&& final(self).center_y == (if far(old(self).center_y as int, cy) {
                    cy
                } else {
                    old(self).center_y as int
                })
                &&& final(self).scroll_y == final(self).frame().bounded(
                    old(self).scroll_y as int,
                    n,
                )
                &&& *final(self) == (MultiTextbox {
                    center_y: final(self).center_y,
                    height: final(self).height,
                    scroll_y: final(self).scroll_y,
                    cache: old(self).cache.marked(
                        old(self).cache.pill_dirty || tall,
                        old(self).cache.text_dirty || tall,
                    ),
                    ..*old(self)
                })
            }),
    {
        let new_h: Coord = self.height_within(max_h);
        if is_far(self.height, new_h) {
            self.height = new_h;
            self.cache.pill_dirty = true;
            self.cache.text_dirty = true;
        }
        let new_cy: Coord = bottom_y - coord::half(self.height);
        if is_far(self.center_y, new_cy) {
            self.center_y = new_cy;
        }
        self.clamp_scroll();
    }

    /// Lays the text field out: as wide as asked, as high as its text, up to `max_h`, and with its
    /// bottom edge at `bottom_y`. Changes of half a pixel or less are passed over.
    pub fn set_layout<F: Fn(char, Coord) -> Coord>(
        &mut self,
        center_x: Coord,
        bottom_y: Coord,
        width: Coord,
        max_h: Coord,
        measure: &F,
    )
        requires
            old(self).wf(),
            measures_chars(*measure, 0, old(self).chars@.len() as int),
            face::placeable(center_x as int),
            -0x400_0000_0000 <= bottom_y <= 0x400_0000_0000,
            face::placeable(width as int),
            face::placeable(max_h as int),
        ensures
            final(self).wf(),
            ({
                let wide = far(old(self).width as int, width as int);
                let n = final(self).line_starts@.len() as int;
                let h = old(self).natural_h(n, max_h as int);
                let tall = far(old(self).height as int, h);
                let cy = bottom_y - coord::truncated(final(self).height as int, 2);
                let between = MultiTextbox { width: final(self).width, ..*old(self) };
                &&& final(self).width == (if wide {
                    width
                } else {
                    old(self).width
                })
                &&& if wide {
                    &&& chars_measured(
                        *measure,
                        old(self).font_size,
                        old(self).chars@,
                        final(self).widths@,
                    )
                    &&& lines::table(final(self).line_starts@) == lines::wrapped(
                        old(self).chars@,
                        final(self).widths@,
                        between.line_width(),
                    )
                } else {
                    &&& final(self).widths == old(self).widths
                    &&& final(self).line_starts == old(self).line_starts
                }
                &&& final(self).height == (if tall {
                    h
                } else {
                    old(self).height as int
                })
                &&& final(self).center_y == (if far(old(self).center_y as int, cy) {
                    cy
                } else {
                    old(self).center_y as int
                })
                &&& final(self).scroll_y == final(self).frame().bounded(
                    if wide {
                        between.frame().bounded(old(self).scroll_y as int, n)
                    } else {
                        old(self).scroll_y as int
                    },
                    n,
                )
                &&& *final(self) == (MultiTextbox {
                    center_x,
                    center_y: final(self).center_y,
                    width: final(self).width,
                    height: final(self).height,
                    widths: final(self).widths,
                    line_starts: final(self).line_starts,
                    scroll_y: final(self).scroll_y,
                    cache: old(self).cache.marked(
                        old(self).cache.pill_dirty || wide || tall,
                        old(self).cache.text_dirty || wide || tall,
                    ),
                    ..*old(self)
                })
            }),
    {
        self.take_width(center_x, width, measure);
        self.take_height(bottom_y, max_h);
    }

    /// Changes the font size, unless the change is a hundredth of a pixel or less, and measures the
    /// text anew.
    pub fn set_font_size<F: Fn(char, Coord) -> Coord>(&mut self, font_size: Coord, measure: &F)
        requires
            old(self).wf(),
            measures_chars(*measure, 0, old(self).chars@.len() as int),
            0 <= font_size <= MAX_FONT,
            face::stroke_ok(old(self).stroke_ru as int, font_size as int),
            (MultiTextbox { font_size, ..*old(self) }).tall_enough(old(self).chars@.len() as int),
        ensures
            final(self).wf(),
            if -655 <= font_size - old(self).font_size <= 655 {
                *final(self) == *old(self)
            } else {
                let sized = MultiTextbox { font_size, ..*old(self) };
                &&& chars_measured(*measure, font_size, old(self).chars@, final(self).widths@)
                &&& final(self).page() == (Page {
                    widths: final(self).widths@,
                    ..old(self).page()
                }).rewrapped(sized.frame())
                &&& *final(self) == (MultiTextbox {
                    font_size,
                    widths: final(self).widths,
                    line_starts: final(self).line_starts,
                    scroll_y: final(self).scroll_y,
                    cache: old(self).cache.marked(true, true),
                    ..*old(self)
                })
            },
    {
        let d: i128 = font_size as i128 - self.font_size as i128;
        if d > 655 || d < -655 {
            self.font_size = font_size;
            self.cache.pill_dirty = true;
            self.relayout(measure);
        }
    }

    /// Changes how far the text stays away from the right edge, unless the change is half a pixel or
    /// less.
    pub fn set_right_inset(&mut self, inset: Coord)
        ensures
            *final(self) == (if far(old(self).right_inset as int, inset as int) {
                MultiTextbox {
                    right_inset: inset,
                    cache: old(self).cache.marked(true, true),
                    ..*old(self)
                }
            } else {
                *old(self)
            }),
    {
        if is_far(self.right_inset, inset) {
            self.right_inset = inset;
            self.cache.invalidate();
        }
    }

    /// Where many characters find room, fewer do.
    proof fn lemma_room_for_fewer<F: Fn(char, Coord) -> Coord>(&self, f: F, k: int, j: int)
        requires
            self.place_ok(),
            self.room_for(f, k),
            0 <= j <= k,
        ensures
            self.room_for(f, j),
    {
        lemma_fewer(f, edit::total(self.widths@), k, edit::total(self.widths@), j);
        self.lemma_lower(self.chars@.len() + j + 1, self.chars@.len() + k + 1);
    }

    /// Takes out what is selected, and ends the selection.
    fn delete_selection_internal(&mut self)
        requires
            old(self).text_ok(),
            old(self).place_ok(),
            old(self).edit().anchor_ok(),
        ensures
            final(self).text_ok(),
            final(self).page() == old(self).page().cut(),
            final(self).chars@.len() <= old(self).chars@.len(),
            edit::total(final(self).widths@) <= edit::total(old(self).widths@),
            *final(self) == (MultiTextbox {
                chars: final(self).chars,
                cursor: final(self).cursor,
                selection_anchor: None,
                widths: final(self).widths,
                ..*old(self)
            }),
    {
        match self.selection_range() {
            Some((s, e)) => {
                proof {
                    edit::lemma_total_without(self.widths@, s as int, e as int);
                    self.lemma_lower(self.chars@.len() - (e - s) + 1, (self.chars@.len() + 1) as int);
                }
                edit::remove_range(&mut self.chars, s, e);
                edit::remove_range(&mut self.widths, s, e);
                self.cursor = s;
            },
            None => {},
        }
        self.selection_anchor = None;
    }

    /// Puts characters of the given widths in at the cursor.
    fn put_in(&mut self, s: &Vec<char>, w: &Vec<Coord>)
        requires
            old(self).text_ok(),
            old(self).chars@.len() + s@.len() <= usize::MAX,
            old(self).tall_enough((old(self).chars@.len() + s@.len()) as int),
            w@.len() == s@.len(),
            forall|i: int| 0 <= i < w@.len() ==> 0 <= #[trigger] w@[i],
            edit::total(old(self).widths@) + edit::total(w@) <= edit::MAX_TEXT,
        ensures
            final(self).text_ok(),
            edit::total(final(self).widths@) == edit::total(old(self).widths@) + edit::total(w@),
            final(self).chars@.len() == old(self).chars@.len() + s@.len(),
            final(self).page() == old(self).page().pasted(s@, w@),
            *final(self) == (MultiTextbox {
                chars: final(self).chars,
                cursor: final(self).cursor,
                widths: final(self).widths,
                ..*old(self)
            }),
    {
        proof {
            edit::lemma_total_with(self.widths@, self.cursor as int, w@);
        }
        edit::insert_all(&mut self.chars, self.cursor, s);
        edit::insert_all(&mut self.widths, self.cursor, w);
        self.cursor = self.cursor + s.len();
    }

    /// Puts characters in place of the selection.
    fn paste<F: Fn(char, Coord) -> Coord>(&mut self, s: &Vec<char>, measure: &F)
        requires
            old(self).wf(),
            old(self).edit().anchor_ok(),
            old(self).room_for(*measure, s@.len() as int),
        ensures
            final(self).wf(),
            final(self).edit().anchor_ok(),
            final(self).chars@.len() <= old(self).chars@.len() + s@.len(),
            final(self).same_rest(old(self)),
            forall|k: int|
                s@.len() <= k && #[trigger] old(self).room_for(*measure, k) ==> {
                    final(self).room_for(*measure, k - s@.len())
                },
            pasted_to(
                *measure,
                old(self).font_size,
                old(self).frame(),
                old(self).page(),
                s@,
                final(self).page(),
            ),
    {
        self.delete_selection_internal();
        let ghost used = edit::total(self.widths@);
        let ghost n = s@.len() as int;
        proof {
            lemma_fewer(*measure, edit::total(old(self).widths@), n, used, n);
            self.lemma_lower(self.chars@.len() + n + 1, old(self).chars@.len() + n + 1);
        }
        let w: Vec<Coord> = measure_chars(measure, self.font_size, s, Ghost(used), Ghost(n));
        proof {
            lemma_room_left(*measure, used, n, w@);
        }
        self.put_in(s, &w);
        self.settle();
        assert(chars_measured(*measure, old(self).font_size, s@, w@));
        proof {
            assert forall|k: int| s@.len() <= k && #[trigger] old(self).room_for(
                *measure,
                k,
            ) implies self.room_for(*measure, k - s@.len()) by {
                lemma_fewer(*measure, edit::total(old(self).widths@), k, used, k);
                assert forall|i: int| 0 <= i < w@.len() implies 0 <= #[trigger] w@[i] && used + k
                    * w@[i] <= edit::MAX_TEXT by {
                    assert(char_measured(*measure, old(self).font_size, s@[i], w@[i]));
                    if s@[i] == '\n' {
                        assert(k * 0 == 0);
                    }
                }
                lemma_room_left(*measure, used, k, w@);
                self.lemma_lower(
                    self.chars@.len() + (k - s@.len()) + 1,
                    old(self).chars@.len() + k + 1,
                );
            }
        }
    }

    /// Types a character in place of the selection.
    pub fn insert_char<F: Fn(char, Coord) -> Coord>(&mut self, c: char, measure: &F)
        requires
            old(self).wf(),
            old(self).edit().anchor_ok(),
            old(self).room_for(*measure, 1),
        ensures
            final(self).wf(),
            final(self).edit().anchor_ok(),
            final(self).chars@.len() <= old(self).chars@.len() + 1,
            final(self).same_rest(old(self)),
            forall|k: int|
                1 <= k && #[trigger] old(self).room_for(*measure, k) ==> final(self).room_for(
                    *measure,
                    k - 1,
                ),
            pasted_to(
                *measure,
                old(self).font_size,
                old(self).frame(),
                old(self).page(),
                seq![c],
                final(self).page(),
            ),
    {
        let mut s: Vec<char> = Vec::new();
        s.push(c);
        assert(s@ =~= seq![c]);
        self.paste(&s, measure);
    }

    /// Puts a string in place of the selection.
    pub fn insert_str<F: Fn(char, Coord) -> Coord>(&mut self, s: &str, measure: &F)
        requires
            old(self).wf(),
            old(self).edit().anchor_ok(),
            old(self).room_for(*measure, s@.len() as int),
        ensures
            final(self).wf(),
            final(self).edit().anchor_ok(),
            final(self).same_rest(old(self)),
            pasted_to(
                *measure,
                old(self).font_size,
                old(self).frame(),
                old(self).page(),
                s@,
                final(self).page(),
            ),
    {
        let all: Vec<char> = chars::chars_of(s);
        self.paste(&all, measure);
    }

    /// Takes out one character.
    fn take_out(&mut self, at: usize)
        requires
            at < old(self).chars@.len(),
            old(self).cursor <= at,
            old(self).place_ok(),
            old(self).widths@.len() == old(self).chars@.len(),
            edit::widths_ok(old(self).widths@),
            old(self).tall_enough(old(self).chars@.len() as int),
        ensures
            final(self).text_ok(),
            final(self).chars@ == old(self).chars@.remove(at as int),
            final(self).widths@ == old(self).widths@.remove(at as int),
            *final(self) == (MultiTextbox {
                chars: final(self).chars,
                widths: final(self).widths,
                ..*old(self)
            }),
    {
        let ghost before = self.widths@;
        proof {
            edit::lemma_total_without(before, at as int, at + 1);
            self.lemma_lower(self.chars@.len() as int, (self.chars@.len() + 1) as int);
        }
        self.chars.remove(at);
        self.widths.remove(at);
        assert(self.widths@ =~= before.subrange(0, at as int) + before.subrange(
            at + 1,
            before.len() as int,
        ));
    }

    /// Takes out the selection or, where there is none, the character before the cursor.
    pub fn backspace(&mut self)
        requires
            old(self).wf(),
            old(self).edit().anchor_ok(),
        ensures
            final(self).wf(),
            final(self).page() == old(self).page().backspaced().settled(old(self).frame()),
            final(self).same_rest(old(self)),
    {
        if self.has_selection() {
            self.delete_selection_internal();
        } else if self.cursor > 0 {
            self.cursor = self.cursor - 1;
            self.take_out(self.cursor);
        }
        self.settle();
    }

    /// Takes out the selection or, where there is none, the character behind the cursor.
    pub fn delete_forward(&mut self)
        requires
            old(self).wf(),
            old(self).edit().anchor_ok(),
        ensures
            final(self).wf(),
            final(self).edit().anchor_ok(),
            final(self).page() == old(self).page().deleted().settled(old(self).frame()),
            final(self).same_rest(old(self)),
    {
        if self.has_selection() {
            self.delete_selection_internal();
        } else if self.cursor < self.chars.len() {
            self.take_out(self.cursor);
        }
        self.settle();
    }

    /// Puts a string in place of characters `start..end`, as far as there are such; the cursor goes
    /// behind it, and nothing is selected.
    pub fn replace_char_range<F: Fn(char, Coord) -> Coord>(
        &mut self,
        start: usize,
        end: usize,
        s: &str,
        measure: &F,
    )
        requires
            old(self).wf(),
            old(self).room_for(*measure, s@.len() as int),
        ensures
            final(self).wf(),
            final(self).edit().anchor_ok(),
            final(self).same_rest(old(self)),
            ({
                let n = old(self).chars@.len() as int;
                let a = vstd::math::min(start as int, n);
                let b = clip::clamp_int(end as int, a, n);
                pasted_to(
                    *measure,
                    old(self).font_size,
                    old(self).frame(),
                    old(self).page().with_edit(
                        (Edit { text: old(self).chars@, cursor: b, anchor: Some(a) }),
                    ),
                    s@,
                    final(self).page(),
                )
            }),
    {
        let n: usize = self.chars.len();
        let a: usize = if start <= n {
            start
        } else {
            n
        };
        let b: usize = if end < a {
            a
        } else if end > n {
            n
        } else {
            end
        };
        self.cursor = b;
        self.selection_anchor = Some(a);
        self.insert_str(s, measure);
    }

    /// Empties the text field.
    pub fn clear(&mut self)
        ensures
            final(self).page() == (Page {
                edit: Edit { text: Seq::empty(), cursor: 0, anchor: None },
                widths: Seq::empty(),
                starts: seq![0],
                scroll: 0,
                goal: None,
                dirty: true,
            }),
            final(self).same_rest(old(self)),
            old(self).base_ok() ==> final(self).wf(),
    {
        self.chars = Vec::new();
        self.cursor = 0;
        self.selection_anchor = None;
        self.goal_x = None;
        self.scroll_y = 0;
        self.line_starts = Vec::new();
        self.line_starts.push(0);
        self.widths = Vec::new();
        self.cache.text_dirty = true;
        assert(self.chars@ =~= Seq::<char>::empty());
        assert(self.widths@ =~= Seq::<Coord>::empty());
        assert(lines::table(self.line_starts@) =~= seq![0int]);
    }

    /// Something is selected.
    pub fn has_selection(&self) -> (b: bool)
        ensures
            b == (self.edit().range() is Some),
    {
        self.selection_range().is_some()
    }

    /// What is selected, from the lower end to the upper.
    pub open spec fn range(&self) -> Option<(usize, usize)> {
        match self.edit().range() {
            Some((s, e)) => Some((s as usize, e as usize)),
            None => None,
        }
    }

    /// What is selected, from the lower end to the upper.
    pub fn selection_range(&self) -> (r: Option<(usize, usize)>)
        ensures
            r == self.range(),
            match r {
                Some((s, e)) => self.edit().range() == Some((s as int, e as int)),
                None => self.edit().range() is None,
            },
    {
        edit::selected_range(self.selection_anchor, self.cursor)
    }

    /// Selects everything.
    pub fn select_all(&mut self)
        ensures
            final(self).page() == (Page {
                edit: old(self).edit().all_selected(),
                dirty: true,
                ..old(self).page()
            }),
            final(self).same_rest(old(self)),
    {
        self.selection_anchor = Some(0);
        self.cursor = self.chars.len();
        self.cache.text_dirty = true;
    }

    /// The characters that are selected.
    pub fn selected_text(&self) -> (s: Option<String>)
        requires
            self.edit().wf(),
        ensures
            match s {
                Some(t) => self.edit().range() is Some && t@ == self.edit().selection(),
                None => self.edit().range() is None,
            },
    {
        match self.selection_range() {
            Some((start, end)) => Some(chars::string_of(self.chars.as_slice(), start, end)),
            None => None,
        }
    }

    /// Takes out what is selected.
    pub fn delete_selection(&mut self)
        requires
            old(self).wf(),
            old(self).edit().anchor_ok(),
        ensures
            final(self).wf(),
            final(self).edit().anchor_ok(),
            final(self).page() == old(self).page().cut().rewrapped(old(self).frame()).revealed(
                old(self).frame(),
            ),
            final(self).same_rest(old(self)),
    {
        self.delete_selection_internal();
        self.rewrap();
        self.ensure_cursor_visible();
    }

    /// The line of a place in the text.
    pub fn line_of(&self, idx: usize) -> (l: usize)
        requires
            self.lines_ok(),
        ensures
            l as int == lines::line_at(self.page().starts, idx as int),
            l < self.line_starts@.len(),
    {
        lines::line_of(&self.line_starts, idx, self.chars.len())
    }

    /// Where a line ends, its line break included.
    pub fn line_end(&self, line: usize) -> (e: usize)
        requires
            self.lines_ok(),
            line < self.line_starts@.len(),
        ensures
            e as int == lines::end_of(self.page().starts, self.chars@.len() as int, line as int),
            self.line_starts@[line as int] <= e <= self.chars@.len(),
    {
        proof {
            let t = self.page().starts;
            assert(t[line as int] == self.line_starts@[line as int]);
            if line + 1 < self.line_starts@.len() {
                assert(t[line + 1] == self.line_starts@[line + 1]);
            }
        }
        let n: usize = self.line_starts.len();
        if line + 1 < n {
            self.line_starts[line + 1]
        } else {
            self.chars.len()
        }
    }

    /// The characters of a line that are drawn: all but its line break.
    pub fn line_draw_range(&self, line: usize) -> (r: (usize, usize))
        requires
            self.lines_ok(),
            line < self.line_starts@.len(),
        ensures
            r.0 as int == self.page().starts[line as int],
            r.1 as int == lines::draw_end(self.chars@, self.page().starts, line as int),
            r.0 <= r.1 <= self.chars@.len(),
    {
        let s: usize = self.line_starts[line];
        let e: usize = self.line_end(line);
        if e > s && self.chars[e - 1] == '\n' {
            (s, e - 1)
        } else {
            (s, e)
        }
    }

    /// Where a place in the text is on its line.
    pub fn x_in_line(&self, idx: usize) -> (x: Coord)
        requires
            self.wf(),
            idx <= self.chars@.len(),
        ensures
            x as int == edit::sum_to(self.widths@, idx as int) - edit::sum_to(
                self.widths@,
                self.page().starts[lines::line_at(self.page().starts, idx as int)],
            ),
            0 <= x <= 0x1000_0000_0000_0000,
    {
        let line: usize = self.line_of(idx);
        proof {
            let t = self.page().starts;
            lines::lemma_line_from(t, idx as int, t.len() as int, self.chars@.len() as int);
        }
        edit::sum_of(&self.widths, self.line_starts[line], idx)
    }

    /// The place on a line nearest to `x`, counted from the start of the line.
    fn index_at_line_x(&self, line: usize, x: i128) -> (i: usize)
        requires
            self.wf(),
            line < self.line_starts@.len(),
        ensures
            i as int == self.page().place_on(line as int, x as int),
            i <= self.chars@.len(),
    {
        let (s, e) = self.line_draw_range(line);
        lines::place_on_line(&self.widths, x, s, e)
    }

    /// After the cursor was put at `cursor`.
    fn move_to(&mut self, cursor: usize)
        requires
            old(self).wf(),
            cursor <= old(self).chars@.len(),
        ensures
            final(self).wf(),
            final(self).page() == old(self).page().moved(
                old(self).edit().at(cursor as int),
                old(self).frame(),
            ),
            final(self).same_rest(old(self)),
    {
        self.cursor = cursor;
        self.goal_x = None;
        self.ensure_cursor_visible();
        self.cache.text_dirty = true;
    }

    /// One character to the left.
    pub fn cursor_left(&mut self)
        requires
            old(self).wf(),
        ensures
            final(self).wf(),
            final(self).page() == old(self).page().left(old(self).frame()),
            final(self).same_rest(old(self)),
    {
        let to: usize = if self.cursor > 0 {
            self.cursor - 1
        } else {
            0
        };
        self.move_to(to);
    }

    /// One character to the right.
    pub fn cursor_right(&mut self)
        requires
            old(self).wf(),
        ensures
            final(self).wf(),
            final(self).page() == old(self).page().right(old(self).frame()),
            final(self).same_rest(old(self)),
    {
        let to: usize = if self.cursor < self.chars.len() {
            self.cursor + 1
        } else {
            self.chars.len()
        };
        self.move_to(to);
    }

    /// To the start of the line.
    pub fn cursor_home(&mut self)
        requires
            old(self).wf(),
        ensures
            final(self).wf(),
            final(self).page() == old(self).page().home(old(self).frame()),
            final(self).same_rest(old(self)),
    {
        let line: usize = self.line_of(self.cursor);
        let to: usize = self.line_starts[line];
        assert(self.page().starts[line as int] == to);
        self.move_to(to);
    }

    /// To the end of the line.
    pub fn cursor_end(&mut self)
        requires
            old(self).wf(),
        ensures
            final(self).wf(),
            final(self).page() == old(self).page().end(old(self).frame()),
            final(self).same_rest(old(self)),
    {
        let line: usize = self.line_of(self.cursor);
        let (_s, e) = self.line_draw_range(line);
        self.move_to(e);
    }

    /// Where a move to the line below or above goes.
    fn vertical_target(&self, down: bool) -> (t: Option<(usize, Coord)>)
        requires
            self.wf(),
        ensures
            match t {
                Some((place, x)) => self.page().vertical_place(down) == Some(
                    (place as int, x as int),
                ) && place <= self.chars@.len(),
                None => self.page().vertical_place(down) is None,
            },
    {
        let line: usize = self.line_of(self.cursor);
        let x: Coord = match self.goal_x {
            Some(g) => g,
            None => self.x_in_line(self.cursor),
        };
        let n: usize = self.line_starts.len();
        if down {
            if line + 1 >= n {
                None
            } else {
                Some((self.index_at_line_x(line + 1, x as i128), x))
            }
        } else {
            if line == 0 {
                None
            } else {
                Some((self.index_at_line_x(line - 1, x as i128), x))
            }
        }
    }

    /// To the line below or above, if there is one. The cursor keeps its x over several such moves, so
    /// that a short line in between does not lose the column.
    pub fn cursor_vertical(&mut self, down: bool)
        requires
            old(self).wf(),
        ensures
            final(self).wf(),
            final(self).page() == old(self).page().vertical(down, old(self).frame()),
            final(self).same_rest(old(self)),
    {
        match self.vertical_target(down) {
            Some((place, x)) => {
                self.cursor = place;
                self.goal_x = Some(x);
                self.ensure_cursor_visible();
                self.cache.text_dirty = true;
            },
            None => {},
        }
    }

    /// The line at a height, counted from the top of the text field.
    pub open spec fn line_at_y(&self, ly: int) -> int {
        let num = ly - self.inset_y() + self.scroll_y;
        let last = self.line_starts@.len() - 1;
        if num <= 0 {
            0
        } else if self.row() == 0 {
            last
        } else {
            vstd::math::min(num / self.row(), last)
        }
    }

    /// The place in the text nearest to a point.
    pub open spec fn place_at(&self, x: int, y: int) -> int {
        let lx = x - (self.center_x - coord::truncated(self.width as int, 2));
        let ly = y - (self.center_y - coord::truncated(self.height as int, 2));
        self.page().place_on(self.line_at_y(ly), lx - self.inset_x())
    }

    /// The place in the text nearest to a point: on the line at its height, nearest to its x.
    pub fn cursor_index_from_xy(&self, x: Coord, y: Coord) -> (i: usize)
        requires
            self.wf(),
        ensures
            i as int == self.place_at(x as int, y as int),
            i <= self.chars@.len(),
    {
        let lx: i128 = x as i128 - (self.center_x - coord::half(self.width)) as i128;
        let ly: i128 = y as i128 - (self.center_y - coord::half(self.height)) as i128;
        let num: i128 = ly - self.pad_y() as i128 + self.scroll_y as i128;
        let row: Coord = self.row_h();
        let last: usize = self.line_starts.len() - 1;
        let line: usize = if num <= 0 {
            0
        } else if row == 0 {
            last
        } else {
            let q: u128 = num as u128 / row as u128;
            if q >= last as u128 {
                last
            } else {
                q as usize
            }
        };
        self.index_at_line_x(line, lx - self.pad_x() as i128)
    }

    /// A press puts the cursor there, and ends the selection.
    pub fn pointer_press(&mut self, x: Coord, y: Coord)
        requires
            old(self).wf(),
        ensures
            final(self).wf(),
            final(self).edit().anchor_ok(),
            final(self).page() == (Page {
                edit: old(self).edit().at(old(self).place_at(x as int, y as int)).collapsed(),
                goal: None,
                dirty: true,
                ..old(self).page()
            }),
            final(self).same_rest(old(self)),
    {
        self.cursor = self.cursor_index_from_xy(x, y);
        self.selection_anchor = None;
        self.goal_x = None;
        self.cache.text_dirty = true;
    }

    /// A drag selects up to the pointer, from where the cursor was when it started.
    pub fn pointer_drag(&mut self, x: Coord, y: Coord)
        requires
            old(self).wf(),
        ensures
            final(self).wf(),
            final(self).page() == (Page {
                edit: old(self).edit().ready(true).at(old(self).place_at(x as int, y as int)),
                dirty: true,
                ..old(self).page()
            }),
            final(self).same_rest(old(self)),
    {
        if self.selection_anchor.is_none() {
            self.selection_anchor = Some(self.cursor);
        }
        self.cursor = self.cursor_index_from_xy(x, y);
        self.cache.text_dirty = true;
    }

    /// Selects the run of one class around a character, within its line; past the end, around the last
    /// one.
    pub fn select_word_at(&mut self, idx: usize)
        ensures
            final(self).same_rest(old(self)),
            old(self).chars@.len() == 0 ==> final(self).page() == old(self).page(),
            old(self).chars@.len() > 0 ==> {
                &&& final(self).selection_anchor is Some
                &&& edit::is_run(
                    old(self).chars@,
                    vstd::math::min(idx as int, old(self).chars@.len() - 1),
                    final(self).selection_anchor->0 as int,
                    final(self).cursor as int,
                    true,
                )
                &&& final(self).page() == (Page {
                    edit: Edit {
                        text: old(self).chars@,
                        cursor: final(self).cursor as int,
                        anchor: Some(final(self).selection_anchor->0 as int),
                    },
                    dirty: true,
                    ..old(self).page()
                })
            },
    {
        if self.chars.len() == 0 {
            return;
        }
        let (s, e) = edit::word_run(&self.chars, idx, true);
        self.selection_anchor = Some(s);
        self.cursor = e;
        self.cache.text_dirty = true;
    }

    /// Scrolls by `dy`, within the bounds. Whether that moved the text by more than a hundredth of a
    /// pixel is returned.
    pub fn scroll_by(&mut self, dy: Coord) -> (moved: bool)
        requires
            old(self).wf(),
            -0x4000_0000_0000_0000 <= dy <= 0x4000_0000_0000_0000,
        ensures
            final(self).wf(),
            ({
                let s = old(self).frame().bounded(
                    old(self).scroll_y + dy,
                    old(self).line_starts@.len() as int,
                );
                &&& moved == !(-655 <= s - old(self).scroll_y <= 655)
                &&& *final(self) == (MultiTextbox {
                    scroll_y: s as Coord,
                    cache: old(self).cache.marked(
                        old(self).cache.pill_dirty,
                        old(self).cache.text_dirty || moved,
                    ),
                    ..*old(self)
                })
            }),
    {
        let before: Coord = self.scroll_y;
        self.scroll_y = self.scroll_y + dy;
        self.clamp_scroll();
        let d: i128 = self.scroll_y as i128 - before as i128;
        if d > 655 || d < -655 {
            self.cache.text_dirty = true;
            true
        } else {
            false
        }
    }

    /// Shows or hides the cursor and turns its wave upside down, while the text field is focused.
    pub fn flip_blinkey(&mut self) -> (redraw: bool)
        ensures
            redraw == old(self).focused,
            *final(self) == (if old(self).focused {
                MultiTextbox {
                    blinkey_visible: !old(self).blinkey_visible,
                    blinkey_wave_top: !old(self).blinkey_wave_top,
                    ..*old(self)
                }
            } else {
                *old(self)
            }),
    {
        if !self.focused {
            return false;
        }
        self.blinkey_visible = !self.blinkey_visible;
        self.blinkey_wave_top = !self.blinkey_wave_top;
        true
    }

    /// The point is in the rectangle of the text field, edges included.
    pub fn contains(&self, x: Coord, y: Coord) -> (b: bool)
        requires
            self.place_ok(),
        ensures
            ({
                let lx = x - (self.center_x - coord::truncated(self.width as int, 2));
                let ly = y - (self.center_y - coord::truncated(self.height as int, 2));
                b == (0 <= lx <= self.width && 0 <= ly <= self.height)
            }),
    {
        let lx: i128 = x as i128 - (self.center_x - coord::half(self.width)) as i128;
        let ly: i128 = y as i128 - (self.center_y - coord::half(self.height)) as i128;
        lx >= 0 && lx <= self.width as i128 && ly >= 0 && ly <= self.height as i128
    }

    pub fn hit_id(&self) -> (id: HitId)
        ensures
            id == self.hit_id,
    {
        self.hit_id
    }

    pub fn is_focused(&self) -> (b: bool)
        ensures
            b == self.focused,
    {
        self.focused
    }

    /// Gives or takes focus; the cursor shows while there is focus.
    pub fn set_focused(&mut self, focused: bool)
        ensures
            *final(self) == (if focused == old(self).focused {
                *old(self)
            } else {
                MultiTextbox { focused, blinkey_visible: focused, ..*old(self) }
            }),
    {
        if self.focused != focused {
            self.focused = focused;
            self.blinkey_visible = focused;
        }
    }

    pub fn is_hovered(&self) -> (b: bool)
        ensures
            b == self.hovered,
    {
        self.hovered
    }

    pub fn set_hovered(&mut self, hovered: bool)
        ensures
            *final(self) == (MultiTextbox { hovered, ..*old(self) }),
    {
        self.hovered = hovered;
    }

    pub fn set_enabled(&mut self, enabled: bool)
        ensures
            *final(self) == (MultiTextbox { enabled, ..*old(self) }),
    {
        self.enabled = enabled;
    }

    /// The text field takes part in clicks, keys, focus and hovering while it is enabled.
    pub fn accepts_input(&self) -> (b: bool)
        ensures
            b == self.enabled,
    {
        self.enabled
    }

    /// Has both layers rasterised again.
    pub fn invalidate_cache(&mut self)
        ensures
            *final(self) == (MultiTextbox {
                cache: old(self).cache.marked(true, true),
                ..*old(self)
            }),
    {
        self.cache.invalidate();
    }

    /// Forgets what was painted, and has both layers rasterised again.
    pub fn reset_paint_tracking(&mut self)
        ensures
            *final(self) == (MultiTextbox {
                last_painted_bbox: None,
                last_painted_blinkey_on: false,
                last_painted_blinkey_bbox: None,
                last_painted_selection: None,
                cache: old(self).cache.marked(true, true),
                ..*old(self)
            }),
    {
        self.last_painted_bbox = None;
        self.last_painted_blinkey_on = false;
        self.last_painted_blinkey_bbox = None;
        self.last_painted_selection = None;
        self.cache.invalidate();
    }

    /// A click puts the cursor there and ends the selection.
    pub fn on_click(&mut self, x: Coord, y: Coord) -> (r: EventResponse)
        requires
            old(self).wf(),
        ensures
            final(self).wf(),
            final(self).edit().anchor_ok(),
            r == EventResponse::Handled,
            final(self).page() == (Page {
                edit: old(self).edit().at(old(self).place_at(x as int, y as int)).collapsed(),
                goal: None,
                dirty: true,
                ..old(self).page()
            }),
            final(self).same_rest(old(self)),
    {
        self.pointer_press(x, y);
        EventResponse::Handled
    }

    /// Starts the selection, lets it go on, or ends it, before the cursor moves.
    fn start_selection(&mut self, shift: bool)
        ensures
            final(self).page() == old(self).page().with_edit(old(self).edit().ready(shift)),
            *final(self) == (MultiTextbox {
                selection_anchor: final(self).selection_anchor,
                ..*old(self)
            }),
    {
        if shift && self.selection_anchor.is_none() {
            self.selection_anchor = Some(self.cursor);
        } else if !shift {
            self.selection_anchor = None;
        }
    }

    /// Left or right: with shift the selection grows; without it, a selection is left at its end on
    /// that side.
    fn step(&mut self, shift: bool, right: bool)
        requires
            old(self).wf(),
            !shift ==> old(self).edit().anchor_ok(),
        ensures
            final(self).wf(),
            final(self).page() == stepped(old(self).page(), shift, right, old(self).frame()),
            final(self).same_rest(old(self)),
    {
        if shift {
            self.start_selection(true);
            if right {
                self.cursor_right();
            } else {
                self.cursor_left();
            }
            return;
        }
        match self.selection_range() {
            Some((start, end)) => {
                self.selection_anchor = None;
                self.cursor = if right {
                    end
                } else {
                    start
                };
                self.ensure_cursor_visible();
                self.cache.text_dirty = true;
            },
            None => {
                if right {
                    self.cursor_right();
                } else {
                    self.cursor_left();
                }
            },
        }
    }

    /// Types characters one after the other. Whether there was any that types is returned.
    fn type_all<F: Fn(char, Coord) -> Coord>(&mut self, s: &Vec<char>, measure: &F) -> (
        changed: bool)
        requires
            old(self).wf(),
            old(self).edit().anchor_ok(),
            old(self).room_for(*measure, s@.len() as int),
        ensures
            final(self).wf(),
            final(self).edit().anchor_ok(),
            final(self).same_rest(old(self)),
            changed == types_any(s@),
            typed_to(
                *measure,
                old(self).font_size,
                old(self).frame(),
                old(self).page(),
                s@,
                final(self).page(),
            ),
    {
        let mut changed: bool = false;
        let mut i: usize = 0;
        let ghost frame = self.frame();
        let ghost fs = self.font_size;
        assert(s@.take(0) =~= Seq::<char>::empty());
        while i < s.len()
            invariant
                0 <= i <= s@.len(),
                self.wf(),
                self.edit().anchor_ok(),
                self.room_for(*measure, s@.len() - i),
                self.same_rest(old(self)),
                frame == old(self).frame(),
                fs == old(self).font_size,
                changed == types_any(s@.take(i as int)),
                typed_to(
                    *measure,
                    fs,
                    frame,
                    old(self).page(),
                    s@.take(i as int),
                    self.page(),
                ),
            decreases s@.len() - i,
        {
            let c = s[i];
            let ghost m = self.page();
            proof {
                assert(s@.take(i + 1) =~= s@.take(i as int).push(c));
                assert(s@.take(i + 1).drop_last() =~= s@.take(i as int));
                assert(self.frame() == frame);
                lemma_types_any(s@.take(i as int), c);
            }
            proof {
                self.lemma_room_for_fewer(*measure, s@.len() - i, 1);
                self.lemma_room_for_fewer(*measure, s@.len() - i, s@.len() - i - 1);
            }
            if !c.is_control() {
                self.insert_char(c, measure);
                changed = true;
                proof {
                    lemma_typed_step(
                        *measure,
                        fs,
                        frame,
                        old(self).page(),
                        s@.take(i as int),
                        m,
                        c,
                        self.page(),
                    );
                }
            }
            i = i + 1;
        }
        assert(s@.take(s@.len() as int) =~= s@);
        changed
    }

    /// A key of a text field of several lines: editing and moving keys, Enter, which types a line
    /// break, select all, and typing. Anything else, and a key that is released, is passed on.
    pub fn on_key<F: Fn(char, Coord) -> Coord>(
        &mut self,
        kev: &KeyEvent,
        mods: Modifiers,
        measure: &F,
    ) -> (r: EventResponse)
        requires
            old(self).wf(),
            key_uses_anchor(kev, mods) ==> old(self).edit().anchor_ok(),
            old(self).room_for(*measure, vstd::math::max(kev.text@.len() as int, 1)),
        ensures
            final(self).wf(),
            final(self).same_rest(old(self)),
            after_key(
                *measure,
                old(self).font_size,
                old(self).frame(),
                kev,
                mods,
                old(self).page(),
                final(self).page(),
                r,
            ),
    {
        if !kev.pressed {
            return EventResponse::Pass;
        }
        match kev.key {
            Key::Named(NamedKey::Backspace) => {
                self.backspace();
                EventResponse::Handled
            },
            Key::Named(NamedKey::Delete) => {
                self.delete_forward();
                EventResponse::Handled
            },
            Key::Named(NamedKey::Enter) => {
                proof {
                    self.lemma_room_for_fewer(
                        *measure,
                        vstd::math::max(kev.text@.len() as int, 1),
                        1,
                    );
                }
                self.insert_char('\n', measure);
                EventResponse::Handled
            },
            Key::Named(NamedKey::ArrowLeft) => {
                self.step(mods.shift, false);
                EventResponse::Handled
            },
            Key::Named(NamedKey::ArrowRight) => {
                self.step(mods.shift, true);
                EventResponse::Handled
            },
            Key::Named(NamedKey::ArrowUp) => {
                self.start_selection(mods.shift);
                self.cursor_vertical(false);
                EventResponse::Handled
            },
            Key::Named(NamedKey::ArrowDown) => {
                self.start_selection(mods.shift);
                self.cursor_vertical(true);
                EventResponse::Handled
            },
            Key::Named(NamedKey::Home) => {
                self.start_selection(mods.shift);
                self.cursor_home();
                EventResponse::Handled
            },
            Key::Named(NamedKey::End) => {
                self.start_selection(mods.shift);
                self.cursor_end();
                EventResponse::Handled
            },
            _ => {
                proof {
                    self.lemma_room_for_fewer(
                        *measure,
                        vstd::math::max(kev.text@.len() as int, 1),
                        kev.text@.len() as int,
                    );
                }
                self.on_text_key(kev, mods, measure)
            },
        }
    }

    /// A key that neither edits nor moves by itself: select all, or typing.
    fn on_text_key<F: Fn(char, Coord) -> Coord>(
        &mut self,
        kev: &KeyEvent,
        mods: Modifiers,
        measure: &F,
    ) -> (r: EventResponse)
        requires
            old(self).wf(),
            !selects_all(kev, mods) ==> old(self).edit().anchor_ok(),
            old(self).room_for(*measure, kev.text@.len() as int),
        ensures
            final(self).wf(),
            final(self).same_rest(old(self)),
            after_text_key(
                *measure,
                old(self).font_size,
                old(self).frame(),
                kev,
                mods,
                old(self).page(),
                final(self).page(),
                r,
            ),
    {
        let select: bool = match kev.key {
            Key::Character(c) => mods.is_chord() && (c == 'a' || c == 'A'),
            _ => false,
        };
        if select {
            self.select_all();
            EventResponse::Handled
        } else if mods.is_chord() {
            EventResponse::Pass
        } else if self.type_all(&kev.text, measure) {
            EventResponse::Handled
        } else {
            EventResponse::Pass
        }
    }
}

/// After a step to the left or the right.
pub open spec fn stepped(a: Page, shift: bool, right: bool, f: Frame) -> Page {
    let ready = a.with_edit(a.edit.ready(shift));
    if shift {
        if right {
            ready.right(f)
        } else {
            ready.left(f)
        }
    } else {
        match a.edit.range() {
            Some((s, e)) => Page {
                dirty: true,
                ..a.with_edit(
                    a.edit.collapsed().at(
                        if right {
                            e
                        } else {
                            s
                        },
                    ),
                ).revealed(f)
            },
            None => if right {
                a.right(f)
            } else {
                a.left(f)
            },
        }
    }
}

/// Some of the characters types something.
pub open spec fn types_any(s: Seq<char>) -> bool {
    exists|i: int| 0 <= i < s.len() && !chars::control(#[trigger] s[i])
}

proof fn lemma_types_any(s: Seq<char>, c: char)
    ensures
        types_any(s.push(c)) == (types_any(s) || !chars::control(c)),
{
    let t = s.push(c);
    if types_any(s) {
        let i = choose|i: int| 0 <= i < s.len() && !chars::control(#[trigger] s[i]);
        assert(!chars::control(t[i]));
    }
    if !chars::control(c) {
        assert(!chars::control(t[s.len() as int]));
    }
    if types_any(t) {
        let i = choose|i: int| 0 <= i < t.len() && !chars::control(#[trigger] t[i]);
        if i < s.len() {
            assert(!chars::control(s[i]));
        }
    }
}

/// The page `b` is `a` with the characters typed one after the other; control characters type
/// nothing.
pub open spec fn typed_to<F: Fn(char, Coord) -> Coord>(
    f: F,
    font_size: Coord,
    frame: Frame,
    a: Page,
    s: Seq<char>,
    b: Page,
) -> bool
    decreases s.len(),
{
    if s.len() == 0 {
        b == a
    } else if chars::control(s.last()) {
        typed_to(f, font_size, frame, a, s.drop_last(), b)
    } else {
        exists|m: Page|
            typed_to(f, font_size, frame, a, s.drop_last(), m) && #[trigger] pasted_to(
                f,
                font_size,
                frame,
                m,
                seq![s.last()],
                b,
            )
    }
}

/// Typing one more character.
proof fn lemma_typed_step<F: Fn(char, Coord) -> Coord>(
    f: F,
    font_size: Coord,
    frame: Frame,
    a: Page,
    s: Seq<char>,
    m: Page,
    c: char,
    b: Page,
)
    requires
        !chars::control(c),
        typed_to(f, font_size, frame, a, s, m),
        pasted_to(f, font_size, frame, m, seq![c], b),
    ensures
        typed_to(f, font_size, frame, a, s.push(c), b),
{
    assert(s.push(c).drop_last() =~= s);
    assert(pasted_to(f, font_size, frame, m, seq![s.push(c).last()], b));
}

/// The key asks for everything to be selected.
pub open spec fn selects_all(kev: &KeyEvent, mods: Modifiers) -> bool {
    mods.chord() && (kev.key == Key::Character('a') || kev.key == Key::Character('A'))
}

/// What the key does rests on both ends of the selection.
pub open spec fn key_uses_anchor(kev: &KeyEvent, mods: Modifiers) -> bool {
    kev.pressed && !selects_all(kev, mods) && match kev.key {
        Key::Named(NamedKey::ArrowLeft) => !mods.shift,
        Key::Named(NamedKey::ArrowRight) => !mods.shift,
        Key::Named(NamedKey::ArrowUp) => false,
        Key::Named(NamedKey::ArrowDown) => false,
        Key::Named(NamedKey::Home) => false,
        Key::Named(NamedKey::End) => false,
        _ => true,
    }
}

/// What a key that neither edits nor moves by itself does.
pub open spec fn after_text_key<F: Fn(char, Coord) -> Coord>(
    f: F,
    font_size: Coord,
    frame: Frame,
    kev: &KeyEvent,
    mods: Modifiers,
    a: Page,
    b: Page,
    r: EventResponse,
) -> bool {
    if selects_all(kev, mods) {
        r == EventResponse::Handled && b == (Page {
            edit: a.edit.all_selected(),
            dirty: true,
            ..a
        })
    } else if mods.chord() {
        r == EventResponse::Pass && b == a
    } else {
        &&& typed_to(f, font_size, frame, a, kev.text@, b)
        &&& r == (if types_any(kev.text@) {
            EventResponse::Handled
        } else {
            EventResponse::Pass
        })
    }
}

/// What a key does: the page `b` that it leaves of `a`, and the response.
pub open spec fn after_key<F: Fn(char, Coord) -> Coord>(
    f: F,
    font_size: Coord,
    frame: Frame,
    kev: &KeyEvent,
    mods: Modifiers,
    a: Page,
    b: Page,
    r: EventResponse,
) -> bool {
    let ready = a.with_edit(a.edit.ready(mods.shift));
    if !kev.pressed {
        r == EventResponse::Pass && b == a
    } else {
        match kev.key {
            Key::Named(NamedKey::Backspace) => r == EventResponse::Handled && b
                == a.backspaced().settled(frame),
            Key::Named(NamedKey::Delete) => r == EventResponse::Handled && b == a.deleted().settled(
                frame,
            ),
            Key::Named(NamedKey::Enter) => r == EventResponse::Handled && pasted_to(
                f,
                font_size,
                frame,
                a,
                seq!['\n'],
                b,
            ),
            Key::Named(NamedKey::ArrowLeft) => r == EventResponse::Handled && b == stepped(
                a,
                mods.shift,
                false,
                frame,
            ),
            Key::Named(NamedKey::ArrowRight) => r == EventResponse::Handled && b == stepped(
                a,
                mods.shift,
                true,
                frame,
            ),
            Key::Named(NamedKey::ArrowUp) => r == EventResponse::Handled && b == ready.vertical(
                false,
                frame,
            ),
            Key::Named(NamedKey::ArrowDown) => r == EventResponse::Handled && b == ready.vertical(
                true,
                frame,
            ),
            Key::Named(NamedKey::Home) => r == EventResponse::Handled && b == ready.home(frame),
            Key::Named(NamedKey::End) => r == EventResponse::Handled && b == ready.end(frame),
            _ => after_text_key(f, font_size, frame, kev, mods, a, b, r),
        }
    }
}

/// Two coordinates are more than half a pixel apart.
pub open spec fn far(a: int, b: int) -> bool {
    a - b > 0x8000 || b - a > 0x8000
}

/// Two coordinates are more than half a pixel apart.
fn is_far(a: Coord, b: Coord) -> (r: bool)
    ensures
        r == far(a as int, b as int),
{
    let d: i128 = a as i128 - b as i128;
    d > 0x8000 || d < -0x8000
}

/// The width of a character, of which `k` find room beside a text `used` wide.
fn measure_char<F: Fn(char, Coord) -> Coord>(
    measure: &F,
    font_size: Coord,
    c: char,
    Ghost(used): Ghost<int>,
    Ghost(k): Ghost<int>,
) -> (w: Coord)
    requires
        measures_chars(*measure, used, k),
        used <= edit::MAX_TEXT,
    ensures
        char_measured(*measure, font_size, c, w),
        0 <= w,
        used + k * w <= edit::MAX_TEXT,
{
    if c == '\n' {
        assert(k * 0 == 0);
        0
    } else {
        measure(c, font_size)
    }
}

/// The widths of characters, of which `k` find room beside a text `used` wide.
fn measure_chars<F: Fn(char, Coord) -> Coord>(
    measure: &F,
    font_size: Coord,
    s: &Vec<char>,
    Ghost(used): Ghost<int>,
    Ghost(k): Ghost<int>,
) -> (w: Vec<Coord>)
    requires
        measures_chars(*measure, used, k),
        used <= edit::MAX_TEXT,
    ensures
        chars_measured(*measure, font_size, s@, w@),
        forall|i: int|
            0 <= i < w@.len() ==> 0 <= #[trigger] w@[i] && used + k * w@[i] <= edit::MAX_TEXT,
{
    let mut w: Vec<Coord> = Vec::new();
    let mut i: usize = 0;
    while i < s.len()
        invariant
            0 <= i <= s@.len(),
            measures_chars(*measure, used, k),
            used <= edit::MAX_TEXT,
            w@.len() == i,
            forall|j: int|
                0 <= j < i ==> char_measured(*measure, font_size, s@[j], #[trigger] w@[j]),
            forall|j: int|
                0 <= j < i ==> 0 <= #[trigger] w@[j] && used + k * w@[j] <= edit::MAX_TEXT,
        decreases s@.len() - i,
    {
        w.push(measure_char(measure, font_size, s[i], Ghost(used), Ghost(k)));
        i = i + 1;
    }
    w
}

/// A page whose lines start in its text, with the cursor in it and a width for each character.
pub open spec fn page_ok(p: Page) -> bool {
    &&& lines::starts_ok(p.starts, p.edit.text.len() as int)
    &&& p.edit.cursor_ok()
    &&& p.widths.len() == p.edit.text.len()
    &&& edit::widths_ok(p.widths)
}

/// What revealing does to the scroll: the line of the cursor shows, and a scroll that was in bounds
/// and showed the line stays.
proof fn lemma_revealed(p: Page, f: Frame, line: int)
    requires
        lines::starts_ok(p.starts, p.edit.text.len() as int),
        p.edit.cursor_ok(),
        0 <= f.row_h <= f.inner_h,
        0 <= line < p.starts.len(),
        p.starts[line] <= p.edit.cursor,
        line + 1 < p.starts.len() ==> p.edit.cursor < p.starts[line + 1],
    ensures
        p.revealed(f).scroll <= line * f.row_h,
        (line + 1) * f.row_h <= p.revealed(f).scroll + f.inner_h,
        0 <= p.revealed(f).scroll,
        p.revealed(f).scroll == 0 || p.revealed(f).scroll + f.inner_h <= p.starts.len() * f.row_h,
        p.revealed(f) == (Page { scroll: p.revealed(f).scroll, ..p }),
{
    lines::lemma_line_unique(p.starts, p.edit.cursor, line, p.edit.text.len() as int);
    let n = p.starts.len() as int;
    assert(0 <= line * f.row_h && (line + 1) * f.row_h == line * f.row_h + f.row_h && (line + 1)
        * f.row_h <= n * f.row_h) by (nonlinear_arith)
        requires
            0 <= line < n,
            0 <= f.row_h,
    ;
}

/// After a move of the cursor its whole line shows, in a text field with room for a row: by a
/// character, to an end of the line, or to the line above or below.
pub proof fn law_moved_cursor_shows(p: Page, f: Frame, q: Page, line: int)
    requires
        page_ok(p),
        0 <= f.row_h <= f.inner_h,
        ({
            ||| q == p.left(f)
            ||| q == p.right(f)
            ||| q == p.home(f)
            ||| q == p.end(f)
            ||| p.vertical_place(true) is Some && q == p.vertical(true, f)
            ||| p.vertical_place(false) is Some && q == p.vertical(false, f)
        }),
        0 <= line < q.starts.len(),
        q.starts[line] <= q.edit.cursor,
        line + 1 < q.starts.len() ==> q.edit.cursor < q.starts[line + 1],
    ensures
        q.scroll <= line * f.row_h,
        (line + 1) * f.row_h <= q.scroll + f.inner_h,
        0 <= q.scroll,
        q.edit.text == p.edit.text && q.starts == p.starts && q.widths == p.widths,
        q.edit.anchor == p.edit.anchor,
{
    let len = p.edit.text.len() as int;
    let l = p.cursor_line();
    lines::lemma_line_from(p.starts, p.edit.cursor, p.starts.len() as int, len);
    assert(0 <= p.starts[l] <= len);
    assert(p.starts[l] <= lines::draw_end(p.edit.text, p.starts, l) <= len) by {
        if l + 1 < p.starts.len() {
            assert(p.starts[l] < p.starts[l + 1] <= len);
        }
    }
    if p.vertical_place(true) is Some {
        lemma_place_on(p, l + 1, (p.vertical_place(true)->0).1);
    }
    if p.vertical_place(false) is Some {
        lemma_place_on(p, l - 1, (p.vertical_place(false)->0).1);
    }
    lemma_revealed(Page { edit: q.edit, goal: q.goal, ..p }, f, line);
}

/// After an edit the lines are broken anew, and the whole line of the cursor shows, in a text field
/// with room for a row: whatever was typed, pasted or deleted.
pub proof fn law_edited_cursor_shows(p: Page, f: Frame, line: int)
    requires
        p.edit.cursor_ok(),
        p.widths.len() == p.edit.text.len(),
        edit::widths_ok(p.widths),
        0 <= f.row_h <= f.inner_h,
        0 <= line < p.settled(f).starts.len(),
        p.settled(f).starts[line] <= p.edit.cursor,
        line + 1 < p.settled(f).starts.len() ==> p.edit.cursor < p.settled(f).starts[line + 1],
    ensures
        p.settled(f).scroll <= line * f.row_h,
        (line + 1) * f.row_h <= p.settled(f).scroll + f.inner_h,
        0 <= p.settled(f).scroll,
        p.settled(f).edit == p.edit,
        page_ok(p.settled(f)),
{
    let r = (Page { goal: None, ..p }).rewrapped(f);
    lines::lemma_wrap(p.edit.text, p.widths, f.line_w, p.edit.text.len() as int);
    lemma_revealed(r, f, line);
}

/// Typing, pasting and deleting leave a width for each character, with the cursor in the text: what
/// [`law_edited_cursor_shows`] asks for.
pub proof fn law_edits_keep_widths(p: Page, s: Seq<char>, w: Seq<Coord>)
    requires
        page_ok(p),
        p.edit.anchor_ok(),
        w.len() == s.len(),
    ensures
        ({
            let q = p.cut().pasted(s, w);
            &&& q.edit.cursor_ok()
            &&& q.widths.len() == q.edit.text.len()
            &&& q.edit.text.subrange(q.edit.cursor - s.len(), q.edit.cursor) == s
            &&& q.widths.subrange(q.edit.cursor - s.len(), q.edit.cursor) == w
        }),
        ({
            let q = p.backspaced();
            &&& q.edit.cursor_ok()
            &&& q.widths.len() == q.edit.text.len()
        }),
        ({
            let q = p.deleted();
            &&& q.edit.cursor_ok()
            &&& q.widths.len() == q.edit.text.len()
        }),
{
    let q = p.cut().pasted(s, w);
    assert(q.edit.text.subrange(q.edit.cursor - s.len(), q.edit.cursor) =~= s);
    assert(q.widths.subrange(q.edit.cursor - s.len(), q.edit.cursor) =~= w);
}

/// A move that finds its line in view, with the scroll in bounds, does not scroll.
pub proof fn law_view_rests_while_the_cursor_shows(p: Page, f: Frame, line: int)
    requires
        page_ok(p),
        0 <= f.row_h <= f.inner_h,
        0 <= p.scroll,
        p.scroll == 0 || p.scroll + f.inner_h <= p.starts.len() * f.row_h,
        0 <= line < p.starts.len(),
        p.starts[line] <= p.edit.cursor,
        line + 1 < p.starts.len() ==> p.edit.cursor < p.starts[line + 1],
        p.scroll <= line * f.row_h,
        (line + 1) * f.row_h <= p.scroll + f.inner_h,
    ensures
        p.revealed(f).scroll == p.scroll,
{
    lines::lemma_line_unique(p.starts, p.edit.cursor, line, p.edit.text.len() as int);
    let n = p.starts.len() as int;
    assert((line + 1) * f.row_h == line * f.row_h + f.row_h) by (nonlinear_arith);
}

/// The place on a line is one of its places.
proof fn lemma_place_on(p: Page, line: int, x: int)
    requires
        page_ok(p),
        0 <= line < p.starts.len(),
    ensures
        p.starts[line] <= p.place_on(line, x) <= lines::draw_end(p.edit.text, p.starts, line),
        lines::draw_end(p.edit.text, p.starts, line) <= p.edit.text.len(),
{
    let e = lines::draw_end(p.edit.text, p.starts, line);
    if line + 1 < p.starts.len() {
        assert(p.starts[line] < p.starts[line + 1]);
    }
    assert(p.starts[line] <= e <= p.edit.text.len());
    lines::lemma_line_place(p.widths, x, p.starts[line], p.starts[line], e);
}

/// Home goes to the first place of the cursor's line and End to the last one before its line break:
/// no line break lies between them, the line starts the text or stands behind a break or a wrap, and
/// End is followed by a break, by the next line or by nothing.
pub proof fn law_home_and_end_stay_on_the_line(p: Page, f: Frame)
    requires
        page_ok(p),
    ensures
        ({
            let home = p.home(f).edit.cursor;
            let end = p.end(f).edit.cursor;
            &&& home <= p.edit.cursor
            &&& home == 0 || p.starts.contains(home)
            &&& forall|i: int| home < i <= p.edit.cursor ==> !#[trigger] p.starts.contains(i)
            &&& end >= home
            &&& end == p.edit.text.len() || p.edit.text[end] == '\n' || p.starts.contains(end)
            &&& forall|i: int| p.edit.cursor < i < end ==> !#[trigger] p.starts.contains(i)
        }),
{
    let l = p.cursor_line();
    let len = p.edit.text.len() as int;
    lines::lemma_line_from(p.starts, p.edit.cursor, p.starts.len() as int, len);
    let home = p.home(f).edit.cursor;
    let end = p.end(f).edit.cursor;
    assert(p.starts[l] == home);
    if l + 1 < p.starts.len() {
        assert(p.starts[l] < p.starts[l + 1]);
        assert(p.starts.contains(p.starts[l + 1]));
    }
    assert forall|i: int| home < i <= p.edit.cursor implies !#[trigger] p.starts.contains(i) by {
        if p.starts.contains(i) {
            let k = choose|k: int| 0 <= k < p.starts.len() && p.starts[k] == i;
            if k > l + 1 {
                assert(p.starts[l + 1] < p.starts[k]);
            }
            if k < l {
                assert(p.starts[k] < p.starts[l]);
            }
        }
    }
    assert forall|i: int| p.edit.cursor < i < end implies !#[trigger] p.starts.contains(i) by {
        if p.starts.contains(i) {
            let k = choose|k: int| 0 <= k < p.starts.len() && p.starts[k] == i;
            if k > l + 1 {
                assert(p.starts[l + 1] < p.starts[k]);
            }
            if k < l {
                assert(p.starts[k] < p.starts[l]);
            }
        }
    }
}

/// Moving up or down goes to the neighbouring line, to the place on it nearest to the x that the
/// cursor keeps, and keeps that x for the next such move. At the first and the last line nothing
/// happens.
pub proof fn law_vertical_move_keeps_the_column(p: Page, f: Frame, down: bool, line: int, other: int)
    requires
        page_ok(p),
        0 <= line < p.starts.len(),
        p.starts[line] <= p.edit.cursor,
        line + 1 < p.starts.len() ==> p.edit.cursor < p.starts[line + 1],
    ensures
        ({
            let q = p.vertical(down, f);
            let to = if down {
                line + 1
            } else {
                line - 1
            };
            let x = match p.goal {
                Some(g) => g,
                None => edit::sum_to(p.widths, p.edit.cursor) - edit::sum_to(
                    p.widths,
                    p.starts[line],
                ),
            };
            if 0 <= to < p.starts.len() {
                let s = p.starts[to];
                let e = lines::draw_end(p.edit.text, p.starts, to);
                &&& q.goal == Some(x)
                &&& s <= q.edit.cursor <= e
                &&& s <= other <= e ==> vstd::math::abs(
                    x - (edit::sum_to(p.widths, q.edit.cursor) - edit::sum_to(p.widths, s)),
                ) <= vstd::math::abs(
                    x - (edit::sum_to(p.widths, other) - edit::sum_to(p.widths, s)),
                ) + 1
            } else {
                q == p
            }
        }),
{
    lines::lemma_line_unique(p.starts, p.edit.cursor, line, p.edit.text.len() as int);
    if p.vertical_place(down) is Some {
        let to = if down {
            line + 1
        } else {
            line - 1
        };
        let x = (p.vertical_place(down)->0).1;
        lemma_place_on(p, to, x);
        let s = p.starts[to];
        let e = lines::draw_end(p.edit.text, p.starts, to);
        if s <= other <= e {
            lines::law_line_place_is_nearest(p.widths, x, s, e, other);
        }
    }
}

/// Pointing finds the line that is drawn there: the middle of a drawn line belongs to it, and so does
/// every height of its row.
pub proof fn law_pointing_finds_the_drawn_line(t: MultiTextbox, line: int, ly: int)
    requires
        t.wf(),
        0 <= line < t.line_starts@.len(),
        t.row() > 0,
        t.inset_y() + line * t.row() - t.scroll_y <= ly < t.inset_y() + (line + 1) * t.row()
            - t.scroll_y,
    ensures
        t.line_at_y(ly) == line,
{
    let num = ly - t.inset_y() + t.scroll_y;
    let r = t.row();
    assert((line + 1) * r == line * r + r) by (nonlinear_arith);
    assert(0 <= line * r) by (nonlinear_arith)
        requires
            0 <= line,
            0 < r,
    ;
    vstd::arithmetic::div_mod::lemma_fundamental_div_mod_converse(num, r, line, num - line * r);
}

/// Scrolling goes by as much as was asked, as far as the text reaches: never above its top, and never
/// beyond the scroll at which its last row ends with the room for it.
pub proof fn law_scroll_stays_on_the_text(f: Frame, scroll: int, lines: int)
    requires
        f.row_h >= 0,
        lines >= 0,
    ensures
        ({
            let s = f.bounded(scroll, lines);
            &&& 0 <= s
            &&& s == 0 || s + f.inner_h <= lines * f.row_h
            &&& 0 <= scroll && scroll + f.inner_h <= lines * f.row_h ==> s == scroll
            &&& scroll >= s ==> (s == scroll || s + f.inner_h == lines * f.row_h || s == 0)
            &&& scroll <= s ==> (s == scroll || s == 0)
        }),
{
}

/// Each moving key goes where it says: one character left or right, or to the end of the selection on
/// that side; to the line above or below; to the ends of the line. With shift the selection starts where
/// the cursor was, or goes on. A key that is released does nothing.
pub proof fn law_moving_keys_move_the_cursor<F: Fn(char, Coord) -> Coord>(
    f: F,
    font_size: Coord,
    frame: Frame,
    kev: KeyEvent,
    mods: Modifiers,
    a: Page,
    b: Page,
    r: EventResponse,
)
    requires
        page_ok(a),
        a.edit.anchor_ok(),
        after_key(f, font_size, frame, &kev, mods, a, b, r),
    ensures
        !kev.pressed ==> b == a && r == EventResponse::Pass,
        kev.pressed && kev.key == Key::Named(NamedKey::ArrowLeft) ==> {
            &&& b.edit.text == a.edit.text
            &&& mods.shift || a.edit.range() is None ==> b.edit.cursor == vstd::math::max(
                a.edit.cursor - 1,
                0,
            )
            &&& !mods.shift && a.edit.range() is Some ==> b.edit.cursor == (a.edit.range()->0).0
                && b.edit.anchor is None
        },
        kev.pressed && kev.key == Key::Named(NamedKey::ArrowRight) ==> {
            &&& b.edit.text == a.edit.text
            &&& mods.shift || a.edit.range() is None ==> b.edit.cursor == vstd::math::min(
                a.edit.cursor + 1,
                a.edit.text.len() as int,
            )
            &&& !mods.shift && a.edit.range() is Some ==> b.edit.cursor == (a.edit.range()->0).1
                && b.edit.anchor is None
        },
        kev.pressed && kev.key == Key::Named(NamedKey::Home) ==> a.starts.contains(b.edit.cursor)
            && b.edit.cursor <= a.edit.cursor,
        kev.pressed && kev.key == Key::Named(NamedKey::ArrowUp) ==> b.edit.cursor
            <= a.edit.cursor,
        kev.pressed && kev.key == Key::Named(NamedKey::ArrowDown) ==> b.edit.cursor
            >= a.edit.cursor,
        kev.pressed && mods.shift && a.edit.anchor is None && (kev.key == Key::Named(
            NamedKey::ArrowLeft,
        ) || kev.key == Key::Named(NamedKey::ArrowRight) || kev.key == Key::Named(NamedKey::Home)
            || kev.key == Key::Named(NamedKey::End)) ==> b.edit.anchor == Some(a.edit.cursor),
        kev.pressed && mods.chord() && kev.key == Key::Character('a') ==> b.edit.cursor
            == a.edit.text.len() && b.edit.anchor == Some(0int) && b.edit.text == a.edit.text,
{
    let len = a.edit.text.len() as int;
    let ready = a.with_edit(a.edit.ready(mods.shift));
    let l = a.cursor_line();
    lines::lemma_line_from(a.starts, a.edit.cursor, a.starts.len() as int, len);
    assert(ready.cursor_line() == l);
    if l + 1 < a.starts.len() {
        lemma_place_on(ready, l + 1, 0);
        let x = (ready.vertical_place(true)->0).1;
        lemma_place_on(ready, l + 1, x);
    }
    if l > 0 {
        let x = (ready.vertical_place(false)->0).1;
        lemma_place_on(ready, l - 1, x);
        assert(lines::draw_end(a.edit.text, a.starts, l - 1) <= a.starts[l]);
    }
    assert(a.starts.contains(a.starts[l]));
}

/// Typing puts what types something in at the cursor, in order, in place of what was selected; control
/// characters type nothing.
pub proof fn law_typed_text_stands_at_the_cursor<F: Fn(char, Coord) -> Coord>(
    f: F,
    font_size: Coord,
    frame: Frame,
    a: Page,
    s: Seq<char>,
    b: Page,
)
    requires
        a.edit.wf(),
        typed_to(f, font_size, frame, a, s, b),
    ensures
        !types_any(s) ==> b == a,
        types_any(s) ==> ({
            let (from, to) = match a.edit.range() {
                Some(range) => range,
                None => (a.edit.cursor, a.edit.cursor),
            };
            let typed = crate::widgets::textbox::printable(s);
            &&& b.edit.text == a.edit.text.take(from) + typed + a.edit.text.skip(to)
            &&& b.edit.cursor == from + typed.len()
            &&& b.edit.anchor is None
        }),
    decreases s.len(),
{
    let (from, to) = match a.edit.range() {
        Some(range) => range,
        None => (a.edit.cursor, a.edit.cursor),
    };
    if s.len() > 0 {
        let head = s.drop_last();
        assert(head.push(s.last()) =~= s);
        lemma_types_any(head, s.last());
        lemma_nothing_printable(head);
        if chars::control(s.last()) {
            law_typed_text_stands_at_the_cursor(f, font_size, frame, a, head, b);
        } else {
            let m = choose|m: Page|
                typed_to(f, font_size, frame, a, head, m) && #[trigger] pasted_to(
                    f,
                    font_size,
                    frame,
                    m,
                    seq![s.last()],
                    b,
                );
            law_typed_text_stands_at_the_cursor(f, font_size, frame, a, head, m);
            let typed = crate::widgets::textbox::printable(s);
            let w = choose|w: Seq<Coord>|
                #[trigger] chars_measured(f, font_size, seq![s.last()], w) && b == m.cut().pasted(
                    seq![s.last()],
                    w,
                ).settled(frame);
            assert(b.edit == m.cut().pasted(seq![s.last()], w).edit);
            assert(typed == crate::widgets::textbox::printable(head).push(s.last()));
            assert(b.edit.text =~= a.edit.text.take(from) + typed + a.edit.text.skip(to));
        }
    }
}

/// What types nothing has nothing printable.
proof fn lemma_nothing_printable(s: Seq<char>)
    ensures
        types_any(s) <==> crate::widgets::textbox::printable(s).len() > 0,
    decreases s.len(),
{
    if s.len() > 0 {
        lemma_nothing_printable(s.drop_last());
        assert(s.drop_last().push(s.last()) =~= s);
        lemma_types_any(s.drop_last(), s.last());
    }
}

/// The height of a field follows its text: as high as its rows and the space around them, but at least
/// one row and at most what it may take.
pub proof fn law_height_follows_the_text(t: MultiTextbox, n: int, max_h: int)
    requires
        t.wf(),
        n >= 1,
    ensures
        ({
            let h = t.natural_h(n, max_h);
            let one = t.row() + 2 * t.inset_y();
            &&& h >= one
            &&& h <= max_h || h == one
            &&& h == n * t.row() + 2 * t.inset_y() || h == max_h || h == one
            &&& n * t.row() + 2 * t.inset_y() <= max_h ==> h == n * t.row() + 2 * t.inset_y()
            &&& h <= n * t.row() + 2 * t.inset_y()
        }),
{
    assert(n * t.row() >= t.row()) by (nonlinear_arith)
        requires
            n >= 1,
            t.row() >= 0,
    ;
}

/// Pointing at a place of the text field finds the line that is drawn there, and the place on it that is
/// nearest to the point: both are measured from the corner of the field.
pub proof fn law_pointing_goes_by_the_corner(t: MultiTextbox, line: int, x: int, y: int)
    requires
        t.wf(),
        0 <= line < t.line_starts@.len(),
        t.row() > 0,
        ({
            let top = t.center_y - coord::truncated(t.height as int, 2) + t.inset_y() - t.scroll_y;
            top + line * t.row() <= y < top + (line + 1) * t.row()
        }),
    ensures
        t.place_at(x, y) == t.page().place_on(
            line,
            x + coord::truncated(t.width as int, 2) - t.center_x - t.inset_x(),
        ),
{
    law_pointing_finds_the_drawn_line(
        t,
        line,
        y - (t.center_y - coord::truncated(t.height as int, 2)),
    );
}

} // verus!
