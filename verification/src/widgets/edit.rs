//! Text with a cursor and a selection: what each edit makes of it.
use crate::coord::Coord;
use crate::widgets::chars;
use vstd::prelude::*;

verus! {

/// The widest text: sums of its widths and a few coordinates stay in the range of a coordinate.
pub const MAX_TEXT: Coord = 0x1000_0000_0000_0000;

/// A text, where its cursor is, and the other end of its selection.
pub struct Edit {
    pub text: Seq<char>,
    pub cursor: int,
    pub anchor: Option<int>,
}

impl Edit {
    /// The cursor is in the text or at its end.
    pub open spec fn cursor_ok(self) -> bool {
        0 <= self.cursor <= self.text.len()
    }

    /// The other end of the selection is in the text or at its end.
    pub open spec fn anchor_ok(self) -> bool {
        match self.anchor {
            Some(a) => 0 <= a <= self.text.len(),
            None => true,
        }
    }

    pub open spec fn wf(self) -> bool {
        self.cursor_ok() && self.anchor_ok()
    }

    /// What is selected, from the lower end to the upper; `None` where nothing is.
    pub open spec fn range(self) -> Option<(int, int)> {
        match self.anchor {
            Some(a) => if a == self.cursor {
                None
            } else if a < self.cursor {
                Some((a, self.cursor))
            } else {
                Some((self.cursor, a))
            },
            None => None,
        }
    }

    /// The characters that are selected.
    pub open spec fn selection(self) -> Seq<char> {
        match self.range() {
            Some((s, e)) => self.text.subrange(s, e),
            None => Seq::empty(),
        }
    }

    /// Without what is selected; the cursor goes where it was.
    pub open spec fn cut(self) -> Edit {
        match self.range() {
            Some((s, e)) => Edit {
                text: self.text.subrange(0, s) + self.text.subrange(e, self.text.len() as int),
                cursor: s,
                anchor: None,
            },
            None => self,
        }
    }

    /// With nothing selected.
    pub open spec fn collapsed(self) -> Edit {
        Edit { anchor: None, ..self }
    }

    /// With characters put in at the cursor, which goes behind them.
    pub open spec fn pasted(self, s: Seq<char>) -> Edit {
        Edit {
            text: self.text.subrange(0, self.cursor) + s + self.text.subrange(
                self.cursor,
                self.text.len() as int,
            ),
            cursor: self.cursor + s.len(),
            ..self
        }
    }

    /// Without the selection or, where there is none, without the character before the cursor.
    pub open spec fn backspaced(self) -> Edit {
        if self.range() is Some {
            self.cut()
        } else if self.cursor == 0 {
            self
        } else {
            Edit { text: self.text.remove(self.cursor - 1), cursor: self.cursor - 1, ..self }
        }
    }

    /// Without the selection or, where there is none, without the character behind the cursor.
    pub open spec fn deleted(self) -> Edit {
        if self.range() is Some {
            self.cut()
        } else if self.cursor >= self.text.len() {
            self
        } else {
            Edit { text: self.text.remove(self.cursor), ..self }
        }
    }

    /// With the cursor elsewhere.
    pub open spec fn at(self, cursor: int) -> Edit {
        Edit { cursor, ..self }
    }

    /// One character to the left.
    pub open spec fn left(self) -> Edit {
        if self.cursor > 0 {
            self.at(self.cursor - 1)
        } else {
            self
        }
    }

    /// One character to the right.
    pub open spec fn right(self) -> Edit {
        if self.cursor < self.text.len() {
            self.at(self.cursor + 1)
        } else {
            self
        }
    }

    /// Everything selected.
    pub open spec fn all_selected(self) -> Edit {
        Edit { cursor: self.text.len() as int, anchor: Some(0), ..self }
    }

    /// Ready for a move: with shift held the selection starts or goes on, without it ends.
    pub open spec fn ready(self, shift: bool) -> Edit {
        if !shift {
            self.collapsed()
        } else if self.anchor is None {
            Edit { anchor: Some(self.cursor), ..self }
        } else {
            self
        }
    }
}

/// Characters `s..e` are the longest run around `probe` of one class; where `lines` is set, the run
/// ends at a line break on either side.
pub open spec fn is_run(text: Seq<char>, probe: int, s: int, e: int, lines: bool) -> bool {
    &&& 0 <= s <= probe < e <= text.len()
    &&& forall|i: int|
        s <= i < e && i != probe ==> joins(text, probe, #[trigger] text[i], lines)
    &&& s > 0 ==> !joins(text, probe, text[s - 1], lines)
    &&& e < text.len() ==> !joins(text, probe, text[e], lines)
}

/// A character continues the run of the one at `probe`.
pub open spec fn joins(text: Seq<char>, probe: int, c: char, lines: bool) -> bool {
    chars::class_of(c) == chars::class_of(text[probe]) && (lines ==> c != '\n')
}

/// The run of one class around the character nearest to `idx`.
pub fn word_run(text: &Vec<char>, idx: usize, lines: bool) -> (r: (usize, usize))
    requires
        text@.len() > 0,
    ensures
        is_run(
            text@,
            vstd::math::min(idx as int, text@.len() - 1),
            r.0 as int,
            r.1 as int,
            lines,
        ),
{
    let n: usize = text.len();
    let probe: usize = if idx >= n {
        n - 1
    } else {
        idx
    };
    let class: u8 = chars::char_class(text[probe]);
    let mut start: usize = probe;
    while start > 0 && chars::char_class(text[start - 1]) == class && !(lines && text[start - 1]
        == '\n')
        invariant
            0 <= start <= probe < n,
            n == text@.len(),
            class == chars::class_of(text@[probe as int]),
            forall|i: int|
                start <= i < probe ==> joins(text@, probe as int, #[trigger] text@[i], lines),
        decreases start,
    {
        start = start - 1;
    }
    let mut end: usize = probe + 1;
    while end < n && chars::char_class(text[end]) == class && !(lines && text[end] == '\n')
        invariant
            probe < end <= n,
            n == text@.len(),
            class == chars::class_of(text@[probe as int]),
            forall|i: int|
                probe < i < end ==> joins(text@, probe as int, #[trigger] text@[i], lines),
        decreases n - end,
    {
        end = end + 1;
    }
    (start, end)
}

/// What is selected between an anchor and a cursor.
pub fn selected_range(anchor: Option<usize>, cursor: usize) -> (r: Option<(usize, usize)>)
    ensures
        ({
            let e = Edit {
                text: Seq::empty(),
                cursor: cursor as int,
                anchor: match anchor {
                    Some(a) => Some(a as int),
                    None => None,
                },
            };
            match r {
                Some((s, t)) => e.range() == Some((s as int, t as int)),
                None => e.range() is None,
            }
        }),
{
    match anchor {
        Some(a) => if a == cursor {
            None
        } else if a < cursor {
            Some((a, cursor))
        } else {
            Some((cursor, a))
        },
        None => None,
    }
}

/// Removes elements `s..e`.
pub fn remove_range<T: Copy>(v: &mut Vec<T>, s: usize, e: usize)
    requires
        s <= e <= old(v)@.len(),
    ensures
        final(v)@ == old(v)@.subrange(0, s as int) + old(v)@.subrange(
            e as int,
            old(v)@.len() as int,
        ),
{
    let ghost before = v@;
    let n: usize = v.len();
    let mut from: usize = e;
    let mut to: usize = s;
    while from < n
        invariant
            s <= e <= from <= n,
            to == s + (from - e),
            n == before.len(),
            v@.len() == n,
            forall|k: int| 0 <= k < s ==> #[trigger] v@[k] == before[k],
            forall|k: int| s <= k < to ==> #[trigger] v@[k] == before[k + (e - s)],
            forall|k: int| from <= k < n ==> #[trigger] v@[k] == before[k],
        decreases n - from,
    {
        let item = v[from];
        v.set(to, item);
        from = from + 1;
        to = to + 1;
    }
    v.truncate(to);
    assert(v@ =~= before.subrange(0, s as int) + before.subrange(e as int, n as int));
}

/// Puts elements in before element `at`.
pub fn insert_all<T: Copy>(v: &mut Vec<T>, at: usize, items: &Vec<T>)
    requires
        at <= old(v)@.len(),
    ensures
        final(v)@ == old(v)@.subrange(0, at as int) + items@ + old(v)@.subrange(
            at as int,
            old(v)@.len() as int,
        ),
{
    let ghost before = v@;
    let n: usize = v.len();
    let mut out: Vec<T> = Vec::new();
    let mut i: usize = 0;
    while i < at
        invariant
            0 <= i <= at <= n,
            n == before.len(),
            v@ == before,
            out@ == before.subrange(0, i as int),
        decreases at - i,
    {
        out.push(v[i]);
        i = i + 1;
        assert(before.subrange(0, i as int) =~= before.subrange(0, i - 1).push(before[i - 1]));
    }
    let mut j: usize = 0;
    while j < items.len()
        invariant
            0 <= j <= items@.len(),
            at <= n,
            n == before.len(),
            v@ == before,
            out@ == before.subrange(0, at as int) + items@.subrange(0, j as int),
        decreases items@.len() - j,
    {
        out.push(items[j]);
        j = j + 1;
        assert(before.subrange(0, at as int) + items@.subrange(0, j as int) =~= (before.subrange(
            0,
            at as int,
        ) + items@.subrange(0, j - 1)).push(items@[j - 1]));
    }
    assert(items@.subrange(0, items@.len() as int) =~= items@);
    let mut k: usize = at;
    while k < n
        invariant
            at <= k <= n,
            n == before.len(),
            v@ == before,
            out@ == before.subrange(0, at as int) + items@ + before.subrange(at as int, k as int),
        decreases n - k,
    {
        out.push(v[k]);
        k = k + 1;
        assert(before.subrange(0, at as int) + items@ + before.subrange(at as int, k as int) =~= (
        before.subrange(0, at as int) + items@ + before.subrange(at as int, k - 1)).push(
            before[k - 1],
        ));
    }
    *v = out;
}

/// The sum of the first `n` widths.
pub open spec fn sum_to(widths: Seq<Coord>, n: int) -> int
    decreases n,
{
    if n <= 0 {
        0
    } else {
        sum_to(widths, n - 1) + widths[n - 1]
    }
}

/// The sum of all widths.
pub open spec fn total(widths: Seq<Coord>) -> int {
    sum_to(widths, widths.len() as int)
}

/// Widths that the characters of a text can have: none is negative, and together they are not wider
/// than a text can be.
pub open spec fn widths_ok(widths: Seq<Coord>) -> bool {
    &&& forall|i: int| 0 <= i < widths.len() ==> 0 <= #[trigger] widths[i]
    &&& total(widths) <= MAX_TEXT
}

/// Sums of widths grow.
pub proof fn lemma_grows(widths: Seq<Coord>, m: int, n: int)
    requires
        forall|i: int| 0 <= i < widths.len() ==> 0 <= #[trigger] widths[i],
        0 <= m <= n <= widths.len(),
    ensures
        0 <= sum_to(widths, m) <= sum_to(widths, n),
    decreases n,
{
    if m < n {
        lemma_grows(widths, m, n - 1);
    } else if n > 0 {
        lemma_grows(widths, n - 1, n - 1);
    }
}

/// Sums of widths grow, and stay small enough to be added to.
pub proof fn lemma_sum(widths: Seq<Coord>, m: int, n: int)
    requires
        widths_ok(widths),
        0 <= m <= n <= widths.len(),
    ensures
        0 <= sum_to(widths, m) <= sum_to(widths, n),
        sum_to(widths, n) <= 0x1000_0000_0000_0000,
{
    lemma_grows(widths, m, n);
    lemma_grows(widths, n, widths.len() as int);
}

/// The sum over the first part of two sequences is that of the first sequence.
proof fn lemma_sum_first(a: Seq<Coord>, b: Seq<Coord>, n: int)
    requires
        0 <= n <= a.len(),
    ensures
        sum_to(a + b, n) == sum_to(a, n),
    decreases n,
{
    if n > 0 {
        lemma_sum_first(a, b, n - 1);
    }
}

/// The sums of two sequences add up.
pub proof fn lemma_total_both(a: Seq<Coord>, b: Seq<Coord>)
    ensures
        total(a + b) == total(a) + total(b),
    decreases b.len(),
{
    if b.len() == 0 {
        assert(a + b =~= a);
    } else {
        let c = b.drop_last();
        lemma_total_both(a, c);
        assert((a + b).drop_last() =~= a + c);
        let n = (a + b).len() as int;
        assert((a + b)[n - 1] == b.last());
        lemma_sum_first(a + c, seq![b.last()], n - 1);
        assert((a + c) + seq![b.last()] =~= a + b);
        lemma_sum_first(c, seq![b.last()], b.len() - 1);
        assert(c + seq![b.last()] =~= b);
    }
}

/// Taking widths out does not make the text wider.
pub proof fn lemma_total_without(w: Seq<Coord>, s: int, e: int)
    requires
        widths_ok(w),
        0 <= s <= e <= w.len(),
    ensures
        widths_ok(w.subrange(0, s) + w.subrange(e, w.len() as int)),
        total(w.subrange(0, s) + w.subrange(e, w.len() as int)) <= total(w),
{
    let a = w.subrange(0, s);
    let m = w.subrange(s, e);
    let b = w.subrange(e, w.len() as int);
    lemma_total_both(a, b);
    lemma_total_both(a, m);
    lemma_total_both(a + m, b);
    assert((a + m) + b =~= w);
    lemma_grows(m, 0, m.len() as int);
    let t = a + b;
    assert forall|i: int| 0 <= i < t.len() implies 0 <= #[trigger] t[i] by {
        if i < s {
            assert(t[i] == w[i]);
        } else {
            assert(t[i] == w[i - s + e]);
        }
    }
}

/// Putting widths in makes the text wider by them.
pub proof fn lemma_total_with(w: Seq<Coord>, at: int, v: Seq<Coord>)
    requires
        0 <= at <= w.len(),
    ensures
        total(w.subrange(0, at) + v + w.subrange(at, w.len() as int)) == total(w) + total(v),
{
    let a = w.subrange(0, at);
    let b = w.subrange(at, w.len() as int);
    lemma_total_both(a, v);
    lemma_total_both(a + v, b);
    lemma_total_both(a, b);
    assert(a + b =~= w);
}

/// The sum of widths `from..to`.
pub fn sum_of(widths: &Vec<Coord>, from: usize, to: usize) -> (s: Coord)
    requires
        widths_ok(widths@),
        from <= to <= widths@.len(),
    ensures
        s == sum_to(widths@, to as int) - sum_to(widths@, from as int),
        0 <= s <= 0x1000_0000_0000_0000,
{
    let mut s: Coord = 0;
    let mut i: usize = from;
    proof {
        lemma_sum(widths@, from as int, to as int);
    }
    while i < to
        invariant
            widths_ok(widths@),
            from <= i <= to <= widths@.len(),
            s == sum_to(widths@, i as int) - sum_to(widths@, from as int),
            0 <= sum_to(widths@, from as int),
            0 <= s,
        decreases to - i,
    {
        proof {
            lemma_sum(widths@, i as int, i + 1);
        }
        s = s + widths[i];
        i = i + 1;
    }
    proof {
        lemma_sum(widths@, to as int, to as int);
    }
    s
}

/// Whatever is done to a text, cursor and anchor stay in it. Taking a character away before a cursor
/// that stands on its own anchor is left out: the anchor stays behind there.
pub proof fn law_edits_stay_in_the_text(e: Edit, s: Seq<char>)
    requires
        e.wf(),
    ensures
        e.cut().wf(),
        e.cut().pasted(s).wf(),
        e.deleted().wf(),
        e.anchor != Some(e.cursor) ==> e.backspaced().wf(),
        e.left().wf() && e.right().wf() && e.at(0).wf() && e.at(e.text.len() as int).wf(),
        e.all_selected().wf(),
        e.ready(true).wf() && e.ready(false).wf(),
{
}

/// Taking out what is selected takes out nothing else, and leaves nothing selected.
pub proof fn law_cut_removes_the_selection(e: Edit)
    requires
        e.wf(),
    ensures
        e.cut().text.len() == e.text.len() - e.selection().len(),
        e.cut().range() is None,
        e.cut().pasted(e.selection()).text == e.text,
{
    match e.range() {
        Some((s, t)) => {
            let back = e.cut().pasted(e.selection()).text;
            assert(back =~= e.text);
        },
        None => {
            assert(e.cut().pasted(Seq::empty()).text =~= e.text);
        },
    }
}

/// Typing a character and taking it back leaves the text and the cursor as they were.
pub proof fn law_backspace_undoes_typing(e: Edit, c: char)
    requires
        e.cursor_ok(),
        e.anchor is None,
    ensures
        e.pasted(seq![c]).backspaced() == e,
{
    let there = e.pasted(seq![c]);
    assert(there.range() is None);
    assert(there.text.remove(e.cursor) =~= e.text);
}

/// Text that is put in stands at the cursor, and the cursor behind it.
pub proof fn law_pasted_text_is_there(e: Edit, s: Seq<char>)
    requires
        e.cursor_ok(),
    ensures
        ({
            let p = e.pasted(s);
            &&& p.text.subrange(e.cursor, p.cursor) == s
            &&& p.text.len() == e.text.len() + s.len()
        }),
{
    let p = e.pasted(s);
    assert(p.text.subrange(e.cursor, p.cursor) =~= s);
}

/// What a double click selects holds the character that it hit, is of one class, and cannot be made
/// longer: there is only one such run.
pub proof fn law_word_run_is_unique(
    text: Seq<char>,
    probe: int,
    s: int,
    e: int,
    s2: int,
    e2: int,
    lines: bool,
)
    requires
        is_run(text, probe, s, e, lines),
        is_run(text, probe, s2, e2, lines),
    ensures
        s == s2,
        e == e2,
{
    if s < s2 {
        assert(joins(text, probe, text[s2 - 1], lines));
    }
    if s2 < s {
        assert(joins(text, probe, text[s - 1], lines));
    }
    if e < e2 {
        assert(joins(text, probe, text[e], lines));
    }
    if e2 < e {
        assert(joins(text, probe, text[e2], lines));
    }
}

/// Backspace takes away the one character before the cursor, Delete the one behind it; all others stay
/// in their order. Delete is a step to the right and a Backspace.
pub proof fn law_one_character_goes(e: Edit)
    requires
        e.cursor_ok(),
        e.range() is None,
    ensures
        e.cursor > 0 ==> ({
            let b = e.backspaced();
            &&& b.text == e.text.take(e.cursor - 1) + e.text.skip(e.cursor)
            &&& b.cursor == e.cursor - 1
        }),
        e.cursor < e.text.len() ==> ({
            let d = e.deleted();
            &&& d.text == e.text.take(e.cursor) + e.text.skip(e.cursor + 1)
            &&& d.cursor == e.cursor
        }),
        e.cursor == 0 ==> e.backspaced() == e,
        e.cursor == e.text.len() ==> e.deleted() == e,
        e.anchor is None && e.cursor < e.text.len() ==> e.deleted() == e.right().backspaced(),
{
    if e.cursor > 0 {
        assert(e.backspaced().text =~= e.text.take(e.cursor - 1) + e.text.skip(e.cursor));
    }
    if e.cursor < e.text.len() {
        assert(e.deleted().text =~= e.text.take(e.cursor) + e.text.skip(e.cursor + 1));
    }
}

/// With something selected, Backspace and Delete take the selection away and nothing else.
pub proof fn law_deleting_takes_the_selection(e: Edit)
    requires
        e.wf(),
        e.range() is Some,
    ensures
        e.backspaced() == e.deleted(),
        ({
            let (s, t) = e.range()->0;
            &&& e.deleted().text == e.text.take(s) + e.text.skip(t)
            &&& e.deleted().cursor == s
            &&& e.deleted().anchor is None
            &&& 0 <= s < t <= e.text.len()
            &&& e.anchor == Some(s) && e.cursor == t || e.anchor == Some(t) && e.cursor == s
            &&& e.selection() == e.text.skip(s).take(t - s)
        }),
{
    let (s, t) = e.range()->0;
    assert(e.deleted().text =~= e.text.take(s) + e.text.skip(t));
    assert(e.selection() =~= e.text.skip(s).take(t - s));
}

/// A step to the right goes over one character and a step to the left undoes it, as far as the text
/// reaches; neither changes the text.
pub proof fn law_steps_undo_each_other(e: Edit)
    requires
        e.cursor_ok(),
    ensures
        e.cursor < e.text.len() ==> e.right().cursor == e.cursor + 1 && e.right().left() == e,
        e.cursor > 0 ==> e.left().cursor == e.cursor - 1 && e.left().right() == e,
        e.cursor == 0 ==> e.left() == e,
        e.cursor == e.text.len() ==> e.right() == e,
        e.left().text == e.text && e.right().text == e.text,
        e.left().anchor == e.anchor && e.right().anchor == e.anchor,
{
}

/// With shift held a step selects the character that it goes over, from where the cursor stood; without
/// it a step ends the selection.
pub proof fn law_shift_selects_what_is_passed(e: Edit)
    requires
        e.cursor_ok(),
    ensures
        e.anchor is None && e.cursor < e.text.len() ==> e.ready(true).right().selection() == seq![
            e.text[e.cursor],
        ],
        e.anchor is None && e.cursor > 0 ==> e.ready(true).left().selection() == seq![
            e.text[e.cursor - 1],
        ],
        e.anchor is Some ==> e.ready(true).anchor == e.anchor,
        e.ready(false).right().range() is None && e.ready(false).left().range() is None,
        e.ready(true).text == e.text && e.ready(false).text == e.text,
        e.ready(true).cursor == e.cursor && e.ready(false).cursor == e.cursor,
{
    if e.anchor is None && e.cursor < e.text.len() {
        assert(e.ready(true).right().selection() =~= seq![e.text[e.cursor]]);
    }
    if e.anchor is None && e.cursor > 0 {
        assert(e.ready(true).left().selection() =~= seq![e.text[e.cursor - 1]]);
    }
}

/// Everything selected is the whole text, and taking it out leaves none.
pub proof fn law_all_is_the_whole_text(e: Edit)
    ensures
        e.all_selected().selection() == e.text,
        e.all_selected().cut().text.len() == 0,
        e.all_selected().text == e.text,
        e.all_selected().cursor == e.text.len(),
{
    assert(e.all_selected().selection() =~= e.text);
}

/// Typing over a selection puts the text in its place: what stood before and behind it stays.
pub proof fn law_typing_replaces_the_selection(e: Edit, s: Seq<char>)
    requires
        e.wf(),
        e.range() is Some,
    ensures
        ({
            let (a, b) = e.range()->0;
            let t = e.cut().pasted(s);
            &&& t.text == e.text.take(a) + s + e.text.skip(b)
            &&& t.cursor == a + s.len()
        }),
{
    let (a, b) = e.range()->0;
    assert(e.cut().pasted(s).text =~= e.text.take(a) + s + e.text.skip(b));
}

/// A sum of widths is the sum of its parts: what the characters between two places take up.
pub proof fn law_widths_add_up(a: Seq<Coord>, b: Seq<Coord>, n: int)
    requires
        0 <= n <= b.len(),
    ensures
        sum_to(a + b, a.len() + n) == total(a) + sum_to(b, n),
        sum_to(b, 0) == 0,
        n < b.len() ==> sum_to(b, n + 1) - sum_to(b, n) == b[n],
    decreases n,
{
    if n > 0 {
        law_widths_add_up(a, b, n - 1);
        assert((a + b)[a.len() + n - 1] == b[n - 1]);
    } else {
        lemma_sum_of_first(a, b, a.len() as int);
    }
}

proof fn lemma_sum_of_first(a: Seq<Coord>, b: Seq<Coord>, n: int)
    requires
        0 <= n <= a.len(),
    ensures
        sum_to(a + b, n) == sum_to(a, n),
    decreases n,
{
    if n > 0 {
        lemma_sum_of_first(a, b, n - 1);
        assert((a + b)[n - 1] == a[n - 1]);
    }
}

/// A double click selects characters of one class only, and all of them that hang together with the
/// one that was hit: the characters beside the run are of another class, or, where lines count, one of
/// them is a line break.
pub proof fn law_word_run_is_of_one_class(
    text: Seq<char>,
    probe: int,
    s: int,
    e: int,
    lines: bool,
    i: int,
)
    requires
        is_run(text, probe, s, e, lines),
        s <= i < e,
    ensures
        0 <= s <= probe < e <= text.len(),
        chars::class_of(text[i]) == chars::class_of(text[probe]),
        lines && i != probe ==> text[i] != '\n',
        s > 0 && (!lines || text[s - 1] != '\n') ==> chars::class_of(text[s - 1]) != chars::class_of(
            text[probe],
        ),
        e < text.len() && (!lines || text[e] != '\n') ==> chars::class_of(text[e])
            != chars::class_of(text[probe]),
{
}

} // verus!
