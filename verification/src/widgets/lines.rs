//! The line table of wrapped text.
use crate::coord::{self, Coord};
use crate::widgets::edit;
use vstd::prelude::*;

verus! {

/// Where the lines start so far, and the last space of the open line at which it may be broken.
pub struct Wrap {
    pub starts: Seq<int>,
    pub space: Option<int>,
}

/// The lines of the first `n` characters, none wider than `max` where that can be had. A line break
/// ends its line. A character that does not fit begins a new line, together with what stands behind
/// the last space, if the open line has one; the first character of a line stays, however wide it is.
pub open spec fn wrap_to(text: Seq<char>, widths: Seq<Coord>, max: int, n: int) -> Wrap
    decreases n,
{
    if n <= 0 {
        Wrap { starts: seq![0], space: None }
    } else {
        let p = wrap_to(text, widths, max, n - 1);
        let i = n - 1;
        let open = edit::sum_to(widths, i) - edit::sum_to(widths, p.starts.last());
        if text[i] == '\n' {
            Wrap { starts: p.starts.push(i + 1), space: None }
        } else if open + widths[i] > max && open > 0 {
            Wrap {
                starts: p.starts.push(
                    match p.space {
                        Some(s) => s + 1,
                        None => i,
                    },
                ),
                space: None,
            }
        } else {
            Wrap {
                starts: p.starts,
                space: if text[i] == ' ' {
                    Some(i)
                } else {
                    p.space
                },
            }
        }
    }
}

/// Where the lines of a text start.
pub open spec fn wrapped(text: Seq<char>, widths: Seq<Coord>, max: int) -> Seq<int> {
    wrap_to(text, widths, max, text.len() as int).starts
}

/// Line starts of a text of `n` characters: the first line starts the text, and each line starts
/// behind the start of the one before it.
pub open spec fn starts_ok(starts: Seq<int>, n: int) -> bool {
    &&& starts.len() > 0
    &&& starts[0] == 0
    &&& forall|i: int, j: int| 0 <= i < j < starts.len() ==> starts[i] < starts[j]
    &&& forall|i: int| 0 <= i < starts.len() ==> 0 <= #[trigger] starts[i] <= n
}

/// A line table as numbers.
pub open spec fn table(v: Seq<usize>) -> Seq<int> {
    Seq::new(v.len(), |i: int| v[i] as int)
}

/// The lines of a text are well formed, whatever the widths.
pub proof fn lemma_wrap(text: Seq<char>, widths: Seq<Coord>, max: int, n: int)
    requires
        edit::widths_ok(widths),
        widths.len() == text.len(),
        0 <= n <= text.len(),
    ensures
        ({
            let w = wrap_to(text, widths, max, n);
            &&& starts_ok(w.starts, n)
            &&& w.starts.len() <= n + 1
            &&& match w.space {
                Some(s) => w.starts.last() <= s < n,
                None => true,
            }
        }),
    decreases n,
{
    if n > 0 {
        lemma_wrap(text, widths, max, n - 1);
        let p = wrap_to(text, widths, max, n - 1);
        let i = n - 1;
        let open = edit::sum_to(widths, i) - edit::sum_to(widths, p.starts.last());
        edit::lemma_sum(widths, p.starts.last(), i);
        let w = wrap_to(text, widths, max, n);
        if w.starts.len() > p.starts.len() {
            assert(p.starts.last() < w.starts.last()) by {
                if text[i] != '\n' && p.space is None {
                    assert(open > 0);
                    assert(p.starts.last() != i);
                }
            }
            assert forall|a: int, b: int| 0 <= a < b < w.starts.len() implies w.starts[a]
                < w.starts[b] by {
                if b == p.starts.len() {
                    if a < p.starts.len() - 1 {
                        assert(p.starts[a] < p.starts[p.starts.len() - 1]);
                    }
                }
            }
        }
    }
}

/// Breaks a text into lines.
pub fn wrap_text(text: &Vec<char>, widths: &Vec<Coord>, max: Coord) -> (starts: Vec<usize>)
    requires
        edit::widths_ok(widths@),
        widths@.len() == text@.len(),
        -0x1000_0000_0000_0000 <= max <= 0x1000_0000_0000_0000,
    ensures
        table(starts@) == wrapped(text@, widths@, max as int),
        starts_ok(table(starts@), text@.len() as int),
        starts@.len() <= text@.len() + 1,
{
    let n: usize = text.len();
    let mut starts: Vec<usize> = Vec::new();
    starts.push(0);
    let mut last: usize = 0;
    let mut open: Coord = 0;
    let mut space: Option<usize> = None;
    let mut i: usize = 0;
    assert(table(starts@) =~= seq![0int]);
    while i < n
        invariant
            0 <= i <= n,
            n == text@.len(),
            widths@.len() == n,
            edit::widths_ok(widths@),
            -0x1000_0000_0000_0000 <= max <= 0x1000_0000_0000_0000,
            table(starts@) == wrap_to(text@, widths@, max as int, i as int).starts,
            starts@.len() > 0,
            last == starts@.last(),
            last <= i,
            open == edit::sum_to(widths@, i as int) - edit::sum_to(widths@, last as int),
            match space {
                Some(s) => wrap_to(text@, widths@, max as int, i as int).space == Some(s as int)
                    && last <= s < i,
                None => wrap_to(text@, widths@, max as int, i as int).space is None,
            },
        decreases n - i,
    {
        proof {
            edit::lemma_sum(widths@, last as int, i as int);
            edit::lemma_sum(widths@, i as int, i + 1);
            lemma_wrap(text@, widths@, max as int, i as int);
            assert(table(starts@).last() == starts@.last());
        }
        let ghost before = starts@;
        let c = text[i];
        let w: Coord = widths[i];
        if c == '\n' {
            starts.push(i + 1);
            last = i + 1;
            open = 0;
            space = None;
            assert(table(starts@) =~= table(before).push(i + 1));
        } else if open + w > max && open > 0 {
            let brk: usize = match space {
                Some(s) => s + 1,
                None => i,
            };
            starts.push(brk);
            proof {
                edit::lemma_sum(widths@, brk as int, i as int);
                assert(table(starts@) =~= table(before).push(brk as int));
            }
            open = edit::sum_of(widths, brk, i) + w;
            last = brk;
            space = None;
        } else {
            if c == ' ' {
                space = Some(i);
            }
            open = open + w;
        }
        i = i + 1;
    }
    proof {
        lemma_wrap(text@, widths@, max as int, n as int);
        assert(table(starts@).len() == starts@.len());
    }
    starts
}

/// The last of the first `n` lines that starts at or before `idx`.
pub open spec fn line_from(starts: Seq<int>, idx: int, n: int) -> int
    decreases n,
{
    if n <= 1 {
        0
    } else if starts[n - 1] <= idx {
        n - 1
    } else {
        line_from(starts, idx, n - 1)
    }
}

/// The line of a place in the text: the last that starts at or before it.
pub open spec fn line_at(starts: Seq<int>, idx: int) -> int {
    line_from(starts, idx, starts.len() as int)
}

/// Where a line ends, its line break included.
pub open spec fn end_of(starts: Seq<int>, len: int, line: int) -> int {
    if line + 1 < starts.len() {
        starts[line + 1]
    } else {
        len
    }
}

/// Where what is drawn of a line ends: before its line break.
pub open spec fn draw_end(text: Seq<char>, starts: Seq<int>, line: int) -> int {
    let e = end_of(starts, text.len() as int, line);
    if e > starts[line] && text[e - 1] == '\n' {
        e - 1
    } else {
        e
    }
}

/// A line that starts at or before `idx`, with the next one behind it, is the line of `idx`.
pub proof fn lemma_line_from(starts: Seq<int>, idx: int, n: int, len: int)
    requires
        starts_ok(starts, len),
        0 <= idx,
        1 <= n <= starts.len(),
    ensures
        ({
            let l = line_from(starts, idx, n);
            &&& 0 <= l < n
            &&& starts[l] <= idx
            &&& l + 1 < n ==> idx < starts[l + 1]
        }),
    decreases n,
{
    if n > 1 && starts[n - 1] > idx {
        lemma_line_from(starts, idx, n - 1, len);
    }
}

/// There is one line of `idx`.
pub proof fn lemma_line_unique(starts: Seq<int>, idx: int, l: int, len: int)
    requires
        starts_ok(starts, len),
        0 <= idx,
        0 <= l < starts.len(),
        starts[l] <= idx,
        l + 1 < starts.len() ==> idx < starts[l + 1],
    ensures
        l == line_at(starts, idx),
{
    lemma_line_from(starts, idx, starts.len() as int, len);
    let k = line_at(starts, idx);
    if k < l {
        assert(starts[k + 1] <= starts[l]) by {
            if k + 1 < l {
                assert(starts[k + 1] < starts[l]);
            }
        }
    }
    if l < k {
        assert(starts[l + 1] <= starts[k]) by {
            if l + 1 < k {
                assert(starts[l + 1] < starts[k]);
            }
        }
    }
}

/// The line of a place in the text, by bisection.
pub fn line_of(starts: &Vec<usize>, idx: usize, len: usize) -> (l: usize)
    requires
        starts_ok(table(starts@), len as int),
    ensures
        l as int == line_at(table(starts@), idx as int),
        l < starts@.len(),
{
    let mut lo: usize = 0;
    let mut hi: usize = starts.len();
    let ghost t = table(starts@);
    while lo + 1 < hi
        invariant
            0 <= lo < hi <= starts@.len(),
            t == table(starts@),
            starts_ok(t, len as int),
            t[lo as int] <= idx,
            hi < starts@.len() ==> idx < t[hi as int],
        decreases hi - lo,
    {
        let mid: usize = lo + (hi - lo) / 2;
        assert(t[mid as int] == starts@[mid as int]);
        if starts[mid] <= idx {
            lo = mid;
        } else {
            hi = mid;
        }
    }
    proof {
        lemma_line_unique(t, idx as int, lo as int, len as int);
    }
    lo
}

/// The place from `i` to `e` on a line from `s` nearest to `x`, counted from the start of the line.
pub open spec fn line_place(widths: Seq<Coord>, x: int, s: int, i: int, e: int) -> int
    decreases e - i,
{
    if i >= e {
        e
    } else if x < edit::sum_to(widths, i) - edit::sum_to(widths, s) + coord::truncated(
        widths[i] as int,
        2,
    ) {
        i
    } else {
        line_place(widths, x, s, i + 1, e)
    }
}

/// The place on characters `s..e` nearest to `x`, counted from their start.
pub fn place_on_line(widths: &Vec<Coord>, x: i128, s: usize, e: usize) -> (p: usize)
    requires
        edit::widths_ok(widths@),
        s <= e <= widths@.len(),
    ensures
        p as int == line_place(widths@, x as int, s as int, s as int, e as int),
        s <= p <= e,
{
    let mut sum: Coord = 0;
    let mut i: usize = s;
    while i < e
        invariant
            edit::widths_ok(widths@),
            s <= i <= e <= widths@.len(),
            sum == edit::sum_to(widths@, i as int) - edit::sum_to(widths@, s as int),
            line_place(widths@, x as int, s as int, s as int, e as int) == line_place(
                widths@,
                x as int,
                s as int,
                i as int,
                e as int,
            ),
        decreases e - i,
    {
        proof {
            edit::lemma_sum(widths@, 0, s as int);
            edit::lemma_sum(widths@, s as int, i as int);
            edit::lemma_sum(widths@, i as int, i + 1);
        }
        let w: Coord = widths[i];
        if x < (sum + coord::half(w)) as i128 {
            return i;
        }
        sum = sum + w;
        i = i + 1;
    }
    e
}

/// Lines tile the text: each ends where the next one starts, the last at the end of the text, and
/// every place of the text lies on its line.
pub proof fn law_lines_tile_the_text(text: Seq<char>, widths: Seq<Coord>, max: int, line: int, idx: int)
    requires
        edit::widths_ok(widths),
        widths.len() == text.len(),
        0 <= line < wrapped(text, widths, max).len(),
        0 <= idx <= text.len(),
    ensures
        ({
            let t = wrapped(text, widths, max);
            let n = text.len() as int;
            &&& t[0] == 0
            &&& end_of(t, n, t.len() - 1) == n
            &&& line + 1 < t.len() ==> end_of(t, n, line) == t[line + 1]
            &&& t[line] <= end_of(t, n, line)
            &&& t[line_at(t, idx)] <= idx <= end_of(t, n, line_at(t, idx))
        }),
{
    lemma_wrap(text, widths, max, text.len() as int);
    let t = wrapped(text, widths, max);
    lemma_line_from(t, idx, t.len() as int, text.len() as int);
}

/// A line break starts a new line.
pub proof fn law_line_break_starts_a_line(text: Seq<char>, widths: Seq<Coord>, max: int, i: int)
    requires
        0 <= i < text.len(),
        text[i] == '\n',
    ensures
        wrapped(text, widths, max).contains(i + 1),
{
    lemma_starts_stay(text, widths, max, i + 1, text.len() as int);
    let w = wrap_to(text, widths, max, i + 1).starts;
    assert(w.last() == i + 1);
    let t = wrapped(text, widths, max);
    assert(t[w.len() - 1] == i + 1);
}

/// Once a line has started, it stays.
proof fn lemma_starts_stay(text: Seq<char>, widths: Seq<Coord>, max: int, m: int, n: int)
    requires
        0 <= m <= n,
    ensures
        wrap_to(text, widths, max, m).starts.len() <= wrap_to(text, widths, max, n).starts.len(),
        forall|k: int|
            0 <= k < wrap_to(text, widths, max, m).starts.len() ==> #[trigger] wrap_to(
                text,
                widths,
                max,
                n,
            ).starts[k] == wrap_to(text, widths, max, m).starts[k],
    decreases n - m,
{
    if m < n {
        lemma_starts_stay(text, widths, max, m, n - 1);
    }
}

/// Spaces are not without width.
pub open spec fn spaces_have_width(text: Seq<char>, widths: Seq<Coord>) -> bool {
    forall|i: int| 0 <= i < text.len() && #[trigger] text[i] == ' ' ==> widths[i] > 0
}

/// Characters `s..e` fit but for the last of them.
pub open spec fn fits_but_last(widths: Seq<Coord>, s: int, e: int, max: int) -> bool {
    e > s ==> edit::sum_to(widths, e - 1) - edit::sum_to(widths, s) <= max
}

/// Every line fits its width but for its last character: a line is broken as soon as it is too wide.
pub proof fn law_lines_fit(text: Seq<char>, widths: Seq<Coord>, max: int, line: int)
    requires
        edit::widths_ok(widths),
        widths.len() == text.len(),
        spaces_have_width(text, widths),
        max >= 0,
        0 <= line < wrapped(text, widths, max).len(),
    ensures
        ({
            let t = wrapped(text, widths, max);
            fits_but_last(widths, t[line], draw_end(text, t, line), max)
        }),
{
    let n = text.len() as int;
    lemma_lines_fit(text, widths, max, n);
    lemma_wrap(text, widths, max, n);
    let t = wrapped(text, widths, max);
    if line == t.len() - 1 {
        if n > t.last() {
            edit::lemma_sum(widths, n - 1, n);
            if n - 1 > t.last() {
                edit::lemma_sum(widths, n - 2, n - 1);
            }
        }
    }
}

/// Every line of the first `n` characters fits but for its last character, and the open one is too
/// wide only by its last.
#[verifier::rlimit(60)]
#[verifier::spinoff_prover]
proof fn lemma_lines_fit(text: Seq<char>, widths: Seq<Coord>, max: int, n: int)
    requires
        edit::widths_ok(widths),
        widths.len() == text.len(),
        spaces_have_width(text, widths),
        max >= 0,
        0 <= n <= text.len(),
    ensures
        ({
            let w = wrap_to(text, widths, max, n);
            let last = w.starts.last();
            let open = edit::sum_to(widths, n) - edit::sum_to(widths, last);
            &&& fits_but_last(widths, last, n, max)
            &&& open > max ==> (w.space is None || w.space == Some(n - 1))
            &&& forall|k: int|
                0 <= k < w.starts.len() - 1 ==> fits_but_last(
                    widths,
                    #[trigger] w.starts[k],
                    draw_end(text, w.starts, k),
                    max,
                )
        }),
    decreases n,
{
    if n > 0 {
        lemma_lines_fit(text, widths, max, n - 1);
        lemma_wrap(text, widths, max, n - 1);
        lemma_wrap(text, widths, max, n);
        let p = wrap_to(text, widths, max, n - 1);
        let w = wrap_to(text, widths, max, n);
        let i = n - 1;
        let last = p.starts.last();
        edit::lemma_sum(widths, last, i);
        edit::lemma_sum(widths, i, n);
        assert forall|k: int| 0 <= k < p.starts.len() - 1 implies fits_but_last(
            widths,
            #[trigger] w.starts[k],
            draw_end(text, w.starts, k),
            max,
        ) by {
            assert(w.starts[k] == p.starts[k] && w.starts[k + 1] == p.starts[k + 1]);
            assert(fits_but_last(widths, p.starts[k], draw_end(text, p.starts, k), max));
        }
        match p.space {
            Some(sp) => {
                edit::lemma_sum(widths, last, sp);
                edit::lemma_sum(widths, sp + 1, i);
                lemma_space_width(text, widths, max, n - 1);
                edit::lemma_sum(widths, sp, sp + 1);
                if sp < i - 1 {
                    edit::lemma_sum(widths, sp, i - 1);
                }
            },
            None => {},
        }
        if w.starts.len() > p.starts.len() {
            let k = p.starts.len() - 1;
            let e = w.starts[k + 1];
            assert(w.starts[k] == last);
            if e > last + 1 {
                edit::lemma_sum(widths, e - 2, e - 1);
            }
        }
    }
}

/// The space at which the open line may be broken is a space.
proof fn lemma_space_width(text: Seq<char>, widths: Seq<Coord>, max: int, n: int)
    requires
        0 <= n <= text.len(),
    ensures
        match wrap_to(text, widths, max, n).space {
            Some(s) => 0 <= s < n && text[s] == ' ',
            None => true,
        },
    decreases n,
{
    if n > 0 {
        lemma_space_width(text, widths, max, n - 1);
    }
}

/// A place on a line is one of its places.
pub proof fn lemma_line_place(widths: Seq<Coord>, x: int, s: int, i: int, e: int)
    requires
        s <= i <= e,
    ensures
        i <= line_place(widths, x, s, i, e) <= e,
    decreases e - i,
{
    if i < e {
        lemma_line_place(widths, x, s, i + 1, e);
    }
}

/// The place on a line is the one nearest to `x`: no other place of the line is nearer, but for the
/// rounding of halves.
pub proof fn law_line_place_is_nearest(widths: Seq<Coord>, x: int, s: int, e: int, other: int)
    requires
        edit::widths_ok(widths),
        0 <= s <= other <= e <= widths.len(),
    ensures
        ({
            let p = line_place(widths, x, s, s, e);
            &&& s <= p <= e
            &&& vstd::math::abs(x - (edit::sum_to(widths, p) - edit::sum_to(widths, s)))
                <= vstd::math::abs(x - (edit::sum_to(widths, other) - edit::sum_to(widths, s))) + 1
        }),
{
    lemma_line_place_side(widths, x, s, s, e);
    let p = line_place(widths, x, s, s, e);
    if other < p {
        edit::lemma_sum(widths, other, p - 1);
        edit::lemma_sum(widths, p - 1, p);
    }
    if other > p {
        edit::lemma_sum(widths, p, p + 1);
        edit::lemma_sum(widths, p + 1, other);
    }
}

/// `x` lies behind the middle of each character before the place, and before the middle of the one
/// behind it.
proof fn lemma_line_place_side(widths: Seq<Coord>, x: int, s: int, i: int, e: int)
    requires
        edit::widths_ok(widths),
        0 <= s <= i <= e <= widths.len(),
        i > s ==> 2 * (x - (edit::sum_to(widths, i - 1) - edit::sum_to(widths, s))) + 1
            >= widths[i - 1],
    ensures
        ({
            let p = line_place(widths, x, s, i, e);
            &&& i <= p <= e
            &&& p > s ==> 2 * (x - (edit::sum_to(widths, p - 1) - edit::sum_to(widths, s))) + 1
                >= widths[p - 1]
            &&& p < e ==> 2 * (x - (edit::sum_to(widths, p) - edit::sum_to(widths, s))) < widths[p]
        }),
    decreases e - i,
{
    if i < e {
        if !(x < edit::sum_to(widths, i) - edit::sum_to(widths, s) + coord::truncated(
            widths[i] as int,
            2,
        )) {
            lemma_line_place_side(widths, x, s, i + 1, e);
        }
    }
}

/// Characters `s..e` hold no two spaces.
pub open spec fn one_space_at_most(text: Seq<char>, s: int, e: int) -> bool {
    forall|j: int, k: int|
        s <= j < k < e ==> !(#[trigger] text[j] == ' ' && #[trigger] text[k] == ' ')
}

/// Characters `s..e` hold no space and no line break.
pub open spec fn inside_a_word(text: Seq<char>, s: int, e: int) -> bool {
    forall|k: int| s <= k < e ==> #[trigger] text[k] != ' ' && text[k] != '\n'
}

/// The text from `s` on is too wide with character `i`, and from `b` to there it is inside a word.
pub open spec fn too_wide_at(
    text: Seq<char>,
    widths: Seq<Coord>,
    max: int,
    s: int,
    b: int,
    i: int,
) -> bool {
    &&& b <= i < text.len()
    &&& edit::sum_to(widths, i + 1) - edit::sum_to(widths, s) > max
    &&& inside_a_word(text, b, i)
}

/// A line that starts at `s` is followed by one that starts at `b` for a reason: a line break ends it;
/// or what stands at `b` did not fit behind it, up to a character before the next space. Such a break
/// does not part a word of a line that has spaces to be broken at.
pub open spec fn broken_for_a_reason(
    text: Seq<char>,
    widths: Seq<Coord>,
    max: int,
    s: int,
    b: int,
) -> bool {
    text[b - 1] == '\n' || {
        &&& exists|i: int| #[trigger] too_wide_at(text, widths, max, s, b, i)
        &&& text[b - 1] == ' ' || one_space_at_most(text, s, b)
    }
}

/// Lines are broken where they have to be, and between words: at line breaks, and before a word that
/// does not fit any more. A word is parted only on a line without another space to break at; the space
/// that was itself too wide for the line before is not counted.
pub proof fn law_lines_are_broken_between_words(
    text: Seq<char>,
    widths: Seq<Coord>,
    max: int,
    line: int,
)
    requires
        edit::widths_ok(widths),
        widths.len() == text.len(),
        0 <= line < wrapped(text, widths, max).len() - 1,
    ensures
        broken_for_a_reason(
            text,
            widths,
            max,
            wrapped(text, widths, max)[line],
            wrapped(text, widths, max)[line + 1],
        ),
        forall|i: int|
            wrapped(text, widths, max)[line] <= i < wrapped(text, widths, max)[line + 1] - 1
                ==> #[trigger] text[i] != '\n',
{
    lemma_broken(text, widths, max, text.len() as int);
    lemma_wrap(text, widths, max, text.len() as int);
    let t = wrapped(text, widths, max);
    assert(broken_for_a_reason(text, widths, max, t[line], t[line + 1]));
    assert forall|i: int| t[line] <= i < t[line + 1] - 1 implies #[trigger] text[i] != '\n' by {
        if text[i] == '\n' {
            law_line_break_starts_a_line(text, widths, max, i);
            let k = choose|k: int| 0 <= k < t.len() && t[k] == i + 1;
            if k > line + 1 {
                assert(t[line + 1] < t[k]);
            }
            if k < line {
                assert(t[k] < t[line]);
            }
        }
    }
}

/// Every line of the first `n` characters but the open one was broken for a reason.
proof fn lemma_broken(text: Seq<char>, widths: Seq<Coord>, max: int, n: int)
    requires
        edit::widths_ok(widths),
        widths.len() == text.len(),
        0 <= n <= text.len(),
    ensures
        ({
            let w = wrap_to(text, widths, max, n);
            &&& forall|k: int|
                0 <= k < w.starts.len() - 1 ==> broken_for_a_reason(
                    text,
                    widths,
                    max,
                    #[trigger] w.starts[k],
                    w.starts[k + 1],
                )
            &&& match w.space {
                Some(s) => w.starts.last() <= s < n && text[s] == ' ' && inside_a_word(
                    text,
                    s + 1,
                    n,
                ),
                None => one_space_at_most(text, w.starts.last(), n),
            }
        }),
    decreases n,
{
    if n > 0 {
        lemma_broken(text, widths, max, n - 1);
        lemma_wrap(text, widths, max, n - 1);
        lemma_wrap(text, widths, max, n);
        let p = wrap_to(text, widths, max, n - 1);
        let w = wrap_to(text, widths, max, n);
        let i = n - 1;
        let last = p.starts.last();
        assert(edit::sum_to(widths, i + 1) == edit::sum_to(widths, i) + widths[i]);
        if w.starts.len() > p.starts.len() {
            let b = w.starts.last();
            if text[i] != '\n' {
                assert(too_wide_at(text, widths, max, last, b, i));
            }
            assert(broken_for_a_reason(text, widths, max, last, b));
        }
        assert forall|k: int| 0 <= k < w.starts.len() - 1 implies broken_for_a_reason(
            text,
            widths,
            max,
            #[trigger] w.starts[k],
            w.starts[k + 1],
        ) by {
            if k < p.starts.len() - 1 {
                assert(w.starts[k] == p.starts[k] && w.starts[k + 1] == p.starts[k + 1]);
                assert(broken_for_a_reason(text, widths, max, p.starts[k], p.starts[k + 1]));
            }
        }
    }
}

} // verus!
