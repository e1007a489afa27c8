//! Wrapping a label into lines, word by word.
use crate::coord::Coord;
use crate::widgets::chars;
use vstd::prelude::*;

verus! {

/// The words in the first `n` characters: those that are complete, and the one that is open.
pub open spec fn scan_words(s: Seq<char>, n: int) -> (Seq<Seq<char>>, Seq<char>)
    decreases n,
{
    if n <= 0 {
        (Seq::empty(), Seq::empty())
    } else {
        let (done, open) = scan_words(s, n - 1);
        let c = s[n - 1];
        if chars::white_space(c) {
            if open.len() > 0 {
                (done.push(open), Seq::empty())
            } else {
                (done, open)
            }
        } else {
            (done, open.push(c))
        }
    }
}

/// The words of a text: its longest runs without white space.
pub open spec fn words_of(s: Seq<char>) -> Seq<Seq<char>> {
    let (done, open) = scan_words(s, s.len() as int);
    if open.len() > 0 {
        done.push(open)
    } else {
        done
    }
}

/// Words with a space between each two.
pub open spec fn joined(words: Seq<Seq<char>>) -> Seq<char>
    decreases words.len(),
{
    if words.len() == 0 {
        Seq::empty()
    } else if words.len() == 1 {
        words[0]
    } else {
        joined(words.drop_last()).push(' ') + words.last()
    }
}

/// The views of some vectors.
pub open spec fn views(v: Seq<Vec<char>>) -> Seq<Seq<char>> {
    Seq::new(v.len(), |i: int| v[i]@)
}

/// The measure may find the text no wider than `max`.
pub open spec fn fits<F: Fn(&Vec<char>) -> Coord>(measure: F, text: Seq<char>, max: int) -> bool {
    exists|t: Vec<char>, w: Coord|
        t@ == text && #[trigger] measure.ensures((&t,), w) && w <= max
}

/// The measure may find the text wider than `max`.
pub open spec fn overflows<F: Fn(&Vec<char>) -> Coord>(
    measure: F,
    text: Seq<char>,
    max: int,
) -> bool {
    exists|t: Vec<char>, w: Coord|
        t@ == text && #[trigger] measure.ensures((&t,), w) && w > max
}

/// A row of words that was filled word by word, each of them found to fit.
pub open spec fn row_fits<F: Fn(&Vec<char>) -> Coord>(
    measure: F,
    row: Seq<Seq<char>>,
    max: int,
) -> bool {
    row.len() > 0 && forall|k: int|
        2 <= k <= row.len() ==> fits(measure, #[trigger] joined(row.take(k)), max)
}

/// Rows of words: all words in order, each row filled as far as its words were found to fit, and
/// broken where the next word did not.
pub open spec fn rows_ok<F: Fn(&Vec<char>) -> Coord>(
    measure: F,
    words: Seq<Seq<char>>,
    rows: Seq<Seq<Seq<char>>>,
    max: int,
) -> bool {
    &&& rows.flatten() == words
    &&& forall|i: int| 0 <= i < rows.len() ==> row_fits(measure, #[trigger] rows[i], max)
    &&& forall|i: int|
        0 <= i < rows.len() - 1 ==> overflows(
            measure,
            #[trigger] joined(rows[i].push(rows[i + 1][0])),
            max,
        )
}

/// The lines are those of the words, broken at `max`.
pub open spec fn lines_ok<F: Fn(&Vec<char>) -> Coord>(
    measure: F,
    words: Seq<Seq<char>>,
    lines: Seq<Seq<char>>,
    max: int,
) -> bool {
    exists|rows: Seq<Seq<Seq<char>>>|
        #[trigger] rows_ok(measure, words, rows, max) && rows.len() == lines.len() && forall|i: int|
            0 <= i < rows.len() ==> #[trigger] lines[i] == joined(rows[i])
}

/// The words of a text.
pub fn split_words(s: &Vec<char>) -> (words: Vec<Vec<char>>)
    ensures
        views(words@) == words_of(s@),
        forall|i: int| 0 <= i < words@.len() ==> (#[trigger] words@[i])@.len() > 0,
{
    let mut words: Vec<Vec<char>> = Vec::new();
    let mut open: Vec<char> = Vec::new();
    let mut i: usize = 0;
    assert(views(words@) =~= Seq::<Seq<char>>::empty());
    while i < s.len()
        invariant
            0 <= i <= s@.len(),
            (views(words@), open@) == scan_words(s@, i as int),
            forall|i: int| 0 <= i < words@.len() ==> (#[trigger] words@[i])@.len() > 0,
        decreases s@.len() - i,
    {
        let c = s[i];
        if c.is_whitespace() {
            if open.len() > 0 {
                let ghost before = words@;
                let ghost word = open@;
                words.push(open);
                open = Vec::new();
                assert(views(words@) =~= views(before).push(word));
                assert(open@ =~= Seq::<char>::empty());
            }
        } else {
            open.push(c);
        }
        i = i + 1;
    }
    if open.len() > 0 {
        let ghost before = words@;
        let ghost word = open@;
        words.push(open);
        assert(views(words@) =~= views(before).push(word));
    }
    words
}

/// The line with another word after it.
fn extended(line: &Vec<char>, word: &Vec<char>) -> (r: Vec<char>)
    ensures
        line@.len() == 0 ==> r@ == word@,
        line@.len() > 0 ==> r@ == line@.push(' ') + word@,
{
    let mut r: Vec<char> = Vec::new();
    if line.len() > 0 {
        append(&mut r, line);
        r.push(' ');
        assert(r@ =~= line@.push(' '));
    }
    append(&mut r, word);
    assert(line@.len() == 0 ==> r@ =~= word@);
    r
}

/// Appends the characters of `tail`.
fn append(r: &mut Vec<char>, tail: &Vec<char>)
    ensures
        final(r)@ == old(r)@ + tail@,
{
    let ghost before = r@;
    let mut i: usize = 0;
    while i < tail.len()
        invariant
            0 <= i <= tail@.len(),
            r@ == before + tail@.take(i as int),
        decreases tail@.len() - i,
    {
        r.push(tail[i]);
        i = i + 1;
        assert(before + tail@.take(i as int) =~= (before + tail@.take(i - 1)).push(tail@[i - 1]));
    }
    assert(tail@.take(tail@.len() as int) =~= tail@);
    assert(before + tail@.take(0) =~= before);
}

/// Breaks words into lines no wider than `max` where that can be had: a line takes words as long as
/// the measure finds it to fit.
pub fn wrap_words<F: Fn(&Vec<char>) -> Coord>(
    words: &Vec<Vec<char>>,
    measure: &F,
    max: Coord,
) -> (lines: Vec<Vec<char>>)
    requires
        forall|t: &Vec<char>| #[trigger] measure.requires((t,)),
        forall|i: int| 0 <= i < words@.len() ==> (#[trigger] words@[i])@.len() > 0,
    ensures
        lines_ok(*measure, views(words@), views(lines@), max as int),
{
    let mut lines: Vec<Vec<char>> = Vec::new();
    let mut cur: Vec<char> = Vec::new();
    let ghost mut rows: Seq<Seq<Seq<char>>> = Seq::empty();
    let ghost mut row: Seq<Seq<char>> = Seq::empty();
    let mut i: usize = 0;
    proof {
        assert(rows.flatten() =~= Seq::<Seq<char>>::empty());
        assert(rows.flatten() + row =~= views(words@).take(0));
    }
    while i < words.len()
        invariant
            0 <= i <= words@.len(),
            forall|t: &Vec<char>| #[trigger] measure.requires((t,)),
            forall|i: int| 0 <= i < words@.len() ==> (#[trigger] words@[i])@.len() > 0,
            rows.flatten() + row == views(words@).take(i as int),
            cur@ == joined(row),
            row.len() == 0 <==> cur@.len() == 0,
            row.len() == 0 ==> rows.len() == 0,
            row.len() > 0 ==> row_fits(*measure, row, max as int),
            rows.len() == lines@.len(),
            forall|i: int| 0 <= i < rows.len() ==> (#[trigger] lines@[i])@ == joined(rows[i]),
            forall|i: int| 0 <= i < rows.len() ==> row_fits(*measure, #[trigger] rows[i], max as int),
            forall|i: int|
                0 <= i < rows.len() ==> overflows(
                    *measure,
                    #[trigger] joined(rows[i].push(rows.push(row)[i + 1][0])),
                    max as int,
                ),
        decreases words@.len() - i,
    {
        let cand: Vec<char> = extended(&cur, &words[i]);
        let ghost word = words@[i as int]@;
        let ghost old_row = row;
        let ghost old_rows = rows;
        proof {
            assert(views(words@).take(i + 1) =~= views(words@).take(i as int).push(word));
            assert(old_row.push(word).drop_last() =~= old_row);
            assert(joined(old_row.push(word)) == cand@);
        }
        let too_wide: bool = if cur.len() > 0 {
            let w: Coord = measure(&cand);
            proof {
                assert(w > max ==> overflows(*measure, cand@, max as int));
                assert(w <= max ==> fits(*measure, cand@, max as int));
            }
            w > max
        } else {
            false
        };
        if too_wide {
            let ghost line = cur@;
            lines.push(cur);
            let empty: Vec<char> = Vec::new();
            cur = extended(&empty, &words[i]);
            proof {
                rows = old_rows.push(old_row);
                row = seq![word];
                old_rows.lemma_flatten_push(old_row);
                assert(rows.flatten() + row =~= (old_rows.flatten() + old_row).push(word));
                assert(rows.push(row)[rows.len() as int] == row);
                assert forall|j: int| 0 <= j < rows.len() implies overflows(
                    *measure,
                    #[trigger] joined(rows[j].push(rows.push(row)[j + 1][0])),
                    max as int,
                ) by {
                    if j < old_rows.len() {
                        assert(rows[j] == old_rows[j]);
                        assert(rows.push(row)[j + 1][0] == old_rows.push(old_row)[j + 1][0]);
                        assert(overflows(
                            *measure,
                            joined(old_rows[j].push(old_rows.push(old_row)[j + 1][0])),
                            max as int,
                        ));
                    } else {
                        assert(rows[j].push(rows.push(row)[j + 1][0]) =~= old_row.push(word));
                    }
                }
            }
        } else {
            cur = cand;
            proof {
                row = old_row.push(word);
                assert(rows.flatten() + row =~= (rows.flatten() + old_row).push(word));
                assert forall|k: int| 2 <= k <= row.len() implies fits(
                    *measure,
                    #[trigger] joined(row.take(k)),
                    max as int,
                ) by {
                    if k < row.len() {
                        assert(row.take(k) =~= old_row.take(k));
                    } else {
                        assert(row.take(k) =~= row);
                    }
                }
                assert forall|j: int| 0 <= j < rows.len() implies overflows(
                    *measure,
                    #[trigger] joined(rows[j].push(rows.push(row)[j + 1][0])),
                    max as int,
                ) by {
                    assert(rows.push(row)[j + 1][0] == rows.push(old_row)[j + 1][0]);
                    assert(overflows(
                        *measure,
                        joined(rows[j].push(rows.push(old_row)[j + 1][0])),
                        max as int,
                    ));
                }
            }
        }
        i = i + 1;
    }
    proof {
        assert(views(words@).take(words@.len() as int) =~= views(words@));
    }
    if cur.len() > 0 {
        let ghost old_rows = rows;
        lines.push(cur);
        proof {
            rows = old_rows.push(row);
            old_rows.lemma_flatten_push(row);
            assert forall|j: int| 0 <= j < rows.len() - 1 implies overflows(
                *measure,
                #[trigger] joined(rows[j].push(rows[j + 1][0])),
                max as int,
            ) by {
                assert(overflows(
                    *measure,
                    joined(old_rows[j].push(old_rows.push(row)[j + 1][0])),
                    max as int,
                ));
            }
        }
    } else {
        proof {
            assert(rows.flatten() + row =~= rows.flatten());
        }
    }
    proof {
        let out = views(lines@);
        assert(forall|i: int| 0 <= i < rows.len() ==> #[trigger] out[i] == joined(rows[i]));
        assert(rows_ok(*measure, views(words@), rows, max as int));
    }
    lines
}

/// No character of the word is white space.
pub open spec fn solid_word(w: Seq<char>) -> bool {
    w.len() > 0 && forall|i: int| 0 <= i < w.len() ==> !chars::white_space(#[trigger] w[i])
}

/// The characters of the words in turn.
pub open spec fn run_together(words: Seq<Seq<char>>) -> Seq<char>
    decreases words.len(),
{
    if words.len() == 0 {
        Seq::empty()
    } else {
        run_together(words.drop_last()) + words.last()
    }
}

/// The characters that are not white space.
pub open spec fn inked(s: Seq<char>) -> Seq<char>
    decreases s.len(),
{
    if s.len() == 0 {
        Seq::empty()
    } else if chars::white_space(s.last()) {
        inked(s.drop_last())
    } else {
        inked(s.drop_last()).push(s.last())
    }
}

/// The words of a text are not empty, hold no white space, and are, one after the other, all that the
/// text has besides it.
pub proof fn law_words_are_what_is_not_white(s: Seq<char>)
    ensures
        forall|i: int| 0 <= i < words_of(s).len() ==> solid_word(#[trigger] words_of(s)[i]),
        run_together(words_of(s)) == inked(s),
{
    lemma_scan(s, s.len() as int);
    assert(s.take(s.len() as int) =~= s);
    let (done, open) = scan_words(s, s.len() as int);
    if open.len() > 0 {
        assert(done.push(open).drop_last() =~= done);
    } else {
        assert(run_together(done) + open =~= run_together(done));
    }
}

proof fn lemma_scan(s: Seq<char>, n: int)
    requires
        0 <= n <= s.len(),
    ensures
        ({
            let (done, open) = scan_words(s, n);
            &&& forall|i: int| 0 <= i < done.len() ==> solid_word(#[trigger] done[i])
            &&& forall|i: int| 0 <= i < open.len() ==> !chars::white_space(#[trigger] open[i])
            &&& run_together(done) + open == inked(s.take(n))
        }),
    decreases n,
{
    if n > 0 {
        lemma_scan(s, n - 1);
        let (done, open) = scan_words(s, n - 1);
        let c = s[n - 1];
        assert(s.take(n).drop_last() =~= s.take(n - 1));
        if chars::white_space(c) {
            if open.len() > 0 {
                assert(done.push(open).drop_last() =~= done);
                assert(run_together(done.push(open)) + Seq::<char>::empty() =~= run_together(done)
                    + open);
            }
        } else {
            assert(run_together(done) + open.push(c) =~= (run_together(done) + open).push(c));
        }
    } else {
        assert(run_together(Seq::<Seq<char>>::empty()) + Seq::<char>::empty() =~= inked(
            s.take(0),
        ));
    }
}

/// Splitting undoes joining: words with a space between each two are split into the same words.
pub proof fn law_splitting_undoes_joining(words: Seq<Seq<char>>)
    requires
        forall|i: int| 0 <= i < words.len() ==> solid_word(#[trigger] words[i]),
    ensures
        words_of(joined(words)) == words,
{
    if words.len() > 0 {
        lemma_joined_scan(words);
        assert(words.drop_last().push(words.last()) =~= words);
    } else {
        assert(words_of(joined(words)) =~= words);
    }
}

proof fn lemma_joined_scan(words: Seq<Seq<char>>)
    requires
        words.len() > 0,
        forall|i: int| 0 <= i < words.len() ==> solid_word(#[trigger] words[i]),
    ensures
        scan_words(joined(words), joined(words).len() as int) == (words.drop_last(), words.last()),
    decreases words.len(),
{
    let none = Seq::<Seq<char>>::empty();
    if words.len() == 1 {
        lemma_scan_word(Seq::empty(), words[0], words[0].len() as int);
        assert(Seq::<char>::empty() + words[0] =~= words[0]);
        assert(words.drop_last() =~= none);
        assert(words[0].take(words[0].len() as int) =~= words[0]);
        assert(Seq::<char>::empty() + words[0] =~= words[0]);
    } else {
        let front = words.drop_last();
        assert forall|i: int| 0 <= i < front.len() implies solid_word(#[trigger] front[i]) by {
            assert(solid_word(words[i]));
        }
        lemma_joined_scan(front);
        let head = joined(front).push(' ');
        let n = joined(front).len() as int;
        lemma_scan_prefix(joined(front), head, n);
        assert(scan_words(head, n) == scan_words(joined(front), n));
        assert(chars::white_space(' '));
        assert(solid_word(front[front.len() - 1]));
        assert(front.drop_last().push(front.last()) =~= front);
        assert(scan_words(head, n + 1) == (front, Seq::<char>::empty()));
        lemma_scan_word(head, words.last(), words.last().len() as int);
        assert(words.last().take(words.last().len() as int) =~= words.last());
        assert(Seq::<char>::empty() + words.last() =~= words.last());
    }
}

/// Scanning looks at nothing behind the characters that it scans.
proof fn lemma_scan_prefix(a: Seq<char>, b: Seq<char>, n: int)
    requires
        0 <= n <= a.len(),
        n <= b.len(),
        forall|i: int| 0 <= i < n ==> a[i] == #[trigger] b[i],
    ensures
        scan_words(a, n) == scan_words(b, n),
    decreases n,
{
    if n > 0 {
        lemma_scan_prefix(a, b, n - 1);
        assert(a[n - 1] == b[n - 1]);
    }
}

/// Characters that are not white space go on with the open word.
proof fn lemma_scan_word(head: Seq<char>, word: Seq<char>, n: int)
    requires
        solid_word(word),
        0 <= n <= word.len(),
    ensures
        ({
            let (done, open) = scan_words(head, head.len() as int);
            scan_words(head + word, head.len() + n) == (done, open + word.take(n))
        }),
    decreases n,
{
    let (done, open) = scan_words(head, head.len() as int);
    if n > 0 {
        lemma_scan_word(head, word, n - 1);
        assert((head + word)[head.len() + n - 1] == word[n - 1]);
        assert((open + word.take(n - 1)).push(word[n - 1]) =~= open + word.take(n));
    } else {
        lemma_scan_prefix(head, head + word, head.len() as int);
        assert(open + word.take(0) =~= open);
    }
}

} // verus!
