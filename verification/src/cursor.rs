//! Mapping a linear typed-character count to a `(line, column)` position
//! against a text layout, and back; and recovering the expected character
//! under a cursor position.
use vstd::prelude::*;

use crate::flat_chars;
use crate::flat_range;
use crate::layout::TextLayout;
use crate::layout::lemma_flat_line;
use crate::layout::lemma_line_start_drop;
use crate::layout::line_start;
use crate::layout::line_words_of;
use crate::layout::lines_ok;
use crate::layout::prefix_word_count;
use crate::layout::total_line_chars;

verus! {

/// The cursor of an in-progress race: a column and a line relative to the
/// scroll offset, which is the index of the first visible line.
pub struct CursorModel {
    pub col: usize,
    pub line: usize,
    pub scroll: usize,
}

impl CursorModel {
    /// The absolute line index in the layout.
    pub open spec fn abs_line(self) -> int {
        self.scroll + self.line
    }
}

/// Where a typed-character count falls among the laid-out lines: each fully
/// consumed line swallows its length plus one trailing separator; walking
/// stops when the remainder fits on the current line (or no line follows),
/// and the remainder is the column.
pub open spec fn locate_spec(pairs: Seq<(int, int)>, t: int) -> (int, int)
    decreases pairs.len(),
{
    if pairs.len() <= 1 || t <= pairs[0].0 {
        (0, t)
    } else {
        let r = locate_spec(pairs.drop_first(), t - pairs[0].0 - 1);
        (r.0 + 1, r.1)
    }
}

/// The typed-character count that puts the cursor at `(line, col)`: all
/// earlier lines with their separators, plus the column.
pub open spec fn reconstruct_spec(pairs: Seq<(int, int)>, line: int, col: int) -> int {
    line_start(pairs, line) + col
}

/// Law: locating a typed count and reconstructing it from the resulting
/// `(line, column)` returns the original count, for every count up to the
/// total character count; the column never runs past its line's length.
pub proof fn lemma_locate_round_trip(pairs: Seq<(int, int)>, t: int)
    requires
        pairs.len() >= 1,
        forall|i: int| 0 <= i < pairs.len() ==> #[trigger] pairs[i].0 >= 0,
        0 <= t <= total_line_chars(pairs),
    ensures
        0 <= locate_spec(pairs, t).0 < pairs.len(),
        0 <= locate_spec(pairs, t).1 <= pairs[locate_spec(pairs, t).0].0,
        reconstruct_spec(pairs, locate_spec(pairs, t).0, locate_spec(pairs, t).1) == t,
    decreases pairs.len(),
{
    assert(line_start(pairs, 0) == 0);
    if pairs.len() == 1 {
        assert(line_start(pairs, 1) == pairs[0].0 + 1);
        assert(t <= pairs[0].0);
    } else if t <= pairs[0].0 {
    } else {
        let tail = pairs.drop_first();
        let t2 = t - pairs[0].0 - 1;
        lemma_line_start_drop(pairs, pairs.len() - 1);
        assert(total_line_chars(tail) == total_line_chars(pairs) - pairs[0].0 - 1);
        assert(forall|i: int| 0 <= i < tail.len() ==> #[trigger] tail[i].0 >= 0) by {
            assert(forall|i: int|
                0 <= i < tail.len() ==> tail[i] == #[trigger] pairs[i + 1]);
        }
        lemma_locate_round_trip(tail, t2);
        let r = locate_spec(tail, t2);
        lemma_line_start_drop(pairs, r.0);
        assert(line_start(pairs, r.0 + 1) == pairs[0].0 + 1 + line_start(tail, r.0));
        assert(pairs[r.0 + 1] == tail[r.0]);
    }
}

/// Maps a typed-character count to its `(line, column)` cursor position by
/// walking the line lengths. Re-derived after every resize so an
/// in-progress race survives relayout.
pub fn locate(layout: &TextLayout, typed_count: usize) -> (r: (usize, usize))
    requires
        layout.wf(),
        layout.line_lens@.len() >= 1,
    ensures
        (r.0 as int, r.1 as int) == locate_spec(layout.lines(), typed_count as int),
        r.0 < layout.line_lens@.len(),
{
    let ghost pairs = layout.lines();
    let mut line: usize = 0;
    let mut t: usize = typed_count;
    proof {
        assert(pairs.skip(0) =~= pairs);
    }
    while line < layout.line_lens.len() - 1 && t > layout.line_lens[line]
        invariant
            layout.wf(),
            pairs == layout.lines(),
            layout.line_lens@.len() >= 1,
            line < layout.line_lens@.len(),
            locate_spec(pairs, typed_count as int).0 == line + locate_spec(
                pairs.skip(line as int),
                t as int,
            ).0,
            locate_spec(pairs, typed_count as int).1 == locate_spec(
                pairs.skip(line as int),
                t as int,
            ).1,
        decreases layout.line_lens@.len() - line,
    {
        proof {
            assert(pairs.skip(line as int)[0] == pairs[line as int]);
            assert(pairs.skip(line as int).drop_first() =~= pairs.skip(line + 1));
            assert(pairs.skip(line as int).len() > 1);
        }
        t = t - layout.line_lens[line] - 1;
        line = line + 1;
    }
    proof {
        assert(pairs.skip(line as int)[0] == pairs[line as int]);
        if line + 1 < layout.line_lens@.len() {
            assert(t <= pairs[line as int].0);
        } else {
            assert(pairs.skip(line as int).len() <= 1);
        }
        assert(locate_spec(pairs.skip(line as int), t as int) == (0int, t as int));
    }
    (line, t)
}

/// `line_start` grows with the line index when all line lengths are
/// non-negative.
proof fn lemma_line_start_mono(pairs: Seq<(int, int)>, i: int, j: int)
    requires
        0 <= i <= j <= pairs.len(),
        forall|k: int| 0 <= k < pairs.len() ==> #[trigger] pairs[k].0 >= 0,
    ensures
        line_start(pairs, i) <= line_start(pairs, j),
    decreases j - i,
{
    if j > i {
        lemma_line_start_mono(pairs, i, j - 1);
        assert(pairs[j - 1].0 >= 0);
    }
}

/// Recovers the typed-character count from a cursor position: the lengths
/// of all earlier lines, one separator each, plus the column.
pub fn reconstruct(layout: &TextLayout, line: usize, col: usize) -> (r: usize)
    requires
        layout.wf(),
        line < layout.line_lens@.len(),
        reconstruct_spec(layout.lines(), line as int, col as int) <= usize::MAX,
    ensures
        r as int == reconstruct_spec(layout.lines(), line as int, col as int),
{
    let ghost pairs = layout.lines();
    let mut acc: usize = 0;
    let mut i: usize = 0;
    while i < line
        invariant
            layout.wf(),
            pairs == layout.lines(),
            i <= line < layout.line_lens@.len(),
            acc as int == line_start(pairs, i as int),
            reconstruct_spec(pairs, line as int, col as int) <= usize::MAX,
        decreases line - i,
    {
        proof {
            lemma_line_start_mono(pairs, i + 1, line as int);
            assert(line_start(pairs, i + 1) == line_start(pairs, i as int) + pairs[i as int].0
                + 1);
        }
        acc = acc + layout.line_lens[i] + 1;
        i = i + 1;
    }
    acc + col
}

/// Recovers the expected character at a cursor position by re-flattening
/// the words of that line, separators interspersed, and indexing into the
/// result; yields nothing when the column is at or past the line's end.
pub fn char_under(layout: &TextLayout, words: &Vec<String>, line: usize, col: usize) -> (r: Option<
    char,
>)
    requires
        layout.wf(),
        lines_ok(words.deep_view(), layout.lines()),
        line < layout.line_lens@.len(),
    ensures
        col < layout.line_lens@[line as int] ==> r == Some(
            flat_chars(words.deep_view())[line_start(layout.lines(), line as int) + col],
        ),
        col >= layout.line_lens@[line as int] ==> r is None,
{
    let ghost pairs = layout.lines();
    let ghost dv = words.deep_view();
    let wlen: usize = words.len();
    proof {
        assert(dv.len() == wlen as int);
    }
    let mut start: usize = 0;
    let mut i: usize = 0;
    proof {
        assert(prefix_word_count(pairs, 0) == 0);
    }
    while i < line
        invariant
            layout.wf(),
            pairs == layout.lines(),
            dv == words.deep_view(),
            lines_ok(dv, pairs),
            dv.len() == wlen as int,
            i <= line < layout.line_lens@.len(),
            start as int == prefix_word_count(pairs, i as int),
        decreases line - i,
    {
        proof {
            assert(prefix_word_count(pairs, i + 1) == prefix_word_count(pairs, i as int)
                + pairs[i as int].1);
            assert(0 <= prefix_word_count(pairs, i + 1) <= dv.len());
        }
        start = start + layout.line_words[i];
        i = i + 1;
    }
    let wc = layout.line_words[line];
    proof {
        assert(prefix_word_count(pairs, line + 1) == prefix_word_count(pairs, line as int)
            + pairs[line as int].1);
        assert(0 <= prefix_word_count(pairs, line + 1) <= dv.len());
    }
    let v = flat_range(words, start, start + wc);
    proof {
        assert(v@ == flat_chars(line_words_of(dv, pairs, line as int)));
        assert(v@.len() == pairs[line as int].0);
        lemma_flat_line(dv, pairs, line as int);
    }
    if col < v.len() {
        Some(v[col])
    } else {
        None
    }
}

} // verus!
