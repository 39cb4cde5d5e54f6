//! Greedy wrapping of an ordered word sequence into display lines bounded by
//! a width budget.
use vstd::prelude::*;

use crate::flat_chars;
use crate::lemma_flat_chars_concat;
use crate::lemma_flat_chars_push;

verus! {

/// Greedy line-breaking with an open current line of length `cur_len`
/// holding `cur_words` words: each next word joins the current line when its
/// length plus a separator still fits strictly under the budget, and opens a
/// new line otherwise. Yields one `(length, word count)` pair per line.
pub open spec fn layout_rec(
    words: Seq<Seq<char>>,
    budget: int,
    cur_len: int,
    cur_words: int,
) -> Seq<(int, int)>
    decreases words.len(),
{
    if words.len() == 0 {
        seq![(cur_len, cur_words)]
    } else {
        let l = words[0].len() as int;
        if cur_len + l + 1 >= budget {
            seq![(cur_len, cur_words)] + layout_rec(words.drop_first(), budget, l, 1)
        } else {
            layout_rec(words.drop_first(), budget, cur_len + l + 1, cur_words + 1)
        }
    }
}

/// The greedy layout of a non-empty word sequence: the first word opens the
/// first line, the rest follow the greedy rule.
pub open spec fn layout_spec(words: Seq<Seq<char>>, budget: int) -> Seq<(int, int)>
    recommends
        words.len() > 0,
{
    layout_rec(words.drop_first(), budget, words[0].len() as int, 1)
}

/// Sum of the word counts of a line sequence.
pub open spec fn sum_line_words(pairs: Seq<(int, int)>) -> int
    decreases pairs.len(),
{
    if pairs.len() == 0 {
        0
    } else {
        pairs[0].1 + sum_line_words(pairs.drop_first())
    }
}

/// Number of words on the first `i` lines.
pub open spec fn prefix_word_count(pairs: Seq<(int, int)>, i: int) -> int
    decreases i,
{
    if i <= 0 {
        0
    } else {
        prefix_word_count(pairs, i - 1) + pairs[i - 1].1
    }
}

/// The words that the layout places on line `i`.
pub open spec fn line_words_of(words: Seq<Seq<char>>, pairs: Seq<(int, int)>, i: int) -> Seq<
    Seq<char>,
> {
    words.subrange(prefix_word_count(pairs, i), prefix_word_count(pairs, i + 1))
}

/// A line sequence describes `words`: every line holds at least one word,
/// the lines exhaust the words in order, and each recorded line length is
/// the flattened length of that line's words.
pub open spec fn lines_ok(words: Seq<Seq<char>>, pairs: Seq<(int, int)>) -> bool {
    &&& pairs.len() >= 1
    &&& (forall|i: int| 0 <= i < pairs.len() ==> #[trigger] pairs[i].1 >= 1)
    &&& (forall|i: int|
        0 <= i <= pairs.len() ==> 0 <= #[trigger] prefix_word_count(pairs, i) <= words.len())
    &&& prefix_word_count(pairs, pairs.len() as int) == words.len()
    &&& (forall|i: int|
        0 <= i < pairs.len() ==> #[trigger] pairs[i].0 == flat_chars(
            line_words_of(words, pairs, i),
        ).len())
}

/// The linear character position at which line `i` starts in the flattened
/// stream: earlier lines' lengths plus one separator after each.
pub open spec fn line_start(pairs: Seq<(int, int)>, i: int) -> int
    decreases i,
{
    if i <= 0 {
        0
    } else {
        line_start(pairs, i - 1) + pairs[i - 1].0 + 1
    }
}

/// The total number of expected characters of a laid-out text: all line
/// lengths plus one separator between each pair of adjacent lines.
pub open spec fn total_line_chars(pairs: Seq<(int, int)>) -> int {
    line_start(pairs, pairs.len() as int) - 1
}

/// The wrapped form of the race text: per display line, its character length
/// (words plus interior separators, excluding the trailing separator) and
/// its word count.
pub struct TextLayout {
    pub line_lens: Vec<usize>,
    pub line_words: Vec<usize>,
}

impl TextLayout {
    /// The lines as `(length, word count)` pairs.
    pub open spec fn lines(self) -> Seq<(int, int)> {
        Seq::new(self.line_lens@.len(), |i: int| (self.line_lens@[i] as int, self.line_words@[i] as int))
    }

    pub open spec fn wf(self) -> bool {
        self.line_lens@.len() == self.line_words@.len()
    }

    /// This layout is the greedy layout of `words` under `budget`.
    pub open spec fn matches(self, words: Seq<Seq<char>>, budget: int) -> bool {
        &&& self.wf()
        &&& self.lines() == layout_spec(words, budget)
    }

    /// Wraps a non-empty word sequence under the width budget by greedy
    /// packing. Recomputable on resize; deterministic in its inputs.
    pub fn compute(words: &Vec<String>, budget: usize) -> (r: TextLayout)
        requires
            words.len() > 0,
        ensures
            r.matches(words.deep_view(), budget as int),
    {
        let ghost dv = words.deep_view();
        let mut line_lens: Vec<usize> = Vec::new();
        let mut line_words: Vec<usize> = Vec::new();
        let first: &String = &words[0];
        let mut cur_len: usize = first.as_str().unicode_len();
        let mut cur_words: usize = 1;
        let mut i: usize = 1;
        proof {
            assert(dv.skip(1) =~= dv.drop_first());
        }
        while i < words.len()
            invariant
                1 <= i <= words.len(),
                cur_words <= i,
                dv == words.deep_view(),
                line_lens@.len() == line_words@.len(),
                layout_spec(dv, budget as int) == Seq::new(
                    line_lens@.len(),
                    |k: int| (line_lens@[k] as int, line_words@[k] as int),
                ) + layout_rec(dv.skip(i as int), budget as int, cur_len as int, cur_words as int),
            decreases words.len() - i,
        {
            let ghost committed = Seq::new(
                line_lens@.len(),
                |k: int| (line_lens@[k] as int, line_words@[k] as int),
            );
            let w: &String = &words[i];
            let l: usize = w.as_str().unicode_len();
            proof {
                assert(dv.skip(i as int)[0] == dv[i as int]);
                assert(dv[i as int] == w@);
                assert(dv.skip(i as int).drop_first() =~= dv.skip(i + 1));
            }
            let breaks: bool = if cur_len >= budget {
                true
            } else {
                l >= budget - cur_len - 1
            };
            proof {
                assert(breaks == (cur_len + l + 1 >= budget));
            }
            if breaks {
                let ghost closed = (cur_len as int, cur_words as int);
                line_lens.push(cur_len);
                line_words.push(cur_words);
                cur_len = l;
                cur_words = 1;
                proof {
                    assert(Seq::new(
                        line_lens@.len(),
                        |k: int| (line_lens@[k] as int, line_words@[k] as int),
                    ) =~= committed + seq![closed]);
                    assert(committed + (seq![closed] + layout_rec(
                        dv.skip(i + 1),
                        budget as int,
                        cur_len as int,
                        cur_words as int,
                    )) =~= (committed + seq![closed]) + layout_rec(
                        dv.skip(i + 1),
                        budget as int,
                        cur_len as int,
                        cur_words as int,
                    ));
                }
            } else {
                cur_len = cur_len + l + 1;
                cur_words = cur_words + 1;
            }
            i = i + 1;
        }
        proof {
            assert(dv.skip(words.len() as int) =~= Seq::<Seq<char>>::empty());
        }
        line_lens.push(cur_len);
        line_words.push(cur_words);
        let r = TextLayout { line_lens, line_words };
        proof {
            assert(r.lines() =~= layout_spec(dv, budget as int));
        }
        r
    }
}

/// Law: when every word fits within the budget, no produced line's character
/// length exceeds the budget.
pub proof fn lemma_layout_within_budget(words: Seq<Seq<char>>, budget: int)
    requires
        words.len() > 0,
        forall|i: int| 0 <= i < words.len() ==> #[trigger] words[i].len() <= budget,
    ensures
        forall|i: int|
            0 <= i < layout_spec(words, budget).len() ==> #[trigger] layout_spec(words, budget)[i].0
                <= budget,
{
    lemma_layout_rec_budget(words.drop_first(), budget, words[0].len() as int, 1);
}

proof fn lemma_layout_rec_budget(words: Seq<Seq<char>>, budget: int, cur_len: int, cur_words: int)
    requires
        cur_len <= budget,
        forall|i: int| 0 <= i < words.len() ==> #[trigger] words[i].len() <= budget,
    ensures
        forall|i: int|
            0 <= i < layout_rec(words, budget, cur_len, cur_words).len() ==> #[trigger] layout_rec(
                words,
                budget,
                cur_len,
                cur_words,
            )[i].0 <= budget,
    decreases words.len(),
{
    let res = layout_rec(words, budget, cur_len, cur_words);
    if words.len() == 0 {
        assert(res == seq![(cur_len, cur_words)]);
        assert(res[0].0 <= budget);
    } else {
        let l = words[0].len() as int;
        assert(words[0].len() <= budget);
        assert forall|i: int|
            0 <= i < words.drop_first().len() implies #[trigger] words.drop_first()[i].len()
            <= budget by {
            assert(words.drop_first()[i] == words[i + 1]);
        }
        if cur_len + l + 1 >= budget {
            lemma_layout_rec_budget(words.drop_first(), budget, l, 1);
            let rest = layout_rec(words.drop_first(), budget, l, 1);
            assert forall|i: int| 0 <= i < res.len() implies #[trigger] res[i].0 <= budget by {
                if i > 0 {
                    assert(res[i] == rest[i - 1]);
                }
            }
        } else {
            lemma_layout_rec_budget(words.drop_first(), budget, cur_len + l + 1, cur_words + 1);
            assert(res == layout_rec(words.drop_first(), budget, cur_len + l + 1, cur_words + 1));
        }
    }
}

/// Law: the lines' word counts sum to the number of words laid out.
pub proof fn lemma_layout_word_count(words: Seq<Seq<char>>, budget: int)
    requires
        words.len() > 0,
    ensures
        sum_line_words(layout_spec(words, budget)) == words.len(),
{
    lemma_layout_rec_word_count(words.drop_first(), budget, words[0].len() as int, 1);
}

proof fn lemma_layout_rec_word_count(
    words: Seq<Seq<char>>,
    budget: int,
    cur_len: int,
    cur_words: int,
)
    ensures
        sum_line_words(layout_rec(words, budget, cur_len, cur_words)) == cur_words + words.len(),
    decreases words.len(),
{
    if words.len() == 0 {
        assert(layout_rec(words, budget, cur_len, cur_words) == seq![(cur_len, cur_words)]);
        assert(seq![(cur_len, cur_words)].drop_first() =~= Seq::<(int, int)>::empty());
        assert(sum_line_words(Seq::<(int, int)>::empty()) == 0);
        assert(sum_line_words(seq![(cur_len, cur_words)]) == cur_words);
    } else {
        let l = words[0].len() as int;
        if cur_len + l + 1 >= budget {
            let rest = layout_rec(words.drop_first(), budget, l, 1);
            lemma_layout_rec_word_count(words.drop_first(), budget, l, 1);
            let whole = seq![(cur_len, cur_words)] + rest;
            assert(whole.drop_first() =~= rest);
            assert(whole[0].1 == cur_words);
        } else {
            lemma_layout_rec_word_count(words.drop_first(), budget, cur_len + l + 1, cur_words + 1);
        }
    }
}

proof fn lemma_pwc_drop(pairs: Seq<(int, int)>, i: int)
    requires
        pairs.len() >= 1,
        0 <= i < pairs.len(),
    ensures
        prefix_word_count(pairs, i + 1) == pairs[0].1 + prefix_word_count(pairs.drop_first(), i),
    decreases i,
{
    if i == 0 {
        assert(prefix_word_count(pairs, 0) == 0);
        assert(prefix_word_count(pairs.drop_first(), 0) == 0);
    } else {
        lemma_pwc_drop(pairs, i - 1);
        assert(pairs[i] == pairs.drop_first()[i - 1]);
        assert(prefix_word_count(pairs, i + 1) == prefix_word_count(pairs, i) + pairs[i].1);
        assert(prefix_word_count(pairs.drop_first(), i) == prefix_word_count(
            pairs.drop_first(),
            i - 1,
        ) + pairs.drop_first()[i - 1].1);
    }
}

pub(crate) proof fn lemma_line_start_drop(pairs: Seq<(int, int)>, i: int)
    requires
        pairs.len() >= 1,
        0 <= i < pairs.len(),
    ensures
        line_start(pairs, i + 1) == pairs[0].0 + 1 + line_start(pairs.drop_first(), i),
    decreases i,
{
    if i == 0 {
        assert(line_start(pairs, 0) == 0);
        assert(line_start(pairs.drop_first(), 0) == 0);
    } else {
        lemma_line_start_drop(pairs, i - 1);
        assert(pairs[i] == pairs.drop_first()[i - 1]);
        assert(line_start(pairs, i + 1) == line_start(pairs, i) + pairs[i].0 + 1);
        assert(line_start(pairs.drop_first(), i) == line_start(pairs.drop_first(), i - 1)
            + pairs.drop_first()[i - 1].0 + 1);
    }
}

proof fn lemma_pwc_mono(pairs: Seq<(int, int)>, i: int, j: int)
    requires
        0 <= i <= j <= pairs.len(),
        forall|k: int| 0 <= k < pairs.len() ==> #[trigger] pairs[k].1 >= 1,
    ensures
        prefix_word_count(pairs, j) >= prefix_word_count(pairs, i) + (j - i),
    decreases j - i,
{
    if j > i {
        lemma_pwc_mono(pairs, i, j - 1);
        assert(pairs[j - 1].1 >= 1);
    }
}

proof fn lemma_lines_ok_cons(a: Seq<Seq<char>>, b: Seq<Seq<char>>, p0: (int, int), tail: Seq<
    (int, int),
>)
    requires
        a.len() >= 1,
        p0.0 == flat_chars(a).len(),
        p0.1 == a.len(),
        lines_ok(b, tail),
    ensures
        lines_ok(a + b, seq![p0] + tail),
{
    let words = a + b;
    let pairs = seq![p0] + tail;
    assert(pairs.drop_first() =~= tail);
    assert(pairs[0] == p0);
    assert forall|i: int| 0 <= i <= pairs.len() implies 0 <= #[trigger] prefix_word_count(pairs, i)
        <= words.len() by {
        if i > 0 {
            lemma_pwc_drop(pairs, i - 1);
        }
    }
    assert(prefix_word_count(pairs, pairs.len() as int) == words.len()) by {
        lemma_pwc_drop(pairs, pairs.len() - 1);
    }
    assert forall|i: int| 0 <= i < pairs.len() implies #[trigger] pairs[i].0 == flat_chars(
        line_words_of(words, pairs, i),
    ).len() by {
        if i == 0 {
            lemma_pwc_drop(pairs, 0);
            assert(prefix_word_count(tail, 0) == 0);
            assert(prefix_word_count(pairs, 1) == a.len());
            assert(line_words_of(words, pairs, 0) =~= a);
        } else {
            lemma_pwc_drop(pairs, i - 1);
            lemma_pwc_drop(pairs, i);
            assert(line_words_of(words, pairs, i) =~= line_words_of(b, tail, i - 1));
            assert(tail[i - 1].0 == flat_chars(line_words_of(b, tail, i - 1)).len());
        }
    }
}

proof fn lemma_layout_rec_lines_ok(prefix: Seq<Seq<char>>, rest: Seq<Seq<char>>, budget: int)
    requires
        prefix.len() >= 1,
    ensures
        lines_ok(
            prefix + rest,
            layout_rec(rest, budget, flat_chars(prefix).len() as int, prefix.len() as int),
        ),
    decreases rest.len(),
{
    let words = prefix + rest;
    let pairs = layout_rec(rest, budget, flat_chars(prefix).len() as int, prefix.len() as int);
    if rest.len() == 0 {
        assert(words =~= prefix);
        assert(pairs == seq![(flat_chars(prefix).len() as int, prefix.len() as int)]);
        assert(prefix_word_count(pairs, 0) == 0);
        assert(prefix_word_count(pairs, 1) == prefix.len());
        assert(line_words_of(words, pairs, 0) =~= prefix);
    } else {
        let w = rest[0];
        let l = w.len() as int;
        if flat_chars(prefix).len() + l + 1 >= budget {
            lemma_layout_rec_lines_ok(seq![w], rest.drop_first(), budget);
            assert(flat_chars(seq![w]) == w);
            let tail = layout_rec(rest.drop_first(), budget, l, 1);
            lemma_lines_ok_cons(
                prefix,
                seq![w] + rest.drop_first(),
                (flat_chars(prefix).len() as int, prefix.len() as int),
                tail,
            );
            assert(prefix + (seq![w] + rest.drop_first()) =~= words);
        } else {
            lemma_flat_chars_push(prefix, w);
            assert(flat_chars(prefix.push(w)).len() == flat_chars(prefix).len() + l + 1);
            lemma_layout_rec_lines_ok(prefix.push(w), rest.drop_first(), budget);
            assert(prefix.push(w) + rest.drop_first() =~= words);
        }
    }
}

/// The greedy layout's lines describe the laid-out words.
pub proof fn lemma_layout_lines_ok(words: Seq<Seq<char>>, budget: int)
    requires
        words.len() > 0,
    ensures
        lines_ok(words, layout_spec(words, budget)),
{
    assert(flat_chars(seq![words[0]]) == words[0]);
    lemma_layout_rec_lines_ok(seq![words[0]], words.drop_first(), budget);
    assert(seq![words[0]] + words.drop_first() =~= words);
}

/// Splitting a multi-line text at the first line break: the first line's
/// words flatten to its recorded length, and the remaining lines describe
/// the remaining words.
proof fn lemma_lines_split(words: Seq<Seq<char>>, pairs: Seq<(int, int)>)
    requires
        lines_ok(words, pairs),
        pairs.len() >= 2,
    ensures
        1 <= prefix_word_count(pairs, 1) < words.len(),
        lines_ok(
            words.subrange(prefix_word_count(pairs, 1), words.len() as int),
            pairs.drop_first(),
        ),
        pairs[0].0 == flat_chars(words.subrange(0, prefix_word_count(pairs, 1))).len(),
        flat_chars(words) == flat_chars(words.subrange(0, prefix_word_count(pairs, 1)))
            + seq![' '] + flat_chars(
            words.subrange(prefix_word_count(pairs, 1), words.len() as int),
        ),
{
    let n = pairs.len() as int;
    let k = prefix_word_count(pairs, 1);
    assert(prefix_word_count(pairs, 0) == 0);
    assert(k == pairs[0].1);
    let a = words.subrange(0, k);
    let b = words.subrange(k, words.len() as int);
    let tail = pairs.drop_first();
    lemma_pwc_mono(pairs, 1, n);
    assert(b.len() >= n - 1 >= 1);
    assert forall|i: int| 0 <= i <= tail.len() implies 0 <= #[trigger] prefix_word_count(tail, i)
        <= b.len() by {
        lemma_pwc_drop(pairs, i);
        lemma_pwc_mono(pairs, 1, i + 1);
    }
    assert(prefix_word_count(tail, tail.len() as int) == b.len()) by {
        lemma_pwc_drop(pairs, n - 1);
    }
    assert forall|i: int| 0 <= i < tail.len() implies #[trigger] tail[i].0 == flat_chars(
        line_words_of(b, tail, i),
    ).len() by {
        lemma_pwc_drop(pairs, i);
        lemma_pwc_drop(pairs, i + 1);
        assert(line_words_of(b, tail, i) =~= line_words_of(words, pairs, i + 1));
    }
    assert(line_words_of(words, pairs, 0) =~= a);
    assert(a + b =~= words);
    lemma_flat_chars_concat(a, b);
}

/// Line `i` of a laid-out text spans the flattened stream from its start
/// position for its recorded length; a single separator follows it unless it
/// is the last line, which ends the stream.
pub proof fn lemma_flat_line(words: Seq<Seq<char>>, pairs: Seq<(int, int)>, i: int)
    requires
        lines_ok(words, pairs),
        0 <= i < pairs.len(),
    ensures
        0 <= line_start(pairs, i),
        line_start(pairs, i) + pairs[i].0 <= flat_chars(words).len(),
        forall|c: int|
            0 <= c < pairs[i].0 ==> flat_chars(words)[line_start(pairs, i) + c]
                == #[trigger] flat_chars(line_words_of(words, pairs, i))[c],
        i < pairs.len() - 1 ==> line_start(pairs, i) + pairs[i].0 < flat_chars(words).len()
            && flat_chars(words)[line_start(pairs, i) + pairs[i].0] == ' ',
        i == pairs.len() - 1 ==> line_start(pairs, i) + pairs[i].0 == flat_chars(words).len(),
    decreases pairs.len(),
{
    let flat = flat_chars(words);
    if pairs.len() == 1 {
        assert(line_words_of(words, pairs, 0) =~= words);
        assert(line_start(pairs, 0) == 0);
    } else {
        lemma_lines_split(words, pairs);
        let k = prefix_word_count(pairs, 1);
        let a = words.subrange(0, k);
        let b = words.subrange(k, words.len() as int);
        let tail = pairs.drop_first();
        if i == 0 {
            assert(line_words_of(words, pairs, 0) =~= a);
            assert(line_start(pairs, 0) == 0);
            assert forall|c: int| 0 <= c < pairs[0].0 implies flat[line_start(pairs, 0) + c]
                == #[trigger] flat_chars(line_words_of(words, pairs, 0))[c] by {
                assert(flat[c] == flat_chars(a)[c]);
            }
            assert(flat[pairs[0].0] == ' ');
        } else {
            lemma_flat_line(b, tail, i - 1);
            lemma_line_start_drop(pairs, i - 1);
            assert(line_start(pairs, i) == pairs[0].0 + 1 + line_start(tail, i - 1));
            lemma_pwc_drop(pairs, i - 1);
            lemma_pwc_drop(pairs, i);
            assert(line_words_of(b, tail, i - 1) =~= line_words_of(words, pairs, i));
            assert(pairs[i] == tail[i - 1]);
            assert forall|c: int| 0 <= c < pairs[i].0 implies flat[line_start(pairs, i) + c]
                == #[trigger] flat_chars(line_words_of(words, pairs, i))[c] by {
                assert(flat_chars(b)[line_start(tail, i - 1) + c] == flat_chars(
                    line_words_of(b, tail, i - 1),
                )[c]);
                assert(flat[line_start(pairs, i) + c] == flat_chars(b)[line_start(tail, i - 1)
                    + c]);
            }
            if i < pairs.len() - 1 {
                assert(line_start(tail, i - 1) + tail[i - 1].0 < flat_chars(b).len());
                assert(flat[line_start(pairs, i) + pairs[i].0] == flat_chars(b)[line_start(
                    tail,
                    i - 1,
                ) + tail[i - 1].0]);
            }
        }
    }
}

/// The recorded line lengths tile the whole flattened stream: its total
/// character count is the sum of the line lengths plus one separator between
/// each pair of adjacent lines.
pub proof fn lemma_total_line_chars(words: Seq<Seq<char>>, pairs: Seq<(int, int)>)
    requires
        lines_ok(words, pairs),
    ensures
        total_line_chars(pairs) == flat_chars(words).len(),
    decreases pairs.len(),
{
    if pairs.len() == 1 {
        assert(line_words_of(words, pairs, 0) =~= words);
        assert(line_start(pairs, 0) == 0);
        assert(line_start(pairs, 1) == pairs[0].0 + 1);
    } else {
        lemma_lines_split(words, pairs);
        let k = prefix_word_count(pairs, 1);
        let b = words.subrange(k, words.len() as int);
        let tail = pairs.drop_first();
        lemma_total_line_chars(b, tail);
        lemma_line_start_drop(pairs, pairs.len() - 1);
    }
}


/// A laid-out text has at most one line more than it has characters.
pub proof fn lemma_line_count_bound(words: Seq<Seq<char>>, pairs: Seq<(int, int)>)
    requires
        lines_ok(words, pairs),
    ensures
        pairs.len() <= flat_chars(words).len() + 1,
    decreases pairs.len(),
{
    if pairs.len() > 1 {
        lemma_lines_split(words, pairs);
        let k = prefix_word_count(pairs, 1);
        let b = words.subrange(k, words.len() as int);
        lemma_line_count_bound(b, pairs.drop_first());
    }
}

/// Every line's span fits inside the flattened stream.
pub proof fn lemma_flat_line_all(words: Seq<Seq<char>>, pairs: Seq<(int, int)>)
    requires
        lines_ok(words, pairs),
    ensures
        forall|i: int|
            0 <= i < pairs.len() ==> 0 <= line_start(pairs, i) && line_start(pairs, i)
                + #[trigger] pairs[i].0 <= flat_chars(words).len(),
        pairs.len() <= flat_chars(words).len() + 1,
        total_line_chars(pairs) == flat_chars(words).len(),
{
    assert forall|i: int| 0 <= i < pairs.len() implies 0 <= line_start(pairs, i) && line_start(
        pairs,
        i,
    ) + #[trigger] pairs[i].0 <= flat_chars(words).len() by {
        lemma_flat_line(words, pairs, i);
    }
    lemma_line_count_bound(words, pairs);
    lemma_total_line_chars(words, pairs);
}

} // verus!
