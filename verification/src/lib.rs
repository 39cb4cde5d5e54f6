//! A terminal typing trainer, verified: greedy text layout under a width
//! budget, cursor recovery across relayout, incremental terminal rendering,
//! and the race state machine that tracks keystrokes against the expected
//! text.
use vstd::prelude::*;
use vstd::string::StrSliceExecFns;

pub mod cursor;
pub mod layout;
pub mod race;
pub mod render;

verus! {

/// The sequence of characters a racer is expected to type: the words joined
/// by a single space between consecutive words, with no trailing separator.
pub open spec fn flat_chars(words: Seq<Seq<char>>) -> Seq<char>
    decreases words.len(),
{
    if words.len() == 0 {
        Seq::empty()
    } else if words.len() == 1 {
        words[0]
    } else {
        words[0] + seq![' '] + flat_chars(words.drop_first())
    }
}

/// Appending a word to a non-empty sequence extends the flattened stream by
/// one separator and that word's characters.
pub proof fn lemma_flat_chars_push(words: Seq<Seq<char>>, w: Seq<char>)
    ensures
        words.len() == 0 ==> flat_chars(words.push(w)) == w,
        words.len() > 0 ==> flat_chars(words.push(w)) == flat_chars(words) + seq![' '] + w,
    decreases words.len(),
{
    let p = words.push(w);
    if words.len() == 0 {
        assert(p[0] == w);
    } else if words.len() == 1 {
        assert(p.drop_first() =~= seq![w]);
        assert(flat_chars(seq![w]) == w);
        assert(flat_chars(words) + seq![' '] + w =~= words[0] + seq![' '] + w);
    } else {
        assert(p.drop_first() =~= words.drop_first().push(w));
        lemma_flat_chars_push(words.drop_first(), w);
        assert(flat_chars(words) + seq![' '] + w =~= words[0] + seq![' '] + (flat_chars(
            words.drop_first(),
        ) + seq![' '] + w));
    }
}

/// Joining two non-empty word sequences inserts exactly one separator
/// between their flattened streams.
pub proof fn lemma_flat_chars_concat(a: Seq<Seq<char>>, b: Seq<Seq<char>>)
    requires
        a.len() > 0,
        b.len() > 0,
    ensures
        flat_chars(a + b) == flat_chars(a) + seq![' '] + flat_chars(b),
    decreases b.len(),
{
    if b.len() == 1 {
        assert(a + b =~= a.push(b[0]));
        lemma_flat_chars_push(a, b[0]);
        assert(flat_chars(b) == b[0]);
    } else {
        let b0 = b.drop_last();
        assert(b0.push(b.last()) =~= b);
        assert(a + b =~= (a + b0).push(b.last()));
        lemma_flat_chars_concat(a, b0);
        lemma_flat_chars_push(a + b0, b.last());
        lemma_flat_chars_push(b0, b.last());
        assert(flat_chars(a) + seq![' '] + flat_chars(b) =~= (flat_chars(a) + seq![' ']
            + flat_chars(b0)) + seq![' '] + b.last());
    }
}

/// Flattens the words with indices in `[start, end)` into their character
/// stream: those words joined by single spaces.
pub fn flat_range(words: &Vec<String>, start: usize, end: usize) -> (r: Vec<char>)
    requires
        start <= end <= words.len(),
    ensures
        r@ == flat_chars(words.deep_view().subrange(start as int, end as int)),
{
    let ghost dv = words.deep_view();
    let mut r: Vec<char> = Vec::new();
    let mut i: usize = start;
    proof {
        assert(dv.subrange(start as int, start as int) =~= Seq::<Seq<char>>::empty());
    }
    while i < end
        invariant
            start <= i <= end <= words.len(),
            dv == words.deep_view(),
            r@ == flat_chars(dv.subrange(start as int, i as int)),
        decreases end - i,
    {
        if i > start {
            r.push(' ');
        }
        let w: &String = &words[i];
        let ws: &str = w.as_str();
        let n: usize = ws.unicode_len();
        let ghost r0 = r@;
        let mut j: usize = 0;
        while j < n
            invariant
                j <= n,
                n == ws@.len(),
                r@ == r0 + ws@.take(j as int),
            decreases n - j,
        {
            let c = ws.get_char(j);
            r.push(c);
            proof {
                assert(ws@.take(j + 1) =~= ws@.take(j as int).push(ws@[j as int]));
            }
            j = j + 1;
        }
        proof {
            assert(ws@.take(n as int) =~= ws@);
            assert(dv[i as int] == ws@);
            assert(dv.subrange(start as int, i + 1) =~= dv.subrange(start as int, i as int).push(
                dv[i as int],
            ));
            lemma_flat_chars_push(dv.subrange(start as int, i as int), dv[i as int]);
            if i == start {
                assert(r@ =~= flat_chars(dv.subrange(start as int, i + 1)));
            } else {
                assert(r@ =~= flat_chars(dv.subrange(start as int, i as int)) + seq![' '] + dv[i as int]);
            }
        }
        i = i + 1;
    }
    r
}

/// Flattens the whole word list into the expected character stream: words
/// joined by single spaces.
pub fn char_iter_from_to_type(to_type: &Vec<String>) -> (r: Vec<char>)
    ensures
        r@ == flat_chars(to_type.deep_view()),
{
    let r = flat_range(to_type, 0, to_type.len());
    proof {
        assert(to_type.deep_view().subrange(0, to_type.len() as int) =~= to_type.deep_view());
    }
    r
}

/// Relies on rand::random_range: draws a value uniformly from the range;
/// every outcome lies below the bound. Panics on an empty range, so the
/// bound must be positive.
#[verifier::external_body]
fn random_index(bound: usize) -> (r: usize)
    requires
        bound > 0,
    ensures
        r < bound,
{
    rand::random_range(0..bound)
}

/// Builds a race's word sequence: `count` words drawn independently and
/// uniformly at random, with replacement, from the non-empty pool.
pub fn sample_words(pool: &Vec<String>, count: usize) -> (r: Vec<String>)
    requires
        pool.len() > 0,
    ensures
        r.len() == count,
        forall|i: int|
            0 <= i < count ==> pool.deep_view().contains(#[trigger] r.deep_view()[i]),
{
    let mut r: Vec<String> = Vec::new();
    let mut i: usize = 0;
    while i < count
        invariant
            pool.len() > 0,
            i <= count,
            r.len() == i,
            forall|k: int|
                0 <= k < i ==> pool.deep_view().contains(#[trigger] r.deep_view()[k]),
        decreases count - i,
    {
        let idx = random_index(pool.len());
        let ghost rdv0 = r.deep_view();
        let w = pool[idx].clone();
        r.push(w);
        proof {
            assert forall|k: int| 0 <= k < i + 1 implies pool.deep_view().contains(
                #[trigger] r.deep_view()[k],
            ) by {
                if k < i {
                    assert(r.deep_view()[k] == rdv0[k]);
                } else {
                    assert(r.deep_view()[k] == pool.deep_view()[idx as int]);
                }
            }
        }
        i = i + 1;
    }
    r
}

} // verus!
