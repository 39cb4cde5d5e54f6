//! The summary screen: the completed race's statistics laid out as
//! label/value rows, with words-per-minute and accuracy derived from the
//! race result in fixed-point hundredths.
use vstd::prelude::*;
use vstd::string::StrSliceExecFns;
use vstd::string::StringSliceAdditionalSpecFns;

use crate::race::RaceInfo;
use crate::render::clear_screen_bytes;
use crate::render::dec_bytes;
use crate::render::hide_cursor_bytes;
use crate::render::move_cursor_to;
use crate::render::move_to_bytes;
use crate::render::push_all;
use crate::render::push_clear_screen;
use crate::render::push_dec;
use crate::render::push_hide_cursor;

verus! {

/// Two decimal digits of a value below one hundred, zero-padded.
pub open spec fn two_dec_bytes(n: nat) -> Seq<u8>
    recommends
        n < 100,
{
    seq![(48 + n / 10) as u8, (48 + n % 10) as u8]
}

/// A count of hundredths rendered as a decimal with exactly two fractional
/// digits.
pub open spec fn hundredths_bytes(h: nat) -> Seq<u8> {
    dec_bytes(h / 100) + seq![46u8] + two_dec_bytes(h % 100)
}

/// Appends a count of hundredths as a decimal with two fractional digits.
fn push_hundredths(buf: &mut Vec<u8>, h: u128)
    ensures
        final(buf)@ == old(buf)@ + hundredths_bytes(h as nat),
{
    push_dec(buf, h / 100);
    buf.push(46);
    buf.push(48 + (h % 100 / 10) as u8);
    buf.push(48 + (h % 10) as u8);
    proof {
        assert(final(buf)@ =~= old(buf)@ + hundredths_bytes(h as nat));
    }
}

/// The marker shown where a statistic is undefined.
pub open spec fn not_applicable_bytes() -> Seq<u8> {
    seq![78u8, 47u8, 65u8]
}

/// The elapsed time in seconds with two fractional digits, suffixed `s`.
pub open spec fn spec_time_text(duration_ms: nat) -> Seq<u8> {
    hundredths_bytes(duration_ms / 10) + seq![115u8]
}

/// Renders the race duration as seconds with two fractional digits.
pub fn time_text(info: &RaceInfo) -> (r: Vec<u8>)
    ensures
        r@ == spec_time_text(info.duration as nat),
{
    let mut r: Vec<u8> = Vec::new();
    push_hundredths(&mut r, info.duration as u128 / 10);
    r.push(115);
    proof {
        assert(r@ =~= spec_time_text(info.duration as nat));
    }
    r
}

/// Words per minute in hundredths: `words / (seconds / 60)`, truncated.
pub open spec fn wpm_hundredths(words: nat, duration_ms: nat) -> nat
    recommends
        duration_ms > 0,
{
    words * 6000000 / duration_ms
}

/// Renders words per minute with two fractional digits, or the undefined
/// marker when the duration is zero.
pub fn wpm_text(info: &RaceInfo) -> (r: Vec<u8>)
    ensures
        info.duration == 0 ==> r@ == not_applicable_bytes(),
        info.duration > 0 ==> r@ == hundredths_bytes(
            wpm_hundredths(info.words as nat, info.duration as nat),
        ),
{
    let mut r: Vec<u8> = Vec::new();
    if info.duration == 0 {
        r.push(78);
        r.push(47);
        r.push(65);
        proof {
            assert(r@ =~= not_applicable_bytes());
        }
    } else {
        let h: u128 = info.words as u128 * 6000000 / (info.duration as u128);
        proof {
            assert(info.words as u128 * 6000000 < u128::MAX) by (nonlinear_arith)
                requires
                    info.words <= usize::MAX,
            ;
            assert(h as nat == wpm_hundredths(info.words as nat, info.duration as nat));
        }
        push_hundredths(&mut r, h);
    }
    r
}

/// Accuracy in hundredths of a percent: `100 × (1 − mistakes/characters)`,
/// truncated.
pub open spec fn accuracy_hundredths(characters: nat, mistakes: nat) -> nat
    recommends
        characters > 0,
        mistakes <= characters,
{
    (((characters - mistakes) * 10000) / (characters as int)) as nat
}

/// Renders accuracy as a percentage with two fractional digits, or the
/// undefined marker when no characters were typed.
pub fn accuracy_text(info: &RaceInfo) -> (r: Vec<u8>)
    requires
        info.mistakes <= info.characters,
    ensures
        info.characters == 0 ==> r@ == not_applicable_bytes(),
        info.characters > 0 ==> r@ == hundredths_bytes(
            accuracy_hundredths(info.characters as nat, info.mistakes as nat),
        ) + seq![37u8],
{
    let mut r: Vec<u8> = Vec::new();
    if info.characters == 0 {
        r.push(78);
        r.push(47);
        r.push(65);
        proof {
            assert(r@ =~= not_applicable_bytes());
        }
    } else {
        let h: u128 = (info.characters - info.mistakes) as u128 * 10000 / (info.characters
            as u128);
        proof {
            assert((info.characters - info.mistakes) as u128 * 10000 < u128::MAX)
                by (nonlinear_arith)
                requires
                    info.mistakes <= info.characters <= usize::MAX,
            ;
            assert(h as nat == accuracy_hundredths(info.characters as nat, info.mistakes as nat));
        }
        push_hundredths(&mut r, h);
        r.push(37);
        proof {
            assert(r@ =~= hundredths_bytes(
                accuracy_hundredths(info.characters as nat, info.mistakes as nat),
            ) + seq![37u8]);
        }
    }
    r
}

/// The column that right-aligns a label of length `l` just left of the
/// screen's middle.
pub open spec fn label_col(w: int, l: int) -> int {
    if w / 2 >= l + 1 {
        w / 2 - l - 1
    } else {
        0
    }
}

/// The first row of the results block: a third of the space left over
/// above the rows.
pub open spec fn results_row0(h: int, n: int) -> int {
    if h >= n {
        (h - n) / 3
    } else {
        0
    }
}

/// The label/value rows from index `i` on, each positioned so the labels
/// end just left of the screen's middle, one row apart.
pub open spec fn rows_bytes(rows: Seq<(Seq<u8>, Seq<u8>)>, w: int, row0: int, i: int) -> Seq<u8>
    decreases rows.len() - i,
{
    if i < 0 || i >= rows.len() {
        Seq::<u8>::empty()
    } else {
        move_to_bytes(label_col(w, rows[i].0.len() as int), row0 + i) + rows[i].0 + seq![32u8]
            + rows[i].1 + rows_bytes(rows, w, row0, i + 1)
    }
}

proof fn lemma_rows_snoc(rows: Seq<(Seq<u8>, Seq<u8>)>, w: int, row0: int, i: int)
    requires
        0 <= i < rows.len(),
    ensures
        rows_bytes(rows.take(i + 1), w, row0, 0) == rows_bytes(rows.take(i), w, row0, 0)
            + move_to_bytes(label_col(w, rows[i].0.len() as int), row0 + i) + rows[i].0
            + seq![32u8] + rows[i].1,
{
    lemma_rows_snoc_rec(rows, w, row0, i, 0);
}

proof fn lemma_rows_snoc_rec(rows: Seq<(Seq<u8>, Seq<u8>)>, w: int, row0: int, i: int, j: int)
    requires
        0 <= j <= i < rows.len(),
    ensures
        rows_bytes(rows.take(i + 1), w, row0, j) == rows_bytes(rows.take(i), w, row0, j)
            + move_to_bytes(label_col(w, rows[i].0.len() as int), row0 + i) + rows[i].0
            + seq![32u8] + rows[i].1,
    decreases i - j,
{
    let a = rows.take(i + 1);
    let b = rows.take(i);
    if j == i {
        assert(rows_bytes(b, w, row0, j) == Seq::<u8>::empty());
        assert(a[j] == rows[i]);
        assert(rows_bytes(a, w, row0, j + 1) == Seq::<u8>::empty());
        assert(rows_bytes(a, w, row0, j) =~= Seq::<u8>::empty() + move_to_bytes(
            label_col(w, rows[i].0.len() as int),
            row0 + i,
        ) + rows[i].0 + seq![32u8] + rows[i].1);
    } else {
        lemma_rows_snoc_rec(rows, w, row0, i, j + 1);
        assert(a[j] == rows[j]);
        assert(b[j] == rows[j]);
        assert(rows_bytes(a, w, row0, j) =~= rows_bytes(b, w, row0, j) + move_to_bytes(
            label_col(w, rows[i].0.len() as int),
            row0 + i,
        ) + rows[i].0 + seq![32u8] + rows[i].1);
    }
}

/// The whole results block: screen cleared, cursor hidden, the rows laid
/// out a third of the way down.
pub open spec fn spec_render_results(rows: Seq<(Seq<u8>, Seq<u8>)>, w: int, h: int) -> Seq<u8> {
    clear_screen_bytes() + hide_cursor_bytes() + rows_bytes(
        rows,
        w,
        results_row0(h, rows.len() as int),
        0,
    )
}

/// Builds the results block for the given label/value rows.
pub fn render_results(res: &Vec<(Vec<u8>, Vec<u8>)>, w: usize, h: usize) -> (r: Vec<u8>)
    requires
        h + res@.len() <= usize::MAX,
    ensures
        r@ == spec_render_results(res.deep_view(), w as int, h as int),
{
    let ghost rows = res.deep_view();
    let n = res.len();
    let row0: usize = if h >= n {
        (h - n) / 3
    } else {
        0
    };
    let mut r: Vec<u8> = Vec::new();
    push_clear_screen(&mut r);
    push_hide_cursor(&mut r);
    let ghost head = r@;
    let mut i: usize = 0;
    proof {
        assert(rows.take(0) =~= Seq::<(Seq<u8>, Seq<u8>)>::empty());
        assert(r@ =~= head + rows_bytes(rows.take(0), w as int, row0 as int, 0));
    }
    while i < n
        invariant
            i <= n,
            n == rows.len(),
            rows == res.deep_view(),
            row0 + n <= usize::MAX,
            r@ == head + rows_bytes(rows.take(i as int), w as int, row0 as int, 0),
        decreases n - i,
    {
        let label: &Vec<u8> = &res[i].0;
        let value: &Vec<u8> = &res[i].1;
        let col: usize = if label.len() < w / 2 {
            w / 2 - label.len() - 1
        } else {
            0
        };
        let m = move_cursor_to(col, row0 + i);
        push_all(&mut r, &m);
        push_all(&mut r, label);
        r.push(32);
        push_all(&mut r, value);
        proof {
            assert(rows[i as int].0 == label@ && rows[i as int].1 == value@);
            assert(col as int == label_col(w as int, rows[i as int].0.len() as int));
            lemma_rows_snoc(rows, w as int, row0 as int, i as int);
            assert(r@ =~= head + rows_bytes(rows.take(i + 1), w as int, row0 as int, 0));
        }
        i = i + 1;
    }
    proof {
        assert(rows.take(n as int) =~= rows);
        assert(r@ =~= spec_render_results(rows, w as int, h as int));
    }
    r
}

/// The key hint shown at the bottom of the summary screen.
pub open spec fn hint_bytes() -> Seq<u8> {
    ("<ESC> to exit   <ENTER> to start new").spec_bytes()
}

/// The label/value rows of the summary screen, derived from the result.
pub open spec fn menu_rows(info: RaceInfo) -> Seq<(Seq<u8>, Seq<u8>)> {
    seq![
        (("Words typed").spec_bytes(), dec_bytes(info.words as nat)),
        (("Letters typed").spec_bytes(), dec_bytes(info.characters as nat)),
        (("Mistakes").spec_bytes(), dec_bytes(info.mistakes as nat)),
        (("Time").spec_bytes(), spec_time_text(info.duration as nat)),
        (
            ("WPM").spec_bytes(),
            if info.duration == 0 {
                not_applicable_bytes()
            } else {
                hundredths_bytes(wpm_hundredths(info.words as nat, info.duration as nat))
            },
        ),
        (
            ("Accuracy").spec_bytes(),
            if info.characters == 0 {
                not_applicable_bytes()
            } else {
                hundredths_bytes(accuracy_hundredths(info.characters as nat, info.mistakes as nat))
                    + seq![37u8]
            },
        ),
    ]
}

/// The whole summary screen: the results block and the key hint centered
/// on the bottom row.
pub open spec fn spec_render_menu(info: RaceInfo, w: int, h: int) -> Seq<u8> {
    spec_render_results(menu_rows(info), w, h) + move_to_bytes(
        if w >= hint_bytes().len() {
            (w - hint_bytes().len() as int) / 2
        } else {
            0
        },
        if h > 0 {
            h - 1
        } else {
            0
        },
    ) + hint_bytes()
}

/// Builds the summary screen for a completed race on a `w` by `h`
/// terminal.
pub fn render_menu(race_result: RaceInfo, w: usize, h: usize) -> (r: Vec<u8>)
    requires
        race_result.mistakes <= race_result.characters,
        h + 6 <= usize::MAX,
    ensures
        r@ == spec_render_menu(race_result, w as int, h as int),
{
    let mut words_v: Vec<u8> = Vec::new();
    push_dec(&mut words_v, race_result.words as u128);
    let mut chars_v: Vec<u8> = Vec::new();
    push_dec(&mut chars_v, race_result.characters as u128);
    let mut mist_v: Vec<u8> = Vec::new();
    push_dec(&mut mist_v, race_result.mistakes as u128);
    let time_v = time_text(&race_result);
    let wpm_v = wpm_text(&race_result);
    let acc_v = accuracy_text(&race_result);
    let mut res: Vec<(Vec<u8>, Vec<u8>)> = Vec::new();
    res.push((("Words typed").as_bytes_vec(), words_v));
    res.push((("Letters typed").as_bytes_vec(), chars_v));
    res.push((("Mistakes").as_bytes_vec(), mist_v));
    res.push((("Time").as_bytes_vec(), time_v));
    res.push((("WPM").as_bytes_vec(), wpm_v));
    res.push((("Accuracy").as_bytes_vec(), acc_v));
    proof {
        let dv = res.deep_view();
        let mr = menu_rows(race_result);
        assert(dv.len() == 6);
        assert(dv[0].0 =~= mr[0].0);
        assert(dv[0].1 =~= mr[0].1);
        assert(dv[1].0 =~= mr[1].0);
        assert(dv[1].1 =~= mr[1].1);
        assert(dv[2].0 =~= mr[2].0);
        assert(dv[2].1 =~= mr[2].1);
        assert(dv[3].0 =~= mr[3].0);
        assert(dv[3].1 =~= mr[3].1);
        assert(dv[4].0 =~= mr[4].0);
        assert(dv[4].1 =~= mr[4].1);
        assert(dv[5].0 =~= mr[5].0);
        assert(dv[5].1 =~= mr[5].1);
        assert(dv =~= mr);
    }
    let mut r = render_results(&res, w, h);
    let hint = ("<ESC> to exit   <ENTER> to start new").as_bytes_vec();
    let col: usize = if w >= hint.len() {
        (w - hint.len()) / 2
    } else {
        0
    };
    let row: usize = if h > 0 {
        h - 1
    } else {
        0
    };
    let m = move_cursor_to(col, row);
    push_all(&mut r, &m);
    push_all(&mut r, &hint);
    proof {
        assert(r@ =~= spec_render_menu(race_result, w as int, h as int));
    }
    r
}

} // verus!
