use typinator::cursor::{char_under, locate, reconstruct};
use typinator::layout::TextLayout;

fn words(ws: &[&str]) -> Vec<String> {
    ws.iter().map(|w| w.to_string()).collect()
}

#[test]
fn two_words_fit_on_one_line() {
    let layout = TextLayout::compute(&words(&["ab", "c"]), 80);
    assert_eq!(layout.line_lens, vec![4]);
    assert_eq!(layout.line_words, vec![2]);
}

#[test]
fn greedy_wrap_breaks_before_the_budget() {
    // "aa bb" needs 5 columns; under a budget of 5 the join 2+2+1 >= 5 breaks
    let layout = TextLayout::compute(&words(&["aa", "bb", "cc"]), 5);
    assert_eq!(layout.line_lens, vec![2, 2, 2]);
    assert_eq!(layout.line_words, vec![1, 1, 1]);
    let layout = TextLayout::compute(&words(&["aa", "bb", "cc"]), 6);
    assert_eq!(layout.line_lens, vec![5, 2]);
    assert_eq!(layout.line_words, vec![2, 1]);
}

#[test]
fn no_line_exceeds_the_budget_and_words_are_conserved() {
    let ws = words(&["alpha", "be", "gamma", "x", "delta", "epsilon", "mu"]);
    let layout = TextLayout::compute(&ws, 10);
    for l in &layout.line_lens {
        assert!(*l <= 10);
    }
    let total: usize = layout.line_words.iter().sum();
    assert_eq!(total, ws.len());
}

#[test]
fn an_overlong_word_still_gets_a_line() {
    let layout = TextLayout::compute(&words(&["abcdef"]), 4);
    assert_eq!(layout.line_lens, vec![6]);
    assert_eq!(layout.line_words, vec![1]);
}

#[test]
fn locate_round_trips_every_typed_count() {
    let ws = words(&["aa", "bb", "cc"]);
    let layout = TextLayout::compute(&ws, 6);
    // lines: "aa bb" (5) and "cc" (2); total = 5 + 1 + 2 = 8
    for t in 0..=8usize {
        let (line, col) = locate(&layout, t);
        assert_eq!(reconstruct(&layout, line, col), t, "round trip failed at {}", t);
        assert!(col <= layout.line_lens[line]);
    }
}

#[test]
fn locate_walks_line_by_line() {
    let ws = words(&["aa", "bb", "cc"]);
    let layout = TextLayout::compute(&ws, 6);
    assert_eq!(locate(&layout, 0), (0, 0));
    assert_eq!(locate(&layout, 5), (0, 5));
    assert_eq!(locate(&layout, 6), (1, 0));
    assert_eq!(locate(&layout, 8), (1, 2));
}

#[test]
fn char_under_recovers_the_expected_character() {
    let ws = words(&["ab", "c"]);
    let layout = TextLayout::compute(&ws, 4);
    // lines: "ab" and "c"
    assert_eq!(char_under(&layout, &ws, 0, 0), Some('a'));
    assert_eq!(char_under(&layout, &ws, 0, 1), Some('b'));
    assert_eq!(char_under(&layout, &ws, 0, 2), None);
    assert_eq!(char_under(&layout, &ws, 1, 0), Some('c'));
    assert_eq!(char_under(&layout, &ws, 1, 1), None);
}

#[test]
fn relayout_is_deterministic() {
    let ws = words(&["some", "words", "to", "wrap"]);
    let a = TextLayout::compute(&ws, 9);
    let b = TextLayout::compute(&ws, 9);
    assert_eq!(a.line_lens, b.line_lens);
    assert_eq!(a.line_words, b.line_words);
}
