use typinator::race::{
    KeyCode, MenuChoice, Modifiers, Race, RaceError, RaceOutcome, RaceStatus, TermEvent,
    menu_choice,
};

fn typing(c: char) -> TermEvent {
    TermEvent::Key(KeyCode::Char(c), Modifiers::Plain)
}

fn new_race(words: &[&str]) -> Race {
    let words: Vec<String> = words.iter().map(|w| w.to_string()).collect();
    Race::new(words, 100, 50)
}

#[test]
fn test_iter() {
    let to_type = vec!["hello".to_string(), "world".to_string(), "!".to_string()];
    let iter = typinator::char_iter_from_to_type(&to_type);

    assert_eq!(iter[0], 'h');
    assert_eq!(iter[1], 'e');
    assert_eq!(iter[2], 'l');
    assert_eq!(iter[3], 'l');
    assert_eq!(iter[4], 'o');
    assert_eq!(iter[5], ' ');
    assert_eq!(iter[6], 'w');
    assert_eq!(iter[7], 'o');
    assert_eq!(iter[8], 'r');
    assert_eq!(iter[9], 'l');
    assert_eq!(iter[10], 'd');
    assert_eq!(iter[11], ' ');
    assert_eq!(iter[12], '!');
    assert_eq!(iter.len(), 13);
}

#[test]
fn typing_exactly_completes_without_mistakes() {
    let mut race = new_race(&["ab", "c"]);
    for c in ['a', 'b', ' '] {
        let (_, outcome) = race.handle_event(typing(c), 0);
        assert!(!matches!(outcome, RaceOutcome::Finished(_)));
    }
    let (_, outcome) = race.handle_event(typing('c'), 1234);
    match outcome {
        RaceOutcome::Finished(info) => {
            assert_eq!(info.words, 2);
            assert_eq!(info.characters, 4);
            assert_eq!(info.mistakes, 0);
            assert_eq!(info.duration, 1234);
        }
        other => panic!("expected completion, got {:?}", other),
    }
    assert!(matches!(race.status, RaceStatus::Completed));
}

#[test]
fn one_initial_mismatch_counts_one_mistake() {
    let mut race = new_race(&["ab", "c"]);
    for c in ['x', 'b', ' '] {
        let (_, outcome) = race.handle_event(typing(c), 0);
        assert!(!matches!(outcome, RaceOutcome::Finished(_)));
    }
    let (_, outcome) = race.handle_event(typing('c'), 0);
    match outcome {
        RaceOutcome::Finished(info) => {
            assert_eq!(info.mistakes, 1);
            assert_eq!(info.characters, 4);
        }
        other => panic!("expected completion, got {:?}", other),
    }
}

#[test]
fn completion_comes_exactly_at_total_count() {
    // total expected characters: 2 + 1 + 2 + 1 + 2 = 8
    let mut race = new_race(&["aa", "bb", "cc"]);
    for i in 0..7 {
        let (_, outcome) = race.handle_event(typing('a'), 0);
        assert!(
            !matches!(outcome, RaceOutcome::Finished(_)),
            "finished early at keystroke {}",
            i
        );
    }
    let (_, outcome) = race.handle_event(typing('a'), 0);
    assert!(matches!(outcome, RaceOutcome::Finished(_)));
}

#[test]
fn mistakes_never_decrease_and_never_exceed_typed() {
    let mut race = new_race(&["abcd"]);
    let mut last = 0;
    let keys = ['x', 'b', 'x', 'd'];
    for (i, c) in keys.iter().enumerate() {
        race.handle_event(typing(*c), 0);
        assert!(race.mistakes >= last);
        assert!(race.mistakes <= i + 1);
        last = race.mistakes;
    }
    assert_eq!(race.mistakes, 2);
}

#[test]
fn escape_aborts_immediately() {
    let mut race = new_race(&["ab"]);
    race.handle_event(typing('a'), 0);
    let (bytes, outcome) = race.handle_event(TermEvent::Key(KeyCode::Esc, Modifiers::Plain), 0);
    assert!(bytes.is_empty());
    assert_eq!(outcome, RaceOutcome::Ended(RaceError::Aborted));
    assert!(matches!(race.status, RaceStatus::Aborted));
}

#[test]
fn control_r_requests_restart() {
    let mut race = new_race(&["ab"]);
    let (bytes, outcome) =
        race.handle_event(TermEvent::Key(KeyCode::Char('r'), Modifiers::Control), 0);
    assert!(bytes.is_empty());
    assert_eq!(outcome, RaceOutcome::Ended(RaceError::Restart));
    assert!(matches!(race.status, RaceStatus::RestartRequested));
}

#[test]
fn first_keystroke_starts_the_clock() {
    let mut race = new_race(&["abc"]);
    let (_, outcome) = race.handle_event(typing('a'), 0);
    assert_eq!(outcome, RaceOutcome::ClockStarted);
    let (_, outcome) = race.handle_event(typing('b'), 17);
    assert_eq!(outcome, RaceOutcome::Continue);
}

#[test]
fn other_events_are_ignored() {
    let mut race = new_race(&["ab"]);
    for ev in [
        TermEvent::Key(KeyCode::Enter, Modifiers::Plain),
        TermEvent::Key(KeyCode::Other, Modifiers::Plain),
        TermEvent::Key(KeyCode::Char('x'), Modifiers::Control),
        TermEvent::Key(KeyCode::Char('x'), Modifiers::Other),
        TermEvent::ReadError,
        TermEvent::Other,
    ] {
        let (bytes, outcome) = race.handle_event(ev, 0);
        assert!(bytes.is_empty());
        assert_eq!(outcome, RaceOutcome::Continue);
        assert!(matches!(race.status, RaceStatus::NotStarted));
        assert_eq!(race.typed.len(), 0);
    }
}

#[test]
fn timer_tick_repaints_only_the_readout() {
    let mut race = new_race(&["ab"]);
    let (bytes, outcome) = race.handle_event(TermEvent::Timer, 2500);
    assert_eq!(outcome, RaceOutcome::Continue);
    // the readout text 2.50 appears in the emitted bytes
    let needle = b"2.50";
    assert!(bytes.windows(needle.len()).any(|w| w == needle));
    assert!(matches!(race.status, RaceStatus::NotStarted));
}

#[test]
fn resize_preserves_progress() {
    let mut race = new_race(&["aa", "bb", "cc"]);
    for c in ['a', 'a', ' ', 'b'] {
        race.handle_event(typing(c), 0);
    }
    let mistakes_before = race.mistakes;
    let (bytes, outcome) = race.handle_event(TermEvent::Resize(40, 12), 0);
    assert_eq!(outcome, RaceOutcome::Continue);
    assert!(bytes.starts_with(b"\x1b[2J"));
    assert_eq!(race.typed.len(), 4);
    assert_eq!(race.mistakes, mistakes_before);
    // the race still completes at the same total after the relayout
    for _ in 0..3 {
        let (_, outcome) = race.handle_event(typing('z'), 0);
        assert!(!matches!(outcome, RaceOutcome::Finished(_)));
    }
    let (_, outcome) = race.handle_event(typing('c'), 0);
    assert!(matches!(outcome, RaceOutcome::Finished(_)));
}

#[test]
fn correct_keystroke_bytes_recolor_one_char() {
    let mut race = new_race(&["ab"]);
    let (bytes, _) = race.handle_event(typing('a'), 0);
    // bold bright white style, the char itself, a color reset, a cursor move
    let mut expected = b"\x1b[1;97ma\x1b[0m".to_vec();
    // text field: width 80 of 100 -> left 10; height 25 of 50 -> top 13;
    // cursor advanced to column 1 -> 1-based cell (14, 12)
    expected.extend_from_slice(b"\x1b[14;12H");
    assert_eq!(bytes, expected);
}

#[test]
fn wrong_keystroke_bytes_use_mistake_style() {
    let mut race = new_race(&["ab"]);
    let (bytes, _) = race.handle_event(typing('z'), 0);
    assert!(bytes.starts_with(b"\x1b[1;97;48;2;96;16;16ma\x1b[0m"));
}

#[test]
fn sampled_words_come_from_the_pool() {
    let pool: Vec<String> = vec!["one".to_string(), "two".to_string(), "three".to_string()];
    let picked = typinator::sample_words(&pool, 30);
    assert_eq!(picked.len(), 30);
    for w in &picked {
        assert!(pool.contains(w));
    }
}

#[test]
fn typing_past_the_field_midpoint_scrolls() {
    // field: width 8 of 10, height 4 of 8; twelve words wrap into six
    // lines of "aaa aaa" (length 7), eight characters per line with the
    // separator
    let mut race = new_race(&["aaa"; 12]);
    race.handle_event(TermEvent::Resize(10, 8), 0);
    assert_eq!(race.renderer.layout.line_lens, vec![7; 6]);
    // crossing the end of line 2 puts the cursor past the field midpoint
    // with lines below: the scroll offset advances instead of the line
    for _ in 0..24 {
        race.handle_event(typing('a'), 0);
    }
    assert_eq!(race.renderer.cursor.scroll, 1);
    assert_eq!(race.renderer.cursor.line, 2);
    assert_eq!(race.renderer.cursor.col, 0);
    // before the midpoint the line advanced and the scroll stayed put
    let mut race2 = new_race(&["aaa"; 12]);
    race2.handle_event(TermEvent::Resize(10, 8), 0);
    for _ in 0..8 {
        race2.handle_event(typing('a'), 0);
    }
    assert_eq!(race2.renderer.cursor.scroll, 0);
    assert_eq!(race2.renderer.cursor.line, 1);
}

#[test]
fn menu_waits_until_escape_or_enter() {
    assert_eq!(
        menu_choice(TermEvent::Key(KeyCode::Esc, Modifiers::Plain)),
        MenuChoice::Leave
    );
    assert_eq!(
        menu_choice(TermEvent::Key(KeyCode::Enter, Modifiers::Plain)),
        MenuChoice::PlayAgain
    );
    assert_eq!(
        menu_choice(TermEvent::Key(KeyCode::Char('q'), Modifiers::Plain)),
        MenuChoice::Wait
    );
    assert_eq!(menu_choice(TermEvent::Timer), MenuChoice::Wait);
}
