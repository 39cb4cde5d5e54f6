use typinator::race::RaceInfo;
use typinator::render::menu::{accuracy_text, render_menu, time_text, wpm_text};
use typinator::render::{move_cursor_to, move_cursor_to_col, push_char, push_dec};

fn info(words: usize, characters: usize, duration: u64, mistakes: usize) -> RaceInfo {
    RaceInfo { words, characters, duration, mistakes }
}

#[test]
fn wpm_for_thirty_words_in_a_minute_is_thirty() {
    assert_eq!(wpm_text(&info(30, 100, 60000, 0)), b"30.00".to_vec());
}

#[test]
fn wpm_for_zero_duration_is_not_applicable() {
    assert_eq!(wpm_text(&info(30, 100, 0, 0)), b"N/A".to_vec());
}

#[test]
fn accuracy_for_no_characters_is_not_applicable() {
    assert_eq!(accuracy_text(&info(30, 0, 60000, 0)), b"N/A".to_vec());
}

#[test]
fn accuracy_for_five_mistakes_in_a_hundred() {
    assert_eq!(accuracy_text(&info(30, 100, 60000, 5)), b"95.00%".to_vec());
}

#[test]
fn time_shows_seconds_with_two_decimals() {
    assert_eq!(time_text(&info(0, 0, 60000, 0)), b"60.00s".to_vec());
    assert_eq!(time_text(&info(0, 0, 2570, 0)), b"2.57s".to_vec());
}

#[test]
fn menu_holds_all_six_stats() {
    let bytes = render_menu(info(30, 100, 60000, 5), 120, 40);
    for needle in [
        &b"Words typed 30"[..],
        b"Letters typed 100",
        b"Mistakes 5",
        b"Time 60.00s",
        b"WPM 30.00",
        b"Accuracy 95.00%",
        b"<ESC> to exit   <ENTER> to start new",
    ] {
        assert!(
            bytes.windows(needle.len()).any(|w| w == needle),
            "missing {:?}",
            String::from_utf8_lossy(needle)
        );
    }
    assert!(bytes.starts_with(b"\x1b[2J\x1b[?25l"));
}

#[test]
fn cursor_moves_are_one_based() {
    assert_eq!(move_cursor_to(0, 0), b"\x1b[1;1H".to_vec());
    assert_eq!(move_cursor_to(4, 9), b"\x1b[10;5H".to_vec());
    assert_eq!(move_cursor_to_col(7), b"\x1b[8G".to_vec());
}

#[test]
fn decimals_render_most_significant_first() {
    let mut v = Vec::new();
    push_dec(&mut v, 0);
    push_dec(&mut v, 1234567890);
    assert_eq!(v, b"01234567890".to_vec());
}

#[test]
fn chars_encode_as_utf8() {
    let mut v = Vec::new();
    push_char(&mut v, 'a');
    assert_eq!(v, vec![0x61]);
    v.clear();
    push_char(&mut v, '\u{e9}');
    assert_eq!(v, vec![0xC3, 0xA9]);
    v.clear();
    push_char(&mut v, '\u{20ac}');
    assert_eq!(v, vec![0xE2, 0x82, 0xAC]);
    v.clear();
    push_char(&mut v, '\u{1d11e}');
    assert_eq!(v, vec![0xF0, 0x9D, 0x84, 0x9E]);
}
