use ff14_config_update::line::{update_line, MissingValue};
use ff14_config_update::preset::Preset;
use ff14_config_update::rewrite::{rewrite_config, rewrite_line};

fn apply(text: &str, p: Preset) -> String {
    String::from_utf8(rewrite_config(text.as_bytes(), p).unwrap()).unwrap()
}

#[test]
fn fullscreen_right_on_minimal_file() {
    assert_eq!(
        apply("ScreenLeft 0\nScreenMode 0\nOther 1\n", Preset::FullscreenRight),
        "ScreenLeft 0\nScreenMode 2\nOther 1\n"
    );
}

#[test]
fn windowed_left_rewrites_both_keys() {
    assert_eq!(
        apply("ScreenLeft 0\nScreenMode 2\n", Preset::WindowedLeft),
        "ScreenLeft 4294965376\nScreenMode 0\n"
    );
}

#[test]
fn unrelated_line_untouched() {
    assert_eq!(
        apply("ScreenWidth 1920\nScreenLeft 17\nScreenMode 0\n", Preset::WindowedRight),
        "ScreenWidth 1920\nScreenLeft 0\nScreenMode 0\n"
    );
}

#[test]
fn two_occurrences_of_same_key() {
    assert_eq!(
        apply("ScreenLeft 0\nScreenLeft 1\n", Preset::WindowedLeft),
        "ScreenLeft 4294965376\nScreenLeft 4294965376\n"
    );
}

#[test]
fn unchanged_preset_keeps_text() {
    let text = "ScreenLeft 5\nScreenMode 9\n";
    assert_eq!(apply(text, Preset::Unchanged), text);
}

#[test]
fn spacing_and_trailing_text_kept() {
    assert_eq!(
        apply("\u{feff}Top\r\n  ScreenLeft 3\nScreenLeft\t\t7  # note\r\n\nScreenMode   1\r", Preset::FullscreenRight),
        "\u{feff}Top\r\n  ScreenLeft 3\nScreenLeft\t\t0  # note\r\n\nScreenMode   2\r"
    );
}

#[test]
fn last_line_without_line_feed() {
    assert_eq!(apply("A 1\nScreenMode 0", Preset::FullscreenRight), "A 1\nScreenMode 2");
}

#[test]
fn empty_text_stays_empty() {
    assert_eq!(apply("", Preset::WindowedLeft), "");
}

#[test]
fn key_prefix_matches_longer_token() {
    assert_eq!(
        apply("ScreenLeftOffset 5\nXScreenLeft 5\n", Preset::WindowedLeft),
        "ScreenLeftOffset 4294965376\nXScreenLeft 5\n"
    );
}

#[test]
fn rewriting_twice_gives_the_same_text() {
    let text = "ScreenWidth 1920\nScreenLeft 17\nScreenMode 0\nScreenLeft  3 \n";
    for p in [Preset::FullscreenRight, Preset::WindowedRight, Preset::WindowedLeft] {
        let once = rewrite_config(text.as_bytes(), p).unwrap();
        let twice = rewrite_config(&once, p).unwrap();
        assert_eq!(once, twice);
    }
}

#[test]
fn same_input_same_output() {
    let text = "ScreenLeft 1\nScreenMode 1\n";
    assert_eq!(apply(text, Preset::WindowedLeft), apply(text, Preset::WindowedLeft));
}

#[test]
fn candidate_without_value_fails() {
    assert_eq!(rewrite_config(b"Other 1\nScreenMode\n", Preset::WindowedRight), Err(MissingValue));
    assert_eq!(rewrite_config(b"ScreenLeft   \n", Preset::WindowedRight), Err(MissingValue));
}

#[test]
fn update_line_replaces_first_occurrence_of_value() {
    assert_eq!(update_line(b"ScreenLeft0 0", b"4294965376"), Ok(b"ScreenLeft4294965376 0".to_vec()));
    assert_eq!(update_line(b"Key  12  tail", b"7"), Ok(b"Key  7  tail".to_vec()));
    assert_eq!(update_line(b"Key", b"7"), Err(MissingValue));
    assert_eq!(update_line(b"", b"7"), Err(MissingValue));
}

#[test]
fn update_line_with_equal_value_is_no_op() {
    assert_eq!(update_line(b"ScreenMode 2", b"2"), Ok(b"ScreenMode 2".to_vec()));
}

#[test]
fn rewrite_line_picks_the_key() {
    assert_eq!(rewrite_line(b"ScreenMode 1", Preset::FullscreenRight), Ok(b"ScreenMode 2".to_vec()));
    assert_eq!(rewrite_line(b"ScreenLeft 1", Preset::FullscreenRight), Ok(b"ScreenLeft 0".to_vec()));
    assert_eq!(rewrite_line(b"ScreenModes", Preset::FullscreenRight), Err(MissingValue));
    assert_eq!(rewrite_line(b"Screen 1", Preset::FullscreenRight), Ok(b"Screen 1".to_vec()));
}

#[test]
fn preset_values() {
    assert_eq!(Preset::FullscreenRight.screen_left(), b"0".to_vec());
    assert_eq!(Preset::FullscreenRight.screen_mode(), b"2".to_vec());
    assert_eq!(Preset::WindowedRight.screen_left(), b"0".to_vec());
    assert_eq!(Preset::WindowedRight.screen_mode(), b"0".to_vec());
    assert_eq!(Preset::WindowedLeft.screen_left(), b"4294965376".to_vec());
    assert_eq!(Preset::WindowedLeft.screen_mode(), b"0".to_vec());
}
