use ff14_config_update::preset::Preset;
use ff14_config_update::selection::{selection_from_input, selection_from_trimmed, Selection};
use ff14_config_update::session::{needs_saving, next_stage, Event, Settings, Stage};

#[test]
fn empty_choice_keeps_prior_settings() {
    assert_eq!(selection_from_input("\n"), Selection::Chosen(Preset::Unchanged));
    assert_eq!(selection_from_input("   \r\n"), Selection::Chosen(Preset::Unchanged));
    assert_eq!(selection_from_trimmed(""), Selection::Chosen(Preset::Unchanged));
}

#[test]
fn menu_numbers_pick_presets() {
    assert_eq!(selection_from_input("0\n"), Selection::Chosen(Preset::FullscreenRight));
    assert_eq!(selection_from_input("  1 \n"), Selection::Chosen(Preset::WindowedRight));
    assert_eq!(selection_from_input("2"), Selection::Chosen(Preset::WindowedLeft));
    assert_eq!(selection_from_trimmed("+2"), Selection::Chosen(Preset::WindowedLeft));
    assert_eq!(selection_from_trimmed("-0"), Selection::Chosen(Preset::FullscreenRight));
    assert_eq!(selection_from_trimmed("0001"), Selection::Chosen(Preset::WindowedRight));
}

#[test]
fn other_answers_ask_again() {
    for a in ["7", "-1", "3", "12", "x", "1a", "+", "-", "1 2", "99999999999999999999"] {
        assert_eq!(selection_from_trimmed(a), Selection::AskAgain, "{}", a);
    }
    assert_eq!(selection_from_trimmed(" 1"), Selection::AskAgain);
}

fn settings(c: &str, e: &str) -> Settings {
    Settings { config_path: c.to_string(), exe_path: e.to_string() }
}

#[test]
fn settings_saved_only_when_changed() {
    assert!(!needs_saving(&settings("a", "b"), &settings("a", "b")));
    assert!(needs_saving(&settings("a", "b"), &settings("a", "c")));
    assert!(needs_saving(&settings("a", "b"), &settings("x", "b")));
    let d = Settings::default();
    assert_eq!(d.config_path, "");
    assert_eq!(d.exe_path, "");
}

#[test]
fn launch_waits_for_rewrite() {
    let s = next_stage(Stage::ChoosePreset, Event::PresetChosen(Preset::WindowedLeft));
    assert_eq!(s, Some(Stage::Rewrite(Preset::WindowedLeft)));
    assert_eq!(next_stage(Stage::Rewrite(Preset::WindowedLeft), Event::Launched), None);
    assert_eq!(next_stage(Stage::Rewrite(Preset::WindowedLeft), Event::RewriteDone), Some(Stage::Launch));
    assert_eq!(next_stage(Stage::Launch, Event::Launched), Some(Stage::Finished));
    assert_eq!(next_stage(Stage::Finished, Event::Launched), None);
}

#[test]
fn unchanged_preset_goes_straight_to_launch() {
    assert_eq!(
        next_stage(Stage::ChoosePreset, Event::PresetChosen(Preset::Unchanged)),
        Some(Stage::Launch)
    );
    assert_eq!(next_stage(Stage::ChoosePreset, Event::RewriteDone), None);
}
