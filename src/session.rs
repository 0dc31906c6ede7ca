use vstd::prelude::*;
use crate::preset::Preset;

verus! {

/// The helper's own settings: where the game's configuration file and its
/// launcher are.
#[derive(Debug)]
pub struct Settings {
    pub config_path: String,
    pub exe_path: String,
}

impl Default for Settings {
    /// The empty record used when no settings could be loaded.
    fn default() -> (r: Settings)
        ensures
            r.config_path@.len() == 0,
            r.exe_path@.len() == 0,
    {
        Settings { config_path: String::new(), exe_path: String::new() }
    }
}

/// Whether validation changed a field, so that the settings are saved again.
pub open spec fn needs_saving_spec(loaded: Settings, validated: Settings) -> bool {
    loaded.config_path@ != validated.config_path@ || loaded.exe_path@ != validated.exe_path@
}

/// Whether the validated settings differ from those loaded, in which case
/// they are written back.
pub fn needs_saving(loaded: &Settings, validated: &Settings) -> (r: bool)
    ensures
        r == needs_saving_spec(*loaded, *validated),
{
    loaded.config_path != validated.config_path || loaded.exe_path != validated.exe_path
}

/// Where a launch stands.
#[derive(Clone, Copy, Debug, PartialEq, Eq, Structural)]
pub enum Stage {
    /// Waiting for the user's preset.
    ChoosePreset,
    /// The configuration file is being rewritten for this preset.
    Rewrite(Preset),
    /// The game is to be started.
    Launch,
    /// The game was started.
    Finished,
}

/// What happened during a stage.
#[derive(Clone, Copy, Debug, PartialEq, Eq, Structural)]
pub enum Event {
    /// The user picked a preset.
    PresetChosen(Preset),
    /// The configuration file was written in full and closed.
    RewriteDone,
    /// The game process was spawned.
    Launched,
}

/// The stage after `event` in `stage`; `None` where the event cannot happen
/// there.
pub open spec fn next_stage_spec(stage: Stage, event: Event) -> Option<Stage> {
    match (stage, event) {
        (Stage::ChoosePreset, Event::PresetChosen(p)) => if p == Preset::Unchanged {
            Some(Stage::Launch)
        } else {
            Some(Stage::Rewrite(p))
        },
        (Stage::Rewrite(_), Event::RewriteDone) => Some(Stage::Launch),
        (Stage::Launch, Event::Launched) => Some(Stage::Finished),
        _ => None,
    }
}

/// Moves a launch on: a chosen preset other than `Unchanged` leads to the
/// rewrite, and only a finished rewrite (or no preset) leads to the launch.
pub fn next_stage(stage: Stage, event: Event) -> (r: Option<Stage>)
    ensures
        r == next_stage_spec(stage, event),
{
    match (stage, event) {
        (Stage::ChoosePreset, Event::PresetChosen(p)) => if p == Preset::Unchanged {
            Some(Stage::Launch)
        } else {
            Some(Stage::Rewrite(p))
        },
        (Stage::Rewrite(_), Event::RewriteDone) => Some(Stage::Launch),
        (Stage::Launch, Event::Launched) => Some(Stage::Finished),
        _ => None,
    }
}

/// The stage reached from `stage` after `events`, if each could happen.
pub open spec fn run_stages(stage: Stage, events: Seq<Event>) -> Option<Stage>
    decreases events.len(),
{
    if events.len() == 0 {
        Some(stage)
    } else {
        match next_stage_spec(stage, events[0]) {
            Some(s) => run_stages(s, events.drop_first()),
            None => None,
        }
    }
}

/// The game is started only after the configuration file was written: in
/// every run from the preset prompt that reaches the launch with a preset
/// other than `Unchanged`, the rewrite finished before.
pub proof fn lemma_launch_after_rewrite(events: Seq<Event>, p: Preset)
    requires
        events.len() > 0,
        events[0] == Event::PresetChosen(p),
        p != Preset::Unchanged,
        run_stages(Stage::ChoosePreset, events) == Some(Stage::Launch)
            || run_stages(Stage::ChoosePreset, events) == Some(Stage::Finished),
    ensures
        events.len() >= 2,
        events[1] == Event::RewriteDone,
{
    let rest = events.drop_first();
    assert(run_stages(Stage::ChoosePreset, events) == run_stages(Stage::Rewrite(p), rest));
    if rest.len() == 0 {
        assert(run_stages(Stage::Rewrite(p), rest) == Some(Stage::Rewrite(p)));
    } else if rest[0] != Event::RewriteDone {
        assert(next_stage_spec(Stage::Rewrite(p), rest[0]) is None);
    }
}

} // verus!
