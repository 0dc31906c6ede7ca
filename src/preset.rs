use vstd::prelude::*;

verus! {

/// A display layout that can be applied to the game's configuration file
/// before launch.
#[derive(Clone, Copy, Debug, PartialEq, Eq, Structural)]
pub enum Preset {
    FullscreenRight,
    WindowedRight,
    WindowedLeft,
    Unchanged,
}

/// The value written after `ScreenLeft` for a preset, as text.
pub open spec fn screen_left_spec(p: Preset) -> Seq<u8> {
    match p {
        Preset::WindowedLeft => seq![52u8, 50, 57, 52, 57, 54, 53, 51, 55, 54],
        _ => seq![48u8],
    }
}

/// The value written after `ScreenMode` for a preset, as text.
pub open spec fn screen_mode_spec(p: Preset) -> Seq<u8> {
    match p {
        Preset::FullscreenRight => seq![50u8],
        _ => seq![48u8],
    }
}

impl Preset {
    /// The `ScreenLeft` value of this preset; `4294965376` is −2048 read as
    /// an unsigned 32-bit number and is kept as text.
    pub fn screen_left(&self) -> (r: Vec<u8>)
        ensures
            r@ == screen_left_spec(*self),
    {
        match self {
            Preset::WindowedLeft => vec![52u8, 50, 57, 52, 57, 54, 53, 51, 55, 54],
            _ => vec![48u8],
        }
    }

    /// The `ScreenMode` value of this preset.
    pub fn screen_mode(&self) -> (r: Vec<u8>)
        ensures
            r@ == screen_mode_spec(*self),
    {
        match self {
            Preset::FullscreenRight => vec![50u8],
            _ => vec![48u8],
        }
    }
}

} // verus!
