//! Prepares the game's configuration file for a display preset before
//! launch: the `ScreenLeft` and `ScreenMode` lines take the preset's values
//! and every other byte of the file stays where it was.
pub mod line;
pub mod line_facts;
pub mod preset;
pub mod rewrite;
pub mod rewrite_facts;
pub mod selection;
pub mod session;
