//! Which theme the window draws.

use vstd::prelude::*;

verus! {

/// Which theme the window draws.
#[derive(Debug, Clone, Copy, PartialEq, Eq, Structural)]
pub enum Mode {
    /// Cream surfaces, dark brown ink, vermilion accent.
    Light,
    /// Near-black surfaces, warm grey text, amber accent.
    Dark,
}

impl Default for Mode {
    /// The light theme, which a first run draws.
    fn default() -> (r: Mode)
        ensures
            r == Mode::Light,
    {
        Mode::Light
    }
}

/// The name of a theme.
pub open spec fn mode_label(mode: Mode) -> Seq<char> {
    match mode {
        Mode::Light => "Light"@,
        Mode::Dark => "Dark"@,
    }
}

impl Mode {
    /// The name of the theme, for a segmented control.
    pub fn label(self) -> (r: &'static str)
        ensures
            r@ == mode_label(self),
    {
        match self {
            Mode::Light => "Light",
            Mode::Dark => "Dark",
        }
    }
}

} // verus!
