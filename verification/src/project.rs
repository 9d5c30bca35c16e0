//! The project file: everything the DM set up for one campaign.

use vstd::prelude::*;

verus! {

/// Where the TV window opens.
#[derive(Debug, Clone, PartialEq, Eq)]
pub enum TvPlacement {
    /// The first display that is not the DM's.
    Auto,
    /// A normal window on the DM's display.
    Window,
    /// Full screen on the display with this name.
    Display(String),
}

impl Default for TvPlacement {
    /// The first display that is not the DM's.
    fn default() -> (r: TvPlacement)
        ensures
            r is Auto,
    {
        TvPlacement::Auto
    }
}

/// Everything the DM set up for one campaign.
///
/// Every field has a default, so a file from an older version still loads.
#[derive(Debug, Clone, PartialEq, Eq)]
pub struct Project {
    /// Where the TV window opens.
    pub tv_display: TvPlacement,
}

impl Default for Project {
    /// A project that opens the TV on the first display that is not the
    /// DM's.
    fn default() -> (r: Project)
        ensures
            r.tv_display is Auto,
    {
        Project { tv_display: TvPlacement::Auto }
    }
}

} // verus!
