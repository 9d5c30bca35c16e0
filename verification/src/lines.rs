//! The straight lines of a map image, for the DM to pick a grid from.

use vstd::prelude::*;

verus! {

/// Which way a line runs on the image.
#[derive(Debug, Clone, Copy, PartialEq, Eq, Structural)]
pub enum Way {
    /// Top to bottom. The line stands at one column.
    Down,
    /// Left to right. The line stands at one row.
    Across,
}

} // verus!
