//! The shape of the cells of the grid.

use vstd::prelude::*;

verus! {

/// What shape the cells of the grid are.
#[derive(Debug, Clone, Copy, PartialEq, Eq, Structural)]
pub enum Kind {
    /// Squares. The grid every battle map is drawn on.
    Square,
    /// Hexes with a corner at the top, in rows that run across.
    HexPointyTop,
    /// Hexes with a flat edge at the top, in columns that run down.
    HexFlatTop,
    /// No lines at all. The snap goes with them.
    Blank,
}

impl Default for Kind {
    /// Squares, the grid a first run draws.
    fn default() -> (r: Kind)
        ensures
            r == Kind::Square,
    {
        Kind::Square
    }
}

impl Kind {
    /// Whether this kind holds cells the snap can reach.
    pub fn snaps(self) -> (r: bool)
        ensures
            r == !(self is Blank),
    {
        !matches!(self, Kind::Blank)
    }

    /// Whether the cells are hexes.
    pub fn is_hex(self) -> (r: bool)
        ensures
            r == (self is HexPointyTop || self is HexFlatTop),
    {
        matches!(self, Kind::HexPointyTop | Kind::HexFlatTop)
    }
}

} // verus!
