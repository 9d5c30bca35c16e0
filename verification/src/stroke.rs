//! What the DM draws with, and how a ruler counts.

use vstd::prelude::*;

use crate::catalog;
use crate::grid::Kind;

verus! {

/// What the DM drew a stroke with. It says how the points read.
#[derive(Debug, Clone, Copy, PartialEq, Eq, Structural)]
pub enum Ink {
    /// A free line through every point.
    Pen,
    /// A straight line from the first point to the last.
    Line,
    /// A box between two corners.
    Rect,
    /// The ellipse that fills the box between two corners.
    Ellipse,
    /// A measure the DM kept, which reads as a bent line with its length.
    Measure,
    /// A round area of effect, from its middle to its edge.
    Burst,
    /// A cone of effect, from its point out to where it ends.
    Cone,
    /// A straight run of effect, one cell wide unless the DM widened it.
    Beam,
}

/// The glyphs the objects list and the Draw panel give a kind of stroke.
#[derive(Debug, Clone, Copy, PartialEq, Eq, Structural)]
pub enum Icon {
    Pencil,
    Minus,
    Square,
    Circle,
    Ruler,
    Triangle,
}

/// Whether an ink fills the shape it draws, as an effect does.
pub open spec fn fills(ink: Ink) -> bool {
    ink is Burst || ink is Cone || ink is Beam
}

/// What the objects list and the history call a kind of stroke.
pub open spec fn ink_name(ink: Ink) -> Seq<char> {
    match ink {
        Ink::Pen => "Pen"@,
        Ink::Line => "Line"@,
        Ink::Rect => "Box"@,
        Ink::Ellipse => "Ellipse"@,
        Ink::Measure => "Measure"@,
        Ink::Burst => "Burst"@,
        Ink::Cone => "Cone"@,
        Ink::Beam => "Beam"@,
    }
}

/// The glyph of a kind of stroke.
pub open spec fn ink_glyph(ink: Ink) -> Icon {
    match ink {
        Ink::Pen => Icon::Pencil,
        Ink::Line | Ink::Beam => Icon::Minus,
        Ink::Rect => Icon::Square,
        Ink::Ellipse | Ink::Burst => Icon::Circle,
        Ink::Measure => Icon::Ruler,
        Ink::Cone => Icon::Triangle,
    }
}

impl Ink {
    /// Whether the DM sets the width of this ink with a second drag.
    ///
    /// A burst and a cone have one number each, their radius and their
    /// length, and one drag gives it. A beam has a length and a width, so
    /// it takes a drag for the one and a drag for the other.
    pub fn spans(self) -> (r: bool)
        ensures
            r == (self is Beam),
    {
        matches!(self, Ink::Beam)
    }

    /// Whether the eraser takes this ink whole instead of cutting it.
    ///
    /// An area of effect and a kept measure each stand for one thing, so
    /// the eraser takes the whole of it. A pen or a shape is paint, and
    /// paint comes off in parts.
    pub fn whole(self) -> (r: bool)
        ensures
            r == (fills(self) || self is Measure),
    {
        self.filled() || matches!(self, Ink::Measure)
    }

    /// Whether this ink fills the shape it draws, as an effect does.
    pub fn filled(self) -> (r: bool)
        ensures
            r == fills(self),
    {
        matches!(self, Ink::Burst | Ink::Cone | Ink::Beam)
    }

    /// The glyph the objects list and the Draw panel give this kind.
    pub fn glyph(self) -> (r: Icon)
        ensures
            r == ink_glyph(self),
    {
        match self {
            Ink::Pen => Icon::Pencil,
            Ink::Line | Ink::Beam => Icon::Minus,
            Ink::Rect => Icon::Square,
            Ink::Ellipse | Ink::Burst => Icon::Circle,
            Ink::Measure => Icon::Ruler,
            Ink::Cone => Icon::Triangle,
        }
    }

    /// What the objects list and the history call this kind of stroke.
    pub fn name(self) -> (r: &'static str)
        ensures
            r@ == ink_name(self),
    {
        match self {
            Ink::Pen => catalog::stroke_pen(),
            Ink::Line => catalog::stroke_line(),
            Ink::Rect => catalog::stroke_rect(),
            Ink::Ellipse => catalog::stroke_ellipse(),
            Ink::Measure => catalog::stroke_measure(),
            Ink::Burst => catalog::stroke_burst(),
            Ink::Cone => catalog::stroke_cone(),
            Ink::Beam => catalog::stroke_beam(),
        }
    }
}

/// How a ruler counts the distance between two points.
///
/// A grid cell is one inch and five feet, and a table agrees before the
/// game which of these it plays by.
#[derive(Debug, Clone, Copy, PartialEq, Eq, Structural)]
pub enum Rule {
    /// The straight line between the two points.
    Euclid,
    /// Every step counts, and no step goes corner to corner.
    Manhattan,
    /// A diagonal costs the same as a straight step. D&D 5e.
    Fifth,
    /// Every second diagonal costs two. D&D 3.5 and Pathfinder.
    Pathfinder,
}

impl Default for Rule {
    /// The straight line, which a first run measures by.
    fn default() -> (r: Rule)
        ensures
            r == Rule::Euclid,
    {
        Rule::Euclid
    }
}

/// What the Draw panel calls a rule.
pub open spec fn rule_name(rule: Rule) -> Seq<char> {
    match rule {
        Rule::Euclid => "Euclidean"@,
        Rule::Manhattan => "Manhattan"@,
        Rule::Fifth => "D&D 5e"@,
        Rule::Pathfinder => "Pathfinder"@,
    }
}

/// Every rule, in the order the panel lists them.
pub open spec fn every_rule() -> Seq<Rule> {
    seq![Rule::Euclid, Rule::Fifth, Rule::Pathfinder, Rule::Manhattan]
}

/// Whether the cells of a grid are hexes.
pub open spec fn hexes(kind: Kind) -> bool {
    kind is HexPointyTop || kind is HexFlatTop
}

/// The rules the DM may pick on a grid of this kind, given the rule the
/// DM holds now.
pub open spec fn rules_on(kind: Kind, held: Rule) -> Seq<Rule> {
    if !hexes(kind) {
        every_rule()
    } else {
        seq![Rule::Euclid, if held == Rule::Euclid { Rule::Fifth } else { held }]
    }
}

impl Rule {
    /// What the Draw panel calls this rule.
    pub fn name(self) -> (r: &'static str)
        ensures
            r@ == rule_name(self),
    {
        match self {
            Rule::Euclid => catalog::ruler_euclid(),
            Rule::Manhattan => catalog::ruler_manhattan(),
            Rule::Fifth => catalog::ruler_fifth(),
            Rule::Pathfinder => catalog::ruler_pathfinder(),
        }
    }

    /// Every rule, in the order the panel lists them.
    pub fn all() -> (r: [Rule; 4])
        ensures
            r@ == every_rule(),
    {
        let r = [Rule::Euclid, Rule::Fifth, Rule::Pathfinder, Rule::Manhattan];
        assert(r@ =~= every_rule());
        r
    }

    /// What the Draw panel calls this rule on a grid of this kind.
    ///
    /// A hex grid has no diagonal, so every rule that walks it gives one
    /// count. The three read as one name there.
    pub fn name_on(self, kind: Kind) -> (r: &'static str)
        ensures
            r@ == (if hexes(kind) && self != Rule::Euclid { "Hexes"@ } else { rule_name(self) }),
    {
        if kind.is_hex() && !matches!(self, Rule::Euclid) {
            return catalog::ruler_hexes();
        }
        self.name()
    }

    /// Whether the cells of a grid are hexes.
pub open spec fn hexes(kind: Kind) -> bool {
    kind is HexPointyTop || kind is HexFlatTop
}

/// The rules the DM may pick on a grid of this kind.
    ///
    /// A hex grid offers the straight line and the walk, because the three
    /// rules that walk it agree. `held` is the rule the DM holds now, so a
    /// grid of squares later finds it where the DM left it. D&D 5e stands
    /// for the walk when the DM holds the straight line.
    pub fn all_on(kind: Kind, held: Rule) -> (r: Vec<Rule>)
        ensures
            r@ == rules_on(kind, held),
    {
        if !kind.is_hex() {
            let mut out: Vec<Rule> = Vec::new();
            out.push(Rule::Euclid);
            out.push(Rule::Fifth);
            out.push(Rule::Pathfinder);
            out.push(Rule::Manhattan);
            assert(out@ =~= every_rule());
            return out;
        }
        let walks = if matches!(held, Rule::Euclid) { Rule::Fifth } else { held };
        let mut out: Vec<Rule> = Vec::new();
        out.push(Rule::Euclid);
        out.push(walks);
        assert(out@ =~= rules_on(kind, held));
        out
    }
}

} // verus!
