//! The controls of the DM window that one press of a key starts.
//!
//! Every control has a name the list of keys shows, a part of the window
//! it works in, and a rule on whether a key held down repeats it.

use vstd::prelude::*;

use crate::catalog;
use crate::language::{Language, line_at};

verus! {

/// A control the DM starts with one press of a key.
#[derive(Debug, Clone, Copy, PartialEq, Eq, Structural)]
pub enum Action {
    /// Takes the last change to the scene back.
    Undo,
    /// Writes the last change the DM took back again.
    Redo,
    /// Steps the DM camera in.
    ZoomIn,
    /// Steps the DM camera out.
    ZoomOut,
    /// Back to the zoom a new project opens with.
    ZoomReset,
    /// Puts the whole TV box on the DM screen.
    FrameBox,
    /// Holds what the TV shows, and lets it go.
    Freeze,
    /// Opens this list of keys.
    Shortcuts,
    /// Turns what the DM holds a quarter.
    Turn,
    /// Flips what the DM holds left to right.
    FlipAcross,
    /// Flips what the DM holds top to bottom.
    FlipDown,
    /// Grows what the DM holds a tenth.
    Grow,
    /// Shrinks what the DM holds a tenth.
    Shrink,
    /// Moves what the DM holds one step up the stack.
    Raise,
    /// Moves what the DM holds one step down the stack.
    Lower,
    /// Takes what the DM holds out of the scene.
    Delete,
    /// Moves the TV box one cell left.
    BoxLeft,
    /// Moves the TV box one cell right.
    BoxRight,
    /// Moves the TV box one cell up.
    BoxUp,
    /// Moves the TV box one cell down.
    BoxDown,
}

/// The part of the window a control works in.
#[derive(Debug, Clone, Copy, PartialEq, Eq, Structural)]
pub enum Group {
    /// Every view.
    Every,
    /// The Select view.
    Select,
    /// The Draw view.
    Draw,
    /// The Table view.
    Table,
}

/// Every control, in the order the list shows them.
pub open spec fn every_action() -> Seq<Action> {
    seq![
        Action::Undo,
        Action::Redo,
        Action::ZoomIn,
        Action::ZoomOut,
        Action::ZoomReset,
        Action::FrameBox,
        Action::Freeze,
        Action::Shortcuts,
        Action::Turn,
        Action::FlipAcross,
        Action::FlipDown,
        Action::Grow,
        Action::Shrink,
        Action::Raise,
        Action::Lower,
        Action::Delete,
        Action::BoxLeft,
        Action::BoxRight,
        Action::BoxUp,
        Action::BoxDown,
    ]
}

/// Every control, in the order the list shows them.
pub fn actions() -> (r: Vec<Action>)
    ensures
        r@ == every_action(),
{
    let mut out: Vec<Action> = Vec::new();
    out.push(Action::Undo);
    out.push(Action::Redo);
    out.push(Action::ZoomIn);
    out.push(Action::ZoomOut);
    out.push(Action::ZoomReset);
    out.push(Action::FrameBox);
    out.push(Action::Freeze);
    out.push(Action::Shortcuts);
    out.push(Action::Turn);
    out.push(Action::FlipAcross);
    out.push(Action::FlipDown);
    out.push(Action::Grow);
    out.push(Action::Shrink);
    out.push(Action::Raise);
    out.push(Action::Lower);
    out.push(Action::Delete);
    out.push(Action::BoxLeft);
    out.push(Action::BoxRight);
    out.push(Action::BoxUp);
    out.push(Action::BoxDown);
    assert(out@ =~= every_action());
    out
}

/// The name the list gives a group.
pub open spec fn group_label(group: Group) -> Seq<char> {
    match group {
        Group::Every => "Every view"@,
        Group::Select => "Select"@,
        Group::Draw => "Draw"@,
        Group::Table => "Table"@,
    }
}

impl Group {
    /// The name the list gives the group.
    pub fn label(self) -> (r: &'static str)
        ensures
            r@ == group_label(self),
    {
        match self {
            Group::Every => catalog::keys_group_every(),
            Group::Select => catalog::keys_group_select(),
            Group::Draw => catalog::keys_group_draw(),
            Group::Table => catalog::keys_group_table(),
        }
    }

    /// The name the list gives the group, in the language the DM picked.
    pub fn label_in(self, language: Option<&Language>) -> (r: &'static str)
        requires
            language matches Some(l) ==> l.whole(),
        ensures
            r@ == line_at(match language { Some(l) => Some(*l), None => None }, group_place(self)),
    {
        match self {
            Group::Every => catalog::keys_group_every_in(language),
            Group::Select => catalog::keys_group_select_in(language),
            Group::Draw => catalog::keys_group_draw_in(language),
            Group::Table => catalog::keys_group_table_in(language),
        }
    }
}

/// The place of the line that names a part of the window in the catalog.
pub open spec fn group_place(group: Group) -> int {
    match group {
        Group::Every => 63,
        Group::Select => 64,
        Group::Draw => 65,
        Group::Table => 66,
    }
}

/// The place of the line that names a control in the catalog.
pub open spec fn action_place(action: Action) -> int {
    match action {
        Action::Undo => 43,
        Action::Redo => 44,
        Action::ZoomIn => 45,
        Action::ZoomOut => 46,
        Action::ZoomReset => 47,
        Action::FrameBox => 48,
        Action::Freeze => 49,
        Action::Shortcuts => 50,
        Action::Turn => 51,
        Action::FlipAcross => 52,
        Action::FlipDown => 53,
        Action::Grow => 54,
        Action::Shrink => 55,
        Action::Raise => 56,
        Action::Lower => 57,
        Action::Delete => 58,
        Action::BoxLeft => 59,
        Action::BoxRight => 60,
        Action::BoxUp => 61,
        Action::BoxDown => 62,
    }
}

/// What a control does, as the list says it.
pub open spec fn action_label(action: Action) -> Seq<char> {
    match action {
        Action::Undo => "Undo"@,
        Action::Redo => "Redo"@,
        Action::ZoomIn => "Zoom in"@,
        Action::ZoomOut => "Zoom out"@,
        Action::ZoomReset => "Back to the first zoom"@,
        Action::FrameBox => "Show the whole TV box"@,
        Action::Freeze => "Freeze the TV"@,
        Action::Shortcuts => "List of keys"@,
        Action::Turn => "Turn a quarter"@,
        Action::FlipAcross => "Flip left to right"@,
        Action::FlipDown => "Flip top to bottom"@,
        Action::Grow => "Grow a tenth"@,
        Action::Shrink => "Shrink a tenth"@,
        Action::Raise => "Up the stack"@,
        Action::Lower => "Down the stack"@,
        Action::Delete => "Delete"@,
        Action::BoxLeft => "Box one cell left"@,
        Action::BoxRight => "Box one cell right"@,
        Action::BoxUp => "Box one cell up"@,
        Action::BoxDown => "Box one cell down"@,
    }
}

/// The part of the window a control works in.
pub open spec fn action_group(action: Action) -> Group {
    match action {
        Action::Undo => Group::Every,
        Action::Redo => Group::Every,
        Action::ZoomIn => Group::Every,
        Action::ZoomOut => Group::Every,
        Action::ZoomReset => Group::Every,
        Action::FrameBox => Group::Every,
        Action::Freeze => Group::Every,
        Action::Shortcuts => Group::Every,
        Action::Turn => Group::Select,
        Action::FlipAcross => Group::Select,
        Action::FlipDown => Group::Select,
        Action::Grow => Group::Select,
        Action::Shrink => Group::Select,
        Action::Raise => Group::Select,
        Action::Lower => Group::Select,
        Action::Delete => Group::Select,
        Action::BoxLeft => Group::Table,
        Action::BoxRight => Group::Table,
        Action::BoxUp => Group::Table,
        Action::BoxDown => Group::Table,
    }
}

/// Whether a key held down repeats a control: only the arrows that walk
/// the TV box do.
pub open spec fn repeating(action: Action) -> bool {
    action is BoxLeft || action is BoxRight || action is BoxUp || action is BoxDown
}

impl Action {
    /// What the control does, as the list says it.
    pub fn label(self) -> (r: &'static str)
        ensures
            r@ == action_label(self),
    {
        match self {
            Action::Undo => catalog::keys_undo(),
            Action::Redo => catalog::keys_redo(),
            Action::ZoomIn => catalog::keys_zoom_in(),
            Action::ZoomOut => catalog::keys_zoom_out(),
            Action::ZoomReset => catalog::keys_zoom_reset(),
            Action::FrameBox => catalog::keys_frame_box(),
            Action::Freeze => catalog::keys_freeze(),
            Action::Shortcuts => catalog::keys_shortcuts(),
            Action::Turn => catalog::keys_turn(),
            Action::FlipAcross => catalog::keys_flip_across(),
            Action::FlipDown => catalog::keys_flip_down(),
            Action::Grow => catalog::keys_grow(),
            Action::Shrink => catalog::keys_shrink(),
            Action::Raise => catalog::keys_raise(),
            Action::Lower => catalog::keys_lower(),
            Action::Delete => catalog::keys_delete(),
            Action::BoxLeft => catalog::keys_box_left(),
            Action::BoxRight => catalog::keys_box_right(),
            Action::BoxUp => catalog::keys_box_up(),
            Action::BoxDown => catalog::keys_box_down(),
        }
    }

    /// What the control does, in the language the DM picked.
    pub fn label_in(self, language: Option<&Language>) -> (r: &'static str)
        requires
            language matches Some(l) ==> l.whole(),
        ensures
            r@ == line_at(match language { Some(l) => Some(*l), None => None }, action_place(self)),
    {
        match self {
            Action::Undo => catalog::keys_undo_in(language),
            Action::Redo => catalog::keys_redo_in(language),
            Action::ZoomIn => catalog::keys_zoom_in_in(language),
            Action::ZoomOut => catalog::keys_zoom_out_in(language),
            Action::ZoomReset => catalog::keys_zoom_reset_in(language),
            Action::FrameBox => catalog::keys_frame_box_in(language),
            Action::Freeze => catalog::keys_freeze_in(language),
            Action::Shortcuts => catalog::keys_shortcuts_in(language),
            Action::Turn => catalog::keys_turn_in(language),
            Action::FlipAcross => catalog::keys_flip_across_in(language),
            Action::FlipDown => catalog::keys_flip_down_in(language),
            Action::Grow => catalog::keys_grow_in(language),
            Action::Shrink => catalog::keys_shrink_in(language),
            Action::Raise => catalog::keys_raise_in(language),
            Action::Lower => catalog::keys_lower_in(language),
            Action::Delete => catalog::keys_delete_in(language),
            Action::BoxLeft => catalog::keys_box_left_in(language),
            Action::BoxRight => catalog::keys_box_right_in(language),
            Action::BoxUp => catalog::keys_box_up_in(language),
            Action::BoxDown => catalog::keys_box_down_in(language),
        }
    }

    /// The part of the window the control works in.
    pub fn group(self) -> (r: Group)
        ensures
            r == action_group(self),
    {
        match self {
            Action::Undo
            | Action::Redo
            | Action::ZoomIn
            | Action::ZoomOut
            | Action::ZoomReset
            | Action::FrameBox
            | Action::Freeze
            | Action::Shortcuts => Group::Every,
            Action::Turn
            | Action::FlipAcross
            | Action::FlipDown
            | Action::Grow
            | Action::Shrink
            | Action::Raise
            | Action::Lower
            | Action::Delete => Group::Select,
            Action::BoxLeft | Action::BoxRight | Action::BoxUp | Action::BoxDown => Group::Table,
        }
    }

    /// Whether a key held down repeats the control.
    ///
    /// The arrows walk the box across the canvas. Every other control does
    /// one thing for one press: one turn, one flip, one step of the stack.
    pub fn repeats(self) -> (r: bool)
        ensures
            r == repeating(self),
    {
        matches!(self, Action::BoxLeft | Action::BoxRight | Action::BoxUp | Action::BoxDown)
    }
}

/// Why the program refused a key for a control.
#[derive(Debug, Clone, Copy, PartialEq, Eq)]
pub enum Taken {
    /// Another control holds the key.
    By(Action),
    /// The key belongs to a gesture or a dialog, and the DM cannot move it.
    Fixed(&'static str),
}

/// The name of whatever holds a key.
pub open spec fn holder_of(taken: Taken) -> Seq<char> {
    match taken {
        Taken::By(action) => action_label(action),
        Taken::Fixed(label) => label@,
    }
}

/// The name of whatever holds a key, in the language the DM picked: the
/// control's line, or the fixed control's name.
pub open spec fn holder_in_language(taken: Taken, language: Option<Language>) -> Seq<char> {
    match taken {
        Taken::By(action) => line_at(language, action_place(action)),
        Taken::Fixed(label) => label@,
    }
}

impl Taken {
    /// The name of whatever holds the key.
    pub fn holder(self) -> (r: &'static str)
        ensures
            r@ == holder_of(self),
    {
        match self {
            Taken::By(action) => action.label(),
            Taken::Fixed(label) => label,
        }
    }

    /// The name of whatever holds the key, in the language the DM picked.
    pub fn holder_in(self, language: Option<&Language>) -> (r: &'static str)
        requires
            language matches Some(l) ==> l.whole(),
        ensures
            r@ == holder_in_language(self, match language { Some(l) => Some(*l), None => None }),
    {
        match self {
            Taken::By(action) => action.label_in(language),
            Taken::Fixed(label) => label,
        }
    }
}

} // verus!
