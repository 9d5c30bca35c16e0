//! The catalog: every line the window shows, by key, in English and in
//! the language the DM picked.
//!
//! Each line has a function of its own, so a screen that names a line that
//! is not here does not build. A line with a place for a value, such as
//! `{count} min ago`, takes it through [`crate::text::fill`].

use vstd::prelude::*;

use crate::language::{Language, at, line_at};

verus! {

/// How many lines the catalog holds.
pub const COUNT: usize = 83;

/// The key of every line, in the order of [`english`].
pub open spec fn key_names() -> Seq<Seq<char>> {
    seq![
        "history.ago.earlier"@,
        "history.ago.now"@,
        "history.ago.minutes"@,
        "history.ago.hours"@,
        "history.ago.day"@,
        "history.ago.days"@,
        "history.spot"@,
        "history.screens.both"@,
        "history.screens.dm"@,
        "history.screens.tv"@,
        "history.screens.none"@,
        "history.maps.one"@,
        "history.maps.many"@,
        "history.lists.one"@,
        "history.lists.many"@,
        "history.deed.tv_box"@,
        "history.deed.change"@,
        "history.deed.move"@,
        "history.deed.turn"@,
        "history.deed.size"@,
        "history.deed.flip"@,
        "history.deed.grid_px"@,
        "history.deed.rename"@,
        "history.deed.show"@,
        "history.deed.add_map"@,
        "history.deed.new_group"@,
        "history.deed.ungroup"@,
        "history.deed.move_in_list"@,
        "history.deed.another_group"@,
        "history.deed.group"@,
        "history.deed.order"@,
        "history.deed.draw"@,
        "history.deed.erase"@,
        "history.detail.move"@,
        "history.detail.turn"@,
        "history.detail.size"@,
        "history.detail.flip_x"@,
        "history.detail.flip_y"@,
        "history.detail.grid_px"@,
        "history.detail.rename"@,
        "history.detail.screens"@,
        "history.detail.tree"@,
        "history.detail.tv_box"@,
        "keys.undo"@,
        "keys.redo"@,
        "keys.zoom_in"@,
        "keys.zoom_out"@,
        "keys.zoom_reset"@,
        "keys.frame_box"@,
        "keys.freeze"@,
        "keys.shortcuts"@,
        "keys.turn"@,
        "keys.flip_across"@,
        "keys.flip_down"@,
        "keys.grow"@,
        "keys.shrink"@,
        "keys.raise"@,
        "keys.lower"@,
        "keys.delete"@,
        "keys.box_left"@,
        "keys.box_right"@,
        "keys.box_up"@,
        "keys.box_down"@,
        "keys.group.every"@,
        "keys.group.select"@,
        "keys.group.draw"@,
        "keys.group.table"@,
        "keys.fixed.escape"@,
        "keys.fixed.pan"@,
        "keys.fixed.field"@,
        "stroke.pen"@,
        "stroke.line"@,
        "stroke.rect"@,
        "stroke.ellipse"@,
        "stroke.measure"@,
        "stroke.burst"@,
        "stroke.cone"@,
        "stroke.beam"@,
        "ruler.euclid"@,
        "ruler.fifth"@,
        "ruler.pathfinder"@,
        "ruler.manhattan"@,
        "ruler.hexes"@,
    ]
}

/// The key of every line, in the order of [`english`].
pub fn keys() -> (r: Vec<&'static str>)
    ensures
        r@.len() == COUNT,
        forall|i: int| 0 <= i < COUNT ==> (#[trigger] r@[i])@ == key_names()[i],
{
    let mut out: Vec<&'static str> = Vec::new();
    out.push("history.ago.earlier");
    out.push("history.ago.now");
    out.push("history.ago.minutes");
    out.push("history.ago.hours");
    out.push("history.ago.day");
    out.push("history.ago.days");
    out.push("history.spot");
    out.push("history.screens.both");
    out.push("history.screens.dm");
    out.push("history.screens.tv");
    out.push("history.screens.none");
    out.push("history.maps.one");
    out.push("history.maps.many");
    out.push("history.lists.one");
    out.push("history.lists.many");
    out.push("history.deed.tv_box");
    out.push("history.deed.change");
    out.push("history.deed.move");
    out.push("history.deed.turn");
    out.push("history.deed.size");
    out.push("history.deed.flip");
    out.push("history.deed.grid_px");
    out.push("history.deed.rename");
    out.push("history.deed.show");
    out.push("history.deed.add_map");
    out.push("history.deed.new_group");
    out.push("history.deed.ungroup");
    out.push("history.deed.move_in_list");
    out.push("history.deed.another_group");
    out.push("history.deed.group");
    out.push("history.deed.order");
    out.push("history.deed.draw");
    out.push("history.deed.erase");
    out.push("history.detail.move");
    out.push("history.detail.turn");
    out.push("history.detail.size");
    out.push("history.detail.flip_x");
    out.push("history.detail.flip_y");
    out.push("history.detail.grid_px");
    out.push("history.detail.rename");
    out.push("history.detail.screens");
    out.push("history.detail.tree");
    out.push("history.detail.tv_box");
    out.push("keys.undo");
    out.push("keys.redo");
    out.push("keys.zoom_in");
    out.push("keys.zoom_out");
    out.push("keys.zoom_reset");
    out.push("keys.frame_box");
    out.push("keys.freeze");
    out.push("keys.shortcuts");
    out.push("keys.turn");
    out.push("keys.flip_across");
    out.push("keys.flip_down");
    out.push("keys.grow");
    out.push("keys.shrink");
    out.push("keys.raise");
    out.push("keys.lower");
    out.push("keys.delete");
    out.push("keys.box_left");
    out.push("keys.box_right");
    out.push("keys.box_up");
    out.push("keys.box_down");
    out.push("keys.group.every");
    out.push("keys.group.select");
    out.push("keys.group.draw");
    out.push("keys.group.table");
    out.push("keys.fixed.escape");
    out.push("keys.fixed.pan");
    out.push("keys.fixed.field");
    out.push("stroke.pen");
    out.push("stroke.line");
    out.push("stroke.rect");
    out.push("stroke.ellipse");
    out.push("stroke.measure");
    out.push("stroke.burst");
    out.push("stroke.cone");
    out.push("stroke.beam");
    out.push("ruler.euclid");
    out.push("ruler.fifth");
    out.push("ruler.pathfinder");
    out.push("ruler.manhattan");
    out.push("ruler.hexes");
    proof {
        assert forall|i: int| 0 <= i < COUNT implies (#[trigger] out@[i])@ == key_names()[i] by {
        }
    }
    out
}

/// The English line of every key, in the order of [`keys`].
pub open spec fn english_lines() -> Seq<Seq<char>> {
    seq![
        "earlier"@,
        "just now"@,
        "{count} min ago"@,
        "{count} h ago"@,
        "a day ago"@,
        "{count} days ago"@,
        "{x}, {y}"@,
        "DM and TV"@,
        "DM only"@,
        "TV only"@,
        "no screen"@,
        "map"@,
        "{count} maps"@,
        "one list"@,
        "{count} lists"@,
        "TV box"@,
        "Change"@,
        "Move"@,
        "Turn"@,
        "Size"@,
        "Flip"@,
        "Grid size"@,
        "Rename"@,
        "Screens"@,
        "Add map"@,
        "New group"@,
        "Ungroup"@,
        "Move in list"@,
        "Into a group"@,
        "Group"@,
        "Order"@,
        "Draw"@,
        "Erase"@,
        "{from} to {to} in"@,
        "{from}° to {to}°"@,
        "{from} % to {to} %"@,
        "left to right"@,
        "top to bottom"@,
        "{from} to {to} px"@,
        "to {name}"@,
        "{from} to {to}"@,
        "{lists}"@,
        "{width} in wide at {spot} in"@,
        "Undo"@,
        "Redo"@,
        "Zoom in"@,
        "Zoom out"@,
        "Back to the first zoom"@,
        "Show the whole TV box"@,
        "Freeze the TV"@,
        "List of keys"@,
        "Turn a quarter"@,
        "Flip left to right"@,
        "Flip top to bottom"@,
        "Grow a tenth"@,
        "Shrink a tenth"@,
        "Up the stack"@,
        "Down the stack"@,
        "Delete"@,
        "Box one cell left"@,
        "Box one cell right"@,
        "Box one cell up"@,
        "Box one cell down"@,
        "Every view"@,
        "Select"@,
        "Draw"@,
        "Table"@,
        "Give up a measure or a dialog"@,
        "Pan the canvas"@,
        "Text fields"@,
        "Pen"@,
        "Line"@,
        "Box"@,
        "Ellipse"@,
        "Measure"@,
        "Burst"@,
        "Cone"@,
        "Beam"@,
        "Euclidean"@,
        "D&D 5e"@,
        "Pathfinder"@,
        "Manhattan"@,
        "Hexes"@,
    ]
}

/// The English line of every key, in the order of [`keys`].
pub fn english() -> (r: Vec<&'static str>)
    ensures
        r@.len() == COUNT,
        forall|i: int| 0 <= i < COUNT ==> (#[trigger] r@[i])@ == english_lines()[i],
{
    let mut out: Vec<&'static str> = Vec::new();
    out.push(history_ago_earlier());
    out.push(history_ago_now());
    out.push(history_ago_minutes_text());
    out.push(history_ago_hours_text());
    out.push(history_ago_day());
    out.push(history_ago_days_text());
    out.push(history_spot_text());
    out.push(history_screens_both());
    out.push(history_screens_dm());
    out.push(history_screens_tv());
    out.push(history_screens_none());
    out.push(history_maps_one());
    out.push(history_maps_many_text());
    out.push(history_lists_one());
    out.push(history_lists_many_text());
    out.push(history_deed_tv_box());
    out.push(history_deed_change());
    out.push(history_deed_move());
    out.push(history_deed_turn());
    out.push(history_deed_size());
    out.push(history_deed_flip());
    out.push(history_deed_grid_px());
    out.push(history_deed_rename());
    out.push(history_deed_show());
    out.push(history_deed_add_map());
    out.push(history_deed_new_group());
    out.push(history_deed_ungroup());
    out.push(history_deed_move_in_list());
    out.push(history_deed_another_group());
    out.push(history_deed_group());
    out.push(history_deed_order());
    out.push(history_deed_draw());
    out.push(history_deed_erase());
    out.push(history_detail_move_text());
    out.push(history_detail_turn_text());
    out.push(history_detail_size_text());
    out.push(history_detail_flip_x());
    out.push(history_detail_flip_y());
    out.push(history_detail_grid_px_text());
    out.push(history_detail_rename_text());
    out.push(history_detail_screens_text());
    out.push(history_detail_tree_text());
    out.push(history_detail_tv_box_text());
    out.push(keys_undo());
    out.push(keys_redo());
    out.push(keys_zoom_in());
    out.push(keys_zoom_out());
    out.push(keys_zoom_reset());
    out.push(keys_frame_box());
    out.push(keys_freeze());
    out.push(keys_shortcuts());
    out.push(keys_turn());
    out.push(keys_flip_across());
    out.push(keys_flip_down());
    out.push(keys_grow());
    out.push(keys_shrink());
    out.push(keys_raise());
    out.push(keys_lower());
    out.push(keys_delete());
    out.push(keys_box_left());
    out.push(keys_box_right());
    out.push(keys_box_up());
    out.push(keys_box_down());
    out.push(keys_group_every());
    out.push(keys_group_select());
    out.push(keys_group_draw());
    out.push(keys_group_table());
    out.push(keys_fixed_escape());
    out.push(keys_fixed_pan());
    out.push(keys_fixed_field());
    out.push(stroke_pen());
    out.push(stroke_line());
    out.push(stroke_rect());
    out.push(stroke_ellipse());
    out.push(stroke_measure());
    out.push(stroke_burst());
    out.push(stroke_cone());
    out.push(stroke_beam());
    out.push(ruler_euclid());
    out.push(ruler_fifth());
    out.push(ruler_pathfinder());
    out.push(ruler_manhattan());
    out.push(ruler_hexes());
    proof {
        assert forall|i: int| 0 <= i < COUNT implies (#[trigger] out@[i])@ == english_lines()[i] by {
        }
    }
    out
}

/// The line `history.ago.earlier`.
pub fn history_ago_earlier() -> (r: &'static str)
    ensures
        r@ == "earlier"@,
{
    "earlier"
}

/// The line `history.ago.earlier` in the language the DM picked, or in English where that
/// language has none.
pub fn history_ago_earlier_in(language: Option<&Language>) -> (r: &'static str)
    requires
        language matches Some(l) ==> l.whole(),
    ensures
        r@ == line_at(match language { Some(l) => Some(*l), None => None }, 0),
{
    at(language, 0)
}

/// The line `history.ago.now`.
pub fn history_ago_now() -> (r: &'static str)
    ensures
        r@ == "just now"@,
{
    "just now"
}

/// The line `history.ago.now` in the language the DM picked, or in English where that
/// language has none.
pub fn history_ago_now_in(language: Option<&Language>) -> (r: &'static str)
    requires
        language matches Some(l) ==> l.whole(),
    ensures
        r@ == line_at(match language { Some(l) => Some(*l), None => None }, 1),
{
    at(language, 1)
}

/// The line `history.ago.minutes`.
pub fn history_ago_minutes_text() -> (r: &'static str)
    ensures
        r@ == "{count} min ago"@,
{
    "{count} min ago"
}

/// The line `history.ago.minutes` in the language the DM picked, or in English where that
/// language has none.
pub fn history_ago_minutes_text_in(language: Option<&Language>) -> (r: &'static str)
    requires
        language matches Some(l) ==> l.whole(),
    ensures
        r@ == line_at(match language { Some(l) => Some(*l), None => None }, 2),
{
    at(language, 2)
}

/// The line `history.ago.hours`.
pub fn history_ago_hours_text() -> (r: &'static str)
    ensures
        r@ == "{count} h ago"@,
{
    "{count} h ago"
}

/// The line `history.ago.hours` in the language the DM picked, or in English where that
/// language has none.
pub fn history_ago_hours_text_in(language: Option<&Language>) -> (r: &'static str)
    requires
        language matches Some(l) ==> l.whole(),
    ensures
        r@ == line_at(match language { Some(l) => Some(*l), None => None }, 3),
{
    at(language, 3)
}

/// The line `history.ago.day`.
pub fn history_ago_day() -> (r: &'static str)
    ensures
        r@ == "a day ago"@,
{
    "a day ago"
}

/// The line `history.ago.day` in the language the DM picked, or in English where that
/// language has none.
pub fn history_ago_day_in(language: Option<&Language>) -> (r: &'static str)
    requires
        language matches Some(l) ==> l.whole(),
    ensures
        r@ == line_at(match language { Some(l) => Some(*l), None => None }, 4),
{
    at(language, 4)
}

/// The line `history.ago.days`.
pub fn history_ago_days_text() -> (r: &'static str)
    ensures
        r@ == "{count} days ago"@,
{
    "{count} days ago"
}

/// The line `history.ago.days` in the language the DM picked, or in English where that
/// language has none.
pub fn history_ago_days_text_in(language: Option<&Language>) -> (r: &'static str)
    requires
        language matches Some(l) ==> l.whole(),
    ensures
        r@ == line_at(match language { Some(l) => Some(*l), None => None }, 5),
{
    at(language, 5)
}

/// The line `history.spot`.
pub fn history_spot_text() -> (r: &'static str)
    ensures
        r@ == "{x}, {y}"@,
{
    "{x}, {y}"
}

/// The line `history.spot` in the language the DM picked, or in English where that
/// language has none.
pub fn history_spot_text_in(language: Option<&Language>) -> (r: &'static str)
    requires
        language matches Some(l) ==> l.whole(),
    ensures
        r@ == line_at(match language { Some(l) => Some(*l), None => None }, 6),
{
    at(language, 6)
}

/// The line `history.screens.both`.
pub fn history_screens_both() -> (r: &'static str)
    ensures
        r@ == "DM and TV"@,
{
    "DM and TV"
}

/// The line `history.screens.both` in the language the DM picked, or in English where that
/// language has none.
pub fn history_screens_both_in(language: Option<&Language>) -> (r: &'static str)
    requires
        language matches Some(l) ==> l.whole(),
    ensures
        r@ == line_at(match language { Some(l) => Some(*l), None => None }, 7),
{
    at(language, 7)
}

/// The line `history.screens.dm`.
pub fn history_screens_dm() -> (r: &'static str)
    ensures
        r@ == "DM only"@,
{
    "DM only"
}

/// The line `history.screens.dm` in the language the DM picked, or in English where that
/// language has none.
pub fn history_screens_dm_in(language: Option<&Language>) -> (r: &'static str)
    requires
        language matches Some(l) ==> l.whole(),
    ensures
        r@ == line_at(match language { Some(l) => Some(*l), None => None }, 8),
{
    at(language, 8)
}

/// The line `history.screens.tv`.
pub fn history_screens_tv() -> (r: &'static str)
    ensures
        r@ == "TV only"@,
{
    "TV only"
}

/// The line `history.screens.tv` in the language the DM picked, or in English where that
/// language has none.
pub fn history_screens_tv_in(language: Option<&Language>) -> (r: &'static str)
    requires
        language matches Some(l) ==> l.whole(),
    ensures
        r@ == line_at(match language { Some(l) => Some(*l), None => None }, 9),
{
    at(language, 9)
}

/// The line `history.screens.none`.
pub fn history_screens_none() -> (r: &'static str)
    ensures
        r@ == "no screen"@,
{
    "no screen"
}

/// The line `history.screens.none` in the language the DM picked, or in English where that
/// language has none.
pub fn history_screens_none_in(language: Option<&Language>) -> (r: &'static str)
    requires
        language matches Some(l) ==> l.whole(),
    ensures
        r@ == line_at(match language { Some(l) => Some(*l), None => None }, 10),
{
    at(language, 10)
}

/// The line `history.maps.one`.
pub fn history_maps_one() -> (r: &'static str)
    ensures
        r@ == "map"@,
{
    "map"
}

/// The line `history.maps.one` in the language the DM picked, or in English where that
/// language has none.
pub fn history_maps_one_in(language: Option<&Language>) -> (r: &'static str)
    requires
        language matches Some(l) ==> l.whole(),
    ensures
        r@ == line_at(match language { Some(l) => Some(*l), None => None }, 11),
{
    at(language, 11)
}

/// The line `history.maps.many`.
pub fn history_maps_many_text() -> (r: &'static str)
    ensures
        r@ == "{count} maps"@,
{
    "{count} maps"
}

/// The line `history.maps.many` in the language the DM picked, or in English where that
/// language has none.
pub fn history_maps_many_text_in(language: Option<&Language>) -> (r: &'static str)
    requires
        language matches Some(l) ==> l.whole(),
    ensures
        r@ == line_at(match language { Some(l) => Some(*l), None => None }, 12),
{
    at(language, 12)
}

/// The line `history.lists.one`.
pub fn history_lists_one() -> (r: &'static str)
    ensures
        r@ == "one list"@,
{
    "one list"
}

/// The line `history.lists.one` in the language the DM picked, or in English where that
/// language has none.
pub fn history_lists_one_in(language: Option<&Language>) -> (r: &'static str)
    requires
        language matches Some(l) ==> l.whole(),
    ensures
        r@ == line_at(match language { Some(l) => Some(*l), None => None }, 13),
{
    at(language, 13)
}

/// The line `history.lists.many`.
pub fn history_lists_many_text() -> (r: &'static str)
    ensures
        r@ == "{count} lists"@,
{
    "{count} lists"
}

/// The line `history.lists.many` in the language the DM picked, or in English where that
/// language has none.
pub fn history_lists_many_text_in(language: Option<&Language>) -> (r: &'static str)
    requires
        language matches Some(l) ==> l.whole(),
    ensures
        r@ == line_at(match language { Some(l) => Some(*l), None => None }, 14),
{
    at(language, 14)
}

/// The line `history.deed.tv_box`.
pub fn history_deed_tv_box() -> (r: &'static str)
    ensures
        r@ == "TV box"@,
{
    "TV box"
}

/// The line `history.deed.tv_box` in the language the DM picked, or in English where that
/// language has none.
pub fn history_deed_tv_box_in(language: Option<&Language>) -> (r: &'static str)
    requires
        language matches Some(l) ==> l.whole(),
    ensures
        r@ == line_at(match language { Some(l) => Some(*l), None => None }, 15),
{
    at(language, 15)
}

/// The line `history.deed.change`.
pub fn history_deed_change() -> (r: &'static str)
    ensures
        r@ == "Change"@,
{
    "Change"
}

/// The line `history.deed.change` in the language the DM picked, or in English where that
/// language has none.
pub fn history_deed_change_in(language: Option<&Language>) -> (r: &'static str)
    requires
        language matches Some(l) ==> l.whole(),
    ensures
        r@ == line_at(match language { Some(l) => Some(*l), None => None }, 16),
{
    at(language, 16)
}

/// The line `history.deed.move`.
pub fn history_deed_move() -> (r: &'static str)
    ensures
        r@ == "Move"@,
{
    "Move"
}

/// The line `history.deed.move` in the language the DM picked, or in English where that
/// language has none.
pub fn history_deed_move_in(language: Option<&Language>) -> (r: &'static str)
    requires
        language matches Some(l) ==> l.whole(),
    ensures
        r@ == line_at(match language { Some(l) => Some(*l), None => None }, 17),
{
    at(language, 17)
}

/// The line `history.deed.turn`.
pub fn history_deed_turn() -> (r: &'static str)
    ensures
        r@ == "Turn"@,
{
    "Turn"
}

/// The line `history.deed.turn` in the language the DM picked, or in English where that
/// language has none.
pub fn history_deed_turn_in(language: Option<&Language>) -> (r: &'static str)
    requires
        language matches Some(l) ==> l.whole(),
    ensures
        r@ == line_at(match language { Some(l) => Some(*l), None => None }, 18),
{
    at(language, 18)
}

/// The line `history.deed.size`.
pub fn history_deed_size() -> (r: &'static str)
    ensures
        r@ == "Size"@,
{
    "Size"
}

/// The line `history.deed.size` in the language the DM picked, or in English where that
/// language has none.
pub fn history_deed_size_in(language: Option<&Language>) -> (r: &'static str)
    requires
        language matches Some(l) ==> l.whole(),
    ensures
        r@ == line_at(match language { Some(l) => Some(*l), None => None }, 19),
{
    at(language, 19)
}

/// The line `history.deed.flip`.
pub fn history_deed_flip() -> (r: &'static str)
    ensures
        r@ == "Flip"@,
{
    "Flip"
}

/// The line `history.deed.flip` in the language the DM picked, or in English where that
/// language has none.
pub fn history_deed_flip_in(language: Option<&Language>) -> (r: &'static str)
    requires
        language matches Some(l) ==> l.whole(),
    ensures
        r@ == line_at(match language { Some(l) => Some(*l), None => None }, 20),
{
    at(language, 20)
}

/// The line `history.deed.grid_px`.
pub fn history_deed_grid_px() -> (r: &'static str)
    ensures
        r@ == "Grid size"@,
{
    "Grid size"
}

/// The line `history.deed.grid_px` in the language the DM picked, or in English where that
/// language has none.
pub fn history_deed_grid_px_in(language: Option<&Language>) -> (r: &'static str)
    requires
        language matches Some(l) ==> l.whole(),
    ensures
        r@ == line_at(match language { Some(l) => Some(*l), None => None }, 21),
{
    at(language, 21)
}

/// The line `history.deed.rename`.
pub fn history_deed_rename() -> (r: &'static str)
    ensures
        r@ == "Rename"@,
{
    "Rename"
}

/// The line `history.deed.rename` in the language the DM picked, or in English where that
/// language has none.
pub fn history_deed_rename_in(language: Option<&Language>) -> (r: &'static str)
    requires
        language matches Some(l) ==> l.whole(),
    ensures
        r@ == line_at(match language { Some(l) => Some(*l), None => None }, 22),
{
    at(language, 22)
}

/// The line `history.deed.show`.
pub fn history_deed_show() -> (r: &'static str)
    ensures
        r@ == "Screens"@,
{
    "Screens"
}

/// The line `history.deed.show` in the language the DM picked, or in English where that
/// language has none.
pub fn history_deed_show_in(language: Option<&Language>) -> (r: &'static str)
    requires
        language matches Some(l) ==> l.whole(),
    ensures
        r@ == line_at(match language { Some(l) => Some(*l), None => None }, 23),
{
    at(language, 23)
}

/// The line `history.deed.add_map`.
pub fn history_deed_add_map() -> (r: &'static str)
    ensures
        r@ == "Add map"@,
{
    "Add map"
}

/// The line `history.deed.add_map` in the language the DM picked, or in English where that
/// language has none.
pub fn history_deed_add_map_in(language: Option<&Language>) -> (r: &'static str)
    requires
        language matches Some(l) ==> l.whole(),
    ensures
        r@ == line_at(match language { Some(l) => Some(*l), None => None }, 24),
{
    at(language, 24)
}

/// The line `history.deed.new_group`.
pub fn history_deed_new_group() -> (r: &'static str)
    ensures
        r@ == "New group"@,
{
    "New group"
}

/// The line `history.deed.new_group` in the language the DM picked, or in English where that
/// language has none.
pub fn history_deed_new_group_in(language: Option<&Language>) -> (r: &'static str)
    requires
        language matches Some(l) ==> l.whole(),
    ensures
        r@ == line_at(match language { Some(l) => Some(*l), None => None }, 25),
{
    at(language, 25)
}

/// The line `history.deed.ungroup`.
pub fn history_deed_ungroup() -> (r: &'static str)
    ensures
        r@ == "Ungroup"@,
{
    "Ungroup"
}

/// The line `history.deed.ungroup` in the language the DM picked, or in English where that
/// language has none.
pub fn history_deed_ungroup_in(language: Option<&Language>) -> (r: &'static str)
    requires
        language matches Some(l) ==> l.whole(),
    ensures
        r@ == line_at(match language { Some(l) => Some(*l), None => None }, 26),
{
    at(language, 26)
}

/// The line `history.deed.move_in_list`.
pub fn history_deed_move_in_list() -> (r: &'static str)
    ensures
        r@ == "Move in list"@,
{
    "Move in list"
}

/// The line `history.deed.move_in_list` in the language the DM picked, or in English where that
/// language has none.
pub fn history_deed_move_in_list_in(language: Option<&Language>) -> (r: &'static str)
    requires
        language matches Some(l) ==> l.whole(),
    ensures
        r@ == line_at(match language { Some(l) => Some(*l), None => None }, 27),
{
    at(language, 27)
}

/// The line `history.deed.another_group`.
pub fn history_deed_another_group() -> (r: &'static str)
    ensures
        r@ == "Into a group"@,
{
    "Into a group"
}

/// The line `history.deed.another_group` in the language the DM picked, or in English where that
/// language has none.
pub fn history_deed_another_group_in(language: Option<&Language>) -> (r: &'static str)
    requires
        language matches Some(l) ==> l.whole(),
    ensures
        r@ == line_at(match language { Some(l) => Some(*l), None => None }, 28),
{
    at(language, 28)
}

/// The line `history.deed.group`.
pub fn history_deed_group() -> (r: &'static str)
    ensures
        r@ == "Group"@,
{
    "Group"
}

/// The line `history.deed.group` in the language the DM picked, or in English where that
/// language has none.
pub fn history_deed_group_in(language: Option<&Language>) -> (r: &'static str)
    requires
        language matches Some(l) ==> l.whole(),
    ensures
        r@ == line_at(match language { Some(l) => Some(*l), None => None }, 29),
{
    at(language, 29)
}

/// The line `history.deed.order`.
pub fn history_deed_order() -> (r: &'static str)
    ensures
        r@ == "Order"@,
{
    "Order"
}

/// The line `history.deed.order` in the language the DM picked, or in English where that
/// language has none.
pub fn history_deed_order_in(language: Option<&Language>) -> (r: &'static str)
    requires
        language matches Some(l) ==> l.whole(),
    ensures
        r@ == line_at(match language { Some(l) => Some(*l), None => None }, 30),
{
    at(language, 30)
}

/// The line `history.deed.draw`.
pub fn history_deed_draw() -> (r: &'static str)
    ensures
        r@ == "Draw"@,
{
    "Draw"
}

/// The line `history.deed.draw` in the language the DM picked, or in English where that
/// language has none.
pub fn history_deed_draw_in(language: Option<&Language>) -> (r: &'static str)
    requires
        language matches Some(l) ==> l.whole(),
    ensures
        r@ == line_at(match language { Some(l) => Some(*l), None => None }, 31),
{
    at(language, 31)
}

/// The line `history.deed.erase`.
pub fn history_deed_erase() -> (r: &'static str)
    ensures
        r@ == "Erase"@,
{
    "Erase"
}

/// The line `history.deed.erase` in the language the DM picked, or in English where that
/// language has none.
pub fn history_deed_erase_in(language: Option<&Language>) -> (r: &'static str)
    requires
        language matches Some(l) ==> l.whole(),
    ensures
        r@ == line_at(match language { Some(l) => Some(*l), None => None }, 32),
{
    at(language, 32)
}

/// The line `history.detail.move`.
pub fn history_detail_move_text() -> (r: &'static str)
    ensures
        r@ == "{from} to {to} in"@,
{
    "{from} to {to} in"
}

/// The line `history.detail.move` in the language the DM picked, or in English where that
/// language has none.
pub fn history_detail_move_text_in(language: Option<&Language>) -> (r: &'static str)
    requires
        language matches Some(l) ==> l.whole(),
    ensures
        r@ == line_at(match language { Some(l) => Some(*l), None => None }, 33),
{
    at(language, 33)
}

/// The line `history.detail.turn`.
pub fn history_detail_turn_text() -> (r: &'static str)
    ensures
        r@ == "{from}° to {to}°"@,
{
    "{from}° to {to}°"
}

/// The line `history.detail.turn` in the language the DM picked, or in English where that
/// language has none.
pub fn history_detail_turn_text_in(language: Option<&Language>) -> (r: &'static str)
    requires
        language matches Some(l) ==> l.whole(),
    ensures
        r@ == line_at(match language { Some(l) => Some(*l), None => None }, 34),
{
    at(language, 34)
}

/// The line `history.detail.size`.
pub fn history_detail_size_text() -> (r: &'static str)
    ensures
        r@ == "{from} % to {to} %"@,
{
    "{from} % to {to} %"
}

/// The line `history.detail.size` in the language the DM picked, or in English where that
/// language has none.
pub fn history_detail_size_text_in(language: Option<&Language>) -> (r: &'static str)
    requires
        language matches Some(l) ==> l.whole(),
    ensures
        r@ == line_at(match language { Some(l) => Some(*l), None => None }, 35),
{
    at(language, 35)
}

/// The line `history.detail.flip_x`.
pub fn history_detail_flip_x() -> (r: &'static str)
    ensures
        r@ == "left to right"@,
{
    "left to right"
}

/// The line `history.detail.flip_x` in the language the DM picked, or in English where that
/// language has none.
pub fn history_detail_flip_x_in(language: Option<&Language>) -> (r: &'static str)
    requires
        language matches Some(l) ==> l.whole(),
    ensures
        r@ == line_at(match language { Some(l) => Some(*l), None => None }, 36),
{
    at(language, 36)
}

/// The line `history.detail.flip_y`.
pub fn history_detail_flip_y() -> (r: &'static str)
    ensures
        r@ == "top to bottom"@,
{
    "top to bottom"
}

/// The line `history.detail.flip_y` in the language the DM picked, or in English where that
/// language has none.
pub fn history_detail_flip_y_in(language: Option<&Language>) -> (r: &'static str)
    requires
        language matches Some(l) ==> l.whole(),
    ensures
        r@ == line_at(match language { Some(l) => Some(*l), None => None }, 37),
{
    at(language, 37)
}

/// The line `history.detail.grid_px`.
pub fn history_detail_grid_px_text() -> (r: &'static str)
    ensures
        r@ == "{from} to {to} px"@,
{
    "{from} to {to} px"
}

/// The line `history.detail.grid_px` in the language the DM picked, or in English where that
/// language has none.
pub fn history_detail_grid_px_text_in(language: Option<&Language>) -> (r: &'static str)
    requires
        language matches Some(l) ==> l.whole(),
    ensures
        r@ == line_at(match language { Some(l) => Some(*l), None => None }, 38),
{
    at(language, 38)
}

/// The line `history.detail.rename`.
pub fn history_detail_rename_text() -> (r: &'static str)
    ensures
        r@ == "to {name}"@,
{
    "to {name}"
}

/// The line `history.detail.rename` in the language the DM picked, or in English where that
/// language has none.
pub fn history_detail_rename_text_in(language: Option<&Language>) -> (r: &'static str)
    requires
        language matches Some(l) ==> l.whole(),
    ensures
        r@ == line_at(match language { Some(l) => Some(*l), None => None }, 39),
{
    at(language, 39)
}

/// The line `history.detail.screens`.
pub fn history_detail_screens_text() -> (r: &'static str)
    ensures
        r@ == "{from} to {to}"@,
{
    "{from} to {to}"
}

/// The line `history.detail.screens` in the language the DM picked, or in English where that
/// language has none.
pub fn history_detail_screens_text_in(language: Option<&Language>) -> (r: &'static str)
    requires
        language matches Some(l) ==> l.whole(),
    ensures
        r@ == line_at(match language { Some(l) => Some(*l), None => None }, 40),
{
    at(language, 40)
}

/// The line `history.detail.tree`.
pub fn history_detail_tree_text() -> (r: &'static str)
    ensures
        r@ == "{lists}"@,
{
    "{lists}"
}

/// The line `history.detail.tree` in the language the DM picked, or in English where that
/// language has none.
pub fn history_detail_tree_text_in(language: Option<&Language>) -> (r: &'static str)
    requires
        language matches Some(l) ==> l.whole(),
    ensures
        r@ == line_at(match language { Some(l) => Some(*l), None => None }, 41),
{
    at(language, 41)
}

/// The line `history.detail.tv_box`.
pub fn history_detail_tv_box_text() -> (r: &'static str)
    ensures
        r@ == "{width} in wide at {spot} in"@,
{
    "{width} in wide at {spot} in"
}

/// The line `history.detail.tv_box` in the language the DM picked, or in English where that
/// language has none.
pub fn history_detail_tv_box_text_in(language: Option<&Language>) -> (r: &'static str)
    requires
        language matches Some(l) ==> l.whole(),
    ensures
        r@ == line_at(match language { Some(l) => Some(*l), None => None }, 42),
{
    at(language, 42)
}

/// The line `keys.undo`.
pub fn keys_undo() -> (r: &'static str)
    ensures
        r@ == "Undo"@,
{
    "Undo"
}

/// The line `keys.undo` in the language the DM picked, or in English where that
/// language has none.
pub fn keys_undo_in(language: Option<&Language>) -> (r: &'static str)
    requires
        language matches Some(l) ==> l.whole(),
    ensures
        r@ == line_at(match language { Some(l) => Some(*l), None => None }, 43),
{
    at(language, 43)
}

/// The line `keys.redo`.
pub fn keys_redo() -> (r: &'static str)
    ensures
        r@ == "Redo"@,
{
    "Redo"
}

/// The line `keys.redo` in the language the DM picked, or in English where that
/// language has none.
pub fn keys_redo_in(language: Option<&Language>) -> (r: &'static str)
    requires
        language matches Some(l) ==> l.whole(),
    ensures
        r@ == line_at(match language { Some(l) => Some(*l), None => None }, 44),
{
    at(language, 44)
}

/// The line `keys.zoom_in`.
pub fn keys_zoom_in() -> (r: &'static str)
    ensures
        r@ == "Zoom in"@,
{
    "Zoom in"
}

/// The line `keys.zoom_in` in the language the DM picked, or in English where that
/// language has none.
pub fn keys_zoom_in_in(language: Option<&Language>) -> (r: &'static str)
    requires
        language matches Some(l) ==> l.whole(),
    ensures
        r@ == line_at(match language { Some(l) => Some(*l), None => None }, 45),
{
    at(language, 45)
}

/// The line `keys.zoom_out`.
pub fn keys_zoom_out() -> (r: &'static str)
    ensures
        r@ == "Zoom out"@,
{
    "Zoom out"
}

/// The line `keys.zoom_out` in the language the DM picked, or in English where that
/// language has none.
pub fn keys_zoom_out_in(language: Option<&Language>) -> (r: &'static str)
    requires
        language matches Some(l) ==> l.whole(),
    ensures
        r@ == line_at(match language { Some(l) => Some(*l), None => None }, 46),
{
    at(language, 46)
}

/// The line `keys.zoom_reset`.
pub fn keys_zoom_reset() -> (r: &'static str)
    ensures
        r@ == "Back to the first zoom"@,
{
    "Back to the first zoom"
}

/// The line `keys.zoom_reset` in the language the DM picked, or in English where that
/// language has none.
pub fn keys_zoom_reset_in(language: Option<&Language>) -> (r: &'static str)
    requires
        language matches Some(l) ==> l.whole(),
    ensures
        r@ == line_at(match language { Some(l) => Some(*l), None => None }, 47),
{
    at(language, 47)
}

/// The line `keys.frame_box`.
pub fn keys_frame_box() -> (r: &'static str)
    ensures
        r@ == "Show the whole TV box"@,
{
    "Show the whole TV box"
}

/// The line `keys.frame_box` in the language the DM picked, or in English where that
/// language has none.
pub fn keys_frame_box_in(language: Option<&Language>) -> (r: &'static str)
    requires
        language matches Some(l) ==> l.whole(),
    ensures
        r@ == line_at(match language { Some(l) => Some(*l), None => None }, 48),
{
    at(language, 48)
}

/// The line `keys.freeze`.
pub fn keys_freeze() -> (r: &'static str)
    ensures
        r@ == "Freeze the TV"@,
{
    "Freeze the TV"
}

/// The line `keys.freeze` in the language the DM picked, or in English where that
/// language has none.
pub fn keys_freeze_in(language: Option<&Language>) -> (r: &'static str)
    requires
        language matches Some(l) ==> l.whole(),
    ensures
        r@ == line_at(match language { Some(l) => Some(*l), None => None }, 49),
{
    at(language, 49)
}

/// The line `keys.shortcuts`.
pub fn keys_shortcuts() -> (r: &'static str)
    ensures
        r@ == "List of keys"@,
{
    "List of keys"
}

/// The line `keys.shortcuts` in the language the DM picked, or in English where that
/// language has none.
pub fn keys_shortcuts_in(language: Option<&Language>) -> (r: &'static str)
    requires
        language matches Some(l) ==> l.whole(),
    ensures
        r@ == line_at(match language { Some(l) => Some(*l), None => None }, 50),
{
    at(language, 50)
}

/// The line `keys.turn`.
pub fn keys_turn() -> (r: &'static str)
    ensures
        r@ == "Turn a quarter"@,
{
    "Turn a quarter"
}

/// The line `keys.turn` in the language the DM picked, or in English where that
/// language has none.
pub fn keys_turn_in(language: Option<&Language>) -> (r: &'static str)
    requires
        language matches Some(l) ==> l.whole(),
    ensures
        r@ == line_at(match language { Some(l) => Some(*l), None => None }, 51),
{
    at(language, 51)
}

/// The line `keys.flip_across`.
pub fn keys_flip_across() -> (r: &'static str)
    ensures
        r@ == "Flip left to right"@,
{
    "Flip left to right"
}

/// The line `keys.flip_across` in the language the DM picked, or in English where that
/// language has none.
pub fn keys_flip_across_in(language: Option<&Language>) -> (r: &'static str)
    requires
        language matches Some(l) ==> l.whole(),
    ensures
        r@ == line_at(match language { Some(l) => Some(*l), None => None }, 52),
{
    at(language, 52)
}

/// The line `keys.flip_down`.
pub fn keys_flip_down() -> (r: &'static str)
    ensures
        r@ == "Flip top to bottom"@,
{
    "Flip top to bottom"
}

/// The line `keys.flip_down` in the language the DM picked, or in English where that
/// language has none.
pub fn keys_flip_down_in(language: Option<&Language>) -> (r: &'static str)
    requires
        language matches Some(l) ==> l.whole(),
    ensures
        r@ == line_at(match language { Some(l) => Some(*l), None => None }, 53),
{
    at(language, 53)
}

/// The line `keys.grow`.
pub fn keys_grow() -> (r: &'static str)
    ensures
        r@ == "Grow a tenth"@,
{
    "Grow a tenth"
}

/// The line `keys.grow` in the language the DM picked, or in English where that
/// language has none.
pub fn keys_grow_in(language: Option<&Language>) -> (r: &'static str)
    requires
        language matches Some(l) ==> l.whole(),
    ensures
        r@ == line_at(match language { Some(l) => Some(*l), None => None }, 54),
{
    at(language, 54)
}

/// The line `keys.shrink`.
pub fn keys_shrink() -> (r: &'static str)
    ensures
        r@ == "Shrink a tenth"@,
{
    "Shrink a tenth"
}

/// The line `keys.shrink` in the language the DM picked, or in English where that
/// language has none.
pub fn keys_shrink_in(language: Option<&Language>) -> (r: &'static str)
    requires
        language matches Some(l) ==> l.whole(),
    ensures
        r@ == line_at(match language { Some(l) => Some(*l), None => None }, 55),
{
    at(language, 55)
}

/// The line `keys.raise`.
pub fn keys_raise() -> (r: &'static str)
    ensures
        r@ == "Up the stack"@,
{
    "Up the stack"
}

/// The line `keys.raise` in the language the DM picked, or in English where that
/// language has none.
pub fn keys_raise_in(language: Option<&Language>) -> (r: &'static str)
    requires
        language matches Some(l) ==> l.whole(),
    ensures
        r@ == line_at(match language { Some(l) => Some(*l), None => None }, 56),
{
    at(language, 56)
}

/// The line `keys.lower`.
pub fn keys_lower() -> (r: &'static str)
    ensures
        r@ == "Down the stack"@,
{
    "Down the stack"
}

/// The line `keys.lower` in the language the DM picked, or in English where that
/// language has none.
pub fn keys_lower_in(language: Option<&Language>) -> (r: &'static str)
    requires
        language matches Some(l) ==> l.whole(),
    ensures
        r@ == line_at(match language { Some(l) => Some(*l), None => None }, 57),
{
    at(language, 57)
}

/// The line `keys.delete`.
pub fn keys_delete() -> (r: &'static str)
    ensures
        r@ == "Delete"@,
{
    "Delete"
}

/// The line `keys.delete` in the language the DM picked, or in English where that
/// language has none.
pub fn keys_delete_in(language: Option<&Language>) -> (r: &'static str)
    requires
        language matches Some(l) ==> l.whole(),
    ensures
        r@ == line_at(match language { Some(l) => Some(*l), None => None }, 58),
{
    at(language, 58)
}

/// The line `keys.box_left`.
pub fn keys_box_left() -> (r: &'static str)
    ensures
        r@ == "Box one cell left"@,
{
    "Box one cell left"
}

/// The line `keys.box_left` in the language the DM picked, or in English where that
/// language has none.
pub fn keys_box_left_in(language: Option<&Language>) -> (r: &'static str)
    requires
        language matches Some(l) ==> l.whole(),
    ensures
        r@ == line_at(match language { Some(l) => Some(*l), None => None }, 59),
{
    at(language, 59)
}

/// The line `keys.box_right`.
pub fn keys_box_right() -> (r: &'static str)
    ensures
        r@ == "Box one cell right"@,
{
    "Box one cell right"
}

/// The line `keys.box_right` in the language the DM picked, or in English where that
/// language has none.
pub fn keys_box_right_in(language: Option<&Language>) -> (r: &'static str)
    requires
        language matches Some(l) ==> l.whole(),
    ensures
        r@ == line_at(match language { Some(l) => Some(*l), None => None }, 60),
{
    at(language, 60)
}

/// The line `keys.box_up`.
pub fn keys_box_up() -> (r: &'static str)
    ensures
        r@ == "Box one cell up"@,
{
    "Box one cell up"
}

/// The line `keys.box_up` in the language the DM picked, or in English where that
/// language has none.
pub fn keys_box_up_in(language: Option<&Language>) -> (r: &'static str)
    requires
        language matches Some(l) ==> l.whole(),
    ensures
        r@ == line_at(match language { Some(l) => Some(*l), None => None }, 61),
{
    at(language, 61)
}

/// The line `keys.box_down`.
pub fn keys_box_down() -> (r: &'static str)
    ensures
        r@ == "Box one cell down"@,
{
    "Box one cell down"
}

/// The line `keys.box_down` in the language the DM picked, or in English where that
/// language has none.
pub fn keys_box_down_in(language: Option<&Language>) -> (r: &'static str)
    requires
        language matches Some(l) ==> l.whole(),
    ensures
        r@ == line_at(match language { Some(l) => Some(*l), None => None }, 62),
{
    at(language, 62)
}

/// The line `keys.group.every`.
pub fn keys_group_every() -> (r: &'static str)
    ensures
        r@ == "Every view"@,
{
    "Every view"
}

/// The line `keys.group.every` in the language the DM picked, or in English where that
/// language has none.
pub fn keys_group_every_in(language: Option<&Language>) -> (r: &'static str)
    requires
        language matches Some(l) ==> l.whole(),
    ensures
        r@ == line_at(match language { Some(l) => Some(*l), None => None }, 63),
{
    at(language, 63)
}

/// The line `keys.group.select`.
pub fn keys_group_select() -> (r: &'static str)
    ensures
        r@ == "Select"@,
{
    "Select"
}

/// The line `keys.group.select` in the language the DM picked, or in English where that
/// language has none.
pub fn keys_group_select_in(language: Option<&Language>) -> (r: &'static str)
    requires
        language matches Some(l) ==> l.whole(),
    ensures
        r@ == line_at(match language { Some(l) => Some(*l), None => None }, 64),
{
    at(language, 64)
}

/// The line `keys.group.draw`.
pub fn keys_group_draw() -> (r: &'static str)
    ensures
        r@ == "Draw"@,
{
    "Draw"
}

/// The line `keys.group.draw` in the language the DM picked, or in English where that
/// language has none.
pub fn keys_group_draw_in(language: Option<&Language>) -> (r: &'static str)
    requires
        language matches Some(l) ==> l.whole(),
    ensures
        r@ == line_at(match language { Some(l) => Some(*l), None => None }, 65),
{
    at(language, 65)
}

/// The line `keys.group.table`.
pub fn keys_group_table() -> (r: &'static str)
    ensures
        r@ == "Table"@,
{
    "Table"
}

/// The line `keys.group.table` in the language the DM picked, or in English where that
/// language has none.
pub fn keys_group_table_in(language: Option<&Language>) -> (r: &'static str)
    requires
        language matches Some(l) ==> l.whole(),
    ensures
        r@ == line_at(match language { Some(l) => Some(*l), None => None }, 66),
{
    at(language, 66)
}

/// The line `keys.fixed.escape`.
pub fn keys_fixed_escape() -> (r: &'static str)
    ensures
        r@ == "Give up a measure or a dialog"@,
{
    "Give up a measure or a dialog"
}

/// The line `keys.fixed.escape` in the language the DM picked, or in English where that
/// language has none.
pub fn keys_fixed_escape_in(language: Option<&Language>) -> (r: &'static str)
    requires
        language matches Some(l) ==> l.whole(),
    ensures
        r@ == line_at(match language { Some(l) => Some(*l), None => None }, 67),
{
    at(language, 67)
}

/// The line `keys.fixed.pan`.
pub fn keys_fixed_pan() -> (r: &'static str)
    ensures
        r@ == "Pan the canvas"@,
{
    "Pan the canvas"
}

/// The line `keys.fixed.pan` in the language the DM picked, or in English where that
/// language has none.
pub fn keys_fixed_pan_in(language: Option<&Language>) -> (r: &'static str)
    requires
        language matches Some(l) ==> l.whole(),
    ensures
        r@ == line_at(match language { Some(l) => Some(*l), None => None }, 68),
{
    at(language, 68)
}

/// The line `keys.fixed.field`.
pub fn keys_fixed_field() -> (r: &'static str)
    ensures
        r@ == "Text fields"@,
{
    "Text fields"
}

/// The line `keys.fixed.field` in the language the DM picked, or in English where that
/// language has none.
pub fn keys_fixed_field_in(language: Option<&Language>) -> (r: &'static str)
    requires
        language matches Some(l) ==> l.whole(),
    ensures
        r@ == line_at(match language { Some(l) => Some(*l), None => None }, 69),
{
    at(language, 69)
}

/// The line `stroke.pen`.
pub fn stroke_pen() -> (r: &'static str)
    ensures
        r@ == "Pen"@,
{
    "Pen"
}

/// The line `stroke.pen` in the language the DM picked, or in English where that
/// language has none.
pub fn stroke_pen_in(language: Option<&Language>) -> (r: &'static str)
    requires
        language matches Some(l) ==> l.whole(),
    ensures
        r@ == line_at(match language { Some(l) => Some(*l), None => None }, 70),
{
    at(language, 70)
}

/// The line `stroke.line`.
pub fn stroke_line() -> (r: &'static str)
    ensures
        r@ == "Line"@,
{
    "Line"
}

/// The line `stroke.line` in the language the DM picked, or in English where that
/// language has none.
pub fn stroke_line_in(language: Option<&Language>) -> (r: &'static str)
    requires
        language matches Some(l) ==> l.whole(),
    ensures
        r@ == line_at(match language { Some(l) => Some(*l), None => None }, 71),
{
    at(language, 71)
}

/// The line `stroke.rect`.
pub fn stroke_rect() -> (r: &'static str)
    ensures
        r@ == "Box"@,
{
    "Box"
}

/// The line `stroke.rect` in the language the DM picked, or in English where that
/// language has none.
pub fn stroke_rect_in(language: Option<&Language>) -> (r: &'static str)
    requires
        language matches Some(l) ==> l.whole(),
    ensures
        r@ == line_at(match language { Some(l) => Some(*l), None => None }, 72),
{
    at(language, 72)
}

/// The line `stroke.ellipse`.
pub fn stroke_ellipse() -> (r: &'static str)
    ensures
        r@ == "Ellipse"@,
{
    "Ellipse"
}

/// The line `stroke.ellipse` in the language the DM picked, or in English where that
/// language has none.
pub fn stroke_ellipse_in(language: Option<&Language>) -> (r: &'static str)
    requires
        language matches Some(l) ==> l.whole(),
    ensures
        r@ == line_at(match language { Some(l) => Some(*l), None => None }, 73),
{
    at(language, 73)
}

/// The line `stroke.measure`.
pub fn stroke_measure() -> (r: &'static str)
    ensures
        r@ == "Measure"@,
{
    "Measure"
}

/// The line `stroke.measure` in the language the DM picked, or in English where that
/// language has none.
pub fn stroke_measure_in(language: Option<&Language>) -> (r: &'static str)
    requires
        language matches Some(l) ==> l.whole(),
    ensures
        r@ == line_at(match language { Some(l) => Some(*l), None => None }, 74),
{
    at(language, 74)
}

/// The line `stroke.burst`.
pub fn stroke_burst() -> (r: &'static str)
    ensures
        r@ == "Burst"@,
{
    "Burst"
}

/// The line `stroke.burst` in the language the DM picked, or in English where that
/// language has none.
pub fn stroke_burst_in(language: Option<&Language>) -> (r: &'static str)
    requires
        language matches Some(l) ==> l.whole(),
    ensures
        r@ == line_at(match language { Some(l) => Some(*l), None => None }, 75),
{
    at(language, 75)
}

/// The line `stroke.cone`.
pub fn stroke_cone() -> (r: &'static str)
    ensures
        r@ == "Cone"@,
{
    "Cone"
}

/// The line `stroke.cone` in the language the DM picked, or in English where that
/// language has none.
pub fn stroke_cone_in(language: Option<&Language>) -> (r: &'static str)
    requires
        language matches Some(l) ==> l.whole(),
    ensures
        r@ == line_at(match language { Some(l) => Some(*l), None => None }, 76),
{
    at(language, 76)
}

/// The line `stroke.beam`.
pub fn stroke_beam() -> (r: &'static str)
    ensures
        r@ == "Beam"@,
{
    "Beam"
}

/// The line `stroke.beam` in the language the DM picked, or in English where that
/// language has none.
pub fn stroke_beam_in(language: Option<&Language>) -> (r: &'static str)
    requires
        language matches Some(l) ==> l.whole(),
    ensures
        r@ == line_at(match language { Some(l) => Some(*l), None => None }, 77),
{
    at(language, 77)
}

/// The line `ruler.euclid`.
pub fn ruler_euclid() -> (r: &'static str)
    ensures
        r@ == "Euclidean"@,
{
    "Euclidean"
}

/// The line `ruler.euclid` in the language the DM picked, or in English where that
/// language has none.
pub fn ruler_euclid_in(language: Option<&Language>) -> (r: &'static str)
    requires
        language matches Some(l) ==> l.whole(),
    ensures
        r@ == line_at(match language { Some(l) => Some(*l), None => None }, 78),
{
    at(language, 78)
}

/// The line `ruler.fifth`.
pub fn ruler_fifth() -> (r: &'static str)
    ensures
        r@ == "D&D 5e"@,
{
    "D&D 5e"
}

/// The line `ruler.fifth` in the language the DM picked, or in English where that
/// language has none.
pub fn ruler_fifth_in(language: Option<&Language>) -> (r: &'static str)
    requires
        language matches Some(l) ==> l.whole(),
    ensures
        r@ == line_at(match language { Some(l) => Some(*l), None => None }, 79),
{
    at(language, 79)
}

/// The line `ruler.pathfinder`.
pub fn ruler_pathfinder() -> (r: &'static str)
    ensures
        r@ == "Pathfinder"@,
{
    "Pathfinder"
}

/// The line `ruler.pathfinder` in the language the DM picked, or in English where that
/// language has none.
pub fn ruler_pathfinder_in(language: Option<&Language>) -> (r: &'static str)
    requires
        language matches Some(l) ==> l.whole(),
    ensures
        r@ == line_at(match language { Some(l) => Some(*l), None => None }, 80),
{
    at(language, 80)
}

/// The line `ruler.manhattan`.
pub fn ruler_manhattan() -> (r: &'static str)
    ensures
        r@ == "Manhattan"@,
{
    "Manhattan"
}

/// The line `ruler.manhattan` in the language the DM picked, or in English where that
/// language has none.
pub fn ruler_manhattan_in(language: Option<&Language>) -> (r: &'static str)
    requires
        language matches Some(l) ==> l.whole(),
    ensures
        r@ == line_at(match language { Some(l) => Some(*l), None => None }, 81),
{
    at(language, 81)
}

/// The line `ruler.hexes`.
pub fn ruler_hexes() -> (r: &'static str)
    ensures
        r@ == "Hexes"@,
{
    "Hexes"
}

/// The line `ruler.hexes` in the language the DM picked, or in English where that
/// language has none.
pub fn ruler_hexes_in(language: Option<&Language>) -> (r: &'static str)
    requires
        language matches Some(l) ==> l.whole(),
    ensures
        r@ == line_at(match language { Some(l) => Some(*l), None => None }, 82),
{
    at(language, 82)
}

} // verus!
