//! The logic of dmap: the scene tree and its edits, the undo stack, the
//! words of the window, scene names, and the small choices the program
//! makes between runs.

use vstd::prelude::*;

pub mod scene;
pub mod text;
pub mod catalog;
pub mod history;
pub mod paths;
pub mod names;
pub mod language;
pub mod images;
pub mod tv;
pub mod grid;
pub mod theme;
pub mod project;
pub mod lines;
pub mod stroke;
pub mod keys;
pub mod config;
pub mod bindings;
pub mod chord_text;

verus! {

} // verus!
