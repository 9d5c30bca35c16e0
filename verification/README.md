# dmap

The logic of dmap, a program that shows maps for a tabletop role-playing
game on a TV, written in Verus and proved against its contracts.

- `src/` is the library. Each public function states in `ensures` what it
  returns or changes, and Verus proves the body against it.
  - `scene/` holds the tree of a scene: finding nodes, moving, grouping,
    ordering and showing them, the changes the undo stack takes back, the
    repair of a tree read from a file, and the laws that tie these together.
  - `history.rs` is the undo stack, with its laws.
  - `bindings.rs`, `keys.rs` and `chord_text.rs` are the controls, their
    keys, and how a key reads in the config file.
  - `catalog.rs`, `language.rs` and `text.rs` are the words of the window
    and the languages.
  - `names.rs`, `paths.rs`, `images.rs` and `tv.rs` are the names of scenes
    and maps, the size an image keeps, and the choice of the TV display.
- `tests/` runs the library on concrete values.
- `app/` is the program around the library: files, the clock, the worker
  that reads images, and the JSON forms of the library's types.
