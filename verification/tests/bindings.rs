use dmap::bindings::{defaults, fixed, Chord, Key, Keys, Modifiers};
use dmap::chord_text::{key_for_code, key_name, parse_chord, read_stored};
use dmap::keys::{actions, Action, Taken};

use std::collections::BTreeMap;

fn held(shift: bool, ctrl: bool) -> Modifiers {
    Modifiers { command: ctrl, shift, alt: false }
}

const NONE: Modifiers = Modifiers { command: false, shift: false, alt: false };

/// A key no default and no rule names, standing for `B`.
const B: Key = Key::Other(1);

#[test]
fn both_plus_keys_grow() {
    let keys = Keys::new();
    let all = actions();
    let numpad = keys.action_of(Key::Plus, NONE, false, &all);
    let main_row = keys.action_of(Key::Equals, NONE, false, &all);
    let shifted = keys.action_of(Key::Plus, held(true, false), false, &all);
    assert_eq!(numpad, Some(Action::Grow));
    assert_eq!(main_row, Some(Action::Grow));
    assert_eq!(shifted, Some(Action::Grow));
}

#[test]
fn shift_turns_one_flip_into_the_other() {
    let keys = Keys::new();
    let all = actions();
    let across = keys.action_of(Key::F, NONE, false, &all);
    let down = keys.action_of(Key::F, held(true, false), false, &all);
    assert_eq!(across, Some(Action::FlipAcross));
    assert_eq!(down, Some(Action::FlipDown));
}

#[test]
fn redo_and_undo_do_not_share_a_press() {
    let keys = Keys::new();
    let all = actions();
    let undo = held(false, true);
    let redo = held(true, true);
    assert_eq!(keys.action_of(Key::Z, undo, false, &all), Some(Action::Undo));
    assert_eq!(keys.action_of(Key::Z, redo, false, &all), Some(Action::Redo));
}

#[test]
fn a_held_key_repeats_the_arrows_alone() {
    let keys = Keys::new();
    let all = actions();
    assert_eq!(keys.action_of(Key::R, NONE, true, &all), None);
    assert_eq!(keys.action_of(Key::ArrowLeft, NONE, true, &all), Some(Action::BoxLeft));
}

#[test]
fn a_key_another_control_holds_is_refused() {
    let mut keys = Keys::new();
    let taken = keys.set(Action::Freeze, Chord::plain(Key::R));
    assert_eq!(taken, Err(Taken::By(Action::Turn)));
    assert_eq!(keys.of(Action::Freeze), vec![Chord::plain(Key::P)]);
}

#[test]
fn a_fixed_key_is_refused() {
    let mut keys = Keys::new();
    let taken = keys.set(Action::Freeze, Chord::plain(Key::Space));
    assert!(matches!(taken, Err(Taken::Fixed(_))));
    assert_eq!(taken, Err(Taken::Fixed("Pan the canvas")));
    assert!(keys.is_default());
}

#[test]
fn a_new_key_replaces_the_old_one() {
    let mut keys = Keys::new();
    assert_eq!(keys.set(Action::Freeze, Chord::plain(B)), Ok(()));
    let all = actions();
    assert_eq!(keys.action_of(B, NONE, false, &all), Some(Action::Freeze));
    assert_eq!(keys.action_of(Key::P, NONE, false, &all), None);
    keys.reset();
    assert!(keys.is_default());
    assert_eq!(keys.action_of(Key::P, NONE, false, &all), Some(Action::Freeze));
}

#[test]
fn the_default_key_again_leaves_nothing_in_the_file() {
    let mut keys = Keys::new();
    keys.set(Action::Turn, Chord::plain(B)).unwrap();
    keys.set(Action::Turn, Chord::plain(Key::R)).unwrap();
    assert!(keys.is_default());
    assert!(keys.entries().is_empty());
}

#[test]
fn a_chosen_key_goes_to_the_file_and_comes_back() {
    let mut keys = Keys::new();
    let chord = Chord { shift: true, ..Chord::ctrl(Key::Other(7)) };
    keys.set(Action::Freeze, chord).unwrap();
    let entries = keys.entries();
    assert_eq!(entries, vec![(Action::Freeze, vec![chord])]);
    let back = Keys::from_entries(entries);
    assert_eq!(back.of(Action::Freeze), vec![chord]);
    assert_eq!(back.of(Action::Turn), vec![Chord::plain(Key::R)]);
}

#[test]
fn a_control_with_no_key_left_in_the_file_keeps_its_default() {
    // A key this version cannot read drops out, and the control it left
    // with nothing takes its default back.
    let back = Keys::from_entries(vec![(Action::Freeze, Vec::new()), (Action::Turn, vec![Chord::plain(B)])]);
    assert_eq!(back.of(Action::Freeze), vec![Chord::plain(Key::P)]);
    assert_eq!(back.of(Action::Turn), vec![Chord::plain(B)]);
}

#[test]
fn redo_and_delete_answer_to_two_keys() {
    assert_eq!(
        defaults(Action::Redo),
        vec![Chord { shift: true, ..Chord::ctrl(Key::Z) }, Chord::ctrl(Key::Y)]
    );
    assert_eq!(
        defaults(Action::Delete),
        vec![Chord::plain(Key::Delete), Chord::plain(Key::Backspace)]
    );
    assert_eq!(fixed(Chord::plain(Key::Tab)), Some("Text fields"));
    assert_eq!(fixed(Chord::plain(Key::Z)), None);
}

#[test]
fn a_symbol_that_takes_shift_answers_either_way() {
    assert_eq!(
        Chord::of(Key::Questionmark, held(true, false)),
        Chord::plain(Key::Questionmark)
    );
    assert!(Chord::plain(Key::Questionmark).made_by(Key::Questionmark, held(true, false)));
    assert!(!Chord::plain(Key::F).made_by(Key::F, held(true, false)));
}

/// The key a name of the keyboard layer stands for, among the few keys
/// these tests write by name.
fn key_named(name: &str) -> Option<Key> {
    match name {
        "B" => Some(B),
        "K" => Some(Key::Other(11)),
        "Z" => Some(Key::Z),
        "P" => Some(Key::P),
        "Plus" => Some(Key::Plus),
        _ => None,
    }
}

/// The control a name of the config file stands for, among the few these
/// tests write.
fn action_named(name: &str) -> Action {
    match name {
        "freeze" => Action::Freeze,
        "turn" => Action::Turn,
        other => panic!("no control named {other}"),
    }
}

/// Reads the keys a config file holds, as the program does: a chord it
/// cannot read drops out.
fn keys_from_file(json: &str) -> Keys {
    let stored: BTreeMap<String, Vec<String>> = serde_json::from_str(json).unwrap();
    let mut entries = Vec::new();
    for (action, chords) in stored {
        let mut read = Vec::new();
        for text in chords {
            if let Some((held, name)) = read_stored(&text) {
                if let Some(key) = key_named(&name) {
                    read.push(Chord::of(key, held));
                }
            }
        }
        entries.push((action_named(&action), read));
    }
    Keys::from_entries(entries)
}

#[test]
fn the_config_file_keeps_a_chosen_key() {
    let mut keys = Keys::new();
    let chord = Chord { shift: true, ..Chord::ctrl(Key::Other(11)) };
    keys.set(Action::Freeze, chord).unwrap();
    let mut stored: BTreeMap<&str, Vec<String>> = BTreeMap::new();
    for (action, chords) in keys.entries() {
        assert_eq!(action, Action::Freeze);
        stored.insert("freeze", chords.iter().map(|c| c.stored("K")).collect());
    }
    let json = serde_json::to_string(&stored).unwrap();
    assert_eq!(json, r#"{"freeze":["Ctrl+Shift+K"]}"#);
    let back = keys_from_file(&json);
    assert_eq!(back.entries(), keys.entries());
}

#[test]
fn a_key_this_version_cannot_read_drops_out() {
    let back = keys_from_file(r#"{"freeze":["Hyper+Q"],"turn":["B"]}"#);
    assert_eq!(back.of(Action::Freeze), vec![Chord::plain(Key::P)]);
    assert_eq!(back.of(Action::Turn), vec![Chord::plain(B)]);
}

#[test]
fn the_list_names_a_chord_as_the_dm_reads_it() {
    let chord = Chord { shift: true, ..Chord::ctrl(Key::Z) };
    assert_eq!(chord.shown(key_name(Key::Z, "Z")), "Ctrl + Shift + Z");
}

#[test]
fn a_stored_chord_reads_its_modifiers_in_any_order() {
    let (held, name) = read_stored("Alt+Ctrl+Z").unwrap();
    assert_eq!(held, Modifiers { command: true, shift: false, alt: true });
    assert_eq!(name, "Z");
    let (held, name) = read_stored("Space").unwrap();
    assert_eq!(held, NONE);
    assert_eq!(name, "Space");
    assert_eq!(read_stored("Ctrl+Meta+Z"), None);
    assert_eq!(read_stored("ctrl+Z"), None);
}

#[test]
fn a_stored_chord_reads_back_as_it_was_written() {
    let chord = Chord { ctrl: true, shift: false, alt: true, key: Key::Other(11) };
    let text = chord.stored("K");
    assert_eq!(text, "Ctrl+Alt+K");
    let (held, name) = read_stored(&text).unwrap();
    assert_eq!(held, Modifiers { command: true, shift: false, alt: true });
    assert_eq!(Chord::of(key_named(&name).unwrap(), held), chord);
}

#[test]
fn a_shifted_symbol_in_the_file_loses_its_shift() {
    let (held, name) = read_stored("Shift+Plus").unwrap();
    assert_eq!(Chord::of(key_named(&name).unwrap(), held), Chord::plain(Key::Plus));
}

#[test]
fn four_keys_get_names_of_their_own_in_the_list() {
    assert_eq!(key_name(Key::PageUp, "PageUp"), "Page Up");
    assert_eq!(key_name(Key::PageDown, "PageDown"), "Page Down");
    assert_eq!(key_name(Key::Backspace, "Backspace"), "Backspace");
    assert_eq!(key_name(Key::Delete, "Delete"), "Delete");
    assert_eq!(key_name(Key::Questionmark, "?"), "?");
    assert_eq!(Chord::plain(Key::PageUp).shown(key_name(Key::PageUp, "PageUp")), "Page Up");
}

#[test]
fn a_stored_chord_reads_through_the_names_egui_knows() {
    let k = key_for_code(egui::Key::K as u32);
    assert_eq!(k, Key::Other(egui::Key::K as u32));
    assert_eq!(parse_chord("Ctrl+Shift+K"), Some(Chord { shift: true, ..Chord::ctrl(k) }));
    assert_eq!(parse_chord("Hyper+Q"), None);
    assert_eq!(parse_chord("Ctrl+Nothing"), None);
    assert_eq!(parse_chord("B"), Some(Chord::plain(key_for_code(egui::Key::B as u32))));
    assert_eq!(parse_chord("Shift+Plus"), Some(Chord::plain(Key::Plus)));
    assert_eq!(parse_chord("Ctrl+Z"), Some(Chord::ctrl(Key::Z)));
    assert_eq!(parse_chord("PageUp"), Some(Chord::plain(Key::PageUp)));
    assert_eq!(key_for_code(egui::Key::Escape as u32), Key::Escape);
    assert_eq!(key_for_code(egui::Key::Equals as u32), Key::Equals);
}

#[test]
fn the_choices_list_in_the_order_of_the_controls() {
    let mut keys = Keys::new();
    keys.set(Action::Turn, Chord::plain(B)).unwrap();
    keys.set(Action::Undo, Chord::plain(Key::Other(77))).unwrap();
    let entries = keys.entries();
    assert_eq!(entries, vec![
        (Action::Undo, vec![Chord::plain(Key::Other(77))]),
        (Action::Turn, vec![Chord::plain(B)]),
    ]);
}

#[test]
fn a_chord_is_written_and_named_with_the_names_egui_gives() {
    let redo = Chord { shift: true, ..Chord::ctrl(Key::Z) };
    assert_eq!(dmap::chord_text::stored_chord(redo), Some("Ctrl+Shift+Z".to_owned()));
    assert_eq!(dmap::chord_text::chord_label(redo), Some("Ctrl + Shift + Z".to_owned()));
    let k = key_for_code(egui::Key::K as u32);
    assert_eq!(dmap::chord_text::stored_chord(Chord::ctrl(k)), Some("Ctrl+K".to_owned()));
    assert_eq!(dmap::chord_text::chord_label(Chord::plain(Key::PageUp)), Some("Page Up".to_owned()));
    assert_eq!(dmap::chord_text::stored_chord(Chord::plain(Key::PageUp)), Some("PageUp".to_owned()));
    assert_eq!(dmap::chord_text::chord_label(Chord::plain(Key::Plus)), Some("+".to_owned()));
    assert_eq!(dmap::chord_text::stored_chord(Chord::plain(Key::Other(100_000))), None);
    let back = parse_chord(&dmap::chord_text::stored_chord(redo).unwrap());
    assert_eq!(back, Some(redo));
}
