use std::io::Cursor;

use dmap::catalog::{english, keys};
use dmap::history::ago;
use dmap::images::{decode, shrink_to_fit};
use dmap::language::{language, languages, system_language};
use dmap::names::{free_name, free_scene_name, relative_path, valid_scene_name};
use dmap::scene::draw::dm_draw_order;
use dmap::scene::model::{Group, Leaf, Node, NodeId, Shown};
use dmap::scene::Scene;
use dmap::stroke::Ink;
use dmap::text::fill;
use dmap::tv::{display_label, pick_tv_display};

#[test]
fn a_step_says_how_long_ago_the_dm_made_it() {
    let now = 1_000_000;
    assert_eq!(ago(0, now), "earlier");
    assert_eq!(ago(now, now), "just now");
    assert_eq!(ago(now - 44, now), "just now");
    assert_eq!(ago(now - 45, now), "1 min ago");
    assert_eq!(ago(now - 600, now), "10 min ago");
    assert_eq!(ago(now - 5400, now), "2 h ago");
    assert_eq!(ago(now - 8 * 3600, now), "8 h ago");
    assert_eq!(ago(now - 86_400, now), "a day ago");
    assert_eq!(ago(now - 40 * 3600, now), "a day ago");
    assert_eq!(ago(now - 3 * 86_400, now), "3 days ago");
    // A clock that went back leaves a step in the future.
    assert_eq!(ago(now + 60, now), "just now");
}

#[test]
fn a_scene_name_stays_inside_the_scenes_folder() {
    assert!(valid_scene_name("The Crypt"));
    assert!(!valid_scene_name(""));
    assert!(!valid_scene_name("   "));
    assert!(!valid_scene_name(".."));
    assert!(!valid_scene_name("../secrets"));
    assert!(!valid_scene_name("maps/crypt"));
}

#[test]
fn a_second_scene_of_one_name_takes_a_number() {
    let taken = vec!["New scene".to_owned()];
    assert_eq!(free_scene_name("New scene", &taken), "New scene 2");
    assert_eq!(free_scene_name("The Crypt", &taken), "The Crypt");
}

fn png(width: u32, height: u32) -> Vec<u8> {
    let mut bytes = Vec::new();
    let image = image::RgbaImage::from_fn(width, height, |x, _| image::Rgba([x as u8, 0, 0, 255]));
    image
        .write_to(&mut Cursor::new(&mut bytes), image::ImageFormat::Png)
        .unwrap();
    bytes
}

#[test]
fn decodes_png_bytes_to_rgba() {
    let decoded = decode(&png(4, 2), 8192).unwrap();
    assert_eq!(decoded.size, (4, 2));
    assert_eq!(decoded.rgba.len(), 4 * 2 * 4);
    assert_eq!(&decoded.rgba[4..8], &[1, 0, 0, 255]);
}

#[test]
fn shrinks_an_image_larger_than_the_limit() {
    let decoded = decode(&png(40, 20), 16).unwrap();
    assert_eq!(decoded.size, (16, 8));
}

#[test]
fn rejects_bytes_that_are_not_an_image() {
    decode(b"not an image", 8192).unwrap_err();
}

#[test]
fn keeps_the_aspect_ratio_when_it_shrinks() {
    assert_eq!(shrink_to_fit((10000, 5000), 8192), (8192, 4096));
    assert_eq!(shrink_to_fit((5000, 10000), 8192), (4096, 8192));
    assert_eq!(shrink_to_fit((100, 50), 8192), (100, 50));
}

#[test]
fn a_map_file_inside_the_project_folder_is_stored_relative() {
    assert_eq!(
        relative_path("/home/dm/campaign", "/home/dm/campaign/maps/crypt.png"),
        "maps/crypt.png"
    );
}

#[test]
fn a_map_file_elsewhere_keeps_its_absolute_path() {
    assert_eq!(
        relative_path("/home/dm/campaign", "/mnt/maps/crypt.png"),
        "/mnt/maps/crypt.png"
    );
}

#[test]
fn scene_a_map_keeps_its_own_name_in_an_empty_folder() {
    assert_eq!(free_name("/maps/crypt.png", |_: &str| false), "crypt.png");
}

#[test]
fn scene_another_file_of_the_same_name_gets_a_number() {
    let taken = |name: &str| name == "crypt.png";
    assert_eq!(free_name("/maps/crypt.png", taken), "crypt 2.png");
    let taken = |name: &str| name == "crypt.png" || name == "crypt 2.png";
    assert_eq!(free_name("/maps/crypt.png", taken), "crypt 3.png");
}

#[test]
fn scene_a_file_with_no_extension_still_gets_a_name() {
    let taken = |name: &str| name == "crypt";
    assert_eq!(free_name("/maps/crypt", taken), "crypt 2");
}

#[test]
fn tests_a_map_keeps_its_own_name_in_an_empty_folder() {
    assert_eq!(free_name("/maps/crypt.png", |_: &str| false), "crypt.png");
}

#[test]
fn tests_another_file_of_the_same_name_gets_a_number() {
    let taken = |name: &str| name == "crypt.png";
    assert_eq!(free_name("/maps/crypt.png", taken), "crypt 2.png");
    let taken = |name: &str| name == "crypt.png" || name == "crypt 2.png";
    assert_eq!(free_name("/maps/crypt.png", taken), "crypt 3.png");
}

#[test]
fn tests_a_file_with_no_extension_still_gets_a_name() {
    let taken = |name: &str| name == "crypt";
    assert_eq!(free_name("/maps/crypt", taken), "crypt 2");
}

/// The file each map of the small scene stands for.
fn file_of(id: NodeId) -> String {
    match id {
        1 => "loose.png".to_owned(),
        3 => "secret.png".to_owned(),
        _ => format!("map {id}"),
    }
}

/// A scene with one map loose under the root and one inside a group.
fn scene_with_a_group() -> Scene {
    let mut scene = Scene::new();
    scene.root.children.push(Node::Asset(Leaf { id: 1, shown: Shown::both() }));
    let mut notes = Group::new(2, "Notes".to_owned());
    notes.children.push(Node::Asset(Leaf { id: 3, shown: Shown::both() }));
    scene.root.children.push(Node::Group(notes));
    scene
}

#[test]
fn tests_the_dm_sees_every_map_and_which_ones_reach_the_tv() {
    let scene = scene_with_a_group();
    let names: Vec<(String, bool)> = dm_draw_order(&scene)
        .into_iter()
        .map(|(id, on_tv)| (file_of(id), on_tv))
        .collect();
    assert_eq!(
        names,
        vec![
            ("loose.png".to_owned(), true),
            ("secret.png".to_owned(), true)
        ]
    );
}

#[test]
fn the_eraser_takes_an_effect_and_a_measure_whole() {
    assert!(Ink::Burst.whole() && Ink::Cone.whole() && Ink::Beam.whole());
    assert!(Ink::Measure.whole());
    assert!(!Ink::Pen.whole() && !Ink::Line.whole() && !Ink::Rect.whole());
}

#[test]
fn english_answers_for_every_key() {
    let keys = keys();
    let english = english();
    assert_eq!(keys.len(), english.len());
    assert!(!keys.is_empty());
    assert!(english.iter().all(|text| !text.is_empty()));
}

#[test]
fn english_is_the_first_language_and_names_itself() {
    let all = languages();
    let first = all.first().expect("the program carries English");
    assert_eq!(first.code, "en");
    assert_eq!(first.name, "English");
}

#[test]
fn a_language_the_program_lacks_is_not_found() {
    assert!(language("en").is_some());
    assert!(language("qq").is_none());
}

#[test]
fn a_place_takes_its_value_wherever_the_language_puts_it() {
    assert_eq!(fill("{a} and {b}", &[("a", "1"), ("b", "2")]), "1 and 2");
    assert_eq!(fill("{b} and {a}", &[("a", "1"), ("b", "2")]), "2 and 1");
    assert_eq!(fill("{a} twice {a}", &[("a", "x")]), "x twice x");
}

#[test]
fn a_place_no_one_fills_stays_as_it_stands() {
    assert_eq!(fill("{who} knows", &[("what", "1")]), "{who} knows");
    // A brace with no partner is text, not a place.
    assert_eq!(fill("100 % {", &[]), "100 % {");
}

#[test]
fn a_locale_gives_up_its_country_and_its_encoding() {
    assert_eq!(system_language("en_US.UTF-8"), Some("en"));
    assert_eq!(system_language("en"), Some("en"));
    assert_eq!(system_language("EN-gb"), Some("en"));
    assert_eq!(system_language("zz_ZZ"), None);
    assert_eq!(system_language(""), None);
}

#[test]
fn labels_a_display_with_its_name_and_size() {
    assert_eq!(
        display_label(Some("HDMI-1"), 3840, 2160),
        "HDMI-1 · 3840 × 2160"
    );
}

#[test]
fn labels_an_unnamed_display_generically() {
    assert_eq!(display_label(None, 1920, 1080), "Display · 1920 × 1080");
}

#[test]
fn picks_first_display_that_is_not_the_dm_display() {
    assert_eq!(pick_tv_display(&["a", "b", "c"], Some(&"a")), Some(1));
    assert_eq!(pick_tv_display(&["a", "b", "c"], Some(&"b")), Some(0));
}

#[test]
fn picks_first_display_when_dm_display_is_unknown() {
    assert_eq!(pick_tv_display(&["a", "b"], None), Some(0));
}

#[test]
fn picks_none_when_only_the_dm_display_exists() {
    assert_eq!(pick_tv_display(&["a"], Some(&"a")), None);
    assert_eq!(pick_tv_display::<&str>(&[], None), None);
}

#[test]
fn a_translation_names_the_keys_it_leaves_to_english() {
    let mut partial = language("en").unwrap();
    partial.strings[0] = None;
    partial.strings[3] = None;
    partial.strings[4] = Some("Eigene Zeile");
    let keys = dmap::catalog::keys();
    let english = dmap::catalog::english();
    assert_eq!(dmap::language::missing_keys(&partial), vec![keys[0], keys[3]]);
    assert!(dmap::language::missing_keys(&language("en").unwrap()).is_empty());
    assert_eq!(dmap::language::at(Some(&partial), 0), english[0]);
    assert_eq!(dmap::language::at(Some(&partial), 4), "Eigene Zeile");
    assert_eq!(dmap::language::at(None, 4), english[4]);
}

#[test]
fn a_shrunk_side_rounds_as_doubles_round_it() {
    // 11 × 15 / 22 is 7.5 exactly, but the double of 15 / 22 lies a little
    // under it, so the side rounds down.
    assert_eq!(shrink_to_fit((11, 22), 15), (7, 15));
    assert_eq!(shrink_to_fit((22, 11), 15), (15, 7));
    assert_eq!(shrink_to_fit((10, 20), 0), (0, 0));
    assert_eq!(shrink_to_fit((3, 4), 4), (3, 4));
}

#[test]
fn the_words_of_the_window_follow_the_language_the_dm_picked() {
    let keys = dmap::catalog::keys();
    let place = |key: &str| keys.iter().position(|k| *k == key).unwrap();
    let mut picked = language("en").unwrap();
    picked.strings[place("keys.undo")] = Some("Rückgängig");
    picked.strings[place("history.deed.add_map")] = Some("Karte dazu");
    picked.strings[place("keys.group.draw")] = Some("Zeichnen");
    picked.strings[place("keys.redo")] = None;
    let undo = dmap::keys::Action::Undo;
    assert_eq!(undo.label_in(Some(&picked)), "Rückgängig");
    assert_eq!(undo.label_in(None), "Undo");
    assert_eq!(dmap::keys::Action::Redo.label_in(Some(&picked)), "Redo");
    assert_eq!(dmap::catalog::keys_undo_in(Some(&picked)), "Rückgängig");
    assert_eq!(dmap::history::Deed::AddMap.word_in(Some(&picked)), "Karte dazu");
    assert_eq!(dmap::history::Deed::AddMap.word_in(None), "Add map");
    assert_eq!(dmap::keys::Group::Draw.label_in(Some(&picked)), "Zeichnen");
    assert_eq!(dmap::keys::Taken::By(undo).holder_in(Some(&picked)), "Rückgängig");
    assert_eq!(dmap::keys::Taken::Fixed("Pan the canvas").holder_in(Some(&picked)), "Pan the canvas");
}

#[test]
fn an_image_is_made_ready_for_the_screen() {
    let wide = image::DynamicImage::new_rgba8(20, 10);
    let ready = dmap::images::fit_image(wide, 8);
    assert_eq!(ready.size, (8, 4));
    assert_eq!(ready.rgba.len(), 8 * 4 * 4);
    let small = image::DynamicImage::new_rgb8(3, 2);
    let ready = dmap::images::fit_image(small, 8);
    assert_eq!(ready.size, (3, 2));
    assert_eq!(ready.rgba.len(), 3 * 2 * 4);
    assert!(ready.rgba.chunks(4).all(|pixel| pixel == [0, 0, 0, 255]));
}

#[test]
fn decoded_bytes_give_the_image_they_hold() {
    let mut picture = image::RgbaImage::new(30, 12);
    picture.put_pixel(0, 0, image::Rgba([10, 20, 30, 255]));
    let mut bytes = Vec::new();
    image::DynamicImage::ImageRgba8(picture)
        .write_to(&mut std::io::Cursor::new(&mut bytes), image::ImageFormat::Png)
        .unwrap();
    let decoded = decode(&bytes, 100).unwrap();
    assert_eq!(decoded.size, (30, 12));
    assert_eq!(&decoded.rgba[0..4], &[10, 20, 30, 255]);
    let shrunk = decode(&bytes, 15).unwrap();
    assert_eq!(shrunk.size, (15, 6));
    assert!(decode(&[], 100).is_err());
}
