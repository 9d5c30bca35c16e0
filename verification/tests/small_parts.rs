use dmap::config::{default_ink_color, yes};
use dmap::grid::Kind;
use dmap::keys::{actions, Action, Group, Taken};
use dmap::lines::Way;
use dmap::names::{default_scenes_dir, remember, scene_dir, scene_name, window_title};
use dmap::project::{Project, TvPlacement};
use dmap::stroke::{Icon, Ink, Rule};
use dmap::theme::Mode;

#[test]
fn a_new_config_points_at_the_scenes_folder_in_the_home_folder() {
    assert_eq!(default_scenes_dir("/home/dm"), "/home/dm/dmap/scenes");
}

#[test]
fn a_scene_sits_in_a_folder_of_its_own_name() {
    assert_eq!(scene_dir("/campaign/scenes", "The Crypt"), "/campaign/scenes/The Crypt");
}

#[test]
fn a_scene_somewhere_else_keeps_its_whole_path() {
    assert_eq!(scene_dir("/campaign/scenes", "/tmp/one-off scene"), "/tmp/one-off scene");
}

#[test]
fn a_scene_in_the_scenes_folder_is_remembered_by_name() {
    assert_eq!(remember("/campaign/scenes", "/campaign/scenes/The Crypt"), "The Crypt");
    assert_eq!(remember("/campaign/scenes", "/tmp/one-off scene"), "/tmp/one-off scene");
}

#[test]
fn the_window_title_names_the_open_scene() {
    assert_eq!(scene_name("/campaign/scenes/The Crypt"), "The Crypt");
    assert_eq!(window_title("/campaign/scenes/The Crypt"), "dmap: The Crypt");
    // A path that names no folder reads as a scene.
    assert_eq!(scene_name("/"), "scene");
}

#[test]
fn a_first_run_draws_in_opaque_accent_red_and_snaps() {
    assert_eq!(default_ink_color(), [0xC4, 0x3E, 0x1C, 0xFF]);
    assert!(yes());
}

#[test]
fn only_an_effect_fills_and_reaches() {
    assert!(Ink::Burst.filled() && Ink::Cone.filled() && Ink::Beam.filled());
    assert!(!Ink::Pen.filled() && !Ink::Rect.filled() && !Ink::Measure.filled());
}

#[test]
fn only_a_beam_takes_a_second_drag() {
    assert!(Ink::Beam.spans());
    assert!(!Ink::Burst.spans() && !Ink::Cone.spans() && !Ink::Pen.spans());
}

#[test]
fn each_ink_has_its_glyph_and_its_name() {
    assert_eq!(Ink::Pen.glyph(), Icon::Pencil);
    assert_eq!(Ink::Beam.glyph(), Icon::Minus);
    assert_eq!(Ink::Burst.glyph(), Icon::Circle);
    assert_eq!(Ink::Cone.glyph(), Icon::Triangle);
    assert_eq!(Ink::Measure.glyph(), Icon::Ruler);
    assert_eq!(Ink::Rect.name(), "Box");
    assert_eq!(Ink::Cone.name(), "Cone");
}

#[test]
fn a_hex_grid_offers_the_line_and_the_walk() {
    // The three rules that walk a hex grid agree, so the DM picks
    // between two.
    let offered = Rule::all_on(Kind::HexPointyTop, Rule::Pathfinder);
    assert_eq!(offered, vec![Rule::Euclid, Rule::Pathfinder]);
    assert_eq!(
        Rule::Pathfinder.name_on(Kind::HexPointyTop),
        Rule::Fifth.name_on(Kind::HexPointyTop)
    );
    assert_eq!(Rule::Euclid.name_on(Kind::HexPointyTop), Rule::Euclid.name());
}

#[test]
fn a_dm_on_the_straight_line_walks_by_the_common_rule() {
    assert_eq!(
        Rule::all_on(Kind::HexPointyTop, Rule::Euclid),
        vec![Rule::Euclid, Rule::Fifth]
    );
}

#[test]
fn a_grid_of_squares_offers_every_rule() {
    assert_eq!(Rule::all_on(Kind::Square, Rule::Euclid), Rule::all().to_vec());
    for rule in Rule::all() {
        assert_eq!(rule.name_on(Kind::Square), rule.name());
    }
}

#[test]
fn the_rules_read_in_the_order_of_the_panel() {
    assert_eq!(
        Rule::all(),
        [Rule::Euclid, Rule::Fifth, Rule::Pathfinder, Rule::Manhattan]
    );
    assert_eq!(Rule::Fifth.name(), "D&D 5e");
    assert_eq!(Rule::Euclid.name_on(Kind::HexFlatTop), "Euclidean");
    assert_eq!(Rule::Manhattan.name_on(Kind::HexFlatTop), "Hexes");
    assert_eq!(Rule::default(), Rule::Euclid);
}

#[test]
fn a_grid_of_no_lines_has_nothing_to_snap_to() {
    assert!(Kind::Square.snaps());
    assert!(Kind::HexFlatTop.snaps());
    assert!(!Kind::Blank.snaps());
    assert!(Kind::HexPointyTop.is_hex() && !Kind::Square.is_hex());
    assert_eq!(Kind::default(), Kind::Square);
}

#[test]
fn the_light_theme_is_the_default() {
    assert_eq!(Mode::default(), Mode::Light);
    assert_eq!(Mode::Light.label(), "Light");
    assert_eq!(Mode::Dark.label(), "Dark");
}

#[test]
fn a_new_project_opens_the_tv_on_its_own_display() {
    assert_eq!(Project::default(), Project { tv_display: TvPlacement::Auto });
    assert_eq!(TvPlacement::default(), TvPlacement::Auto);
    assert_ne!(Way::Down, Way::Across);
}

#[test]
fn every_control_has_a_name_and_a_place() {
    let all = actions();
    assert_eq!(all.len(), 20);
    assert_eq!(all[0], Action::Undo);
    assert_eq!(Action::Undo.label(), "Undo");
    assert_eq!(Action::FrameBox.label(), "Show the whole TV box");
    assert_eq!(Action::Undo.group(), Group::Every);
    assert_eq!(Action::Delete.group(), Group::Select);
    assert_eq!(Action::BoxUp.group(), Group::Table);
    assert_eq!(Group::Table.label(), "Table");
}

#[test]
fn only_the_arrows_repeat_when_held() {
    assert!(Action::BoxLeft.repeats() && Action::BoxDown.repeats());
    assert!(!Action::Turn.repeats() && !Action::Undo.repeats());
}

#[test]
fn a_refused_key_names_what_holds_it() {
    assert_eq!(Taken::By(Action::Turn).holder(), "Turn a quarter");
    assert_eq!(Taken::Fixed("Pan the canvas").holder(), "Pan the canvas");
}

#[test]
fn a_folder_of_one_plain_part_names_its_scene() {
    assert_eq!(scene_name("The Crypt"), "The Crypt");
    assert_eq!(scene_name(""), "scene");
}

#[test]
fn the_folder_itself_is_remembered_as_the_empty_path() {
    assert_eq!(remember("/campaign/scenes", "/campaign/scenes"), "");
    assert_eq!(dmap::names::relative_path("/campaign", "/campaign"), "");
}

#[test]
fn plain_names_are_kept_below_their_folder() {
    assert_eq!(remember("scenes", "scenes/The Crypt"), "The Crypt");
    assert_eq!(remember("scenes", "elsewhere"), "elsewhere");
    assert_eq!(dmap::names::relative_path("campaign", "campaign/crypt.png"), "crypt.png");
    assert_eq!(dmap::names::relative_path("campaign", "crypt.png"), "crypt.png");
    let dir = scene_dir("scenes", "The Crypt");
    assert!(dir == "scenes/The Crypt" || dir == "scenes\\The Crypt");
    assert_eq!(window_title("The Crypt"), "dmap: The Crypt");
}

#[test]
fn white_space_is_what_std_calls_white_space() {
    for code in 0..=0x10ffff_u32 {
        if let Some(c) = char::from_u32(code) {
            assert_eq!(dmap::names::is_space(c), c.is_whitespace(), "{code:#x}");
        }
    }
}

#[test]
fn absolute_folders_keep_what_lies_below_them() {
    assert_eq!(dmap::names::relative_path("/home/dm/campaign", "/home/dm/campaign/maps/crypt.png"), "maps/crypt.png");
    assert_eq!(dmap::names::relative_path("/home/dm/campaign", "/home/dm/campaignx/crypt.png"), "/home/dm/campaignx/crypt.png");
    assert_eq!(remember("/campaign/scenes", "/campaign/scenes/The Crypt"), "The Crypt");
    assert_eq!(remember("/campaign/scenes", "/campaign"), "/campaign");
    let dir = scene_dir("/campaign/scenes", "The Crypt");
    assert!(dir == "/campaign/scenes/The Crypt" || dir == "/campaign/scenes\\The Crypt");
    let home = default_scenes_dir("/home/dm");
    assert!(home == "/home/dm/dmap/scenes" || home == "/home/dm\\dmap/scenes");
}
