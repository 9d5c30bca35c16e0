use dmap::scene::draw::{assets, dm_draw_order, draw_order, ink_order};
use dmap::scene::grouping::group_selection;
use dmap::scene::model::{Audience, Group, Leaf, Node, NodeId, ROOT_ID, Shown};
use dmap::scene::moves::{move_above, move_into, ungroup};
use dmap::scene::order::{reorder_all, share_parent};
use dmap::scene::select::{assets_of, group_names, has_stroke, ink_group, normalize, strokes_of};
use dmap::scene::{Scene, find, has_group, parent_of, path_of, path_to};

/// The file each map of the scenes below stands for.
fn file_of(id: NodeId) -> String {
    match id {
        1 => "loose.png".to_owned(),
        3 => "secret.png".to_owned(),
        _ => format!("map {id}"),
    }
}

fn map(id: NodeId) -> Node {
    Node::Asset(Leaf { id, shown: Shown::both() })
}

/// A scene with one map loose under the root and one inside a group.
fn scene_with_a_group() -> Scene {
    let mut scene = Scene::new();
    scene.root.children.push(map(1));
    let mut notes = Group::new(2, "Notes".to_owned());
    notes.children.push(map(3));
    scene.root.children.push(Node::Group(notes));
    scene
}

/// The name of each map the DM draws, with whether the TV shows it.
fn dm_names(scene: &Scene) -> Vec<(String, bool)> {
    dm_draw_order(scene)
        .into_iter()
        .map(|(id, on_tv)| (file_of(id), on_tv))
        .collect()
}

/// A root with a map, and a group holding a map.
fn nested() -> Scene {
    let mut scene = Scene::new();
    let mut notes = Group::new(2, "Notes".to_owned());
    notes.children.push(map(3));
    scene.root.children.push(map(1));
    scene.root.children.push(Node::Group(notes));
    scene
}

/// A root with two maps, and a group holding two more.
///
/// ```text
/// root
///   1 floor.png
///   2 wall.png
///   3 Notes
///       4 note.png
///       5 pin.png
/// ```
fn family() -> Scene {
    let mut scene = Scene::new();
    let mut notes = Group::new(3, "Notes".to_owned());
    for id in [4, 5] {
        notes.children.push(map(id));
    }
    for id in [1, 2] {
        scene.root.children.push(map(id));
    }
    scene.root.children.push(Node::Group(notes));
    scene
}

#[test]
fn scene_the_path_to_the_root_is_the_root_alone() {
    let scene = scene_with_a_group();
    let path = path_to(&scene, ROOT_ID);
    assert_eq!(path.len(), 1);
    assert_eq!(path[0].0, ROOT_ID);
}

#[test]
fn scene_the_path_to_a_group_starts_at_the_root_and_ends_at_the_group() {
    let scene = scene_with_a_group();
    let names: Vec<String> = path_to(&scene, 2).into_iter().map(|(_, n)| n).collect();
    assert_eq!(names.len(), 2);
    assert_eq!(names[1], "Notes");
    assert_eq!(path_to(&scene, 2)[0].0, ROOT_ID);
}

#[test]
fn scene_a_path_to_a_group_that_went_is_empty() {
    // The panel falls back to the root when its group is gone.
    let scene = scene_with_a_group();
    assert!(path_to(&scene, 99).is_empty());
    // An asset is not a group, so it names no path either.
    assert!(path_to(&scene, 3).is_empty());
}

#[test]
fn scene_the_dm_sees_every_map_and_which_ones_reach_the_tv() {
    let scene = scene_with_a_group();
    assert_eq!(
        dm_names(&scene),
        vec![
            ("loose.png".to_owned(), true),
            ("secret.png".to_owned(), true)
        ]
    );
}

#[test]
fn scene_a_map_off_the_tv_still_draws_for_the_dm() {
    let mut scene = scene_with_a_group();
    let Some(Node::Asset(loose)) = scene.root.children.first_mut() else {
        panic!("the first child is the loose map");
    };
    loose.shown.tv = false;
    assert_eq!(
        dm_names(&scene),
        vec![
            ("loose.png".to_owned(), false),
            ("secret.png".to_owned(), true)
        ]
    );
}

#[test]
fn scene_a_group_off_the_tv_takes_its_children_off_the_tv() {
    let mut scene = scene_with_a_group();
    let Some(Node::Group(notes)) = scene.root.children.get_mut(1) else {
        panic!("the second child is the group");
    };
    notes.shown.tv = false;
    // The asset inside says yes, and the group over it still wins.
    assert_eq!(
        dm_names(&scene),
        vec![
            ("loose.png".to_owned(), true),
            ("secret.png".to_owned(), false)
        ]
    );
}

#[test]
fn scene_a_map_off_the_dm_screen_leaves_the_dm_order() {
    // Half strength belongs to the TV switch. The DM switch still hides.
    let mut scene = scene_with_a_group();
    let Some(Node::Asset(loose)) = scene.root.children.first_mut() else {
        panic!("the first child is the loose map");
    };
    loose.shown.dm = false;
    assert_eq!(dm_names(&scene), vec![("secret.png".to_owned(), true)]);
}

#[test]
fn scene_the_dm_order_and_the_tv_order_hold_the_same_maps_when_both_show() {
    let scene = scene_with_a_group();
    let tv: Vec<String> = draw_order(&scene, Audience::Tv)
        .into_iter()
        .map(file_of)
        .collect();
    let dm: Vec<String> = dm_names(&scene).into_iter().map(|(name, _)| name).collect();
    assert_eq!(dm, tv);
}

#[test]
fn scene_a_group_draws_inside_the_place_it_holds() {
    let scene = nested();
    let order: Vec<NodeId> = draw_order(&scene, Audience::Dm);
    assert_eq!(order, vec![1, 3]);
}

#[test]
fn scene_a_group_that_is_off_takes_its_children_off() {
    let mut scene = nested();
    let Some(Node::Group(notes)) = scene.root.children.get_mut(1) else {
        panic!("the second child is the group");
    };
    notes.shown.tv = false;
    assert_eq!(draw_order(&scene, Audience::Dm).len(), 2);
    assert_eq!(draw_order(&scene, Audience::Tv).len(), 1);
}

#[test]
fn scene_an_asset_can_hide_on_its_own() {
    let mut scene = nested();
    let Some(Node::Asset(floor)) = scene.root.children.get_mut(0) else {
        panic!("the first child is the asset");
    };
    floor.shown.tv = false;
    assert_eq!(draw_order(&scene, Audience::Tv)[0], 3);
}

#[test]
fn scene_a_file_with_two_nodes_of_one_name_gets_them_apart() {
    // The tree a file with two maps of id 5 reads into.
    let mut scene = Scene::new();
    scene.root.children.push(Node::Asset(Leaf { id: 5, shown: Shown::both() }));
    scene.root.children.push(Node::Asset(Leaf { id: 5, shown: Shown::both() }));
    let scene = scene.repaired();
    let ids = assets(&scene);
    assert_eq!(ids.len(), 2);
    assert_ne!(ids[0], ids[1]);
}

#[test]
fn scene_the_root_keeps_its_name_whatever_the_file_says() {
    // The tree a file with a root of id 9, another name and no screen
    // reads into.
    let scene = Scene {
        root: Group {
            id: 9,
            name: "Not the root".to_owned(),
            shown: Shown { dm: false, tv: false },
            children: Vec::new(),
            ink: false,
        },
    };
    let scene = scene.repaired();
    assert_eq!(scene.root.id, ROOT_ID);
    assert_eq!(scene.root.name, "Scene");
    assert!(scene.root.shown.dm && scene.root.shown.tv);
}

#[test]
fn scene_a_new_name_is_one_no_node_holds() {
    let scene = nested();
    assert_eq!(scene.next_id(), 4);
}

#[test]
fn scene_a_node_moves_among_the_nodes_it_sits_with() {
    let mut scene = nested();
    // The asset at the bottom of the root moves over the group.
    assert!(reorder_all(&mut scene, &[1], true));
    assert_eq!(scene.root.children[0].id(), 2);
    assert_eq!(scene.root.children[1].id(), 1);
    // It cannot go any further.
    assert!(!reorder_all(&mut scene, &[1], true));
}

#[test]
fn scene_a_node_inside_a_group_moves_inside_that_group() {
    let mut scene = nested();
    // The only child of the group has nowhere to go.
    assert!(!reorder_all(&mut scene, &[3], true));
    assert!(!reorder_all(&mut scene, &[3], false));
    assert_eq!(parent_of(&scene, 3), Some((2, 0)));
}

#[test]
fn scene_the_tree_says_which_group_holds_a_node() {
    let scene = nested();
    assert_eq!(parent_of(&scene, 1), Some((ROOT_ID, 0)));
    assert_eq!(parent_of(&scene, 2), Some((ROOT_ID, 1)));
    assert_eq!(parent_of(&scene, 3), Some((2, 0)));
    assert_eq!(parent_of(&scene, 9), None);
    assert!(find(&scene, 3).is_some());
    assert!(find(&scene, 9).is_none());
}

#[test]
fn scene_a_path_says_where_a_node_sits() {
    let scene = family();
    assert_eq!(path_of(&scene, 1), Some(vec![0]));
    assert_eq!(path_of(&scene, 3), Some(vec![2]));
    assert_eq!(path_of(&scene, 5), Some(vec![2, 1]));
    assert_eq!(path_of(&scene, 9), None);
}

#[test]
fn scene_a_selection_drops_what_a_group_in_it_already_holds() {
    let scene = family();
    // The group and one of its children: the group carries it.
    assert_eq!(normalize(&scene, &[3, 4]), vec![3]);
    assert_eq!(normalize(&scene, &[4, 3]), vec![3]);
    // Two nodes that hold each other, and one that holds neither.
    assert_eq!(normalize(&scene, &[1, 3, 5]), vec![1, 3]);
    // The same node twice is one node.
    assert_eq!(normalize(&scene, &[1, 1]), vec![1]);
}

#[test]
fn scene_a_group_holds_every_asset_under_it() {
    let scene = family();
    assert_eq!(assets_of(&scene, 1), vec![1]);
    assert_eq!(assets_of(&scene, 3), vec![4, 5]);
    assert!(assets_of(&scene, 9).is_empty());
}

#[test]
fn scene_two_brothers_group_where_they_stood() {
    let mut scene = family();
    let id = group_selection(&mut scene, &[1, 2], "New".to_owned()).unwrap();
    // The root holds the new group and the old group, nothing else.
    assert_eq!(scene.root.children.len(), 2);
    assert_eq!(scene.root.children[0].id(), id);
    assert_eq!(scene.root.children[1].id(), 3);
    let Some(Node::Group(new)) = scene.root.children.first() else {
        panic!("the first child is the new group");
    };
    // They keep the order they drew in.
    assert_eq!(
        new.children.iter().map(Node::id).collect::<Vec<_>>(),
        vec![1, 2]
    );
}

#[test]
fn scene_an_uncle_and_a_nephew_group_in_the_root() {
    let mut scene = family();
    // floor.png sits in the root, pin.png sits in Notes.
    let id = group_selection(&mut scene, &[1, 5], "New".to_owned()).unwrap();
    assert_eq!(
        path_of(&scene, 1),
        Some(vec![path_of(&scene, id).unwrap()[0], 0])
    );
    // The nephew left Notes, which keeps its other child.
    let Some(Node::Group(notes)) = scene.root.children.iter().find(|n| n.id() == 3) else {
        panic!("Notes is still in the root");
    };
    assert_eq!(notes.children.len(), 1);
    assert_eq!(notes.children[0].id(), 4);
}

#[test]
fn scene_two_children_of_one_group_stay_in_that_group() {
    let mut scene = family();
    let id = group_selection(&mut scene, &[4, 5], "New".to_owned()).unwrap();
    // The new group sits inside Notes, since Notes holds them both.
    assert_eq!(path_of(&scene, id), Some(vec![2, 0]));
    assert_eq!(assets_of(&scene, id), vec![4, 5]);
}

#[test]
fn scene_a_group_and_its_own_child_group_as_one() {
    let mut scene = family();
    // The group carries the child, so this groups the group alone.
    let id = group_selection(&mut scene, &[3, 4], "New".to_owned()).unwrap();
    assert_eq!(assets_of(&scene, id), vec![4, 5]);
    assert_eq!(scene.root.children.len(), 3);
}

#[test]
fn scene_a_group_of_nothing_is_no_group() {
    let mut scene = family();
    assert_eq!(group_selection(&mut scene, &[], "New".to_owned()), None);
    assert_eq!(group_selection(&mut scene, &[9], "New".to_owned()), None);
}

#[test]
fn scene_a_group_draws_where_its_highest_member_drew() {
    let mut scene = family();
    // wall.png draws over floor.png, and Notes draws over both.
    let id = group_selection(&mut scene, &[2, 3], "New".to_owned()).unwrap();
    // The new group takes the place Notes had, over floor.png.
    assert_eq!(
        scene.root.children.iter().map(Node::id).collect::<Vec<_>>(),
        vec![1, id]
    );
}

#[test]
fn scene_a_new_group_takes_a_name_no_member_holds() {
    let mut scene = family();
    let id = group_selection(&mut scene, &[1, 2], "New".to_owned()).unwrap();
    // The members leave the tree while the group is made, so a name
    // counted then would land on one of them.
    assert!(!assets_of(&scene, id).contains(&id));
    let mut names: Vec<NodeId> = Vec::new();
    let mut walk: Vec<&Node> = scene.root.children.iter().collect();
    while let Some(node) = walk.pop() {
        names.push(node.id());
        if let Node::Group(group) = node {
            walk.extend(group.children.iter());
        }
    }
    let mut sorted = names.clone();
    sorted.sort_unstable();
    sorted.dedup();
    assert_eq!(
        sorted.len(),
        names.len(),
        "two nodes share a name: {names:?}"
    );
}

#[test]
fn scene_a_node_moves_to_where_another_node_stands() {
    let mut scene = family();
    // floor.png joins Notes, under note.png.
    assert!(move_above(&mut scene, 1, 4));
    assert_eq!(path_of(&scene, 1), Some(vec![1, 0]));
    assert_eq!(assets_of(&scene, 3), vec![1, 4, 5]);
}

#[test]
fn scene_a_node_moves_among_the_nodes_it_already_sits_with() {
    let mut scene = family();
    // wall.png drops to where floor.png stands.
    assert!(move_above(&mut scene, 2, 1));
    assert_eq!(
        scene.root.children.iter().map(Node::id).collect::<Vec<_>>(),
        vec![2, 1, 3]
    );
}

#[test]
fn scene_a_group_cannot_go_inside_itself() {
    let mut scene = family();
    assert!(!move_above(&mut scene, 3, 4));
    assert!(!move_above(&mut scene, 3, 3));
    // Nothing moved, and nothing was lost.
    assert_eq!(assets_of(&scene, 3), vec![4, 5]);
    assert_eq!(scene.root.children.len(), 3);
}

#[test]
fn scene_a_move_in_order_asks_whether_the_nodes_sit_together() {
    let scene = family();
    assert_eq!(share_parent(&scene, &[1, 2]), Some(ROOT_ID));
    assert_eq!(share_parent(&scene, &[4, 5]), Some(3));
    // floor.png sits in the root, pin.png sits in Notes.
    assert_eq!(share_parent(&scene, &[1, 5]), None);
    assert_eq!(share_parent(&scene, &[]), None);
}

#[test]
fn scene_brothers_and_sisters_move_in_order_and_keep_theirs() {
    let mut scene = family();
    // floor.png and wall.png stand under Notes. Both step up.
    assert!(reorder_all(&mut scene, &[1, 2], true));
    assert_eq!(
        scene.root.children.iter().map(Node::id).collect::<Vec<_>>(),
        vec![3, 1, 2]
    );
    // They cannot climb past the top.
    assert!(!reorder_all(&mut scene, &[1, 2], true));
}

#[test]
fn scene_a_node_moves_into_a_group_that_holds_nothing() {
    let mut scene = family();
    scene
        .root
        .children
        .push(Node::Group(Group::new(6, "Empty".to_owned())));
    assert!(move_into(&mut scene, 1, 6));
    assert_eq!(assets_of(&scene, 6), vec![1]);
}

#[test]
fn scene_a_node_moves_into_a_group_on_top_of_what_it_holds() {
    let mut scene = family();
    assert!(move_into(&mut scene, 1, 3));
    assert_eq!(assets_of(&scene, 3), vec![4, 5, 1]);
    assert_eq!(scene.root.children.len(), 2);
}

#[test]
fn scene_a_group_cannot_move_into_what_it_holds() {
    let mut scene = family();
    assert!(!move_into(&mut scene, 3, 3));
    assert_eq!(scene.root.children.len(), 3);
}

#[test]
fn scene_the_list_of_groups_starts_at_the_root() {
    let scene = family();
    let names: Vec<_> = group_names(&scene)
        .iter()
        .map(|(id, name, depth)| (*id, name.clone(), *depth))
        .collect();
    assert_eq!(
        names,
        vec![(ROOT_ID, "Scene".to_owned(), 0), (3, "Notes".to_owned(), 1)]
    );
}

#[test]
fn scene_a_group_that_goes_leaves_its_children_where_it_stood() {
    let mut scene = family();
    assert!(ungroup(&mut scene, 3));
    assert_eq!(
        scene.root.children.iter().map(Node::id).collect::<Vec<_>>(),
        vec![1, 2, 4, 5]
    );
    // Every asset is still here, in the order it drew in.
    assert_eq!(assets(&scene), vec![1, 2, 4, 5]);
}

#[test]
fn scene_the_root_never_goes() {
    let mut scene = family();
    assert!(!ungroup(&mut scene, ROOT_ID));
    // An asset is not a group, so it does not go either.
    assert!(!ungroup(&mut scene, 1));
    assert_eq!(scene.root.children.len(), 3);
}

#[test]
fn scene_a_node_on_top_of_a_group_stays_where_it_is() {
    let mut scene = family();
    // pin.png is the top child of Notes, so a drop on Notes is a no-op.
    assert!(!move_into(&mut scene, 5, 3));
    // note.png is under it, and has somewhere to go.
    assert!(move_into(&mut scene, 4, 3));
    assert_eq!(assets_of(&scene, 3), vec![5, 4]);
}

#[test]
fn scene_a_group_that_went_is_no_longer_there_to_fill() {
    let mut scene = family();
    assert!(has_group(&scene, 3));
    assert!(has_group(&scene, ROOT_ID));
    // An asset is not a group, and neither is a name nothing holds.
    assert!(!has_group(&scene, 1));
    ungroup(&mut scene, 3);
    assert!(!has_group(&scene, 3));
}

#[test]
fn tests_the_path_to_the_root_is_the_root_alone() {
    let scene = scene_with_a_group();
    let path = path_to(&scene, ROOT_ID);
    assert_eq!(path.len(), 1);
    assert_eq!(path[0].0, ROOT_ID);
}

#[test]
fn tests_the_path_to_a_group_starts_at_the_root_and_ends_at_the_group() {
    let scene = scene_with_a_group();
    let names: Vec<String> = path_to(&scene, 2).into_iter().map(|(_, n)| n).collect();
    assert_eq!(names.len(), 2);
    assert_eq!(names[1], "Notes");
    assert_eq!(path_to(&scene, 2)[0].0, ROOT_ID);
}

#[test]
fn tests_a_path_to_a_group_that_went_is_empty() {
    // The panel falls back to the root when its group is gone.
    let scene = scene_with_a_group();
    assert!(path_to(&scene, 99).is_empty());
    // An asset is not a group, so it names no path either.
    assert!(path_to(&scene, 3).is_empty());
}

#[test]
fn tests_a_map_off_the_tv_still_draws_for_the_dm() {
    let mut scene = scene_with_a_group();
    let Some(Node::Asset(loose)) = scene.root.children.first_mut() else {
        panic!("the first child is the loose map");
    };
    loose.shown.tv = false;
    assert_eq!(
        dm_names(&scene),
        vec![
            ("loose.png".to_owned(), false),
            ("secret.png".to_owned(), true)
        ]
    );
}

#[test]
fn tests_a_group_off_the_tv_takes_its_children_off_the_tv() {
    let mut scene = scene_with_a_group();
    let Some(Node::Group(notes)) = scene.root.children.get_mut(1) else {
        panic!("the second child is the group");
    };
    notes.shown.tv = false;
    // The asset inside says yes, and the group over it still wins.
    assert_eq!(
        dm_names(&scene),
        vec![
            ("loose.png".to_owned(), true),
            ("secret.png".to_owned(), false)
        ]
    );
}

#[test]
fn tests_a_map_off_the_dm_screen_leaves_the_dm_order() {
    // Half strength belongs to the TV switch. The DM switch still hides.
    let mut scene = scene_with_a_group();
    let Some(Node::Asset(loose)) = scene.root.children.first_mut() else {
        panic!("the first child is the loose map");
    };
    loose.shown.dm = false;
    assert_eq!(dm_names(&scene), vec![("secret.png".to_owned(), true)]);
}

#[test]
fn tests_the_dm_order_and_the_tv_order_hold_the_same_maps_when_both_show() {
    let scene = scene_with_a_group();
    let tv: Vec<String> = draw_order(&scene, Audience::Tv)
        .into_iter()
        .map(file_of)
        .collect();
    let dm: Vec<String> = dm_names(&scene).into_iter().map(|(name, _)| name).collect();
    assert_eq!(dm, tv);
}

#[test]
fn tests_a_group_draws_inside_the_place_it_holds() {
    let scene = nested();
    let order: Vec<NodeId> = draw_order(&scene, Audience::Dm);
    assert_eq!(order, vec![1, 3]);
}

#[test]
fn tests_a_group_that_is_off_takes_its_children_off() {
    let mut scene = nested();
    let Some(Node::Group(notes)) = scene.root.children.get_mut(1) else {
        panic!("the second child is the group");
    };
    notes.shown.tv = false;
    assert_eq!(draw_order(&scene, Audience::Dm).len(), 2);
    assert_eq!(draw_order(&scene, Audience::Tv).len(), 1);
}

#[test]
fn tests_an_asset_can_hide_on_its_own() {
    let mut scene = nested();
    let Some(Node::Asset(floor)) = scene.root.children.get_mut(0) else {
        panic!("the first child is the asset");
    };
    floor.shown.tv = false;
    assert_eq!(draw_order(&scene, Audience::Tv)[0], 3);
}

#[test]
fn tests_a_file_with_two_nodes_of_one_name_gets_them_apart() {
    // The tree a file with two maps of id 5 reads into.
    let mut scene = Scene::new();
    scene.root.children.push(Node::Asset(Leaf { id: 5, shown: Shown::both() }));
    scene.root.children.push(Node::Asset(Leaf { id: 5, shown: Shown::both() }));
    let scene = scene.repaired();
    let ids = assets(&scene);
    assert_eq!(ids.len(), 2);
    assert_ne!(ids[0], ids[1]);
}

#[test]
fn tests_the_root_keeps_its_name_whatever_the_file_says() {
    // The tree a file with a root of id 9, another name and no screen
    // reads into.
    let scene = Scene {
        root: Group {
            id: 9,
            name: "Not the root".to_owned(),
            shown: Shown { dm: false, tv: false },
            children: Vec::new(),
            ink: false,
        },
    };
    let scene = scene.repaired();
    assert_eq!(scene.root.id, ROOT_ID);
    assert_eq!(scene.root.name, "Scene");
    assert!(scene.root.shown.dm && scene.root.shown.tv);
}

#[test]
fn tests_a_new_name_is_one_no_node_holds() {
    let scene = nested();
    assert_eq!(scene.next_id(), 4);
}

#[test]
fn tests_a_node_moves_among_the_nodes_it_sits_with() {
    let mut scene = nested();
    // The asset at the bottom of the root moves over the group.
    assert!(reorder_all(&mut scene, &[1], true));
    assert_eq!(scene.root.children[0].id(), 2);
    assert_eq!(scene.root.children[1].id(), 1);
    // It cannot go any further.
    assert!(!reorder_all(&mut scene, &[1], true));
}

#[test]
fn tests_a_node_inside_a_group_moves_inside_that_group() {
    let mut scene = nested();
    // The only child of the group has nowhere to go.
    assert!(!reorder_all(&mut scene, &[3], true));
    assert!(!reorder_all(&mut scene, &[3], false));
    assert_eq!(parent_of(&scene, 3), Some((2, 0)));
}

#[test]
fn tests_the_tree_says_which_group_holds_a_node() {
    let scene = nested();
    assert_eq!(parent_of(&scene, 1), Some((ROOT_ID, 0)));
    assert_eq!(parent_of(&scene, 2), Some((ROOT_ID, 1)));
    assert_eq!(parent_of(&scene, 3), Some((2, 0)));
    assert_eq!(parent_of(&scene, 9), None);
    assert!(find(&scene, 3).is_some());
    assert!(find(&scene, 9).is_none());
}

#[test]
fn tests_a_path_says_where_a_node_sits() {
    let scene = family();
    assert_eq!(path_of(&scene, 1), Some(vec![0]));
    assert_eq!(path_of(&scene, 3), Some(vec![2]));
    assert_eq!(path_of(&scene, 5), Some(vec![2, 1]));
    assert_eq!(path_of(&scene, 9), None);
}

#[test]
fn tests_a_selection_drops_what_a_group_in_it_already_holds() {
    let scene = family();
    // The group and one of its children: the group carries it.
    assert_eq!(normalize(&scene, &[3, 4]), vec![3]);
    assert_eq!(normalize(&scene, &[4, 3]), vec![3]);
    // Two nodes that hold each other, and one that holds neither.
    assert_eq!(normalize(&scene, &[1, 3, 5]), vec![1, 3]);
    // The same node twice is one node.
    assert_eq!(normalize(&scene, &[1, 1]), vec![1]);
}

#[test]
fn tests_a_group_holds_every_asset_under_it() {
    let scene = family();
    assert_eq!(assets_of(&scene, 1), vec![1]);
    assert_eq!(assets_of(&scene, 3), vec![4, 5]);
    assert!(assets_of(&scene, 9).is_empty());
}

#[test]
fn tests_two_brothers_group_where_they_stood() {
    let mut scene = family();
    let id = group_selection(&mut scene, &[1, 2], "New".to_owned()).unwrap();
    // The root holds the new group and the old group, nothing else.
    assert_eq!(scene.root.children.len(), 2);
    assert_eq!(scene.root.children[0].id(), id);
    assert_eq!(scene.root.children[1].id(), 3);
    let Some(Node::Group(new)) = scene.root.children.first() else {
        panic!("the first child is the new group");
    };
    // They keep the order they drew in.
    assert_eq!(
        new.children.iter().map(Node::id).collect::<Vec<_>>(),
        vec![1, 2]
    );
}

#[test]
fn tests_an_uncle_and_a_nephew_group_in_the_root() {
    let mut scene = family();
    // floor.png sits in the root, pin.png sits in Notes.
    let id = group_selection(&mut scene, &[1, 5], "New".to_owned()).unwrap();
    assert_eq!(
        path_of(&scene, 1),
        Some(vec![path_of(&scene, id).unwrap()[0], 0])
    );
    // The nephew left Notes, which keeps its other child.
    let Some(Node::Group(notes)) = scene.root.children.iter().find(|n| n.id() == 3) else {
        panic!("Notes is still in the root");
    };
    assert_eq!(notes.children.len(), 1);
    assert_eq!(notes.children[0].id(), 4);
}

#[test]
fn tests_two_children_of_one_group_stay_in_that_group() {
    let mut scene = family();
    let id = group_selection(&mut scene, &[4, 5], "New".to_owned()).unwrap();
    // The new group sits inside Notes, since Notes holds them both.
    assert_eq!(path_of(&scene, id), Some(vec![2, 0]));
    assert_eq!(assets_of(&scene, id), vec![4, 5]);
}

#[test]
fn tests_a_group_and_its_own_child_group_as_one() {
    let mut scene = family();
    // The group carries the child, so this groups the group alone.
    let id = group_selection(&mut scene, &[3, 4], "New".to_owned()).unwrap();
    assert_eq!(assets_of(&scene, id), vec![4, 5]);
    assert_eq!(scene.root.children.len(), 3);
}

#[test]
fn tests_a_group_of_nothing_is_no_group() {
    let mut scene = family();
    assert_eq!(group_selection(&mut scene, &[], "New".to_owned()), None);
    assert_eq!(group_selection(&mut scene, &[9], "New".to_owned()), None);
}

#[test]
fn tests_a_group_draws_where_its_highest_member_drew() {
    let mut scene = family();
    // wall.png draws over floor.png, and Notes draws over both.
    let id = group_selection(&mut scene, &[2, 3], "New".to_owned()).unwrap();
    // The new group takes the place Notes had, over floor.png.
    assert_eq!(
        scene.root.children.iter().map(Node::id).collect::<Vec<_>>(),
        vec![1, id]
    );
}

#[test]
fn tests_a_new_group_takes_a_name_no_member_holds() {
    let mut scene = family();
    let id = group_selection(&mut scene, &[1, 2], "New".to_owned()).unwrap();
    // The members leave the tree while the group is made, so a name
    // counted then would land on one of them.
    assert!(!assets_of(&scene, id).contains(&id));
    let mut names: Vec<NodeId> = Vec::new();
    let mut walk: Vec<&Node> = scene.root.children.iter().collect();
    while let Some(node) = walk.pop() {
        names.push(node.id());
        if let Node::Group(group) = node {
            walk.extend(group.children.iter());
        }
    }
    let mut sorted = names.clone();
    sorted.sort_unstable();
    sorted.dedup();
    assert_eq!(
        sorted.len(),
        names.len(),
        "two nodes share a name: {names:?}"
    );
}

#[test]
fn tests_a_node_moves_to_where_another_node_stands() {
    let mut scene = family();
    // floor.png joins Notes, under note.png.
    assert!(move_above(&mut scene, 1, 4));
    assert_eq!(path_of(&scene, 1), Some(vec![1, 0]));
    assert_eq!(assets_of(&scene, 3), vec![1, 4, 5]);
}

#[test]
fn tests_a_node_moves_among_the_nodes_it_already_sits_with() {
    let mut scene = family();
    // wall.png drops to where floor.png stands.
    assert!(move_above(&mut scene, 2, 1));
    assert_eq!(
        scene.root.children.iter().map(Node::id).collect::<Vec<_>>(),
        vec![2, 1, 3]
    );
}

#[test]
fn tests_a_group_cannot_go_inside_itself() {
    let mut scene = family();
    assert!(!move_above(&mut scene, 3, 4));
    assert!(!move_above(&mut scene, 3, 3));
    // Nothing moved, and nothing was lost.
    assert_eq!(assets_of(&scene, 3), vec![4, 5]);
    assert_eq!(scene.root.children.len(), 3);
}

#[test]
fn tests_a_move_in_order_asks_whether_the_nodes_sit_together() {
    let scene = family();
    assert_eq!(share_parent(&scene, &[1, 2]), Some(ROOT_ID));
    assert_eq!(share_parent(&scene, &[4, 5]), Some(3));
    // floor.png sits in the root, pin.png sits in Notes.
    assert_eq!(share_parent(&scene, &[1, 5]), None);
    assert_eq!(share_parent(&scene, &[]), None);
}

#[test]
fn tests_brothers_and_sisters_move_in_order_and_keep_theirs() {
    let mut scene = family();
    // floor.png and wall.png stand under Notes. Both step up.
    assert!(reorder_all(&mut scene, &[1, 2], true));
    assert_eq!(
        scene.root.children.iter().map(Node::id).collect::<Vec<_>>(),
        vec![3, 1, 2]
    );
    // They cannot climb past the top.
    assert!(!reorder_all(&mut scene, &[1, 2], true));
}

#[test]
fn tests_a_node_moves_into_a_group_that_holds_nothing() {
    let mut scene = family();
    scene
        .root
        .children
        .push(Node::Group(Group::new(6, "Empty".to_owned())));
    assert!(move_into(&mut scene, 1, 6));
    assert_eq!(assets_of(&scene, 6), vec![1]);
}

#[test]
fn tests_a_node_moves_into_a_group_on_top_of_what_it_holds() {
    let mut scene = family();
    assert!(move_into(&mut scene, 1, 3));
    assert_eq!(assets_of(&scene, 3), vec![4, 5, 1]);
    assert_eq!(scene.root.children.len(), 2);
}

#[test]
fn tests_a_group_cannot_move_into_what_it_holds() {
    let mut scene = family();
    assert!(!move_into(&mut scene, 3, 3));
    assert_eq!(scene.root.children.len(), 3);
}

#[test]
fn tests_the_list_of_groups_starts_at_the_root() {
    let scene = family();
    let names: Vec<_> = group_names(&scene)
        .iter()
        .map(|(id, name, depth)| (*id, name.clone(), *depth))
        .collect();
    assert_eq!(
        names,
        vec![(ROOT_ID, "Scene".to_owned(), 0), (3, "Notes".to_owned(), 1)]
    );
}

#[test]
fn tests_a_group_that_goes_leaves_its_children_where_it_stood() {
    let mut scene = family();
    assert!(ungroup(&mut scene, 3));
    assert_eq!(
        scene.root.children.iter().map(Node::id).collect::<Vec<_>>(),
        vec![1, 2, 4, 5]
    );
    // Every asset is still here, in the order it drew in.
    assert_eq!(assets(&scene), vec![1, 2, 4, 5]);
}

#[test]
fn tests_the_root_never_goes() {
    let mut scene = family();
    assert!(!ungroup(&mut scene, ROOT_ID));
    // An asset is not a group, so it does not go either.
    assert!(!ungroup(&mut scene, 1));
    assert_eq!(scene.root.children.len(), 3);
}

#[test]
fn tests_a_node_on_top_of_a_group_stays_where_it_is() {
    let mut scene = family();
    // pin.png is the top child of Notes, so a drop on Notes is a no-op.
    assert!(!move_into(&mut scene, 5, 3));
    // note.png is under it, and has somewhere to go.
    assert!(move_into(&mut scene, 4, 3));
    assert_eq!(assets_of(&scene, 3), vec![5, 4]);
}

#[test]
fn tests_a_group_that_went_is_no_longer_there_to_fill() {
    let mut scene = family();
    assert!(has_group(&scene, 3));
    assert!(has_group(&scene, ROOT_ID));
    // An asset is not a group, and neither is a name nothing holds.
    assert!(!has_group(&scene, 1));
    ungroup(&mut scene, 3);
    assert!(!has_group(&scene, 3));
}

/// The ids of a list of nodes, each parent before its children.
fn ids_in(nodes: &[Node]) -> Vec<NodeId> {
    let mut out = Vec::new();
    for node in nodes {
        out.push(node.id());
        if let Node::Group(group) = node {
            out.extend(ids_in(&group.children));
        }
    }
    out
}

#[test]
fn a_repaired_tree_holds_each_id_once_and_not_the_roots() {
    let mut notes = Group::new(2, "Notes".to_owned());
    notes.children.push(map(2));
    notes.children.push(Node::Stroke(Leaf { id: 1, shown: Shown::both() }));
    let mut scene = Scene::new();
    scene.root.children.push(map(ROOT_ID));
    scene.root.children.push(Node::Group(notes));
    scene.root.children.push(map(1));
    let scene = scene.repaired();
    // The first map takes 1 from the root, the group keeps 2, and each
    // later copy takes the first id that no node before it holds.
    assert_eq!(ids_in(&scene.root.children), vec![1, 2, 3, 4, 5]);
}

#[test]
fn a_tree_with_ids_of_its_own_keeps_them() {
    let mut notes = Group::new(7, "Notes".to_owned());
    notes.children.push(map(3));
    let mut scene = Scene::new();
    scene.root.children.push(map(9));
    scene.root.children.push(Node::Group(notes));
    let scene = scene.repaired();
    assert_eq!(ids_in(&scene.root.children), vec![9, 7, 3]);
}

fn stroke(id: NodeId) -> Node {
    Node::Stroke(Leaf { id, shown: Shown::both() })
}

/// A scene with a map, and a drawing group of two strokes, the second
/// hidden from the TV.
fn with_ink() -> Scene {
    let mut scene = Scene::new();
    scene.root.children.push(map(1));
    let mut drawings = Group::new(2, "Drawings".to_owned());
    drawings.ink = true;
    drawings.children.push(stroke(3));
    drawings.children.push(Node::Stroke(Leaf { id: 4, shown: Shown { dm: true, tv: false } }));
    scene.root.children.push(Node::Group(drawings));
    scene
}

#[test]
fn the_strokes_draw_in_their_own_order_per_screen() {
    let scene = with_ink();
    assert_eq!(ink_order(&scene, Audience::Dm), vec![3, 4]);
    assert_eq!(ink_order(&scene, Audience::Tv), vec![3]);
    assert_eq!(draw_order(&scene, Audience::Dm), vec![1]);
}

#[test]
fn a_stroke_is_told_from_a_map_and_a_group_holds_its_strokes() {
    let scene = with_ink();
    assert!(has_stroke(&scene, 3));
    assert!(!has_stroke(&scene, 1));
    assert!(!has_stroke(&scene, 2));
    assert_eq!(strokes_of(&scene, 2), vec![3, 4]);
    assert_eq!(strokes_of(&scene, 4), vec![4]);
    assert_eq!(strokes_of(&scene, 1), Vec::<NodeId>::new());
}

#[test]
fn a_new_stroke_joins_the_drawing_group_there_is() {
    let mut scene = with_ink();
    assert_eq!(ink_group(&mut scene, "Drawings".to_owned()), 2);
    assert_eq!(scene.root.children.len(), 2);
}

#[test]
fn a_first_stroke_makes_a_drawing_group_on_top() {
    let mut scene = nested();
    let id = ink_group(&mut scene, "Drawings".to_owned());
    assert_eq!(id, 4);
    assert_eq!(scene.root.children.len(), 3);
    let Some(Node::Group(group)) = scene.root.children.last() else {
        panic!("the new group sits on top of the root");
    };
    assert_eq!(group.id, 4);
    assert!(group.ink);
    assert_eq!(group.name, "Drawings");
    assert!(group.children.is_empty());
}

/// The ids under the root, top level only.
fn top_ids(scene: &Scene) -> Vec<NodeId> {
    scene.root.children.iter().map(|node| node.id()).collect()
}

#[test]
fn a_move_above_a_missing_node_leaves_the_tree_as_it_was() {
    let mut scene = family();
    let before = top_ids(&scene);
    assert!(!move_above(&mut scene, 1, 99));
    assert_eq!(top_ids(&scene), before);
    assert_eq!(assets(&scene).len(), 4);
}

#[test]
fn a_move_into_a_map_leaves_the_tree_as_it_was() {
    let mut scene = family();
    let before = top_ids(&scene);
    assert!(!move_into(&mut scene, 1, 2));
    assert_eq!(top_ids(&scene), before);
    assert!(!move_into(&mut scene, 1, 99));
    assert_eq!(top_ids(&scene), before);
}

#[test]
fn ungrouping_a_map_leaves_the_tree_as_it_was() {
    let mut scene = family();
    let before = top_ids(&scene);
    assert!(!ungroup(&mut scene, 1));
    assert_eq!(top_ids(&scene), before);
}

#[test]
fn the_ids_of_a_scene_list_each_parent_before_its_children() {
    assert_eq!(dmap::scene::repair_law::ids_in_order(&family()), vec![1, 2, 3, 4, 5]);
}

#[test]
fn paths_that_part_at_once_share_no_depth() {
    let shared = dmap::scene::grouping::shared_depth;
    assert_eq!(shared(&vec![Vec::new()]), 0);
    assert_eq!(shared(&vec![vec![2, 0], Vec::new()]), 0);
    assert_eq!(shared(&vec![vec![2, 0, 1], vec![2, 0, 3]]), 2);
    assert_eq!(shared(&vec![vec![2, 0], vec![2, 0, 3]]), 1);
}
