use dmap::history::{Deed, History, STEPS, Step};
use dmap::scene::change::{SetName, SetShown};
use dmap::scene::model::{duplicate_nodes, Group, Leaf, Node, NodeId, ROOT_ID, Shown};
use dmap::scene::moves::move_into;
use dmap::scene::order::reorder_all;
use dmap::scene::restructure::{reshape_between, Restructure};
use dmap::scene::steps::{hold_in, redo_in, run_in, steps_in, undo_in, walk_to, TreeChange};
use dmap::scene::{find, take_node, Scene};

fn map(id: NodeId) -> Node {
    Node::Asset(Leaf { id, shown: Shown::both() })
}

/// A scene with two maps in the root and one map inside a group.
fn scene() -> Scene {
    let mut scene = Scene::new();
    let mut group = Group::new(7, "Group 7".to_owned());
    group.children.push(map(3));
    scene.root.children.push(map(1));
    scene.root.children.push(map(2));
    scene.root.children.push(Node::Group(group));
    scene
}

/// An exact copy of a scene.
fn copy(scene: &Scene) -> Scene {
    Scene { root: scene.root.duplicate() }
}

/// Runs a change to the shape of the tree and writes it down: the tree as
/// it stood, the change, and the lists the change rewrote.
fn reshape(
    scene: &mut Scene,
    what: Deed,
    subject: String,
    change: impl FnOnce(&mut Scene),
) -> Option<Restructure> {
    let was = scene.root.duplicate();
    change(scene);
    reshape_between(&was, &scene.root, what, subject)
}

fn rename_to_cave() -> TreeChange {
    TreeChange::Name(SetName {
        id: 7,
        before: "Group 7".to_owned(),
        after: "Cave".to_owned(),
    })
}

#[test]
fn command_a_delete_in_the_root_keeps_only_the_root_list() {
    let mut scene = scene();
    let start = copy(&scene);
    let change = reshape(&mut scene, Deed::Ungroup, "the map".to_owned(), |scene| {
        take_node(scene, 2);
    })
    .unwrap();
    assert_eq!(change.before.len(), 1);
    assert_eq!(change.before[0].0, ROOT_ID);
    let mut history = History::new();
    history.kept(TreeChange::Tree(change), 0);
    assert!(undo_in(&mut history, &mut scene));
    assert_eq!(scene, start);
}

#[test]
fn tests_a_delete_in_the_root_keeps_only_the_root_list() {
    let mut scene = scene();
    let start = copy(&scene);
    let change = reshape(&mut scene, Deed::Ungroup, "the map".to_owned(), |scene| {
        take_node(scene, 2);
    })
    .unwrap();
    assert_eq!(change.before.len(), 1);
    assert_eq!(change.before[0].0, ROOT_ID);
    let mut history = History::new();
    history.kept(TreeChange::Tree(change), 0);
    assert!(undo_in(&mut history, &mut scene));
    assert_eq!(scene, start);
}

#[test]
fn command_a_move_inside_a_group_keeps_only_that_group() {
    let mut scene = scene();
    scene.root.children.push(map(4));
    let start = copy(&scene);
    let change = reshape(&mut scene, Deed::MoveInList, "the map".to_owned(), |scene| {
        move_into(scene, 4, 7);
    })
    .unwrap();
    // The root list carries the group, so one list says it all.
    assert_eq!(change.after.len(), 1);
    assert_eq!(change.after[0].0, ROOT_ID);
    let mut history = History::new();
    history.kept(TreeChange::Tree(change), 0);
    assert!(undo_in(&mut history, &mut scene));
    assert_eq!(scene, start);
}

#[test]
fn tests_a_move_inside_a_group_keeps_only_that_group() {
    let mut scene = scene();
    scene.root.children.push(map(4));
    let start = copy(&scene);
    let change = reshape(&mut scene, Deed::MoveInList, "the map".to_owned(), |scene| {
        move_into(scene, 4, 7);
    })
    .unwrap();
    // The root list carries the group, so one list says it all.
    assert_eq!(change.after.len(), 1);
    assert_eq!(change.after[0].0, ROOT_ID);
    let mut history = History::new();
    history.kept(TreeChange::Tree(change), 0);
    assert!(undo_in(&mut history, &mut scene));
    assert_eq!(scene, start);
}

#[test]
fn command_an_order_change_inside_a_group_leaves_the_root_alone() {
    let mut scene = scene();
    let Some(Node::Group(group)) = scene.root.children.get_mut(2) else {
        panic!("the group is the third child");
    };
    group.children.push(map(5));
    let start = copy(&scene);
    let change = reshape(&mut scene, Deed::Order, "the map".to_owned(), |scene| {
        reorder_all(scene, &[3], true);
    })
    .unwrap();
    assert_eq!(change.after.len(), 1);
    assert_eq!(change.after[0].0, 7);
    let mut history = History::new();
    history.kept(TreeChange::Tree(change), 0);
    assert!(undo_in(&mut history, &mut scene));
    assert_eq!(scene, start);
}

#[test]
fn tests_an_order_change_inside_a_group_leaves_the_root_alone() {
    let mut scene = scene();
    let Some(Node::Group(group)) = scene.root.children.get_mut(2) else {
        panic!("the group is the third child");
    };
    group.children.push(map(5));
    let start = copy(&scene);
    let change = reshape(&mut scene, Deed::Order, "the map".to_owned(), |scene| {
        reorder_all(scene, &[3], true);
    })
    .unwrap();
    assert_eq!(change.after.len(), 1);
    assert_eq!(change.after[0].0, 7);
    let mut history = History::new();
    history.kept(TreeChange::Tree(change), 0);
    assert!(undo_in(&mut history, &mut scene));
    assert_eq!(scene, start);
}

#[test]
fn command_a_change_that_moves_nothing_is_no_step() {
    let mut scene = scene();
    // The group stands on top of the root already.
    assert!(
        reshape(&mut scene, Deed::MoveInList, "the map".to_owned(), |scene| {
            move_into(scene, 7, ROOT_ID);
        })
        .is_none()
    );
}

#[test]
fn tests_a_change_that_moves_nothing_is_no_step() {
    let mut scene = scene();
    // The group stands on top of the root already.
    assert!(
        reshape(&mut scene, Deed::MoveInList, "the map".to_owned(), |scene| {
            move_into(scene, 7, ROOT_ID);
        })
        .is_none()
    );
}

#[test]
fn command_a_restructure_puts_a_whole_list_back() {
    let mut scene = scene();
    let before = duplicate_nodes(&scene.root.children);
    let change = Restructure {
        what: Deed::Ungroup,
        subject: "the map".to_owned(),
        before: vec![(ROOT_ID, duplicate_nodes(&before))],
        after: vec![(ROOT_ID, Vec::new())],
    };
    change.apply(&mut scene);
    assert!(scene.root.children.is_empty());
    change.revert(&mut scene);
    assert_eq!(scene.root.children, before);
}

#[test]
fn tests_a_restructure_puts_a_whole_list_back() {
    let mut scene = scene();
    let before = duplicate_nodes(&scene.root.children);
    let change = Restructure {
        what: Deed::Ungroup,
        subject: "the map".to_owned(),
        before: vec![(ROOT_ID, duplicate_nodes(&before))],
        after: vec![(ROOT_ID, Vec::new())],
    };
    change.apply(&mut scene);
    assert!(scene.root.children.is_empty());
    change.revert(&mut scene);
    assert_eq!(scene.root.children, before);
}

#[test]
fn a_delete_takes_a_group_and_brings_it_back_whole() {
    let mut scene = scene();
    let mut history = History::new();
    let change = reshape(&mut scene, Deed::Ungroup, "Group 7".to_owned(), |scene| {
        take_node(scene, 7);
    })
    .expect("the group left the tree");
    history.kept(TreeChange::Tree(change), 0);
    assert!(find(&scene, 7).is_none());
    // The map inside the group went with it.
    assert!(find(&scene, 3).is_none());
    assert!(undo_in(&mut history, &mut scene));
    assert!(find(&scene, 7).is_some());
    assert!(find(&scene, 3).is_some());
    // And it came back where it sat: after the two maps of the root.
    assert_eq!(scene.root.children.len(), 3);
    assert_eq!(scene.root.children[2].id(), 7);
}

#[test]
fn a_stack_that_wrote_itself_asks_for_no_second_write() {
    let mut scene = scene();
    let mut history = History::new();
    assert!(!history.unwritten());
    run_in(&mut history, &mut scene, rename_to_cave(), 0);
    assert!(history.unwritten());
    history.wrote();
    assert!(!history.unwritten());
    assert!(undo_in(&mut history, &mut scene));
    assert!(history.unwritten());
}

#[test]
fn a_rename_goes_back_and_comes_again() {
    let mut scene = scene();
    let start = copy(&scene);
    let mut history = History::new();
    run_in(&mut history, &mut scene, rename_to_cave(), 10);
    let Some(Node::Group(group)) = scene.root.children.get(2) else {
        panic!("the group is the third child");
    };
    assert_eq!(group.name, "Cave");
    let renamed = copy(&scene);
    assert!(undo_in(&mut history, &mut scene));
    assert_eq!(scene, start);
    assert!(redo_in(&mut history, &mut scene));
    assert_eq!(scene, renamed);
    // Nothing is left to write again.
    assert!(!redo_in(&mut history, &mut scene));
}

#[test]
fn a_change_of_screens_goes_back() {
    let mut scene = scene();
    let start = copy(&scene);
    let mut history = History::new();
    let change = TreeChange::Shown(SetShown {
        id: 3,
        subject: "map.png".to_owned(),
        before: Shown::both(),
        after: Shown { dm: true, tv: false },
    });
    run_in(&mut history, &mut scene, change, 10);
    let Some(Node::Group(group)) = scene.root.children.get(2) else {
        panic!("the group is the third child");
    };
    let Some(Node::Asset(leaf)) = group.children.first() else {
        panic!("the map is in the group");
    };
    assert!(leaf.shown.dm && !leaf.shown.tv);
    assert!(undo_in(&mut history, &mut scene));
    assert_eq!(scene, start);
}

#[test]
fn the_step_list_reads_oldest_first_and_keeps_what_was_taken_back() {
    let mut scene = scene();
    let mut history = History::new();
    run_in(&mut history, &mut scene, rename_to_cave(), 1_000_000);
    let change = TreeChange::Shown(SetShown {
        id: 7,
        subject: "Cave".to_owned(),
        before: Shown::both(),
        after: Shown { dm: true, tv: false },
    });
    run_in(&mut history, &mut scene, change, 1_000_000);
    let told: Vec<(String, String, String)> = steps_in(&history, 1_000_000)
        .into_iter()
        .map(|note| (note.what, note.subject, note.detail))
        .collect();
    assert_eq!(
        told,
        vec![
            ("Rename".to_owned(), "Group 7".to_owned(), "to Cave".to_owned()),
            ("Screens".to_owned(), "Cave".to_owned(), "DM and TV to DM only".to_owned()),
        ]
    );
    assert_eq!(steps_in(&history, 1_000_000)[0].ago, "just now");
    assert_eq!(history.place(), 2);
    assert!(undo_in(&mut history, &mut scene));
    // The step the DM took back stays on the list, behind the place.
    assert_eq!(steps_in(&history, 1_000_000).len(), 2);
    assert_eq!(history.place(), 1);
}

#[test]
fn a_walk_goes_to_the_step_the_dm_picked() {
    let mut scene = scene();
    let start = copy(&scene);
    let mut history = History::new();
    for name in ["One", "Two", "Three", "Four"] {
        let before = match scene.root.children.get(2) {
            Some(Node::Group(group)) => group.name.clone(),
            _ => panic!("the group is the third child"),
        };
        let change = TreeChange::Name(SetName { id: 7, before, after: name.to_owned() });
        run_in(&mut history, &mut scene, change, 0);
    }
    let all = copy(&scene);
    assert!(walk_to(&mut history, &mut scene, 0));
    assert_eq!(scene, start);
    assert_eq!(history.place(), 0);
    assert!(walk_to(&mut history, &mut scene, 4));
    assert_eq!(scene, all);
    // The place it stands on already asks for no walk.
    assert!(!walk_to(&mut history, &mut scene, 4));
    // A place past the end walks as far as the stack goes.
    assert!(walk_to(&mut history, &mut scene, 1));
    assert!(walk_to(&mut history, &mut scene, 9));
    assert_eq!(history.place(), 4);
}

#[test]
fn a_group_made_from_two_maps_goes_back_in_one_step() {
    let mut scene = scene();
    let start = copy(&scene);
    let change = reshape(&mut scene, Deed::Group, "2 maps".to_owned(), |scene| {
        dmap::scene::grouping::group_selection(scene, &[1, 3], "New".to_owned());
    })
    .unwrap();
    let mut history = History::new();
    history.kept(TreeChange::Tree(change), 0);
    let grouped = copy(&scene);
    assert!(undo_in(&mut history, &mut scene));
    assert_eq!(scene, start);
    assert!(redo_in(&mut history, &mut scene));
    assert_eq!(scene, grouped);
}

#[test]
fn a_move_from_one_group_to_another_takes_both_lists() {
    let mut scene = scene();
    scene.root.children.push(Node::Group(Group::new(8, "Group 8".to_owned())));
    let start = copy(&scene);
    let change = reshape(&mut scene, Deed::AnotherGroup, "the map".to_owned(), |scene| {
        move_into(scene, 3, 8);
    })
    .unwrap();
    assert_eq!(change.after.len(), 2);
    assert_eq!(change.after[0].0, 7);
    assert_eq!(change.after[1].0, 8);
    change.revert(&mut scene);
    assert_eq!(scene, start);
}

fn rename(before: &str, after: &str) -> TreeChange {
    TreeChange::Name(SetName { id: 7, before: before.to_owned(), after: after.to_owned() })
}

#[test]
fn redo_writes_the_change_again() {
    let mut scene = scene();
    let mut history = History::new();
    run_in(&mut history, &mut scene, rename_to_cave(), 10);
    let named = copy(&scene);
    assert!(undo_in(&mut history, &mut scene));
    assert_ne!(scene, named);
    assert!(redo_in(&mut history, &mut scene));
    assert_eq!(scene, named);
}

#[test]
fn a_new_change_drops_what_the_dm_took_back() {
    // The second change is a rename that leaves the name as it is: a
    // change the library holds, in the place of a change of the TV box.
    let mut scene = scene();
    let mut history = History::new();
    let hide = TreeChange::Shown(SetShown {
        id: 7,
        subject: "Group 7".to_owned(),
        before: Shown::both(),
        after: Shown { dm: true, tv: false },
    });
    run_in(&mut history, &mut scene, hide, 10);
    assert!(undo_in(&mut history, &mut scene));
    run_in(&mut history, &mut scene, rename("Group 7", "Group 7"), 11);
    assert!(!redo_in(&mut history, &mut scene));
}

#[test]
fn the_stack_holds_a_hundred_steps_and_no_more() {
    let mut scene = scene();
    let mut history = History::new();
    let mut name = "Group 7".to_owned();
    for step in 1..=STEPS + 10 {
        let next = format!("Room {step}");
        run_in(&mut history, &mut scene, rename(&name, &next), step as u64);
        name = next;
    }
    let mut steps = 0;
    while undo_in(&mut history, &mut scene) {
        steps += 1;
    }
    assert_eq!(steps, STEPS);
}

#[test]
fn a_file_that_says_more_steps_than_it_holds_stops_at_the_end() {
    let mut scene = scene();
    let history: History<TreeChange> = History::from_steps(Vec::<Step<TreeChange>>::new(), 9);
    assert_eq!(history.place(), 0);
    assert!(steps_in(&history, 0).is_empty());
    let mut history = history;
    assert!(!undo_in(&mut history, &mut scene));
}

#[test]
fn a_drag_of_many_renames_goes_back_in_one_step() {
    let mut scene = scene();
    let start = copy(&scene);
    let mut history = History::new();
    for frame in 1..=5 {
        hold_in(&mut history, &mut scene, rename("Group 7", &format!("Cave {frame}")), frame);
    }
    history.settle();
    assert_eq!(history.place(), 1);
    assert!(undo_in(&mut history, &mut scene));
    assert_eq!(scene, start);
    assert!(!undo_in(&mut history, &mut scene));
}
