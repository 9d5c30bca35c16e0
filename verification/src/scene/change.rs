//! The changes a tool makes to the tree, each holding the values it writes
//! and the values that stood there before, so every revert is exact.

use vstd::prelude::*;

use crate::scene::edit::{
    first_group_at, group_of, lemma_first_group_id, lemma_put_twice, put_group, with_children,
};
use crate::scene::model::{
    Group, GroupView, Leaf, Node, NodeId, NodeView, ROOT_ID, Shown, lemma_view_nodes,
    lemma_view_nodes_ext, nodes_view, view_node, view_nodes,
};
use crate::scene::order::lemma_put_group_same;
use crate::scene::tree::{children_in, find_at};
use crate::scene::{Scene, lend_group, return_group};
use crate::history::{Note, screens, screens_words};
use crate::text::{args_view, fill, filled};

verus! {

broadcast use lemma_view_nodes;

/// A group with another name.
pub open spec fn with_name(g: GroupView, name: Seq<char>) -> GroupView {
    GroupView { name, ..g }
}

/// A group with other switches.
pub open spec fn with_shown(g: GroupView, shown: Shown) -> GroupView {
    GroupView { shown, ..g }
}

/// The tree with the group an edit of `id` reaches named `name`.
pub open spec fn renamed(root: GroupView, id: NodeId, name: Seq<char>) -> GroupView {
    match group_of(root, id) {
        Some(g) => put_group(root, id, with_name(g, name)),
        None => root,
    }
}

/// Gives the group an edit of `id` reaches another name. Returns whether
/// the tree holds such a group.
pub fn rename_group(scene: &mut Scene, id: NodeId, name: &String) -> (r: bool)
    ensures
        r == (group_of(old(scene)@, id) is Some),
        final(scene)@ == renamed(old(scene)@, id, name@),
{
    let ghost was = scene@;
    match lend_group(scene, id) {
        None => false,
        Some(mut group) => {
            group.name = name.clone();
            return_group(scene, id, group, Ghost(was));
            true
        },
    }
}

/// The first map (or, with `ink`, drawing) of this id at place `k` of `s`
/// or after, however deep.
pub open spec fn first_leaf_at(s: Seq<NodeView>, id: NodeId, ink: bool, k: int) -> Option<Leaf>
    decreases s, s.len() - k,
{
    if k < 0 || k >= s.len() {
        None
    } else {
        match s[k] {
            NodeView::Group(g) => match first_leaf_at(g.children, id, ink, 0) {
                Some(found) => Some(found),
                None => first_leaf_at(s, id, ink, k + 1),
            },
            NodeView::Asset(leaf) => if !ink && leaf.id == id {
                Some(leaf)
            } else {
                first_leaf_at(s, id, ink, k + 1)
            },
            NodeView::Stroke(leaf) => if ink && leaf.id == id {
                Some(leaf)
            } else {
                first_leaf_at(s, id, ink, k + 1)
            },
        }
    }
}

/// `s` with the switches of the leaf [`first_leaf_at`] finds set to `shown`.
pub open spec fn leaf_shown_at(s: Seq<NodeView>, id: NodeId, ink: bool, shown: Shown, k: int) -> Seq<NodeView>
    decreases s, s.len() - k,
{
    if k < 0 || k >= s.len() {
        s
    } else {
        match s[k] {
            NodeView::Group(g) => match first_leaf_at(g.children, id, ink, 0) {
                Some(_) => s.update(k, NodeView::Group(with_children(g, leaf_shown_at(g.children, id, ink, shown, 0)))),
                None => leaf_shown_at(s, id, ink, shown, k + 1),
            },
            NodeView::Asset(leaf) => if !ink && leaf.id == id {
                s.update(k, NodeView::Asset(Leaf { id, shown }))
            } else {
                leaf_shown_at(s, id, ink, shown, k + 1)
            },
            NodeView::Stroke(leaf) => if ink && leaf.id == id {
                s.update(k, NodeView::Stroke(Leaf { id, shown }))
            } else {
                leaf_shown_at(s, id, ink, shown, k + 1)
            },
        }
    }
}

/// Sets the switches of the first map (or drawing) of this id in a list.
fn set_leaf_shown(nodes: &mut Vec<Node>, id: NodeId, ink: bool, shown: Shown) -> (found: bool)
    ensures
        found == (first_leaf_at(nodes_view(old(nodes)), id, ink, 0) is Some),
        nodes_view(final(nodes)) == leaf_shown_at(nodes_view(old(nodes)), id, ink, shown, 0),
    decreases nodes_view(old(nodes)),
{
    let ghost s = nodes_view(nodes);
    let mut i: usize = 0;
    while i < nodes.len()
        invariant
            i <= nodes.len() == s.len(),
            s == nodes_view(nodes),
            s == nodes_view(old(nodes)),
            first_leaf_at(s, id, ink, 0) == first_leaf_at(s, id, ink, i as int),
            leaf_shown_at(s, id, ink, shown, 0) == leaf_shown_at(s, id, ink, shown, i as int),
        decreases nodes.len() - i,
    {
        let ghost before = nodes@;
        proof {
            assert(s[i as int] == view_node(before[i as int]));
        }
        match &mut nodes[i] {
            Node::Group(inside) => {
                let ghost was = inside@;
                proof {
                    assert(before[i as int] == Node::Group(*inside));
                }
                if set_leaf_shown(&mut inside.children, id, ink, shown) {
                    proof {
                        let changed = with_children(was, leaf_shown_at(was.children, id, ink, shown, 0));
                        assert(inside@ == changed);
                        lemma_view_nodes_ext(nodes@, s.update(i as int, NodeView::Group(changed)));
                    }
                    return true;
                }
                proof {
                    lemma_leaf_shown_nothing(was.children, id, ink, shown, 0);
                    assert(inside@ =~= was);
                }
            },
            Node::Asset(leaf) => {
                if !ink && leaf.id == id {
                    leaf.shown = shown;
                    proof {
                        lemma_view_nodes_ext(nodes@, s.update(i as int, NodeView::Asset(Leaf { id, shown })));
                    }
                    return true;
                }
            },
            Node::Stroke(leaf) => {
                if ink && leaf.id == id {
                    leaf.shown = shown;
                    proof {
                        lemma_view_nodes_ext(nodes@, s.update(i as int, NodeView::Stroke(Leaf { id, shown })));
                    }
                    return true;
                }
            },
        }
        proof {
            lemma_view_nodes_ext(nodes@, s);
        }
        i += 1;
    }
    false
}

/// A set of switches that finds no leaf leaves the list as it stood.
proof fn lemma_leaf_shown_nothing(s: Seq<NodeView>, id: NodeId, ink: bool, shown: Shown, k: int)
    ensures
        first_leaf_at(s, id, ink, k) is None ==> leaf_shown_at(s, id, ink, shown, k) == s,
    decreases s, s.len() - k,
{
    if 0 <= k < s.len() {
        lemma_leaf_shown_nothing(s, id, ink, shown, k + 1);
    }
}

/// The tree with the switches of the node of this id set, as the list of
/// objects sets them: a group when the tree holds a group of that id, a
/// drawing when it holds a drawing, a map otherwise.
pub open spec fn shown_set(root: GroupView, id: NodeId, shown: Shown) -> GroupView {
    if children_in(root, id) is Some {
        match group_of(root, id) {
            Some(g) => put_group(root, id, with_shown(g, shown)),
            None => root,
        }
    } else if find_at(root.children, id, 0) matches Some(NodeView::Stroke(_)) {
        with_children(root, leaf_shown_at(root.children, id, true, shown, 0))
    } else {
        with_children(root, leaf_shown_at(root.children, id, false, shown, 0))
    }
}

/// The switches of the node of this id, as [`shown_set`] reaches them.
pub open spec fn shown_now(root: GroupView, id: NodeId) -> Option<Shown> {
    if children_in(root, id) is Some {
        match group_of(root, id) {
            Some(g) => Some(g.shown),
            None => None,
        }
    } else if find_at(root.children, id, 0) matches Some(NodeView::Stroke(_)) {
        match first_leaf_at(root.children, id, true, 0) {
            Some(leaf) => Some(leaf.shown),
            None => None,
        }
    } else {
        match first_leaf_at(root.children, id, false, 0) {
            Some(leaf) => Some(leaf.shown),
            None => None,
        }
    }
}

/// Sets which screens the node of this id draws on. Returns whether the
/// tree holds such a node.
pub fn set_shown(scene: &mut Scene, id: NodeId, shown: Shown) -> (r: bool)
    ensures
        r == (shown_now(old(scene)@, id) is Some),
        final(scene)@ == shown_set(old(scene)@, id, shown),
{
    let ghost was = scene@;
    if crate::scene::has_group(scene, id) {
        return match lend_group(scene, id) {
            None => false,
            Some(mut group) => {
                group.shown = shown;
                return_group(scene, id, group, Ghost(was));
                true
            },
        };
    }
    let ink = match crate::scene::find(scene, id) {
        Some(Node::Stroke(_)) => true,
        _ => false,
    };
    let found = set_leaf_shown(&mut scene.root.children, id, ink, shown);
    proof {
        assert(scene@ =~= with_children(was, leaf_shown_at(was.children, id, ink, shown, 0)));
    }
    found
}

/// What the DM calls a group.
#[derive(Debug)]
pub struct SetName {
    /// The group that takes the name.
    pub id: NodeId,
    /// The name it carried.
    pub before: String,
    /// The name the DM typed.
    pub after: String,
}

impl SetName {
    /// Writes the new name.
    pub fn apply(&self, scene: &mut Scene)
        ensures
            final(scene)@ == renamed(old(scene)@, self.id, self.after@),
    {
        let _ = rename_group(scene, self.id, &self.after);
    }

    /// Writes the old name back.
    pub fn revert(&self, scene: &mut Scene)
        ensures
            final(scene)@ == renamed(old(scene)@, self.id, self.before@),
    {
        let _ = rename_group(scene, self.id, &self.before);
    }

    /// What this change says on the history list: a rename, of the old
    /// name, to the new one.
    pub fn note(&self) -> (r: Note)
        ensures
            r.what@ == "Rename"@,
            r.subject@ == self.before@,
            r.detail@ == filled("to {name}"@, seq![("name"@, self.after@)]),
            r.ago@ == Seq::<char>::empty(),
    {
        let args = [("name", self.after.as_str())];
        proof {
            assert(args_view(args@) =~= seq![("name"@, self.after@)]);
        }
        let detail = fill(crate::catalog::history_detail_rename_text(), &args);
        Note::new(crate::catalog::history_deed_rename(), self.before.clone(), detail)
    }
}

/// Which screens a node draws on.
#[derive(Debug)]
pub struct SetShown {
    /// The node whose switches the DM pressed.
    pub id: NodeId,
    /// What that node is called, for the history list.
    pub subject: String,
    /// The switches as they stood.
    pub before: Shown,
    /// The switches as the DM wants them.
    pub after: Shown,
}

impl SetShown {
    /// Writes the new switches.
    pub fn apply(&self, scene: &mut Scene)
        ensures
            final(scene)@ == shown_set(old(scene)@, self.id, self.after),
    {
        let _ = set_shown(scene, self.id, self.after);
    }

    /// Writes the old switches back.
    pub fn revert(&self, scene: &mut Scene)
        ensures
            final(scene)@ == shown_set(old(scene)@, self.id, self.before),
    {
        let _ = set_shown(scene, self.id, self.before);
    }

    /// What this change says on the history list: the screens of the node
    /// before and after.
    pub fn note(&self) -> (r: Note)
        ensures
            r.what@ == "Screens"@,
            r.subject@ == self.subject@,
            r.detail@ == filled(
                "{from} to {to}"@,
                seq![("from"@, screens_words(self.before)), ("to"@, screens_words(self.after))],
            ),
            r.ago@ == Seq::<char>::empty(),
    {
        let from = screens(self.before);
        let to = screens(self.after);
        let args = [("from", from), ("to", to)];
        proof {
            assert(args_view(args@) =~= seq![("from"@, screens_words(self.before)), ("to"@, screens_words(self.after))]);
        }
        let detail = fill(crate::catalog::history_detail_screens_text(), &args);
        Note::new(crate::catalog::history_deed_show(), self.subject.clone(), detail)
    }
}

/// A rename takes back exactly: the name that stood before a rename comes
/// back when the rename is reverted.
pub proof fn lemma_rename_reverts(root: GroupView, id: NodeId, after: Seq<char>)
    requires
        group_of(root, id) is Some,
    ensures
        renamed(renamed(root, id, after), id, group_of(root, id)->0.name) == root,
{
    let g = group_of(root, id)->0;
    if id != ROOT_ID {
        lemma_first_group_id(root.children, id, 0);
    }
    lemma_put_twice(root, id, with_name(g, after), with_name(g, g.name));
    assert(with_name(g, g.name) =~= g);
    lemma_put_group_same(root, id);
}

/// A second rename of a group overwrites the first: the tree ends as the
/// second alone leaves it.
pub proof fn lemma_rename_twice(root: GroupView, id: NodeId, first: Seq<char>, last: Seq<char>)
    ensures
        renamed(renamed(root, id, first), id, last) == renamed(root, id, last),
{
    if group_of(root, id) is Some {
        let g = group_of(root, id)->0;
        if id != ROOT_ID {
            lemma_first_group_id(root.children, id, 0);
        }
        lemma_put_twice(root, id, with_name(g, first), with_name(g, last));
        assert(with_name(with_name(g, first), last) == with_name(g, last));
    }
}

} // verus!
