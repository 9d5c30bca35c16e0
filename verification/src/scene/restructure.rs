//! A change to the shape of the tree, kept as the lists of children it
//! rewrote, before and after.

use vstd::prelude::*;

use crate::scene::edit::{group_of, put_group, with_children};
use crate::scene::model::{
    Group, GroupView, Node, NodeId, NodeView, duplicate_nodes, lemma_view_nodes,
    lemma_view_nodes_ext, nodes_view, view_group, view_node, view_nodes,
};
use crate::scene::{Scene, lend_group, return_group};
use crate::history::{Deed, Note, deed_word, lists, lists_words};
use crate::text::{args_view, decimal, fill, filled};

verus! {

broadcast use lemma_view_nodes;

/// Lists of children by group, as mathematical values.
pub open spec fn lists_view(v: Seq<(NodeId, Vec<Node>)>) -> Seq<(NodeId, Seq<NodeView>)> {
    Seq::new(v.len(), |i: int| (v[i].0, view_nodes(v[i].1@)))
}

/// The tree with the group an edit of `id` reaches holding `children`.
pub open spec fn write_list(root: GroupView, id: NodeId, children: Seq<NodeView>) -> GroupView {
    match group_of(root, id) {
        Some(g) => put_group(root, id, with_children(g, children)),
        None => root,
    }
}

/// The tree with the first `n` lists written, in order.
pub open spec fn written(root: GroupView, lists: Seq<(NodeId, Seq<NodeView>)>, n: int) -> GroupView
    decreases n,
{
    if n <= 0 || n > lists.len() {
        root
    } else {
        let before = written(root, lists, n - 1);
        write_list(before, lists[n - 1].0, lists[n - 1].1)
    }
}

/// Gives the group an edit of `id` reaches a copy of `children`.
pub fn write_children(scene: &mut Scene, id: NodeId, children: &Vec<Node>)
    ensures
        final(scene)@ == write_list(old(scene)@, id, nodes_view(children)),
{
    let ghost was = scene@;
    match lend_group(scene, id) {
        None => {},
        Some(mut group) => {
            group.children = duplicate_nodes(children);
            proof {
                assert(group@ =~= with_children(group_of(was, id)->0, nodes_view(children)));
            }
            return_group(scene, id, group, Ghost(was));
        },
    }
}

/// Writes every list, in order.
pub fn write_all(scene: &mut Scene, lists: &Vec<(NodeId, Vec<Node>)>)
    ensures
        final(scene)@ == written(old(scene)@, lists_view(lists@), lists@.len() as int),
{
    let ghost was = scene@;
    let ghost view = lists_view(lists@);
    let mut i: usize = 0;
    while i < lists.len()
        invariant
            i <= lists.len(),
            view == lists_view(lists@),
            scene@ == written(was, view, i as int),
        decreases lists.len() - i,
    {
        let (id, children) = &lists[i];
        write_children(scene, *id, children);
        i += 1;
    }
}

/// Whether two rows of children hold the same nodes in the same order,
/// two groups counting as the same node when their id, name and switches
/// agree, whatever they hold.
pub open spec fn same_row(was: Seq<NodeView>, now: Seq<NodeView>) -> bool {
    &&& was.len() == now.len()
    &&& forall|i: int| 0 <= i < was.len() ==> match (#[trigger] was[i], now[i]) {
        (NodeView::Group(a), NodeView::Group(b)) => a.id == b.id && a.name == b.name && a.shown == b.shown,
        (NodeView::Asset(a), NodeView::Asset(b)) => a == b,
        _ => false,
    }
}

/// The lists that differ between two versions of one group: those it
/// carried before, and those it carries after, by group.
///
/// The walk stops at the highest group whose children changed. A deeper
/// group is only visited while the lists above it match node for node.
pub open spec fn lists_of(was: GroupView, now: GroupView) -> (Seq<(NodeId, Seq<NodeView>)>, Seq<(NodeId, Seq<NodeView>)>)
    decreases was, 0int,
{
    if was.children == now.children {
        (Seq::empty(), Seq::empty())
    } else if same_row(was.children, now.children) {
        lists_among(was.children, now.children, 0)
    } else {
        (seq![(now.id, was.children)], seq![(now.id, now.children)])
    }
}

/// [`lists_of`] over the pairs of groups at place `k` of two rows or after.
pub open spec fn lists_among(was: Seq<NodeView>, now: Seq<NodeView>, k: int) -> (Seq<(NodeId, Seq<NodeView>)>, Seq<(NodeId, Seq<NodeView>)>)
    decreases was, was.len() - k,
{
    if k < 0 || k >= was.len() || k >= now.len() {
        (Seq::empty(), Seq::empty())
    } else {
        let here = match (was[k], now[k]) {
            (NodeView::Group(a), NodeView::Group(b)) => lists_of(a, b),
            _ => (Seq::empty(), Seq::empty()),
        };
        let rest = lists_among(was, now, k + 1);
        (here.0 + rest.0, here.1 + rest.1)
    }
}

/// Whether two nodes are the same, all the way down.
pub fn same_node(a: &Node, b: &Node) -> (r: bool)
    ensures
        r == (a@ == b@),
    decreases a,
{
    match (a, b) {
        (Node::Group(x), Node::Group(y)) => {
            let r = x.id == y.id && x.name == y.name && x.shown == y.shown && x.ink == y.ink
                && same_nodes(&x.children, &y.children);
            proof {
                if r {
                    assert(x@ =~= y@);
                }
            }
            r
        },
        (Node::Asset(x), Node::Asset(y)) => x == y,
        (Node::Stroke(x), Node::Stroke(y)) => x == y,
        _ => false,
    }
}

/// Whether two lists hold the same nodes, all the way down.
pub fn same_nodes(a: &Vec<Node>, b: &Vec<Node>) -> (r: bool)
    ensures
        r == (nodes_view(a) == nodes_view(b)),
    decreases a,
{
    proof {
        assert(nodes_view(a).len() == a@.len());
        assert(nodes_view(b).len() == b@.len());
    }
    if a.len() != b.len() {
        return false;
    }
    let mut i: usize = 0;
    while i < a.len()
        invariant
            i <= a.len() == b.len(),
            forall|j: int| 0 <= j < i ==> nodes_view(a)[j] == nodes_view(b)[j],
        decreases a.len() - i,
    {
        proof {
            lemma_view_nodes(a@);
            lemma_view_nodes(b@);
            assert(nodes_view(a)[i as int] == view_node(a@[i as int]));
            assert(nodes_view(b)[i as int] == view_node(b@[i as int]));
        }
        if !same_node(&a[i], &b[i]) {
            proof {
                assert(nodes_view(a)[i as int] != nodes_view(b)[i as int]);
            }
            return false;
        }
        i += 1;
    }
    proof {
        assert(nodes_view(a) =~= nodes_view(b));
    }
    true
}

/// Whether two rows of children hold the same nodes in the same order, as
/// [`same_row`] counts them.
pub fn same_row_of(was: &Vec<Node>, now: &Vec<Node>) -> (r: bool)
    ensures
        r == same_row(nodes_view(was), nodes_view(now)),
{
    proof {
        assert(nodes_view(was).len() == was@.len());
        assert(nodes_view(now).len() == now@.len());
    }
    if was.len() != now.len() {
        return false;
    }
    let mut i: usize = 0;
    while i < was.len()
        invariant
            i <= was.len() == now.len(),
            forall|j: int| 0 <= j < i ==> match (#[trigger] nodes_view(was)[j], nodes_view(now)[j]) {
                (NodeView::Group(a), NodeView::Group(b)) => a.id == b.id && a.name == b.name && a.shown == b.shown,
                (NodeView::Asset(a), NodeView::Asset(b)) => a == b,
                _ => false,
            },
        decreases was.len() - i,
    {
        proof {
            lemma_view_nodes(was@);
            lemma_view_nodes(now@);
            assert(nodes_view(was)[i as int] == view_node(was@[i as int]));
            assert(nodes_view(now)[i as int] == view_node(now@[i as int]));
        }
        let same = match (&was[i], &now[i]) {
            (Node::Group(a), Node::Group(b)) => a.id == b.id && a.name == b.name && a.shown == b.shown,
            (Node::Asset(a), Node::Asset(b)) => a == b,
            _ => false,
        };
        if !same {
            return false;
        }
        i += 1;
    }
    proof {
        assert forall|j: int| 0 <= j < was@.len() implies match (#[trigger] nodes_view(was)[j], nodes_view(now)[j]) {
            (NodeView::Group(a), NodeView::Group(b)) => a.id == b.id && a.name == b.name && a.shown == b.shown,
            (NodeView::Asset(a), NodeView::Asset(b)) => a == b,
            _ => false,
        } by {}
    }
    true
}

fn collect_lists(
    was: &Group,
    now: &Group,
    before: &mut Vec<(NodeId, Vec<Node>)>,
    after: &mut Vec<(NodeId, Vec<Node>)>,
)
    ensures
        lists_view(final(before)@) == lists_view(old(before)@) + lists_of(was@, now@).0,
        lists_view(final(after)@) == lists_view(old(after)@) + lists_of(was@, now@).1,
    decreases was@, 0int,
{
    let ghost b0 = lists_view(before@);
    let ghost a0 = lists_view(after@);
    if same_nodes(&was.children, &now.children) {
        proof {
            assert(b0 + Seq::<(NodeId, Seq<NodeView>)>::empty() =~= b0);
            assert(a0 + Seq::<(NodeId, Seq<NodeView>)>::empty() =~= a0);
        }
        return;
    }
    if same_row_of(&was.children, &now.children) {
        proof {
            assert(was@.children == nodes_view(&was.children));
            assert(decreases_to!(was@ => was@.children));
        }
        collect_among(&was.children, &now.children, before, after);
        return;
    }
    before.push((now.id, duplicate_nodes(&was.children)));
    after.push((now.id, duplicate_nodes(&now.children)));
    proof {
        assert(lists_view(before@) =~= b0 + seq![(now@.id, was@.children)]);
        assert(lists_view(after@) =~= a0 + seq![(now@.id, now@.children)]);
    }
}

fn collect_among(
    was: &Vec<Node>,
    now: &Vec<Node>,
    before: &mut Vec<(NodeId, Vec<Node>)>,
    after: &mut Vec<(NodeId, Vec<Node>)>,
)
    requires
        was@.len() == now@.len(),
    ensures
        lists_view(final(before)@) == lists_view(old(before)@) + lists_among(nodes_view(was), nodes_view(now), 0).0,
        lists_view(final(after)@) == lists_view(old(after)@) + lists_among(nodes_view(was), nodes_view(now), 0).1,
    decreases nodes_view(was), nodes_view(was).len() + 1,
{
    let ghost ws = nodes_view(was);
    let ghost ns = nodes_view(now);
    let ghost b0 = lists_view(before@);
    let ghost a0 = lists_view(after@);
    let mut i: usize = 0;
    while i < was.len()
        invariant
            i <= was.len() == now.len(),
            ws == nodes_view(was),
            ns == nodes_view(now),
            b0 + lists_among(ws, ns, 0).0 == lists_view(before@) + lists_among(ws, ns, i as int).0,
            a0 + lists_among(ws, ns, 0).1 == lists_view(after@) + lists_among(ws, ns, i as int).1,
        decreases was.len() - i,
    {
        let ghost b1 = lists_view(before@);
        let ghost a1 = lists_view(after@);
        match (&was[i], &now[i]) {
            (Node::Group(x), Node::Group(y)) => {
                proof {
                    assert(ws[i as int] == NodeView::Group(x@));
                }
                collect_lists(x, y, before, after);
            },
            _ => {},
        }
        proof {
            let here = match (ws[i as int], ns[i as int]) {
                (NodeView::Group(a), NodeView::Group(b)) => lists_of(a, b),
                _ => (Seq::empty(), Seq::empty()),
            };
            let rest = lists_among(ws, ns, i + 1);
            assert(lists_view(before@) == b1 + here.0);
            assert(lists_view(after@) == a1 + here.1);
            assert(b1 + (here.0 + rest.0) =~= lists_view(before@) + rest.0);
            assert(a1 + (here.1 + rest.1) =~= lists_view(after@) + rest.1);
        }
        i += 1;
    }
    proof {
        assert(lists_view(before@) + lists_among(ws, ns, i as int).0 =~= lists_view(before@));
        assert(lists_view(after@) + lists_among(ws, ns, i as int).1 =~= lists_view(after@));
    }
}

/// The lists two versions of one tree differ in: those the old one held,
/// and those the new one holds, by group.
pub fn lists_between(was: &Group, now: &Group) -> (r: (Vec<(NodeId, Vec<Node>)>, Vec<(NodeId, Vec<Node>)>))
    ensures
        lists_view(r.0@) == lists_of(was@, now@).0,
        lists_view(r.1@) == lists_of(was@, now@).1,
{
    let mut before = Vec::new();
    let mut after = Vec::new();
    proof {
        assert(lists_view(before@) =~= Seq::<(NodeId, Seq<NodeView>)>::empty());
        assert(lists_view(after@) =~= Seq::<(NodeId, Seq<NodeView>)>::empty());
    }
    collect_lists(was, now, &mut before, &mut after);
    proof {
        assert(Seq::<(NodeId, Seq<NodeView>)>::empty() + lists_of(was@, now@).0 =~= lists_of(was@, now@).0);
        assert(Seq::<(NodeId, Seq<NodeView>)>::empty() + lists_of(was@, now@).1 =~= lists_of(was@, now@).1);
    }
    (before, after)
}

/// A new shape for the tree: an add, a delete, a move, an order or a group.
///
/// The change holds the children of each group it rewrote. A group inside
/// one of those is left out, because the list of the group above already
/// carries it.
#[derive(Debug)]
pub struct Restructure {
    /// What the DM did, for the history list.
    pub what: Deed,
    /// The file or the group it happened to.
    pub subject: String,
    /// The children each group carried, by group.
    pub before: Vec<(NodeId, Vec<Node>)>,
    /// The children each group carries after the change.
    pub after: Vec<(NodeId, Vec<Node>)>,
}

impl Restructure {
    /// Writes the lists the change made.
    pub fn apply(&self, scene: &mut Scene)
        ensures
            final(scene)@ == written(old(scene)@, lists_view(self.after@), self.after@.len() as int),
    {
        write_all(scene, &self.after);
    }

    /// Writes back the lists that stood before the change.
    pub fn revert(&self, scene: &mut Scene)
        ensures
            final(scene)@ == written(old(scene)@, lists_view(self.before@), self.before@.len() as int),
    {
        write_all(scene, &self.before);
    }

    /// What this change says on the history list: the deed, what it
    /// happened to, and how many lists it rewrote.
    pub fn note(&self) -> (r: Note)
        ensures
            r.what@ == deed_word(self.what),
            r.subject@ == self.subject@,
            r.detail@ == filled("{lists}"@, seq![("lists"@, lists_words(self.after@.len() as nat))]),
            r.ago@ == Seq::<char>::empty(),
    {
        let count = lists(self.after.len() as u64);
        let args = [("lists", count.as_str())];
        proof {
            assert(args_view(args@) =~= seq![("lists"@, count@)]);
        }
        let detail = fill(crate::catalog::history_detail_tree_text(), &args);
        Note::new(self.what.word(), self.subject.clone(), detail)
    }
}

/// The change between two versions of one tree, kept as the lists they
/// differ in; `None` when they hold the same lists.
pub fn reshape_between(was: &Group, now: &Group, what: Deed, subject: String) -> (r: Option<Restructure>)
    ensures
        r is None <==> lists_of(was@, now@).1.len() == 0,
        r matches Some(change) ==> {
            &&& change.what == what
            &&& change.subject == subject
            &&& change.after@.len() >= 1
            &&& change.before@.len() == change.after@.len()
            &&& forall|i: int| 0 <= i < change.before@.len() ==> (#[trigger] change.before@[i]).0 == change.after@[i].0
            &&& lists_view(change.before@) == lists_of(was@, now@).0
            &&& lists_view(change.after@) == lists_of(was@, now@).1
        },
{
    let (before, after) = lists_between(was, now);
    proof {
        lemma_lists_paired(was@, now@);
        assert(lists_view(before@).len() == before@.len());
        assert(lists_view(after@).len() == after@.len());
        assert forall|i: int| 0 <= i < before@.len() implies (#[trigger] before@[i]).0 == after@[i].0 by {
            assert(lists_view(before@)[i].0 == before@[i].0);
            assert(lists_view(after@)[i].0 == after@[i].0);
        }
    }
    if after.len() == 0 {
        proof {
            assert(lists_view(after@).len() == 0);
        }
        None
    } else {
        Some(Restructure { what, subject, before, after })
    }
}

/// Whether two lists of lists name the same groups, in the same order.
pub open spec fn paired(a: Seq<(NodeId, Seq<NodeView>)>, b: Seq<(NodeId, Seq<NodeView>)>) -> bool {
    &&& a.len() == b.len()
    &&& forall|i: int| 0 <= i < a.len() ==> #[trigger] a[i].0 == b[i].0
}

proof fn lemma_paired_concat(
    a: Seq<(NodeId, Seq<NodeView>)>,
    b: Seq<(NodeId, Seq<NodeView>)>,
    c: Seq<(NodeId, Seq<NodeView>)>,
    d: Seq<(NodeId, Seq<NodeView>)>,
)
    requires
        paired(a, b),
        paired(c, d),
    ensures
        paired(a + c, b + d),
{
    assert forall|i: int| 0 <= i < (a + c).len() implies #[trigger] (a + c)[i].0 == (b + d)[i].0 by {
        if i >= a.len() {
            assert(c[i - a.len()].0 == d[i - a.len()].0);
        }
    }
}

/// The change between two trees names the same groups before and after,
/// in the same order: each list it keeps of a group is paired with the
/// list that group carries after.
pub proof fn lemma_lists_paired(was: GroupView, now: GroupView)
    ensures
        paired(lists_of(was, now).0, lists_of(was, now).1),
    decreases was, 0int,
{
    if was.children != now.children && same_row(was.children, now.children) {
        lemma_lists_among_paired(was.children, now.children, 0);
    }
}

proof fn lemma_lists_among_paired(was: Seq<NodeView>, now: Seq<NodeView>, k: int)
    ensures
        paired(lists_among(was, now, k).0, lists_among(was, now, k).1),
    decreases was, was.len() - k,
{
    if 0 <= k < was.len() && k < now.len() {
        lemma_lists_among_paired(was, now, k + 1);
        let here = match (was[k], now[k]) {
            (NodeView::Group(a), NodeView::Group(b)) => lists_of(a, b),
            _ => (Seq::empty(), Seq::empty()),
        };
        match (was[k], now[k]) {
            (NodeView::Group(a), NodeView::Group(b)) => {
                assert(decreases_to!(was => was[k]));
                lemma_lists_paired(a, b);
            },
            _ => {},
        }
        let rest = lists_among(was, now, k + 1);
        lemma_paired_concat(here.0, here.1, rest.0, rest.1);
    }
}

} // verus!
