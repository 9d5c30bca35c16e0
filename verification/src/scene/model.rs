//! The nodes of the tree, and the mathematical tree they stand for.

use vstd::prelude::*;

verus! {

/// The name of every node in one scene.
pub type NodeId = u64;

/// The id of the root group. Every other node takes a larger one.
pub const ROOT_ID: NodeId = 0;

/// Who is looking at the canvas.
#[derive(Debug, Clone, Copy, PartialEq, Eq, Structural)]
pub enum Audience {
    /// The DM window.
    Dm,
    /// The TV the players watch.
    Tv,
}

/// Which screens a node draws on, when the groups above it allow it.
#[derive(Debug, Clone, Copy, PartialEq, Eq, Structural)]
pub struct Shown {
    /// Draw on the DM screen.
    pub dm: bool,
    /// Draw on the TV.
    pub tv: bool,
}

impl Shown {
    /// Whether this pair says yes to one screen.
    pub open spec fn allows(self, audience: Audience) -> bool {
        match audience {
            Audience::Dm => self.dm,
            Audience::Tv => self.tv,
        }
    }

    /// Whether this pair says yes to one screen.
    pub fn says(self, audience: Audience) -> (r: bool)
        ensures
            r == self.allows(audience),
    {
        match audience {
            Audience::Dm => self.dm,
            Audience::Tv => self.tv,
        }
    }

    /// Both screens: the switches a new node starts with.
    pub fn both() -> (r: Shown)
        ensures
            r.dm && r.tv,
    {
        Shown { dm: true, tv: true }
    }
}

impl Default for Shown {
    fn default() -> (r: Shown)
        ensures
            r.dm && r.tv,
    {
        Shown { dm: true, tv: true }
    }
}

/// A map or a drawing as the tree holds it: its id and its switches.
#[derive(Debug, Clone, Copy, PartialEq, Eq, Structural)]
pub struct Leaf {
    /// The name of this node in the tree.
    pub id: NodeId,
    /// Which screens it draws on.
    pub shown: Shown,
}

/// One thing in the tree: a group, a map, or something the DM drew.
#[derive(Debug, PartialEq, Eq)]
pub enum Node {
    /// A group of other nodes.
    Group(Group),
    /// One image on the canvas.
    Asset(Leaf),
    /// One thing the DM drew, over the images.
    Stroke(Leaf),
}

/// A group of nodes, which the DM moves and hides as one.
#[derive(Debug, PartialEq, Eq)]
pub struct Group {
    /// The name of this group in the tree.
    pub id: NodeId,
    /// What the DM calls this group.
    pub name: String,
    /// Which screens this group draws on.
    pub shown: Shown,
    /// What sits in this group, bottom one first.
    pub children: Vec<Node>,
    /// Whether a new stroke joins this group.
    pub ink: bool,
}

/// A node as a mathematical value.
pub enum NodeView {
    Group(GroupView),
    Asset(Leaf),
    Stroke(Leaf),
}

/// A group as a mathematical value.
pub struct GroupView {
    pub id: NodeId,
    pub name: Seq<char>,
    pub shown: Shown,
    pub children: Seq<NodeView>,
    pub ink: bool,
}

pub open spec fn view_node(n: Node) -> NodeView
    decreases n,
{
    match n {
        Node::Group(g) => NodeView::Group(view_group(g)),
        Node::Asset(leaf) => NodeView::Asset(leaf),
        Node::Stroke(leaf) => NodeView::Stroke(leaf),
    }
}

pub open spec fn view_group(g: Group) -> GroupView
    decreases g,
{
    GroupView {
        id: g.id,
        name: g.name@,
        shown: g.shown,
        children: view_nodes(g.children@),
        ink: g.ink,
    }
}

pub open spec fn view_nodes(s: Seq<Node>) -> Seq<NodeView>
    decreases s,
{
    if s.len() == 0 {
        Seq::empty()
    } else {
        seq![view_node(s[0])] + view_nodes(s.drop_first())
    }
}

impl View for Node {
    type V = NodeView;

    open spec fn view(&self) -> NodeView {
        view_node(*self)
    }
}

impl View for Group {
    type V = GroupView;

    open spec fn view(&self) -> GroupView {
        view_group(*self)
    }
}

pub broadcast proof fn lemma_view_nodes(s: Seq<Node>)
    ensures
        #[trigger] view_nodes(s).len() == s.len(),
        forall|i: int| 0 <= i < s.len() ==> #[trigger] view_nodes(s)[i] == view_node(s[i]),
    decreases s.len(),
{
    if s.len() > 0 {
        lemma_view_nodes(s.drop_first());
    }
}

/// The mathematical value of a list of nodes.
pub open spec fn nodes_view(v: &Vec<Node>) -> Seq<NodeView> {
    view_nodes(v@)
}

pub proof fn lemma_view_nodes_ext(a: Seq<Node>, b: Seq<NodeView>)
    requires
        a.len() == b.len(),
        forall|i: int| 0 <= i < a.len() ==> view_node(#[trigger] a[i]) == b[i],
    ensures
        view_nodes(a) == b,
{
    lemma_view_nodes(a);
    assert(view_nodes(a) =~= b);
}

pub open spec fn id_of(n: NodeView) -> NodeId {
    match n {
        NodeView::Group(g) => g.id,
        NodeView::Asset(leaf) => leaf.id,
        NodeView::Stroke(leaf) => leaf.id,
    }
}

pub open spec fn shown_of(n: NodeView) -> Shown {
    match n {
        NodeView::Group(g) => g.shown,
        NodeView::Asset(leaf) => leaf.shown,
        NodeView::Stroke(leaf) => leaf.shown,
    }
}

impl Node {
    /// The name of this node in the tree.
    pub fn id(&self) -> (r: NodeId)
        ensures
            r == id_of(self@),
    {
        match self {
            Node::Group(group) => group.id,
            Node::Asset(leaf) => leaf.id,
            Node::Stroke(leaf) => leaf.id,
        }
    }

    /// Whether this node draws for `audience`, on its own account.
    pub fn shows(&self, audience: Audience) -> (r: bool)
        ensures
            r == shown_of(self@).allows(audience),
    {
        match self {
            Node::Group(group) => group.shown.says(audience),
            Node::Asset(leaf) => leaf.shown.says(audience),
            Node::Stroke(leaf) => leaf.shown.says(audience),
        }
    }

    /// The group this node is, when it is one.
    pub fn group(&self) -> (r: Option<&Group>)
        ensures
            match self@ {
                NodeView::Group(g) => r matches Some(x) && x@ == g,
                _ => r is None,
            },
    {
        match self {
            Node::Group(group) => Some(group),
            _ => None,
        }
    }

    /// The map this node is, when it is one.
    pub fn asset(&self) -> (r: Option<Leaf>)
        ensures
            match self@ {
                NodeView::Asset(leaf) => r == Some(leaf),
                _ => r is None,
            },
    {
        match self {
            Node::Asset(leaf) => Some(*leaf),
            _ => None,
        }
    }

    /// The drawing this node is, when it is one.
    pub fn stroke(&self) -> (r: Option<Leaf>)
        ensures
            match self@ {
                NodeView::Stroke(leaf) => r == Some(leaf),
                _ => r is None,
            },
    {
        match self {
            Node::Stroke(leaf) => Some(*leaf),
            _ => None,
        }
    }

    /// An exact copy of this node and everything under it.
    pub fn duplicate(&self) -> (r: Node)
        ensures
            r@ == self@,
        decreases self,
    {
        match self {
            Node::Group(group) => Node::Group(group.duplicate()),
            Node::Asset(leaf) => Node::Asset(*leaf),
            Node::Stroke(leaf) => Node::Stroke(*leaf),
        }
    }
}

/// An exact copy of a list of nodes.
pub fn duplicate_nodes(nodes: &Vec<Node>) -> (r: Vec<Node>)
    ensures
        nodes_view(&r) == nodes_view(nodes),
    decreases nodes,
{
    let mut out: Vec<Node> = Vec::new();
    let mut i: usize = 0;
    while i < nodes.len()
        invariant
            i <= nodes.len(),
            out@.len() == i,
            forall|j: int| 0 <= j < i ==> view_node(#[trigger] out@[j]) == view_node(nodes@[j]),
        decreases nodes.len() - i,
    {
        out.push(nodes[i].duplicate());
        i += 1;
    }
    proof {
        lemma_view_nodes(nodes@);
        lemma_view_nodes_ext(out@, view_nodes(nodes@));
    }
    out
}

/// The name a group takes when a file gives it none.
pub fn group_name() -> (r: String)
    ensures
        r@ == "Group"@,
{
    "Group".to_owned()
}

impl Group {
    /// An empty group with a name of its own, shown on both screens.
    pub fn new(id: NodeId, name: String) -> (r: Group)
        ensures
            r@ == (GroupView { id, name: name@, shown: Shown { dm: true, tv: true }, children: Seq::empty(), ink: false }),
    {
        let r = Group { id, name, shown: Shown::both(), children: Vec::new(), ink: false };
        proof {
            assert(view_nodes(r.children@) =~= Seq::<NodeView>::empty());
        }
        r
    }

    /// Whether this group draws for `audience`.
    pub fn shows(&self, audience: Audience) -> (r: bool)
        ensures
            r == self.shown.allows(audience),
    {
        self.shown.says(audience)
    }

    /// An exact copy of this group and everything under it.
    pub fn duplicate(&self) -> (r: Group)
        ensures
            r@ == self@,
        decreases self,
    {
        Group {
            id: self.id,
            name: self.name.clone(),
            shown: self.shown,
            children: duplicate_nodes(&self.children),
            ink: self.ink,
        }
    }
}

} // verus!
