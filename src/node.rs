use vstd::prelude::*;

use crate::property::{Property, PropertyModel, PropertyValue, ValueModel};

verus! {

/// The closed set of node kinds known to both writer and reader.
#[derive(Clone, Copy, Debug, PartialEq, Eq, Structural)]
pub enum NodeKind {
    Root,
    Metadata,
    Model,
    Skeleton,
    Bone,
    IKHandle,
    Constraint,
    Material,
    File,
    Mesh,
    BlendShape,
}

/// The mathematical value of a node: its kind, identity, properties and children, in order.
pub struct NodeModel {
    pub kind: NodeKind,
    pub hash: u64,
    pub properties: Seq<PropertyModel>,
    pub children: Seq<NodeModel>,
}

/// A node of the container tree.
#[derive(Debug)]
pub struct Node {
    kind: NodeKind,
    hash: u64,
    properties: Vec<Property>,
    children: Vec<Node>,
}

/// The models of a run of properties.
pub open spec fn properties_view(ps: Seq<Property>) -> Seq<PropertyModel> {
    ps.map_values(|p: Property| p@)
}

/// The model of a node.
pub closed spec fn node_view(n: Node) -> NodeModel
    decreases n,
{
    NodeModel {
        kind: n.kind,
        hash: n.hash,
        properties: properties_view(n.properties@),
        children: nodes_view(n.children@),
    }
}

/// The models of a run of nodes.
pub closed spec fn nodes_view(cs: Seq<Node>) -> Seq<NodeModel>
    decreases cs,
{
    if cs.len() == 0 {
        Seq::empty()
    } else {
        seq![node_view(cs[0])] + nodes_view(cs.subrange(1, cs.len() as int))
    }
}

proof fn lemma_nodes_view(cs: Seq<Node>)
    ensures
        nodes_view(cs).len() == cs.len(),
        forall|i: int| 0 <= i < cs.len() ==> #[trigger] nodes_view(cs)[i] == node_view(cs[i]),
    decreases cs.len(),
{
    if cs.len() > 0 {
        lemma_nodes_view(cs.subrange(1, cs.len() as int));
        assert forall|i: int| 0 <= i < cs.len() implies #[trigger] nodes_view(cs)[i] == node_view(cs[i]) by {
            if i > 0 {
                assert(cs.subrange(1, cs.len() as int)[i - 1] == cs[i]);
            }
        }
    }
}

/// The view of a run of nodes is the run of their views.
pub proof fn lemma_nodes_view_map(cs: Seq<Node>)
    ensures
        nodes_view(cs) == cs.map_values(|c: Node| c@),
{
    lemma_nodes_view(cs);
    assert(nodes_view(cs) =~= cs.map_values(|c: Node| c@));
}

impl View for Node {
    type V = NodeModel;

    closed spec fn view(&self) -> NodeModel {
        node_view(*self)
    }
}

/// The identities of a node and of all its descendants, in depth-first pre-order.
pub open spec fn hashes(n: NodeModel) -> Seq<u64>
    decreases n,
{
    seq![n.hash] + hashes_of(n.children)
}

/// The identities of a run of nodes and of all their descendants, in depth-first pre-order.
pub open spec fn hashes_of(cs: Seq<NodeModel>) -> Seq<u64>
    decreases cs,
{
    if cs.len() == 0 {
        Seq::empty()
    } else {
        hashes(cs[0]) + hashes_of(cs.subrange(1, cs.len() as int))
    }
}

/// Every identity in `s` lies in `[lo, hi)` and no two are equal.
pub open spec fn fresh_range(s: Seq<u64>, lo: int, hi: int) -> bool {
    &&& s.no_duplicates()
    &&& forall|i: int| 0 <= i < s.len() ==> lo <= #[trigger] s[i] < hi
}

/// Appending one run's identities after another's keeps them distinct when their ranges are
/// apart.
pub proof fn lemma_fresh_concat(a: Seq<u64>, b: Seq<u64>, lo: int, mid: int, hi: int)
    requires
        lo <= mid <= hi,
        fresh_range(a, lo, mid),
        fresh_range(b, mid, hi),
    ensures
        fresh_range(a + b, lo, hi),
{
    let s = a + b;
    assert forall|i: int, j: int| 0 <= i < s.len() && 0 <= j < s.len() && i != j implies s[i] != s[j] by {
        if i < a.len() && j >= a.len() {
            assert(s[i] == a[i] && s[j] == b[j - a.len()]);
        } else if i >= a.len() && j < a.len() {
            assert(s[j] == a[j] && s[i] == b[i - a.len()]);
        } else if i < a.len() {
            assert(s[i] == a[i] && s[j] == a[j]);
        } else {
            assert(s[i] == b[i - a.len()] && s[j] == b[j - a.len()]);
        }
    }
    assert forall|i: int| 0 <= i < s.len() implies lo <= #[trigger] s[i] < hi by {
        if i < a.len() {
            assert(s[i] == a[i]);
        } else {
            assert(s[i] == b[i - a.len()]);
        }
    }
}

/// The identities of a run with one more node are those of the run, then those of that node.
pub proof fn lemma_hashes_of_push(cs: Seq<NodeModel>, c: NodeModel)
    ensures
        hashes_of(cs.push(c)) == hashes_of(cs) + hashes(c),
    decreases cs.len(),
{
    let p = cs.push(c);
    if cs.len() == 0 {
        assert(p.subrange(1, p.len() as int) =~= Seq::<NodeModel>::empty());
        assert(p[0] == c);
        assert(hashes_of(p.subrange(1, p.len() as int)) =~= Seq::<u64>::empty());
        assert(hashes_of(p) =~= hashes(c) + Seq::<u64>::empty());
        assert(hashes(c) + Seq::<u64>::empty() =~= hashes(c));
        assert(hashes_of(cs) =~= Seq::<u64>::empty());
        assert(Seq::<u64>::empty() + hashes(c) =~= hashes(c));
    } else {
        let rest = cs.subrange(1, cs.len() as int);
        assert(p.subrange(1, p.len() as int) =~= rest.push(c));
        assert(p[0] == cs[0]);
        lemma_hashes_of_push(rest, c);
        assert(hashes_of(p) =~= hashes(cs[0]) + (hashes_of(rest) + hashes(c)));
        assert(hashes_of(cs) =~= hashes(cs[0]) + hashes_of(rest));
        assert(hashes_of(p) =~= hashes_of(cs) + hashes(c));
    }
}

/// The source of node identities: each identity it hands out is one more than the last, so
/// no two nodes made from one source share an identity.
#[derive(Debug)]
pub struct NodeIds {
    next: u64,
}

impl View for NodeIds {
    type V = u64;

    /// The identity that the next node will receive.
    closed spec fn view(&self) -> u64 {
        self.next
    }
}

impl NodeIds {
    /// A fresh source whose first identity is 1.
    pub fn new() -> (r: NodeIds)
        ensures
            r@ == 1,
    {
        NodeIds { next: 1 }
    }

    /// The identity that the next node will receive.
    pub fn peek(&self) -> (r: u64)
        ensures
            r == self@,
    {
        self.next
    }

    /// Hands out the next identity.
    pub fn fresh(&mut self) -> (r: u64)
        requires
            old(self)@ < u64::MAX,
        ensures
            r == old(self)@,
            final(self)@ == old(self)@ + 1,
    {
        let r = self.next;
        self.next = self.next + 1;
        r
    }
}

impl Node {
    /// Creates a node of the given kind with a fresh identity, no properties and no children.
    pub fn new(kind: NodeKind, ids: &mut NodeIds) -> (r: Node)
        requires
            old(ids)@ < u64::MAX,
        ensures
            r@ == (NodeModel { kind, hash: old(ids)@, properties: seq![], children: seq![] }),
            final(ids)@ == old(ids)@ + 1,
    {
        let hash = ids.fresh();
        let r = Node { kind, hash, properties: Vec::new(), children: Vec::new() };
        proof {
            assert(properties_view(r.properties@) =~= seq![]);
            assert(nodes_view(r.children@) =~= seq![]);
        }
        r
    }

    /// Builds a node from all of its parts, as a reader does.
    pub fn from_parts(kind: NodeKind, hash: u64, properties: Vec<Property>, children: Vec<Node>) -> (r: Node)
        ensures
            r@ == (NodeModel {
                kind,
                hash,
                properties: properties_view(properties@),
                children: children@.map_values(|c: Node| c@),
            }),
    {
        proof {
            lemma_nodes_view_map(children@);
        }
        Node { kind, hash, properties, children }
    }

    /// The node's kind.
    pub fn kind(&self) -> (r: NodeKind)
        ensures
            r == self@.kind,
    {
        self.kind
    }

    /// The node's identity.
    pub fn hash(&self) -> (r: u64)
        ensures
            r == self@.hash,
    {
        self.hash
    }

    /// The value that another node stores in an `Integer64` property to refer to this one.
    pub fn hash_ref(&self) -> (r: PropertyValue)
        ensures
            r@ == ValueModel::Integer64(self@.hash),
    {
        PropertyValue::Integer64(self.hash)
    }

    /// The node's properties, in the order they were added.
    pub fn properties(&self) -> (r: &Vec<Property>)
        ensures
            properties_view(r@) == self@.properties,
    {
        &self.properties
    }

    /// The node's children, in the order they were added.
    pub fn children(&self) -> (r: &Vec<Node>)
        ensures
            r@.map_values(|c: Node| c@) == self@.children,
    {
        proof {
            lemma_nodes_view_map(self.children@);
        }
        &self.children
    }

    /// Appends a property.
    pub fn push_property(&mut self, property: Property)
        ensures
            final(self)@ == (NodeModel {
                properties: old(self)@.properties.push(property@),
                ..old(self)@
            }),
    {
        self.properties.push(property);
        proof {
            assert(properties_view(self.properties@) =~= properties_view(old(self).properties@).push(property@));
        }
    }

    /// Appends children, in order.
    pub fn append_children(&mut self, children: Vec<Node>)
        ensures
            final(self)@ == (NodeModel {
                children: old(self)@.children + children@.map_values(|c: Node| c@),
                ..old(self)@
            }),
    {
        let mut children = children;
        proof {
            lemma_nodes_view_map(self.children@);
        }
        let ghost added = children@;
        self.children.append(&mut children);
        proof {
            lemma_nodes_view_map(self.children@);
            assert(self.children@.map_values(|c: Node| c@) =~= old(self).children@.map_values(|c: Node| c@)
                + added.map_values(|c: Node| c@));
        }
    }

    /// Appends a child.
    pub fn push_child(&mut self, child: Node)
        ensures
            final(self)@ == (NodeModel {
                children: old(self)@.children.push(child@),
                ..old(self)@
            }),
    {
        proof {
            lemma_nodes_view_map(self.children@);
        }
        self.children.push(child);
        proof {
            lemma_nodes_view_map(self.children@);
            assert(self.children@.map_values(|c: Node| c@) =~= old(self).children@.map_values(|c: Node| c@).push(child@));
        }
    }
}


/// A node with no children holds only its own identity.
pub proof fn lemma_leaf_fresh(n: NodeModel)
    requires
        n.children.len() == 0,
    ensures
        fresh_range(hashes(n), n.hash as int, n.hash + 1),
{
    assert(hashes_of(n.children) =~= Seq::<u64>::empty());
    assert(hashes(n) =~= seq![n.hash]);
}

/// Adding a child whose identities lie above the parent's keeps all identities distinct.
pub proof fn lemma_push_child_fresh(p: NodeModel, c: NodeModel, lo: int, mid: int, hi: int)
    requires
        lo <= mid <= hi,
        fresh_range(hashes(p), lo, mid),
        fresh_range(hashes(c), mid, hi),
    ensures
        fresh_range(hashes(NodeModel { children: p.children.push(c), ..p }), lo, hi),
{
    let q = NodeModel { children: p.children.push(c), ..p };
    lemma_hashes_of_push(p.children, c);
    assert(hashes(q) =~= hashes(p) + hashes(c));
    lemma_fresh_concat(hashes(p), hashes(c), lo, mid, hi);
}


/// The identities of two runs one after the other are those of the first, then of the second.
pub proof fn lemma_hashes_of_concat(a: Seq<NodeModel>, b: Seq<NodeModel>)
    ensures
        hashes_of(a + b) == hashes_of(a) + hashes_of(b),
    decreases b.len(),
{
    if b.len() == 0 {
        assert(a + b =~= a);
        assert(hashes_of(b) =~= Seq::<u64>::empty());
        assert(hashes_of(a) + hashes_of(b) =~= hashes_of(a));
    } else {
        let b1 = b.drop_last();
        let x = b.last();
        lemma_hashes_of_concat(a, b1);
        assert(a + b =~= (a + b1).push(x));
        assert(b =~= b1.push(x));
        lemma_hashes_of_push(a + b1, x);
        lemma_hashes_of_push(b1, x);
        assert(hashes_of(a + b) =~= hashes_of(a) + hashes_of(b));
    }
}

/// Appending children whose identities lie above the parent's keeps all identities distinct.
pub proof fn lemma_append_children_fresh(p: NodeModel, g: Seq<NodeModel>, lo: int, mid: int, hi: int)
    requires
        lo <= mid <= hi,
        fresh_range(hashes(p), lo, mid),
        fresh_range(hashes_of(g), mid, hi),
    ensures
        fresh_range(hashes(NodeModel { children: p.children + g, ..p }), lo, hi),
{
    let q = NodeModel { children: p.children + g, ..p };
    lemma_hashes_of_concat(p.children, g);
    assert(hashes(q) =~= hashes(p) + hashes_of(g));
    lemma_fresh_concat(hashes(p), hashes_of(g), lo, mid, hi);
}

} // verus!
