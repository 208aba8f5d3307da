//! The document model: a strictly owned arena of nodes indexed by integer
//! handles.  Parent/child edges are index references; a well-formed tree
//! only points forward, so every traversal of the arena terminates.
//!
//! The pipeline never changes the shape of the tree: only text-node
//! contents and attribute values are replaced in place.

use vstd::prelude::*;

verus! {

/// One attribute of an element: a name and a value.
pub struct Attr {
    pub name: String,
    pub value: String,
}

/// What a node is.  The pipeline reads and rewrites elements and text;
/// doctypes, comments and processing instructions ride along unchanged so
/// that a document can be rendered back without loss.
pub enum NodeKind {
    Document,
    Doctype { name: String, public_id: String, system_id: String },
    Element { tag: String, attrs: Vec<Attr> },
    Text { content: String },
    Comment { content: String },
    ProcessingInstruction { target: String, content: String },
}

/// One node of the arena; `children` holds arena indices.
pub struct Node {
    pub kind: NodeKind,
    pub children: Vec<usize>,
}

/// A document tree held as an arena.  Node `0`, when present, is the root.
pub struct DocTree {
    pub nodes: Vec<Node>,
}

impl DocTree {
    /// Well-formedness: every child index points forward and into the arena.
    pub open spec fn wf(self) -> bool {
        forall|i: int, j: int|
            0 <= i < self.nodes.len() && 0 <= j < self.nodes[i].children.len()
                ==> i < #[trigger] self.nodes[i].children[j] < self.nodes.len()
    }

    /// An empty tree.
    pub fn new() -> (r: DocTree)
        ensures
            r.nodes@.len() == 0,
            r.wf(),
    {
        DocTree { nodes: Vec::new() }
    }

    /// Appends a node with no children yet and returns its index.  A tree
    /// is built top-down: push a node, then push each of its children and
    /// record the edges with `attach_child`, so that every edge points
    /// forward.
    pub fn push_node(&mut self, kind: NodeKind) -> (idx: usize)
        requires
            old(self).wf(),
        ensures
            final(self).wf(),
            final(self).nodes@.len() == old(self).nodes@.len() + 1,
            idx == old(self).nodes@.len(),
            forall|k: int|
                0 <= k < old(self).nodes@.len() ==> final(self).nodes@[k] == old(self).nodes@[k],
            final(self).nodes@[idx as int].kind == kind,
            final(self).nodes@[idx as int].children@.len() == 0,
    {
        let idx = self.nodes.len();
        self.nodes.push(Node { kind, children: Vec::new() });
        proof {
            assert forall|i: int, j: int|
                0 <= i < self.nodes.len() && 0 <= j < self.nodes[i].children.len() implies i
                < #[trigger] self.nodes[i].children[j] < self.nodes.len() by {
                assert(i < old(self).nodes@.len());
                assert(self.nodes[i] == old(self).nodes@[i]);
            }
        }
        idx
    }

    /// Records `child` as the next child of `parent`.  The edge must point
    /// forward, which is what keeps traversals terminating.
    pub fn attach_child(&mut self, parent: usize, child: usize)
        requires
            old(self).wf(),
            parent < child < old(self).nodes@.len(),
        ensures
            final(self).wf(),
            final(self).nodes@.len() == old(self).nodes@.len(),
            forall|k: int|
                0 <= k < old(self).nodes@.len() && k != parent ==> final(self).nodes@[k] == old(
                    self,
                ).nodes@[k],
            final(self).nodes@[parent as int].kind == old(self).nodes@[parent as int].kind,
            final(self).nodes@[parent as int].children@ == old(
                self,
            ).nodes@[parent as int].children@.push(child),
    {
        let node = &mut self.nodes[parent];
        node.children.push(child);
        proof {
            assert forall|i: int, j: int|
                0 <= i < self.nodes.len() && 0 <= j < self.nodes[i].children.len() implies i
                < #[trigger] self.nodes[i].children[j] < self.nodes.len() by {
                if i != parent as int {
                    assert(self.nodes[i] == old(self).nodes@[i]);
                } else if j < old(self).nodes@[i].children.len() {
                    assert(self.nodes[i].children[j] == old(self).nodes@[i].children[j]);
                }
            }
        }
    }
}

/// A node's child indices as mathematical integers.
pub open spec fn child_seq(node: Node) -> Seq<int> {
    node.children@.map_values(|c: usize| c as int)
}

/// The weight of the subtree rooted at `i`: one for the node plus the
/// weight of its forward-pointing children.  Edges that do not point
/// forward are not counted, so the definition terminates on any arena.
pub open spec fn node_weight(nodes: Seq<Node>, i: int) -> nat
    decreases
            nodes.len() - i,
            (if 0 <= i < nodes.len() {
                nodes[i].children.len() + 2
            } else {
                2
            }),
{
    if 0 <= i < nodes.len() {
        1 + children_weight(nodes, child_seq(nodes[i]), i)
    } else {
        1
    }
}

/// The combined weight of the children in `cs` that lie strictly between
/// `floor` and the arena's end.
pub open spec fn children_weight(nodes: Seq<Node>, cs: Seq<int>, floor: int) -> nat
    decreases nodes.len() - floor, cs.len() + 1,
{
    if cs.len() == 0 {
        0
    } else {
        (if floor < cs[0] < nodes.len() {
            node_weight(nodes, cs[0])
        } else {
            0
        }) + children_weight(nodes, cs.drop_first(), floor)
    }
}

/// The combined weight of a traversal queue.
pub open spec fn queue_weight(nodes: Seq<Node>, q: Seq<int>) -> nat
    decreases q.len(),
{
    if q.len() == 0 {
        0
    } else {
        node_weight(nodes, q[0]) + queue_weight(nodes, q.drop_first())
    }
}

/// The children of `cs` restricted to indices strictly between `floor` and
/// the arena's end — on a well-formed tree this is all of them.
pub open spec fn guarded_children(nodes: Seq<Node>, cs: Seq<int>, floor: int) -> Seq<int>
    decreases cs.len(),
{
    if cs.len() == 0 {
        Seq::<int>::empty()
    } else {
        (if floor < cs[0] < nodes.len() {
            seq![cs[0]]
        } else {
            Seq::<int>::empty()
        }) + guarded_children(nodes, cs.drop_first(), floor)
    }
}

/// Queue weight distributes over concatenation.
pub proof fn lemma_queue_weight_concat(nodes: Seq<Node>, a: Seq<int>, b: Seq<int>)
    ensures
        queue_weight(nodes, a + b) == queue_weight(nodes, a) + queue_weight(nodes, b),
    decreases a.len(),
{
    if a.len() == 0 {
        assert(a + b =~= b);
    } else {
        assert((a + b).drop_first() =~= a.drop_first() + b);
        lemma_queue_weight_concat(nodes, a.drop_first(), b);
    }
}

/// The queue weight of the guarded children equals the children's weight.
pub proof fn lemma_guarded_weight(nodes: Seq<Node>, cs: Seq<int>, floor: int)
    requires
        floor < nodes.len(),
    ensures
        queue_weight(nodes, guarded_children(nodes, cs, floor)) == children_weight(
            nodes,
            cs,
            floor,
        ),
    decreases cs.len(),
{
    if cs.len() > 0 {
        lemma_guarded_weight(nodes, cs.drop_first(), floor);
        if floor < cs[0] < nodes.len() {
            let rest = guarded_children(nodes, cs.drop_first(), floor);
            assert(guarded_children(nodes, cs, floor) =~= seq![cs[0]] + rest);
            assert((seq![cs[0]] + rest)[0] == cs[0]);
            assert((seq![cs[0]] + rest).drop_first() =~= rest);
        } else {
            assert(guarded_children(nodes, cs, floor) =~= guarded_children(
                nodes,
                cs.drop_first(),
                floor,
            ));
        }
    }
}

/// On a well-formed tree the guard never removes a child.
pub proof fn lemma_guarded_all(nodes: Seq<Node>, cs: Seq<int>, floor: int)
    requires
        forall|j: int| 0 <= j < cs.len() ==> floor < #[trigger] cs[j] < nodes.len(),
    ensures
        guarded_children(nodes, cs, floor) == cs,
    decreases cs.len(),
{
    if cs.len() > 0 {
        assert(cs[0] == cs[0]);
        lemma_guarded_all(nodes, cs.drop_first(), floor);
        assert(guarded_children(nodes, cs, floor) =~= cs);
    }
}

} // verus!
