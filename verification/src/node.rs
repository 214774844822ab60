//! The syntax tree: span-annotated nodes built bottom-up, immutable once
//! built. Every composite node's span runs from its first consumed token
//! to its last, derived from its children's spans.

use vstd::prelude::*;

use crate::node_type::NodeType;

verus! {

/// One node of the syntax tree.
#[derive(Debug, PartialEq, Eq)]
pub struct Node {
    pub node: NodeType,
    pub from: usize,
    pub to: usize,
    pub children: Vec<Node>,
}

/// The mathematical shape of a node, children as a sequence.
pub struct NodeV {
    pub node: NodeType,
    pub from: usize,
    pub to: usize,
    pub children: Seq<NodeV>,
}

/// The mathematical shape of a `Node` value.
pub open spec fn node_view(n: Node) -> NodeV
    decreases n,
{
    NodeV { node: n.node, from: n.from, to: n.to, children: nodes_view(n.children@) }
}

/// The mathematical shape of a node list.
pub open spec fn nodes_view(ns: Seq<Node>) -> Seq<NodeV>
    decreases ns,
{
    if ns.len() == 0 {
        Seq::empty()
    } else {
        nodes_view(ns.drop_last()).push(node_view(ns.last()))
    }
}

/// `nodes_view` is the element-wise image of `node_view`.
pub proof fn lemma_nodes_view(ns: Seq<Node>)
    ensures
        nodes_view(ns).len() == ns.len(),
        forall|i: int| 0 <= i < ns.len() ==> nodes_view(ns)[i] == node_view(ns[i]),
    decreases ns.len(),
{
    if ns.len() > 0 {
        lemma_nodes_view(ns.drop_last());
    }
}

/// A node whose span — and every child's, recursively — is a well-formed
/// byte range of a buffer that ends at `end`.
pub open spec fn node_spans_wf(n: NodeV, end: int) -> bool
    decreases n,
{
    n.from <= n.to <= end && nodes_spans_wf(n.children, end)
}

/// A node list whose spans are all well formed.
pub open spec fn nodes_spans_wf(ns: Seq<NodeV>, end: int) -> bool
    decreases ns,
{
    if ns.len() == 0 {
        true
    } else {
        nodes_spans_wf(ns.drop_last(), end) && node_spans_wf(ns.last(), end)
    }
}

/// A list's spans are well formed exactly when each node's are.
pub proof fn lemma_nodes_spans_wf(ns: Seq<NodeV>, end: int)
    ensures
        nodes_spans_wf(ns, end) <==> (forall|i: int|
            0 <= i < ns.len() ==> node_spans_wf(#[trigger] ns[i], end)),
    decreases ns.len(),
{
    if ns.len() > 0 {
        lemma_nodes_spans_wf(ns.drop_last(), end);
        if nodes_spans_wf(ns, end) {
            assert forall|i: int| 0 <= i < ns.len() implies node_spans_wf(
                #[trigger] ns[i],
                end,
            ) by {
                if i < ns.len() - 1 {
                    assert(ns[i] == ns.drop_last()[i]);
                }
            }
        }
        if forall|i: int| 0 <= i < ns.len() ==> node_spans_wf(#[trigger] ns[i], end) {
            assert forall|i: int|
                0 <= i < ns.drop_last().len() implies node_spans_wf(
                #[trigger] ns.drop_last()[i],
                end,
            ) by {
                assert(ns.drop_last()[i] == ns[i]);
            }
        }
    }
}

} // verus!
