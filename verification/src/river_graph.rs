//! The river network: a directed graph of nodes with spatial positions and
//! integer branching priorities.  Nodes live in an append-only arena, so a
//! node's index is a stable identifier; edges carry no payload.  A per-node
//! outgoing-edge count answers "is this node a growable tip" in constant
//! time.

use vstd::prelude::*;

use crate::{in_world_pos, Point3};

verus! {

/// A node of the river network: a position in space (elevation in `z`) and
/// the remaining branching budget.
#[derive(Clone, Copy, Debug, PartialEq, Eq, Structural)]
pub struct RiverNode {
    pub pos: Point3,
    pub priority: u32,
}

/// How many edges in `edges` leave node `i`.
pub open spec fn count_from(edges: Seq<(usize, usize)>, i: int) -> int
    decreases edges.len(),
{
    if edges.len() == 0 {
        0
    } else {
        count_from(edges.drop_last(), i) + if edges.last().0 == i {
            1int
        } else {
            0int
        }
    }
}

/// Appending an edge raises exactly its source's outgoing count.
pub proof fn lemma_count_from_push(edges: Seq<(usize, usize)>, e: (usize, usize), i: int)
    ensures
        count_from(edges.push(e), i) == count_from(edges, i) + if e.0 == i {
            1int
        } else {
            0int
        },
{
    assert(edges.push(e).drop_last() =~= edges);
    assert(edges.push(e).last() == e);
}

/// A node none of the edges starts from has outgoing count zero.
pub proof fn lemma_count_from_absent(edges: Seq<(usize, usize)>, i: int)
    requires
        forall|k: int| 0 <= k < edges.len() ==> (#[trigger] edges[k]).0 != i,
    ensures
        count_from(edges, i) == 0,
    decreases edges.len(),
{
    if edges.len() > 0 {
        lemma_count_from_absent(edges.drop_last(), i);
    }
}

/// A positive outgoing count names a concrete outgoing edge, and conversely.
pub proof fn lemma_count_from_positive(edges: Seq<(usize, usize)>, i: int)
    ensures
        count_from(edges, i) > 0 <==> exists|k: int|
            0 <= k < edges.len() && (#[trigger] edges[k]).0 == i,
    decreases edges.len(),
{
    if edges.len() > 0 {
        lemma_count_from_bound(edges.drop_last(), i);
        lemma_count_from_positive(edges.drop_last(), i);
        assert(forall|k: int| 0 <= k < edges.len() - 1
            ==> edges.drop_last()[k] == (#[trigger] edges[k]));
        if edges.last().0 == i {
            assert(edges[edges.len() - 1].0 == i);
        } else {
            if exists|k: int| 0 <= k < edges.len() && (#[trigger] edges[k]).0 == i {
                let k = choose|k: int| 0 <= k < edges.len() && (#[trigger] edges[k]).0 == i;
                assert(k < edges.len() - 1);
                assert(edges.drop_last()[k].0 == i);
            }
        }
    }
}

/// A directed river graph: an append-only node arena with an edge list and
/// per-node outgoing-edge counts.
pub struct RiverGraph {
    nodes: Vec<RiverNode>,
    edges: Vec<(usize, usize)>,
    out_counts: Vec<u64>,
}

impl RiverGraph {
    /// The nodes, by stable identifier.
    pub closed spec fn spec_nodes(&self) -> Seq<RiverNode> {
        self.nodes@
    }

    /// The directed edges `(parent, child)`, in insertion order.
    pub closed spec fn spec_edges(&self) -> Seq<(usize, usize)> {
        self.edges@
    }

    /// Both endpoints of every edge name existing nodes, every position is
    /// inside the world, and the outgoing counts agree with the edge list.
    pub closed spec fn wf(&self) -> bool {
        &&& self.out_counts@.len() == self.nodes@.len()
        &&& forall|k: int| 0 <= k < self.edges@.len()
            ==> (#[trigger] self.edges@[k]).0 < self.nodes@.len() && self.edges@[k].1
            < self.nodes@.len()
        &&& forall|i: int| 0 <= i < self.nodes@.len()
            ==> in_world_pos((#[trigger] self.nodes@[i]).pos)
        &&& forall|i: int| 0 <= i < self.nodes@.len()
            ==> #[trigger] self.out_counts@[i] == count_from(self.edges@, i)
    }

    /// Does some edge leave node `i`?
    pub open spec fn spec_has_outgoing(&self, i: int) -> bool {
        exists|k: int| 0 <= k < self.spec_edges().len() && (#[trigger] self.spec_edges()[k]).0 == i
    }

    /// Every edge runs from a parent to a child that is no lower and has no
    /// larger branching budget.
    pub open spec fn edges_monotone(&self) -> bool {
        forall|k: int| 0 <= k < self.spec_edges().len() ==> {
            let e = #[trigger] self.spec_edges()[k];
            &&& self.spec_nodes()[e.1 as int].pos.z >= self.spec_nodes()[e.0 as int].pos.z
            &&& self.spec_nodes()[e.1 as int].priority <= self.spec_nodes()[e.0 as int].priority
        }
    }

    /// The facts a well-formed graph exports: edge endpoints name existing
    /// nodes, and every node position lies inside the world.
    pub proof fn wf_facts(&self)
        requires
            self.wf(),
        ensures
            forall|k: int| 0 <= k < self.spec_edges().len()
                ==> (#[trigger] self.spec_edges()[k]).0 < self.spec_nodes().len()
                && self.spec_edges()[k].1 < self.spec_nodes().len(),
            forall|i: int| 0 <= i < self.spec_nodes().len()
                ==> in_world_pos((#[trigger] self.spec_nodes()[i]).pos),
    {
    }

    /// An empty graph.
    pub fn new() -> (g: RiverGraph)
        ensures
            g.wf(),
            g.spec_nodes().len() == 0,
            g.spec_edges().len() == 0,
    {
        RiverGraph { nodes: Vec::new(), edges: Vec::new(), out_counts: Vec::new() }
    }

    /// The number of nodes; identifiers are `0 .. node_count()`.
    pub fn node_count(&self) -> (n: usize)
        ensures
            n == self.spec_nodes().len(),
    {
        self.nodes.len()
    }

    /// The number of edges.
    pub fn edge_count(&self) -> (n: usize)
        ensures
            n == self.spec_edges().len(),
    {
        self.edges.len()
    }

    /// The node with identifier `i`.
    pub fn get_node(&self, i: usize) -> (node: RiverNode)
        requires
            i < self.spec_nodes().len(),
        ensures
            node == self.spec_nodes()[i as int],
    {
        self.nodes[i]
    }

    /// The `k`-th edge, in insertion order.
    pub fn get_edge(&self, k: usize) -> (e: (usize, usize))
        requires
            k < self.spec_edges().len(),
        ensures
            e == self.spec_edges()[k as int],
    {
        self.edges[k]
    }

    /// Whether node `i` already has a child; constant-time via the stored
    /// outgoing counts.
    pub fn has_outgoing(&self, i: usize) -> (r: bool)
        requires
            self.wf(),
            i < self.spec_nodes().len(),
        ensures
            r == self.spec_has_outgoing(i as int),
    {
        proof {
            lemma_count_from_positive(self.edges@, i as int);
            assert(count_from(self.edges@, i as int) > 0 <==> self.spec_has_outgoing(i as int))
                by {
                if count_from(self.edges@, i as int) > 0 {
                    let k = choose|k: int|
                        0 <= k < self.edges@.len() && (#[trigger] self.edges@[k]).0 == i as int;
                    assert(0 <= k < self.spec_edges().len() && (#[trigger] self.spec_edges()[k]).0
                        == i as int);
                }
                if self.spec_has_outgoing(i as int) {
                    let k = choose|k: int|
                        0 <= k < self.spec_edges().len() && (#[trigger] self.spec_edges()[k]).0 == i
                            as int;
                    assert(0 <= k < self.edges@.len() && (#[trigger] self.edges@[k]).0 == i as int);
                }
            }
        }
        self.out_counts[i] > 0
    }

    /// Insert a node with no edges; its identifier is the previous node
    /// count, and all existing nodes and edges are untouched.
    pub fn add_node(&mut self, node: RiverNode) -> (idx: usize)
        requires
            old(self).wf(),
            in_world_pos(node.pos),
        ensures
            final(self).wf(),
            idx == old(self).spec_nodes().len(),
            final(self).spec_nodes() == old(self).spec_nodes().push(node),
            final(self).spec_edges() == old(self).spec_edges(),
    {
        let idx = self.nodes.len();
        self.nodes.push(node);
        self.out_counts.push(0);
        proof {
            lemma_count_from_absent(self.edges@, idx as int);
        }
        idx
    }

    /// Insert the directed edge `parent -> child`; nodes and existing edges
    /// are untouched, and the new edge is appended to the edge list.
    pub fn add_edge(&mut self, parent: usize, child: usize)
        requires
            old(self).wf(),
            parent < old(self).spec_nodes().len(),
            child < old(self).spec_nodes().len(),
        ensures
            final(self).wf(),
            final(self).spec_nodes() == old(self).spec_nodes(),
            final(self).spec_edges() == old(self).spec_edges().push((parent, child)),
    {
        self.edges.push((parent, child));
        proof {
            assert forall|i: int| 0 <= i < self.nodes@.len() implies count_from(self.edges@, i)
                == count_from(old(self).edges@, i) + if i == parent as int {
                1int
            } else {
                0int
            } by {
                lemma_count_from_push(old(self).edges@, (parent, child), i);
            }
            assert(count_from(old(self).edges@, parent as int) <= old(self).edges@.len()) by {
                lemma_count_from_bound(old(self).edges@, parent as int);
            }
        }
        let n = self.edges.len();
        let c = self.out_counts[parent];
        proof {
            assert(c <= n - 1);
        }
        self.out_counts[parent] = c + 1;
    }
}

/// An outgoing count never exceeds the number of edges.
pub proof fn lemma_count_from_bound(edges: Seq<(usize, usize)>, i: int)
    ensures
        0 <= count_from(edges, i) <= edges.len(),
    decreases edges.len(),
{
    if edges.len() > 0 {
        lemma_count_from_bound(edges.drop_last(), i);
    }
}

} // verus!
