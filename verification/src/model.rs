//! The mathematical model of one cube's graph: nodes and edges in creation
//! order, what a traversal may step over, walks, and pages of neighbors.

use vstd::prelude::*;
use crate::dto::{EdgeView, GraphDirection, NodeView};
use crate::select::positions_where;

verus! {

/// What a traversal is allowed to follow.
pub struct Scope {
    /// Follow only edges with this relation label, if given.
    pub relation: Option<Seq<char>>,
    pub direction: GraphDirection,
    /// Whether tombstoned nodes, and the edges that touch them, are seen.
    pub include_deleted: bool,
}

/// One cube's graph. Both sequences are in creation order, which is also
/// the order of ids.
pub struct GraphView {
    pub nodes: Seq<NodeView>,
    pub edges: Seq<EdgeView>,
}

impl GraphView {
    /// Whether the graph has a node with the given id.
    pub open spec fn has_node(self, id: u64) -> bool {
        exists|i: int| 0 <= i < self.nodes.len() && (#[trigger] self.nodes[i]).id == id
    }

    /// Position of the node with the given id.
    pub open spec fn node_pos(self, id: u64) -> int {
        choose|i: int| 0 <= i < self.nodes.len() && (#[trigger] self.nodes[i]).id == id
    }

    /// The node with the given id.
    pub open spec fn node(self, id: u64) -> NodeView {
        self.nodes[self.node_pos(id)]
    }

    /// Ids grow along both sequences, and every edge joins two nodes of
    /// this graph.
    pub open spec fn wf(self) -> bool {
        &&& forall|i: int, j: int|
            0 <= i < j < self.nodes.len() ==> (#[trigger] self.nodes[i]).id < (
            #[trigger] self.nodes[j]).id
        &&& forall|i: int, j: int|
            0 <= i < j < self.edges.len() ==> (#[trigger] self.edges[i]).id < (
            #[trigger] self.edges[j]).id
        &&& forall|e: int|
            0 <= e < self.edges.len() ==> self.has_node((#[trigger] self.edges[e]).from)
                && self.has_node(self.edges[e].to)
    }

    /// Every id in use is below `bound`.
    pub open spec fn ids_below(self, bound: u64) -> bool {
        &&& forall|i: int| 0 <= i < self.nodes.len() ==> (#[trigger] self.nodes[i]).id < bound
        &&& forall|i: int| 0 <= i < self.edges.len() ==> (#[trigger] self.edges[i]).id < bound
    }

    /// The node exists and is not hidden by its tombstone.
    pub open spec fn visible(self, id: u64, include_deleted: bool) -> bool {
        self.has_node(id) && (include_deleted || !self.node(id).tombstoned)
    }

    /// The edge at position `e` may be followed: its label passes the
    /// filter and both its ends are visible.
    pub open spec fn edge_ok(self, e: int, q: Scope) -> bool {
        &&& 0 <= e < self.edges.len()
        &&& match q.relation {
            Some(r) => self.edges[e].relation == r,
            None => true,
        }
        &&& self.visible(self.edges[e].from, q.include_deleted)
        &&& self.visible(self.edges[e].to, q.include_deleted)
    }

    /// Where following the edge at position `e` from node `u` leads.
    pub open spec fn step(self, u: u64, e: int, q: Scope) -> Option<u64> {
        if !self.edge_ok(e, q) {
            None
        } else {
            let edge = self.edges[e];
            match q.direction {
                GraphDirection::Outbound => if edge.from == u {
                    Some(edge.to)
                } else {
                    None
                },
                GraphDirection::Inbound => if edge.to == u {
                    Some(edge.from)
                } else {
                    None
                },
                GraphDirection::Both => if edge.from == u {
                    Some(edge.to)
                } else if edge.to == u {
                    Some(edge.from)
                } else {
                    None
                },
            }
        }
    }

    /// Where the walk `w`, a sequence of edge positions, ends when it starts
    /// at `u`; `None` if some step cannot be taken.
    pub open spec fn walk_end(self, u: u64, w: Seq<int>, q: Scope) -> Option<u64>
        decreases w.len(),
    {
        if w.len() == 0 {
            Some(u)
        } else {
            match self.step(u, w[0], q) {
                Some(v) => self.walk_end(v, w.drop_first(), q),
                None => None,
            }
        }
    }

    /// The nodes that the walk `w` from `u` passes, `u` first.
    pub open spec fn walk_nodes(self, u: u64, w: Seq<int>, q: Scope) -> Seq<u64>
        decreases w.len(),
    {
        if w.len() == 0 {
            seq![u]
        } else {
            match self.step(u, w[0], q) {
                Some(v) => seq![u] + self.walk_nodes(v, w.drop_first(), q),
                None => seq![u],
            }
        }
    }

    /// `w` leads from `s` to `t`.
    pub open spec fn is_walk(self, s: u64, w: Seq<int>, t: u64, q: Scope) -> bool {
        self.walk_end(s, w, q) == Some(t)
    }

    /// The edge at position `e` joins `node` to a neighbor and lies after
    /// the cursor, which is the id of the last edge already delivered.
    pub open spec fn neighbor_at(self, node: u64, q: Scope, cursor: Option<u64>, e: int) -> bool {
        &&& self.step(node, e, q).is_some()
        &&& match cursor {
            Some(c) => self.edges[e].id > c,
            None => true,
        }
    }

    /// `neighbor_at` as a predicate on edge positions.
    pub open spec fn neighbor_pred(self, node: u64, q: Scope, cursor: Option<u64>) -> spec_fn(
        int,
    ) -> bool {
        |e: int| self.neighbor_at(node, q, cursor, e)
    }

    /// Positions of all edges to neighbors of `node` after the cursor, in
    /// creation order.
    pub open spec fn neighbor_edges(self, node: u64, q: Scope, cursor: Option<u64>) -> Seq<int> {
        positions_where(self.neighbor_pred(node, q, cursor), self.edges.len() as int)
    }

    /// The edges that one page holds.
    pub open spec fn page_items(self, node: u64, q: Scope, cursor: Option<u64>, limit: nat) -> Seq<
        int,
    > {
        let all = self.neighbor_edges(node, q, cursor);
        if all.len() > limit {
            all.take(limit as int)
        } else {
            all
        }
    }

    /// The cursor for the page after this one; `None` on the last page.
    pub open spec fn page_cursor(
        self,
        node: u64,
        q: Scope,
        cursor: Option<u64>,
        limit: nat,
    ) -> Option<u64> {
        let all = self.neighbor_edges(node, q, cursor);
        if all.len() > limit && limit > 0 {
            Some(self.edges[all[limit - 1]].id)
        } else {
            None
        }
    }
}

/// Under well-formedness a node's position is determined by its id.
pub proof fn lemma_node_pos(g: GraphView, i: int)
    requires
        g.wf(),
        0 <= i < g.nodes.len(),
    ensures
        g.has_node(g.nodes[i].id),
        g.node_pos(g.nodes[i].id) == i,
        g.node(g.nodes[i].id) == g.nodes[i],
{
    let id = g.nodes[i].id;
    let j = g.node_pos(id);
    assert(0 <= j < g.nodes.len() && g.nodes[j].id == id);
    if j < i {
        assert(g.nodes[j].id < g.nodes[i].id);
    }
    if i < j {
        assert(g.nodes[i].id < g.nodes[j].id);
    }
}

} // verus!
