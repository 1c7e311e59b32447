//! One cube's graph: the nodes and edges of a single namespace, with lookup,
//! mutation and paged neighbor listing.

use vstd::prelude::*;
use crate::dto::{EdgeView, GraphDirection, GraphNeighbor, MemoryEdge, MemoryNode, NodeView};
use crate::error::GraphStoreError;
use crate::metadata::Metadata;
use crate::model::{lemma_node_pos, GraphView, Scope};
use crate::select::{lemma_positions_prefix, lemma_positions_where, positions_where};

verus! {

/// What a traversal is allowed to follow.
#[derive(Debug, Clone)]
pub struct Traversal {
    pub relation: Option<String>,
    pub direction: GraphDirection,
    pub include_deleted: bool,
}

impl View for Traversal {
    type V = Scope;

    open spec fn view(&self) -> Scope {
        Scope {
            relation: match self.relation {
                Some(r) => Some(r@),
                None => None,
            },
            direction: self.direction,
            include_deleted: self.include_deleted,
        }
    }
}

/// What a neighbor query returns on the graph `g`: the error for a zero
/// limit or a node that cannot be seen, else the page and its next cursor.
pub open spec fn neighbors_post(
    g: GraphView,
    node: u64,
    q: Scope,
    limit: usize,
    cursor: Option<u64>,
    r: Result<(Vec<GraphNeighbor>, Option<u64>), GraphStoreError>,
) -> bool {
    if limit == 0 {
        r matches Err(e) && e == GraphStoreError::InvalidArgument
    } else if !g.visible(node, q.include_deleted) {
        r matches Err(e) && e == GraphStoreError::NotFound
    } else {
        r matches Ok((items, next)) && {
            let page = g.page_items(node, q, cursor, limit as nat);
            &&& next == g.page_cursor(node, q, cursor, limit as nat)
            &&& items@.len() == page.len()
            &&& forall|k: int|
                0 <= k < page.len() ==> (#[trigger] items@[k]).edge@ == g.edges[page[k]]
                    && items@[k].node@ == g.node(g.step(node, page[k], q).unwrap())
        }
    }
}

/// The graph of one cube.
#[derive(Debug, Clone)]
pub struct CubeGraph {
    pub(crate) nodes: Vec<MemoryNode>,
    pub(crate) edges: Vec<MemoryEdge>,
}

impl View for CubeGraph {
    type V = GraphView;

    closed spec fn view(&self) -> GraphView {
        GraphView {
            nodes: self.nodes@.map_values(|n: MemoryNode| n@),
            edges: self.edges@.map_values(|e: MemoryEdge| e@),
        }
    }
}

impl GraphView {
    /// The graph with one more node at the end.
    pub open spec fn with_node(self, n: NodeView) -> GraphView {
        GraphView { nodes: self.nodes.push(n), edges: self.edges }
    }

    /// The graph with one more edge at the end.
    pub open spec fn with_edge(self, e: EdgeView) -> GraphView {
        GraphView { nodes: self.nodes, edges: self.edges.push(e) }
    }

    /// The graph with the node `id` marked as tombstoned.
    pub open spec fn with_tombstone(self, id: u64) -> GraphView {
        let p = self.node_pos(id);
        GraphView {
            nodes: self.nodes.update(p, NodeView { tombstoned: true, ..self.nodes[p] }),
            edges: self.edges,
        }
    }

    /// The predicate on edge positions that holds of the edges that do not
    /// touch the node `id`.
    pub open spec fn untouched_by(self, id: u64) -> spec_fn(int) -> bool {
        |e: int| self.edges[e].from != id && self.edges[e].to != id
    }

    /// The graph without the node `id` and without every edge that touches
    /// it; what remains keeps its order.
    pub open spec fn without_node(self, id: u64) -> GraphView {
        let kept = positions_where(self.untouched_by(id), self.edges.len() as int);
        GraphView {
            nodes: self.nodes.remove(self.node_pos(id)),
            edges: kept.map_values(|e: int| self.edges[e]),
        }
    }

    /// The graph with the node `id` replaced by `n`.
    pub open spec fn with_node_replaced(self, id: u64, n: NodeView) -> GraphView {
        GraphView { nodes: self.nodes.update(self.node_pos(id), n), edges: self.edges }
    }
}

impl CubeGraph {
    /// The model, entry by entry.
    pub(crate) proof fn lemma_view(&self)
        ensures
            self@.nodes.len() == self.nodes@.len(),
            self@.edges.len() == self.edges@.len(),
            forall|i: int| 0 <= i < self.nodes@.len() ==> #[trigger] self@.nodes[i] == self.nodes@[i]@,
            forall|i: int| 0 <= i < self.edges@.len() ==> #[trigger] self@.edges[i] == self.edges@[i]@,
    {
    }

    /// The model is well-formed.
    pub open spec fn wf(&self) -> bool {
        self@.wf()
    }

    /// A graph without nodes or edges.
    pub fn new() -> (g: CubeGraph)
        ensures
            g@.nodes.len() == 0,
            g@.edges.len() == 0,
            g.wf(),
    {
        CubeGraph { nodes: Vec::new(), edges: Vec::new() }
    }

    /// Number of nodes, tombstoned ones included.
    pub fn node_count(&self) -> (n: usize)
        ensures
            n == self@.nodes.len(),
    {
        self.nodes.len()
    }

    /// Number of edges.
    pub fn edge_count(&self) -> (n: usize)
        ensures
            n == self@.edges.len(),
    {
        self.edges.len()
    }

    /// Position of the node with the given id.
    pub(crate) fn find_node(&self, id: u64) -> (r: Option<usize>)
        requires
            self.wf(),
        ensures
            match r {
                Some(i) => i < self@.nodes.len() && self@.nodes[i as int].id == id
                    && self@.has_node(id) && self@.node_pos(id) == i,
                None => !self@.has_node(id),
            },
    {
        proof {
            self.lemma_view();
        }
        let mut lo: usize = 0;
        let mut hi: usize = self.nodes.len();
        while lo < hi
            invariant
                self.wf(),
                lo <= hi <= self.nodes@.len(),
                self@.nodes.len() == self.nodes@.len(),
                forall|i: int|
                    0 <= i < self.nodes@.len() ==> #[trigger] self@.nodes[i] == self.nodes@[i]@,
                forall|i: int| 0 <= i < lo ==> (#[trigger] self@.nodes[i]).id < id,
                forall|i: int| hi <= i < self.nodes@.len() ==> (#[trigger] self@.nodes[i]).id > id,
            decreases hi - lo,
        {
            let mid: usize = lo + (hi - lo) / 2;
            let mid_id: u64 = self.nodes[mid].id;
            assert(self@.nodes[mid as int].id == mid_id);
            if mid_id == id {
                proof {
                    lemma_node_pos(self@, mid as int);
                }
                return Some(mid);
            } else if mid_id < id {
                assert forall|i: int| 0 <= i < mid + 1 implies (#[trigger] self@.nodes[i]).id
                    < id by {
                    if i < mid {
                        assert(self@.nodes[i].id < self@.nodes[mid as int].id);
                    }
                }
                lo = mid + 1;
            } else {
                assert forall|i: int| mid <= i < self.nodes@.len() implies (
                #[trigger] self@.nodes[i]).id > id by {
                    if mid < i {
                        assert(self@.nodes[mid as int].id < self@.nodes[i].id);
                    }
                }
                hi = mid;
            }
        }
        None
    }

    /// Whether the node exists and is not hidden by its tombstone.
    pub fn is_visible(&self, id: u64, include_deleted: bool) -> (r: bool)
        requires
            self.wf(),
        ensures
            r == self@.visible(id, include_deleted),
    {
        proof {
            self.lemma_view();
        }
        match self.find_node(id) {
            Some(i) => include_deleted || !self.nodes[i].tombstoned,
            None => false,
        }
    }

    /// The node with the given id; `None` if there is none, or if it is
    /// tombstoned and tombstoned nodes were not asked for.
    pub fn get_node(&self, id: u64, include_deleted: bool) -> (r: Option<MemoryNode>)
        requires
            self.wf(),
        ensures
            r.is_some() == self@.visible(id, include_deleted),
            r matches Some(n) ==> n@ == self@.node(id),
    {
        proof {
            self.lemma_view();
        }
        match self.find_node(id) {
            Some(i) => {
                if include_deleted || !self.nodes[i].tombstoned {
                    Some(self.nodes[i].duplicate())
                } else {
                    None
                }
            },
            None => None,
        }
    }

    /// Appends a node under the given fresh id.
    pub(crate) fn create_node(
        &mut self,
        id: u64,
        memory: String,
        metadata: Metadata,
        embedding: Option<Vec<u32>>,
    )
        requires
            old(self).wf(),
            old(self)@.ids_below(id),
        ensures
            final(self).wf(),
            final(self)@ == old(self)@.with_node(
                NodeView {
                    id,
                    memory: memory@,
                    metadata: metadata@,
                    embedding: match embedding {
                        Some(v) => Some(v@),
                        None => None,
                    },
                    tombstoned: false,
                },
            ),
    {
        proof {
            self.lemma_view();
        }
        let node = MemoryNode { id, memory, metadata, embedding, tombstoned: false };
        self.nodes.push(node);
        proof {
            self.lemma_view();
            let g0 = old(self)@;
            let g1 = self@;
            assert(g1.nodes =~= g0.nodes.push(node@));
            assert(g1.edges =~= g0.edges);
            assert forall|e: int| 0 <= e < g1.edges.len() implies g1.has_node(
                (#[trigger] g1.edges[e]).from,
            ) && g1.has_node(g1.edges[e].to) by {
                let a = g0.node_pos(g0.edges[e].from);
                let b = g0.node_pos(g0.edges[e].to);
                assert(g0.has_node(g0.edges[e].from) && g0.has_node(g0.edges[e].to));
                assert(g1.nodes[a].id == g0.edges[e].from);
                assert(g1.nodes[b].id == g0.edges[e].to);
            }
        }
    }

    /// Appends an edge under the given fresh id, if both its ends exist.
    pub(crate) fn create_edge(
        &mut self,
        id: u64,
        from: u64,
        to: u64,
        relation: String,
        metadata: Metadata,
    ) -> (r: Result<(), GraphStoreError>)
        requires
            old(self).wf(),
            old(self)@.ids_below(id),
        ensures
            final(self).wf(),
            old(self)@.has_node(from) && old(self)@.has_node(to) ==> r.is_ok() && final(self)@
                == old(self)@.with_edge(
                EdgeView { id, from, to, relation: relation@, metadata: metadata@ },
            ),
            !(old(self)@.has_node(from) && old(self)@.has_node(to)) ==> r == Err::<
                (),
                GraphStoreError,
            >(GraphStoreError::NotFound) && final(self)@ == old(self)@,
    {
        proof {
            self.lemma_view();
        }
        if self.find_node(from).is_none() || self.find_node(to).is_none() {
            return Err(GraphStoreError::NotFound);
        }
        let edge = MemoryEdge { id, from, to, relation, metadata };
        self.edges.push(edge);
        proof {
            self.lemma_view();
            let g0 = old(self)@;
            let g1 = self@;
            assert(g1.nodes =~= g0.nodes);
            assert(g1.edges =~= g0.edges.push(edge@));
            assert forall|e: int| 0 <= e < g1.edges.len() implies g1.has_node(
                (#[trigger] g1.edges[e]).from,
            ) && g1.has_node(g1.edges[e].to) by {
                if e < g0.edges.len() {
                    assert(g0.has_node(g0.edges[e].from) && g0.has_node(g0.edges[e].to));
                }
            }
        }
        Ok(())
    }

    /// Marks a node as tombstoned. Doing so again changes nothing.
    pub(crate) fn tombstone_node(&mut self, id: u64) -> (r: Result<(), GraphStoreError>)
        requires
            old(self).wf(),
        ensures
            final(self).wf(),
            old(self)@.has_node(id) ==> r.is_ok() && final(self)@ == old(self)@.with_tombstone(id),
            !old(self)@.has_node(id) ==> r == Err::<(), GraphStoreError>(GraphStoreError::NotFound)
                && final(self)@ == old(self)@,
    {
        proof {
            self.lemma_view();
        }
        match self.find_node(id) {
            Some(i) => {
                let mut node = self.nodes[i].duplicate();
                node.tombstoned = true;
                self.nodes.set(i, node);
                proof {
                    self.lemma_view();
                    let g0 = old(self)@;
                    let g1 = self@;
                    assert(g1.nodes =~= g0.with_tombstone(id).nodes);
                    assert(g1.edges =~= g0.edges);
                    lemma_same_ids_wf(g0, g1);
                }
                Ok(())
            },
            None => Err(GraphStoreError::NotFound),
        }
    }

    /// Replaces what the node holds; its id and its tombstone stay.
    pub(crate) fn replace_node(
        &mut self,
        id: u64,
        memory: String,
        metadata: Metadata,
        embedding: Option<Vec<u32>>,
    ) -> (r: Result<(), GraphStoreError>)
        requires
            old(self).wf(),
        ensures
            final(self).wf(),
            old(self)@.has_node(id) ==> r.is_ok() && final(self)@ == old(self)@.with_node_replaced(
                id,
                NodeView {
                    id,
                    memory: memory@,
                    metadata: metadata@,
                    embedding: match embedding {
                        Some(v) => Some(v@),
                        None => None,
                    },
                    tombstoned: old(self)@.node(id).tombstoned,
                },
            ),
            !old(self)@.has_node(id) ==> r == Err::<(), GraphStoreError>(GraphStoreError::NotFound)
                && final(self)@ == old(self)@,
    {
        proof {
            self.lemma_view();
        }
        match self.find_node(id) {
            Some(i) => {
                let tombstoned = self.nodes[i].tombstoned;
                let node = MemoryNode { id, memory, metadata, embedding, tombstoned };
                self.nodes.set(i, node);
                proof {
                    self.lemma_view();
                    let g0 = old(self)@;
                    let g1 = self@;
                    assert(g1.nodes =~= g0.nodes.update(i as int, node@));
                    assert(g1.edges =~= g0.edges);
                    lemma_same_ids_wf(g0, g1);
                }
                Ok(())
            },
            None => Err(GraphStoreError::NotFound),
        }
    }

    /// Removes a node and every edge that touches it.
    pub(crate) fn delete_node(&mut self, id: u64) -> (r: Result<(), GraphStoreError>)
        requires
            old(self).wf(),
        ensures
            final(self).wf(),
            old(self)@.has_node(id) ==> r.is_ok() && final(self)@ == old(self)@.without_node(id),
            !old(self)@.has_node(id) ==> r == Err::<(), GraphStoreError>(GraphStoreError::NotFound)
                && final(self)@ == old(self)@,
            forall|b: u64| old(self)@.ids_below(b) ==> final(self)@.ids_below(b),
    {
        proof {
            self.lemma_view();
        }
        match self.find_node(id) {
            Some(i) => {
                let ghost g0 = self@;
                let ghost keep = g0.untouched_by(id);
                let mut kept: Vec<MemoryEdge> = Vec::new();
                let mut e: usize = 0;
                while e < self.edges.len()
                    invariant
                        e <= self.edges@.len(),
                        self@ == g0,
                        keep == g0.untouched_by(id),
                        g0.edges.len() == self.edges@.len(),
                        forall|k: int|
                            0 <= k < self.edges@.len() ==> #[trigger] g0.edges[k]
                                == self.edges@[k]@,
                        kept@.map_values(|x: MemoryEdge| x@) == positions_where(
                            keep,
                            e as int,
                        ).map_values(|k: int| g0.edges[k]),
                    decreases self.edges@.len() - e,
                {
                    let ghost before = kept@.map_values(|x: MemoryEdge| x@);
                    assert(g0.edges[e as int] == self.edges@[e as int]@);
                    if self.edges[e].from != id && self.edges[e].to != id {
                        let copy = self.edges[e].duplicate();
                        kept.push(copy);
                        assert(keep(e as int));
                        assert(kept@.map_values(|x: MemoryEdge| x@) =~= before.push(
                            g0.edges[e as int],
                        ));
                        assert(positions_where(keep, e + 1).map_values(|k: int| g0.edges[k])
                            =~= positions_where(keep, e as int).map_values(
                            |k: int| g0.edges[k],
                        ).push(g0.edges[e as int]));
                    } else {
                        assert(!keep(e as int));
                    }
                    e += 1;
                }
                self.edges = kept;
                self.nodes.remove(i);
                proof {
                    self.lemma_view();
                    let g1 = self@;
                    assert(g1.nodes =~= g0.nodes.remove(i as int));
                    assert(g1.edges =~= g0.without_node(id).edges);
                    lemma_without_node_wf(g0, id);
                }
                Ok(())
            },
            None => Err(GraphStoreError::NotFound),
        }
    }

    /// Whether the edge at position `e` may be followed.
    pub(crate) fn edge_usable(&self, e: usize, q: &Traversal) -> (r: bool)
        requires
            self.wf(),
            e < self@.edges.len(),
        ensures
            r == self@.edge_ok(e as int, q@),
    {
        proof {
            self.lemma_view();
        }
        let label_ok = match &q.relation {
            Some(r) => self.edges[e].relation == *r,
            None => true,
        };
        label_ok && self.is_visible(self.edges[e].from, q.include_deleted) && self.is_visible(
            self.edges[e].to,
            q.include_deleted,
        )
    }

    /// Where following the edge at position `e` from `u` leads.
    pub(crate) fn step_from(&self, u: u64, e: usize, q: &Traversal) -> (r: Option<u64>)
        requires
            self.wf(),
            e < self@.edges.len(),
        ensures
            r == self@.step(u, e as int, q@),
    {
        proof {
            self.lemma_view();
        }
        if !self.edge_usable(e, q) {
            return None;
        }
        let from = self.edges[e].from;
        let to = self.edges[e].to;
        match q.direction {
            GraphDirection::Outbound => if from == u {
                Some(to)
            } else {
                None
            },
            GraphDirection::Inbound => if to == u {
                Some(from)
            } else {
                None
            },
            GraphDirection::Both => if from == u {
                Some(to)
            } else if to == u {
                Some(from)
            } else {
                None
            },
        }
    }

    /// One page of the neighbors of `node`, in edge creation order, and the
    /// cursor for the next page. The cursor is the id of the last edge that
    /// has been delivered; the page holds the first `limit` edges after it.
    pub fn neighbors(
        &self,
        node: u64,
        q: &Traversal,
        limit: usize,
        cursor: Option<u64>,
    ) -> (r: Result<(Vec<GraphNeighbor>, Option<u64>), GraphStoreError>)
        requires
            self.wf(),
        ensures
            neighbors_post(self@, node, q@, limit, cursor, r),
    {
        if limit == 0 {
            return Err(GraphStoreError::InvalidArgument);
        }
        if !self.is_visible(node, q.include_deleted) {
            return Err(GraphStoreError::NotFound);
        }
        proof {
            self.lemma_view();
        }
        let ghost pred = self@.neighbor_pred(node, q@, cursor);
        let ghost total = self@.edges.len() as int;
        let mut items: Vec<GraphNeighbor> = Vec::new();
        let mut e: usize = 0;
        while e < self.edges.len() && items.len() < limit
            invariant
                self.wf(),
                e <= self.edges@.len(),
                total == self.edges@.len(),
                self@.edges.len() == self.edges@.len(),
                forall|k: int|
                    0 <= k < self.edges@.len() ==> #[trigger] self@.edges[k] == self.edges@[k]@,
                pred == self@.neighbor_pred(node, q@, cursor),
                items@.len() == positions_where(pred, e as int).len(),
                items@.len() <= limit,
                forall|k: int|
                    0 <= k < items@.len() ==> (#[trigger] items@[k]).edge@
                        == self@.edges[positions_where(pred, e as int)[k]] && items@[k].node@
                        == self@.node(
                        self@.step(node, positions_where(pred, e as int)[k], q@).unwrap(),
                    ),
            decreases self.edges@.len() - e,
        {
            let after = match cursor {
                Some(c) => self.edges[e].id > c,
                None => true,
            };
            let far = self.step_from(node, e, q);
            assert(self@.edges[e as int] == self.edges@[e as int]@);
            if after && far.is_some() {
                let far_id = far.unwrap();
                let found = self.get_node(far_id, true);
                proof {
                    // An edge that may be followed joins two existing nodes.
                    assert(self@.edge_ok(e as int, q@));
                    assert(self@.has_node(far_id));
                }
                let item = GraphNeighbor { edge: self.edges[e].duplicate(), node: found.unwrap() };
                items.push(item);
                assert(pred(e as int));
            } else {
                assert(!pred(e as int));
            }
            e += 1;
        }
        let ghost seen = e as int;
        let mut more = false;
        while e < self.edges.len() && !more
            invariant
                self.wf(),
                seen <= e <= self.edges@.len(),
                self@.edges.len() == self.edges@.len(),
                forall|k: int|
                    0 <= k < self.edges@.len() ==> #[trigger] self@.edges[k] == self.edges@[k]@,
                pred == self@.neighbor_pred(node, q@, cursor),
                forall|k: int| seen <= k < e ==> !#[trigger] pred(k),
                more ==> e < self.edges@.len() && pred(e as int),
            decreases self.edges@.len() - e + if more { 0int } else { 1int },
        {
            let after = match cursor {
                Some(c) => self.edges[e].id > c,
                None => true,
            };
            let far = self.step_from(node, e, q);
            assert(self@.edges[e as int] == self.edges@[e as int]@);
            if after && far.is_some() {
                assert(pred(e as int));
                more = true;
            } else {
                assert(!pred(e as int));
                e += 1;
            }
        }
        proof {
            lemma_positions_prefix(pred, seen, total);
            lemma_positions_where(pred, seen);
        }
        let next = if more && items.len() > 0 {
            Some(items[items.len() - 1].edge.id)
        } else {
            None
        };
        Ok((items, next))
    }
}

/// A graph that differs from a well-formed one only in what its nodes hold,
/// not in their ids, is well-formed too.
pub proof fn lemma_same_ids_wf(g0: GraphView, g1: GraphView)
    requires
        g0.wf(),
        g1.edges == g0.edges,
        g1.nodes.len() == g0.nodes.len(),
        forall|i: int| 0 <= i < g0.nodes.len() ==> (#[trigger] g1.nodes[i]).id == g0.nodes[i].id,
    ensures
        g1.wf(),
        forall|id: u64| g0.has_node(id) == #[trigger] g1.has_node(id),
        forall|id: u64| g0.has_node(id) ==> g0.node_pos(id) == #[trigger] g1.node_pos(id),
{
    assert forall|id: u64| g0.has_node(id) == #[trigger] g1.has_node(id) by {
        if g0.has_node(id) {
            let i = g0.node_pos(id);
            assert(g1.nodes[i].id == id);
        }
        if g1.has_node(id) {
            let i = g1.node_pos(id);
            assert(g0.nodes[i].id == id);
        }
    }
    assert forall|i: int, j: int| 0 <= i < j < g1.nodes.len() implies (#[trigger] g1.nodes[i]).id
        < (#[trigger] g1.nodes[j]).id by {
        assert(g0.nodes[i].id < g0.nodes[j].id);
    }
    assert forall|e: int| 0 <= e < g1.edges.len() implies g1.has_node(
        (#[trigger] g1.edges[e]).from,
    ) && g1.has_node(g1.edges[e].to) by {
        assert(g0.has_node(g0.edges[e].from) && g0.has_node(g0.edges[e].to));
    }
    assert forall|id: u64| g0.has_node(id) implies g0.node_pos(id) == #[trigger] g1.node_pos(
        id,
    ) by {
        let i = g0.node_pos(id);
        assert(g1.nodes[i].id == id);
        lemma_node_pos(g1, i);
    }
}

/// Removing a node together with the edges that touch it keeps a graph
/// well-formed and below every bound it was below.
pub proof fn lemma_without_node_wf(g: GraphView, id: u64)
    requires
        g.wf(),
        g.has_node(id),
    ensures
        g.without_node(id).wf(),
        forall|b: u64| g.ids_below(b) ==> g.without_node(id).ids_below(b),
        forall|other: u64|
            other != id ==> g.has_node(other) == #[trigger] g.without_node(id).has_node(other),
        !g.without_node(id).has_node(id),
{
    let r = g.without_node(id);
    let p = g.node_pos(id);
    let keep = g.untouched_by(id);
    let kept = positions_where(keep, g.edges.len() as int);
    lemma_positions_where(keep, g.edges.len() as int);
    assert forall|i: int| 0 <= i < r.nodes.len() implies (#[trigger] r.nodes[i]) == g.nodes[if i
        < p {
        i
    } else {
        i + 1
    }] by {}
    assert forall|i: int, j: int| 0 <= i < j < r.nodes.len() implies (#[trigger] r.nodes[i]).id < (
    #[trigger] r.nodes[j]).id by {
        let a = if i < p {
            i
        } else {
            i + 1
        };
        let b = if j < p {
            j
        } else {
            j + 1
        };
        assert(g.nodes[a].id < g.nodes[b].id);
    }
    assert forall|other: u64| other != id implies g.has_node(other) == #[trigger] r.has_node(
        other,
    ) by {
        if g.has_node(other) {
            let a = g.node_pos(other);
            let i = if a < p {
                a
            } else {
                a - 1
            };
            assert(r.nodes[i].id == other);
        }
        if r.has_node(other) {
            let i = r.node_pos(other);
            let a = if i < p {
                i
            } else {
                i + 1
            };
            assert(g.nodes[a].id == other);
        }
    }
    assert(!r.has_node(id)) by {
        if r.has_node(id) {
            let i = r.node_pos(id);
            let a = if i < p {
                i
            } else {
                i + 1
            };
            assert(g.nodes[a].id == id);
            lemma_node_pos(g, a);
        }
    }
    assert forall|i: int, j: int| 0 <= i < j < r.edges.len() implies (#[trigger] r.edges[i]).id < (
    #[trigger] r.edges[j]).id by {
        assert(kept[i] < kept[j]);
        assert(g.edges[kept[i]].id < g.edges[kept[j]].id);
    }
    assert forall|e: int| 0 <= e < r.edges.len() implies r.has_node((#[trigger] r.edges[e]).from)
        && r.has_node(r.edges[e].to) by {
        let k = kept[e];
        assert(keep(k));
        assert(g.has_node(g.edges[k].from) && g.has_node(g.edges[k].to));
    }
    assert forall|b: u64| g.ids_below(b) implies r.ids_below(b) by {
        assert forall|i: int| 0 <= i < r.nodes.len() implies (#[trigger] r.nodes[i]).id < b by {
            let a = if i < p {
                i
            } else {
                i + 1
            };
            assert(g.nodes[a].id < b);
        }
        assert forall|i: int| 0 <= i < r.edges.len() implies (#[trigger] r.edges[i]).id < b by {
            assert(g.edges[kept[i]].id < b);
        }
    }
}

} // verus!
