//! Shortest paths: a breadth-first search from the target outwards, level
//! by level, followed by a walk from the source that at each node takes the
//! earliest-created edge that still leads to the target in the fewest hops.

use vstd::prelude::*;
use crate::dto::{GraphDirection, GraphPath, MemoryEdge};
use crate::error::GraphStoreError;
use crate::graph::{CubeGraph, Traversal};
use crate::model::{lemma_node_pos, GraphView, Scope};
use crate::walks::{
    lemma_path_le_antisym, lemma_walk_concat, lemma_walk_push,
    lemma_walk_single, lex_lt, path_le, prefix_le};

verus! {

impl GraphView {
    /// `w` leads from `s` to `t` and no walk from `s` to `t` ranks before it.
    pub open spec fn is_best_walk(self, s: u64, t: u64, q: Scope, w: Seq<int>) -> bool {
        &&& self.is_walk(s, w, t, q)
        &&& forall|o: Seq<int>| #[trigger] self.is_walk(s, o, t, q) ==> path_le(w, o)
    }

    /// The first-ranked walk from `s` to `t`, if it has at most `max_depth`
    /// edges.
    pub open spec fn shortest_walk(self, s: u64, t: u64, q: Scope, max_depth: nat) -> Option<
        Seq<int>,
    > {
        if exists|w: Seq<int>| #[trigger] self.is_best_walk(s, t, q, w) && w.len() <= max_depth {
            Some(choose|w: Seq<int>| #[trigger] self.is_best_walk(s, t, q, w) && w.len() <= max_depth)
        } else {
            None
        }
    }

    /// The fewest edges on any walk from `u` to `t` is `l`.
    pub open spec fn dist_is(self, u: u64, t: u64, q: Scope, l: nat) -> bool {
        &&& exists|w: Seq<int>| #[trigger] self.is_walk(u, w, t, q) && w.len() == l
        &&& forall|o: Seq<int>| #[trigger] self.is_walk(u, o, t, q) ==> o.len() >= l
    }

    /// Every walk from `u` to `t` has more than `d` edges.
    pub open spec fn farther_than(self, u: u64, t: u64, q: Scope, d: nat) -> bool {
        forall|o: Seq<int>| #[trigger] self.is_walk(u, o, t, q) ==> o.len() > d
    }

    /// The edges of a walk.
    pub open spec fn walk_edges(self, w: Seq<int>) -> Seq<crate::dto::EdgeView> {
        w.map_values(|e: int| self.edges[e])
    }
}

/// The path lists the nodes and edges of the walk `w` from `s`.
pub open spec fn realizes(p: GraphPath, g: GraphView, s: u64, w: Seq<int>, q: Scope) -> bool {
    &&& p.node_ids@ == g.walk_nodes(s, w, q)
    &&& p.edges@.map_values(|e: MemoryEdge| e@) == g.walk_edges(w)
}

/// What a shortest-path query returns on the graph `g`.
pub open spec fn shortest_path_post(
    g: GraphView,
    source: u64,
    target: u64,
    q: Scope,
    max_depth: u32,
    r: Result<Option<GraphPath>, GraphStoreError>,
) -> bool {
    if max_depth == 0 && source != target {
        r matches Err(e) && e == GraphStoreError::InvalidArgument
    } else if !g.visible(source, q.include_deleted) || !g.visible(target, q.include_deleted) {
        r matches Err(e) && e == GraphStoreError::NotFound
    } else {
        r matches Ok(found) && match (found, g.shortest_walk(source, target, q, max_depth as nat)) {
            (Some(p), Some(w)) => realizes(p, g, source, w, q),
            (None, None) => g.farther_than(source, target, q, max_depth as nat),
            _ => false,
        }
    }
}

/// At most one walk ranks first.
pub proof fn lemma_best_walk_unique(g: GraphView, s: u64, t: u64, q: Scope, a: Seq<int>, b: Seq<int>)
    requires
        g.is_best_walk(s, t, q, a),
        g.is_best_walk(s, t, q, b),
    ensures
        a == b,
{
    assert(g.is_walk(s, a, t, q));
    assert(g.is_walk(s, b, t, q));
    lemma_path_le_antisym(a, b);
}

/// When some walk ranks first, it is what `shortest_walk` names whenever
/// the depth bound admits it.
pub proof fn lemma_shortest_walk_is(g: GraphView, s: u64, t: u64, q: Scope, w: Seq<int>, d: nat)
    requires
        g.is_best_walk(s, t, q, w),
    ensures
        g.shortest_walk(s, t, q, d) == if w.len() <= d {
            Some(w)
        } else {
            None::<Seq<int>>
        },
{
    if w.len() <= d {
        let c = choose|c: Seq<int>| #[trigger] g.is_best_walk(s, t, q, c) && c.len() <= d;
        lemma_best_walk_unique(g, s, t, q, w, c);
    } else {
        if exists|c: Seq<int>| #[trigger] g.is_best_walk(s, t, q, c) && c.len() <= d {
            let c = choose|c: Seq<int>| #[trigger] g.is_best_walk(s, t, q, c) && c.len() <= d;
            lemma_best_walk_unique(g, s, t, q, w, c);
        }
    }
}

/// When no node is exactly `d` away, no node is farther away either: the
/// distances that are known up to `d` are all there are.
pub proof fn lemma_no_growth(g: GraphView, t: u64, q: Scope, dist: Seq<Option<u32>>, d: nat, to: nat)
    requires
        g.wf(),
        d <= to <= u32::MAX,
        dist_inv(g, t, q, dist, d),
        forall|p: int| 0 <= p < dist.len() ==> (#[trigger] dist[p] matches Some(l) ==> l < d),
    ensures
        dist_inv(g, t, q, dist, to),
    decreases to - d,
{
    if d < to {
        assert forall|p: int| 0 <= p < dist.len() implies match #[trigger] dist[p] {
            Some(l) => l <= d + 1 && g.dist_is(g.nodes[p].id, t, q, l as nat),
            None => g.farther_than(g.nodes[p].id, t, q, d + 1),
        } by {
            let u = g.nodes[p].id;
            if dist[p].is_none() {
                assert(g.farther_than(u, t, q, d));
                assert forall|o: Seq<int>| #[trigger] g.is_walk(u, o, t, q) implies o.len() > d
                    + 1 by {
                    if o.len() == d + 1 {
                        lemma_first_step_dist(g, u, o, t, q, d, dist, d);
                        let pv = g.node_pos(g.step(u, o[0], q).unwrap());
                        lemma_walk_first(g, u, o, t, q);
                        assert(0 <= pv < dist.len());
                        assert(dist[pv] == Some(d as u32));
                    }
                }
            }
        }
        lemma_no_growth(g, t, q, dist, d + 1, to);
    }
}

/// Whether a direction lets an edge be followed from its `from` end.
pub open spec fn goes_forward(d: GraphDirection) -> bool {
    d != GraphDirection::Inbound
}

/// Whether a direction lets an edge be followed from its `to` end.
pub open spec fn goes_backward(d: GraphDirection) -> bool {
    d != GraphDirection::Outbound
}

/// A step along an edge is a move from one of its ends to the other, in a
/// sense that the direction allows.
pub proof fn lemma_step_cases(g: GraphView, u: u64, e: int, q: Scope, v: u64)
    ensures
        g.step(u, e, q) == Some(v) <==> g.edge_ok(e, q) && ((goes_forward(q.direction)
            && g.edges[e].from == u && g.edges[e].to == v) || (goes_backward(q.direction)
            && g.edges[e].to == u && g.edges[e].from == v)),
{
}

/// For each edge the positions of its two ends and whether it may be followed.
pub struct EdgeEnds {
    pub from_pos: usize,
    pub to_pos: usize,
    pub ok: bool,
}

/// The table describes the edges of `g` under the scope `q`.
pub open spec fn table_ok(g: GraphView, q: Scope, table: Seq<EdgeEnds>) -> bool {
    &&& table.len() == g.edges.len()
    &&& forall|e: int|
        0 <= e < table.len() ==> {
            &&& (#[trigger] table[e]).ok == g.edge_ok(e, q)
            &&& table[e].from_pos < g.nodes.len()
            &&& table[e].to_pos < g.nodes.len()
            &&& g.nodes[table[e].from_pos as int].id == g.edges[e].from
            &&& g.nodes[table[e].to_pos as int].id == g.edges[e].to
        }
}

/// Distances to `t` are known for every node up to depth `d`: an entry
/// holds the exact distance, and a missing entry means farther than `d`.
pub open spec fn dist_inv(g: GraphView, t: u64, q: Scope, dist: Seq<Option<u32>>, d: nat) -> bool {
    &&& dist.len() == g.nodes.len()
    &&& forall|p: int|
        0 <= p < dist.len() ==> match #[trigger] dist[p] {
            Some(l) => l <= d && g.dist_is(g.nodes[p].id, t, q, l as nat),
            None => g.farther_than(g.nodes[p].id, t, q, d),
        }
}

/// While one level is being scanned: entries of the level before stay, new
/// entries hold the next depth, and every edge scanned so far that leads
/// into the last level has an entry at its near end.
pub open spec fn scan_inv(
    g: GraphView,
    t: u64,
    q: Scope,
    dist0: Seq<Option<u32>>,
    dist: Seq<Option<u32>>,
    d: nat,
    j: int,
) -> bool {
    &&& dist.len() == g.nodes.len()
    &&& dist0.len() == g.nodes.len()
    &&& forall|p: int| 0 <= p < dist.len() && dist0[p].is_some() ==> #[trigger] dist[p] == dist0[p]
    &&& forall|p: int|
        0 <= p < dist.len() && dist0[p].is_none() && (#[trigger] dist[p]).is_some() ==> dist[p]
            == Some((d + 1) as u32) && g.dist_is(g.nodes[p].id, t, q, d + 1)
    &&& forall|e: int, u: u64|
        0 <= e < j && (#[trigger] g.step(u, e, q)).is_some() && dist0[g.node_pos(
            g.step(u, e, q).unwrap(),
        )] == Some(d as u32) ==> dist[g.node_pos(u)].is_some()
}

/// A walk of at least one edge starts with a step and continues with a walk.
pub proof fn lemma_walk_first(g: GraphView, u: u64, o: Seq<int>, t: u64, q: Scope)
    requires
        g.is_walk(u, o, t, q),
        o.len() > 0,
    ensures
        g.step(u, o[0], q).is_some(),
        g.is_walk(g.step(u, o[0], q).unwrap(), o.drop_first(), t, q),
        g.has_node(g.step(u, o[0], q).unwrap()),
        g.has_node(u),
{
}

/// A step followed by a walk is a walk.
pub proof fn lemma_walk_cons(g: GraphView, u: u64, e: int, v: u64, w: Seq<int>, t: u64, q: Scope)
    requires
        g.step(u, e, q) == Some(v),
        g.is_walk(v, w, t, q),
    ensures
        g.is_walk(u, seq![e] + w, t, q),
        (seq![e] + w).len() == w.len() + 1,
{
    lemma_walk_single(g, u, e, q);
    lemma_walk_concat(g, u, seq![e], w, q);
}

/// If `v` is exactly `d` away from `t` and a step leads from `u` to `v`,
/// while every walk from `u` has more than `d` edges, then `u` is exactly
/// `d + 1` away.
pub proof fn lemma_dist_next(g: GraphView, u: u64, e: int, v: u64, t: u64, q: Scope, d: nat)
    requires
        g.step(u, e, q) == Some(v),
        g.dist_is(v, t, q, d),
        g.farther_than(u, t, q, d),
    ensures
        g.dist_is(u, t, q, d + 1),
{
    let w = choose|w: Seq<int>| #[trigger] g.is_walk(v, w, t, q) && w.len() == d;
    lemma_walk_cons(g, u, e, v, w, t, q);
    assert(g.is_walk(u, seq![e] + w, t, q) && (seq![e] + w).len() == d + 1);
}

/// The first step of a walk of `l + 1` edges from a node with no shorter
/// walk leads to a node that is exactly `l` away, if distances are known
/// that far.
pub proof fn lemma_first_step_dist(
    g: GraphView,
    u: u64,
    o: Seq<int>,
    t: u64,
    q: Scope,
    l: nat,
    dist: Seq<Option<u32>>,
    d: nat,
)
    requires
        g.wf(),
        dist_inv(g, t, q, dist, d),
        g.is_walk(u, o, t, q),
        o.len() == l + 1,
        l <= d,
        g.farther_than(u, t, q, l),
    ensures
        g.step(u, o[0], q).is_some(),
        0 <= o[0] < g.edges.len(),
        dist[g.node_pos(g.step(u, o[0], q).unwrap())] == Some(l as u32),
{
    lemma_walk_first(g, u, o, t, q);
    let v = g.step(u, o[0], q).unwrap();
    let rest = o.drop_first();
    let pv = g.node_pos(v);
    assert(0 <= pv < g.nodes.len() && g.nodes[pv].id == v);
    match dist[pv] {
        None => {
            assert(g.farther_than(v, t, q, d));
            assert(rest.len() > d);
        },
        Some(x) => {
            assert(g.dist_is(v, t, q, x as nat));
            assert(rest.len() >= x);
            if x < l {
                let w = choose|w: Seq<int>| #[trigger] g.is_walk(v, w, t, q) && w.len() == x as nat;
                lemma_walk_cons(g, u, o[0], v, w, t, q);
                assert(g.is_walk(u, seq![o[0]] + w, t, q));
                assert((seq![o[0]] + w).len() > l);
            }
        },
    }
}

/// Once every edge has been scanned, the distances are known one level
/// deeper.
pub proof fn lemma_level_complete(
    g: GraphView,
    t: u64,
    q: Scope,
    dist0: Seq<Option<u32>>,
    dist: Seq<Option<u32>>,
    d: nat,
)
    requires
        g.wf(),
        d + 1 <= u32::MAX,
        dist_inv(g, t, q, dist0, d),
        scan_inv(g, t, q, dist0, dist, d, g.edges.len() as int),
    ensures
        dist_inv(g, t, q, dist, d + 1),
{
    assert forall|p: int| 0 <= p < dist.len() implies match #[trigger] dist[p] {
        Some(l) => l <= d + 1 && g.dist_is(g.nodes[p].id, t, q, l as nat),
        None => g.farther_than(g.nodes[p].id, t, q, d + 1),
    } by {
        let u = g.nodes[p].id;
        lemma_node_pos(g, p);
        match dist[p] {
            Some(l) => {
                if dist0[p].is_some() {
                    assert(dist[p] == dist0[p]);
                }
            },
            None => {
                assert(dist0[p].is_none());
                assert(g.farther_than(u, t, q, d));
                assert forall|o: Seq<int>| #[trigger] g.is_walk(u, o, t, q) implies o.len() > d
                    + 1 by {
                    if o.len() == d + 1 {
                        lemma_first_step_dist(g, u, o, t, q, d, dist0, d);
                        let e = o[0];
                        assert(0 <= e < g.edges.len());
                        assert(dist[g.node_pos(u)].is_some());
                    }
                }
            },
        }
    }
}

/// A vector of `n` empty entries.
fn no_distances(n: usize) -> (v: Vec<Option<u32>>)
    ensures
        v@.len() == n,
        forall|i: int| 0 <= i < n ==> (#[trigger] v@[i]).is_none(),
{
    let mut v: Vec<Option<u32>> = Vec::new();
    let mut i: usize = 0;
    while i < n
        invariant
            i <= n,
            v@.len() == i,
            forall|k: int| 0 <= k < i ==> (#[trigger] v@[k]).is_none(),
        decreases n - i,
    {
        v.push(None);
        i += 1;
    }
    v
}

impl CubeGraph {
    /// Looks up, once for a whole search, the ends of every edge and whether
    /// the edge may be followed.
    pub(crate) fn edge_table(&self, q: &Traversal) -> (table: Vec<EdgeEnds>)
        requires
            self.wf(),
        ensures
            table_ok(self@, q@, table@),
    {
        proof {
            self.lemma_view();
        }
        let mut table: Vec<EdgeEnds> = Vec::new();
        let mut e: usize = 0;
        while e < self.edges.len()
            invariant
                self.wf(),
                e <= self.edges@.len(),
                self@.edges.len() == self.edges@.len(),
                self@.nodes.len() == self.nodes@.len(),
                forall|k: int|
                    0 <= k < self.edges@.len() ==> #[trigger] self@.edges[k] == self.edges@[k]@,
                table@.len() == e,
                forall|k: int|
                    0 <= k < e ==> {
                        &&& (#[trigger] table@[k]).ok == self@.edge_ok(k, q@)
                        &&& table@[k].from_pos < self@.nodes.len()
                        &&& table@[k].to_pos < self@.nodes.len()
                        &&& self@.nodes[table@[k].from_pos as int].id == self@.edges[k].from
                        &&& self@.nodes[table@[k].to_pos as int].id == self@.edges[k].to
                    },
            decreases self.edges@.len() - e,
        {
            assert(self@.edges[e as int] == self.edges@[e as int]@);
            assert(self@.has_node(self@.edges[e as int].from) && self@.has_node(
                self@.edges[e as int].to,
            ));
            let ok = self.edge_usable(e, q);
            let a = self.find_node(self.edges[e].from);
            let b = self.find_node(self.edges[e].to);
            let from_pos: usize = match a {
                Some(i) => i,
                None => 0,
            };
            let to_pos: usize = match b {
                Some(i) => i,
                None => 0,
            };
            table.push(EdgeEnds { from_pos, to_pos, ok });
            e += 1;
        }
        table
    }

    /// Distances to the node at position `tp`, level by level, until the
    /// node at position `sp` has one or `max_depth` levels are done.
    fn distances(
        &self,
        tp: usize,
        sp: usize,
        table: &Vec<EdgeEnds>,
        q: &Traversal,
        max_depth: u32,
    ) -> (r: (Vec<Option<u32>>, u32))
        requires
            self.wf(),
            tp < self@.nodes.len(),
            sp < self@.nodes.len(),
            table_ok(self@, q@, table@),
        ensures
            r.1 <= max_depth,
            dist_inv(self@, self@.nodes[tp as int].id, q@, r.0@, r.1 as nat),
            r.1 == max_depth || r.0@[sp as int].is_some(),
    {
        let ghost g = self@;
        let ghost t = g.nodes[tp as int].id;
        let mut dist = no_distances(self.nodes.len());
        proof {
            self.lemma_view();
        }
        dist.set(tp, Some(0));
        proof {
            assert forall|p: int| 0 <= p < dist@.len() implies match #[trigger] dist@[p] {
                Some(l) => l <= 0 && g.dist_is(g.nodes[p].id, t, q@, l as nat),
                None => g.farther_than(g.nodes[p].id, t, q@, 0),
            } by {
                if p == tp {
                    assert(g.is_walk(t, Seq::<int>::empty(), t, q@));
                } else {
                    lemma_node_pos(g, p);
                    lemma_node_pos(g, tp as int);
                    assert forall|o: Seq<int>| #[trigger]
                        g.is_walk(g.nodes[p].id, o, t, q@) implies o.len() > 0 by {}
                }
            }
        }
        let mut d: u32 = 0;
        while d < max_depth && dist[sp].is_none()
            invariant
                self.wf(),
                g == self@,
                t == g.nodes[tp as int].id,
                tp < g.nodes.len(),
                sp < g.nodes.len(),
                table_ok(g, q@, table@),
                d <= max_depth,
                dist_inv(g, t, q@, dist@, d as nat),
            decreases max_depth - d,
        {
            let ghost dist0 = dist@;
            let mut grew = false;
            let mut e: usize = 0;
            while e < table.len()
                invariant
                    self.wf(),
                    g == self@,
                    d < max_depth,
                    e <= table@.len(),
                    table_ok(g, q@, table@),
                    dist_inv(g, t, q@, dist0, d as nat),
                    scan_inv(g, t, q@, dist0, dist@, d as nat, e as int),
                    !grew ==> dist@ == dist0,
                decreases table@.len() - e,
            {
                let ends = &table[e];
                let a = ends.from_pos;
                let b = ends.to_pos;
                let ghost before = dist@;
                if ends.ok {
                    let forward = match q.direction {
                        GraphDirection::Inbound => false,
                        _ => true,
                    };
                    let backward = match q.direction {
                        GraphDirection::Outbound => false,
                        _ => true,
                    };
                    if forward && dist[a].is_none() && is_level(&dist, b, d) {
                        proof {
                            lemma_node_pos(g, a as int);
                            lemma_node_pos(g, b as int);
                            lemma_step_cases(g, g.nodes[a as int].id, e as int, q@, g.nodes[b as int].id);
                            assert(dist0[b as int] == Some(d));
                            lemma_dist_next(
                                g,
                                g.nodes[a as int].id,
                                e as int,
                                g.nodes[b as int].id,
                                t,
                                q@,
                                d as nat,
                            );
                        }
                        dist.set(a, Some(d + 1));
                        grew = true;
                    }
                    let ghost middle = dist@;
                    if backward && dist[b].is_none() && is_level(&dist, a, d) {
                        proof {
                            lemma_node_pos(g, a as int);
                            lemma_node_pos(g, b as int);
                            lemma_step_cases(g, g.nodes[b as int].id, e as int, q@, g.nodes[a as int].id);
                            assert(dist0[a as int] == Some(d));
                            lemma_dist_next(
                                g,
                                g.nodes[b as int].id,
                                e as int,
                                g.nodes[a as int].id,
                                t,
                                q@,
                                d as nat,
                            );
                        }
                        dist.set(b, Some(d + 1));
                        grew = true;
                    }
                }
                proof {
                    lemma_node_pos(g, a as int);
                    lemma_node_pos(g, b as int);
                    assert forall|k: int, u: u64|
                        0 <= k < e + 1 && (#[trigger] g.step(u, k, q@)).is_some() && dist0[g.node_pos(
                            g.step(u, k, q@).unwrap(),
                        )] == Some(d) implies dist@[g.node_pos(u)].is_some() by {
                        if k == e {
                            let v = g.step(u, k, q@).unwrap();
                            lemma_step_cases(g, u, k, q@, v);
                        } else {
                            assert(before[g.node_pos(u)].is_some());
                            lemma_walk_first_node(g, u, k, q@);
                        }
                    }
                }
                e += 1;
            }
            proof {
                lemma_level_complete(g, t, q@, dist0, dist@, d as nat);
            }
            d += 1;
            if !grew {
                // Nothing is exactly this far away, so nothing is farther.
                proof {
                    lemma_no_growth(g, t, q@, dist@, d as nat, max_depth as nat);
                }
                d = max_depth;
            }
        }
        (dist, d)
    }
}

/// Whether the entry at position `p` holds exactly the level `d`.
fn is_level(dist: &Vec<Option<u32>>, p: usize, d: u32) -> (r: bool)
    requires
        p < dist@.len(),
    ensures
        r == (dist@[p as int] == Some(d)),
{
    match dist[p] {
        Some(l) => l == d,
        None => false,
    }
}

/// The node from which a step can be taken is a node of the graph.
pub proof fn lemma_walk_first_node(g: GraphView, u: u64, e: int, q: Scope)
    requires
        g.step(u, e, q).is_some(),
    ensures
        g.has_node(u),
        0 <= g.node_pos(u) < g.nodes.len(),
        g.has_node(g.step(u, e, q).unwrap()),
        0 <= g.node_pos(g.step(u, e, q).unwrap()) < g.nodes.len(),
{
}

/// The edge at position `e` leads from `u` to a node that is exactly `l`
/// away from the target.
pub open spec fn leads_closer(
    g: GraphView,
    q: Scope,
    dist: Seq<Option<u32>>,
    u: u64,
    l: u32,
    e: int,
) -> bool {
    g.step(u, e, q).is_some() && dist[g.node_pos(g.step(u, e, q).unwrap())] == Some(l)
}

/// Extending a prefix of the first-ranked walk by the earliest edge that
/// leads closer keeps it a prefix that no walk of full length ranks before.
pub proof fn lemma_extend_prefix(
    g: GraphView,
    s: u64,
    t: u64,
    q: Scope,
    dist: Seq<Option<u32>>,
    d: nat,
    total: nat,
    walk: Seq<int>,
    cur: u64,
    e: int,
    o: Seq<int>,
)
    requires
        g.wf(),
        dist_inv(g, t, q, dist, d),
        total <= d,
        walk.len() < total,
        g.walk_end(s, walk, q) == Some(cur),
        g.dist_is(cur, t, q, (total - walk.len()) as nat),
        leads_closer(g, q, dist, cur, (total - walk.len() - 1) as u32, e),
        forall|k: int|
            0 <= k < e ==> !#[trigger] leads_closer(
                g,
                q,
                dist,
                cur,
                (total - walk.len() - 1) as u32,
                k,
            ),
        g.is_walk(s, o, t, q),
        o.len() == total,
        prefix_le(walk, o),
    ensures
        prefix_le(walk.push(e), o),
{
    let n = walk.len() as int;
    let head = o.take(n);
    let next = walk.push(e);
    let head1 = o.take(n + 1);
    if lex_lt(walk, head) {
        let k = choose|k: int|
            0 <= k < walk.len() && k < head.len() && #[trigger] walk[k] < head[k] && forall|j: int|
                0 <= j < k ==> walk[j] == head[j];
        assert(next[k] < head1[k]);
        assert forall|j: int| 0 <= j < k implies next[j] == head1[j] by {
            assert(walk[j] == head[j]);
        }
    } else {
        assert(walk == head);
        let rest = o.skip(n);
        assert(o =~= head + rest);
        lemma_walk_concat(g, s, head, rest, q);
        assert(g.is_walk(cur, rest, t, q));
        let r = (total - n) as nat;
        assert(rest.len() == r);
        assert(g.farther_than(cur, t, q, (r - 1) as nat)) by {
            assert forall|x: Seq<int>| #[trigger] g.is_walk(cur, x, t, q) implies x.len() > r
                - 1 by {}
        }
        lemma_first_step_dist(g, cur, rest, t, q, (r - 1) as nat, dist, d);
        assert(rest[0] == o[n]);
        assert(leads_closer(g, q, dist, cur, (r - 1) as u32, o[n]));
        assert(e <= o[n]);
        if e < o[n] {
            assert(next[n] < head1[n]);
            assert forall|j: int| 0 <= j < n implies next[j] == head1[j] by {
                assert(walk[j] == head[j]);
            }
        } else {
            assert(next =~= head1);
        }
    }
}

/// A prefix of full length that no walk ranks before is the first-ranked
/// walk.
pub proof fn lemma_full_prefix_is_best(g: GraphView, s: u64, t: u64, q: Scope, walk: Seq<int>)
    requires
        g.is_walk(s, walk, t, q),
        g.dist_is(s, t, q, walk.len()),
        forall|o: Seq<int>|
            #[trigger] g.is_walk(s, o, t, q) && o.len() == walk.len() ==> prefix_le(walk, o),
    ensures
        g.is_best_walk(s, t, q, walk),
{
    assert forall|o: Seq<int>| #[trigger] g.is_walk(s, o, t, q) implies path_le(walk, o) by {
        assert(o.len() >= walk.len());
        if o.len() == walk.len() {
            assert(prefix_le(walk, o));
            assert(o.take(walk.len() as int) =~= o);
        }
    }
}

impl CubeGraph {
    /// Where the edge at position `e` leads from the node at position `at`,
    /// as a position.
    pub(crate) fn step_pos(&self, table: &Vec<EdgeEnds>, at: usize, e: usize, q: &Traversal) -> (r: Option<
        usize,
    >)
        requires
            self.wf(),
            table_ok(self@, q@, table@),
            at < self@.nodes.len(),
            e < self@.edges.len(),
        ensures
            match r {
                Some(vp) => vp < self@.nodes.len() && self@.step(
                    self@.nodes[at as int].id,
                    e as int,
                    q@,
                ) == Some(self@.nodes[vp as int].id),
                None => self@.step(self@.nodes[at as int].id, e as int, q@).is_none(),
            },
    {
        let ends = &table[e];
        proof {
            lemma_node_pos(self@, at as int);
            lemma_node_pos(self@, ends.from_pos as int);
            lemma_node_pos(self@, ends.to_pos as int);
        }
        if !ends.ok {
            return None;
        }
        match q.direction {
            GraphDirection::Outbound => if ends.from_pos == at {
                Some(ends.to_pos)
            } else {
                None
            },
            GraphDirection::Inbound => if ends.to_pos == at {
                Some(ends.from_pos)
            } else {
                None
            },
            GraphDirection::Both => if ends.from_pos == at {
                Some(ends.to_pos)
            } else if ends.to_pos == at {
                Some(ends.from_pos)
            } else {
                None
            },
        }
    }

    /// Walks from the source towards the target, at each node along the
    /// earliest edge that leads one level closer.
    fn trace(
        &self,
        sp: usize,
        table: &Vec<EdgeEnds>,
        q: &Traversal,
        dist: &Vec<Option<u32>>,
        total: u32,
        Ghost(t): Ghost<u64>,
        Ghost(d): Ghost<nat>,
    ) -> (r: (GraphPath, Ghost<Seq<int>>))
        requires
            self.wf(),
            table_ok(self@, q@, table@),
            sp < self@.nodes.len(),
            dist_inv(self@, t, q@, dist@, d),
            dist@[sp as int] == Some(total),
        ensures
            realizes(r.0, self@, self@.nodes[sp as int].id, r.1@, q@),
            self@.is_best_walk(self@.nodes[sp as int].id, t, q@, r.1@),
            r.1@.len() == total,
    {
        let ghost g = self@;
        let ghost s = g.nodes[sp as int].id;
        proof {
            self.lemma_view();
        }
        let mut node_ids: Vec<u64> = Vec::new();
        node_ids.push(self.nodes[sp].id);
        let mut edges: Vec<MemoryEdge> = Vec::new();
        let ghost mut walk: Seq<int> = Seq::empty();
        let mut at: usize = sp;
        let mut left: u32 = total;
        proof {
            assert(node_ids@ =~= g.walk_nodes(s, walk, q@));
            assert(edges@.map_values(|e: MemoryEdge| e@) =~= g.walk_edges(walk));
            assert forall|o: Seq<int>| #[trigger]
                g.is_walk(s, o, t, q@) && o.len() == total implies prefix_le(walk, o) by {
                assert(o.take(0) =~= walk);
            }
        }
        while left > 0
            invariant
                self.wf(),
                g == self@,
                s == g.nodes[sp as int].id,
                table_ok(g, q@, table@),
                dist_inv(g, t, q@, dist@, d),
                self@.edges.len() == self.edges@.len(),
                forall|k: int|
                    0 <= k < self.edges@.len() ==> #[trigger] self@.edges[k] == self.edges@[k]@,
                self@.nodes.len() == self.nodes@.len(),
                forall|k: int|
                    0 <= k < self.nodes@.len() ==> #[trigger] self@.nodes[k] == self.nodes@[k]@,
                at < g.nodes.len(),
                dist@[at as int] == Some(left),
                total <= d,
                walk.len() + left == total,
                g.walk_end(s, walk, q@) == Some(g.nodes[at as int].id),
                node_ids@ == g.walk_nodes(s, walk, q@),
                edges@.map_values(|e: MemoryEdge| e@) == g.walk_edges(walk),
                forall|o: Seq<int>|
                    #[trigger] g.is_walk(s, o, t, q@) && o.len() == total ==> prefix_le(walk, o),
            decreases left,
        {
            let ghost cur = g.nodes[at as int].id;
            let mut e: usize = 0;
            let mut found: Option<usize> = None;
            proof {
                // Some edge leads closer: the first edge of a shortest walk.
                assert(g.dist_is(cur, t, q@, left as nat));
            }
            while e < table.len() && found.is_none()
                invariant
                    self.wf(),
                    g == self@,
                    table_ok(g, q@, table@),
                    dist_inv(g, t, q@, dist@, d),
                    at < g.nodes.len(),
                    cur == g.nodes[at as int].id,
                    left > 0,
                    e <= table@.len(),
                    forall|k: int|
                        0 <= k < e ==> !#[trigger] leads_closer(
                            g,
                            q@,
                            dist@,
                            cur,
                            (left - 1) as u32,
                            k,
                        ),
                    found matches Some(vp) ==> e < table@.len() && vp < g.nodes.len() && g.step(
                        cur,
                        e as int,
                        q@,
                    ) == Some(g.nodes[vp as int].id) && dist@[vp as int] == Some(
                        (left - 1) as u32,
                    ),
                decreases table@.len() - e + if found.is_none() { 1int } else { 0int },
            {
                let hop = self.step_pos(table, at, e, q);
                let mut hit = false;
                match hop {
                    Some(vp) => {
                        proof {
                            lemma_node_pos(g, vp as int);
                        }
                        if is_level(dist, vp, left - 1) {
                            hit = true;
                            found = Some(vp);
                        }
                    },
                    None => {},
                }
                if !hit {
                    assert(!leads_closer(g, q@, dist@, cur, (left - 1) as u32, e as int));
                    e += 1;
                }
            }
            proof {
                if found.is_none() {
                    // Contradiction: a shortest walk from here starts with
                    // an edge that leads closer.
                    let w = choose|w: Seq<int>| #[trigger]
                        g.is_walk(cur, w, t, q@) && w.len() == left as nat;
                    assert(g.farther_than(cur, t, q@, (left - 1) as nat)) by {
                        assert forall|x: Seq<int>| #[trigger]
                            g.is_walk(cur, x, t, q@) implies x.len() > left - 1 by {}
                    }
                    lemma_first_step_dist(g, cur, w, t, q@, (left - 1) as nat, dist@, d);
                    assert(leads_closer(g, q@, dist@, cur, (left - 1) as u32, w[0]));
                    lemma_walk_first(g, cur, w, t, q@);
                    assert(false);
                }
            }
            let vp: usize = match found {
                Some(vp) => vp,
                None => at,
            };
            proof {
                lemma_node_pos(g, vp as int);
                assert(leads_closer(g, q@, dist@, cur, (left - 1) as u32, e as int));
                assert forall|o: Seq<int>| #[trigger]
                    g.is_walk(s, o, t, q@) && o.len() == total implies prefix_le(
                    walk.push(e as int),
                    o,
                ) by {
                    lemma_extend_prefix(
                        g,
                        s,
                        t,
                        q@,
                        dist@,
                        d,
                        total as nat,
                        walk,
                        cur,
                        e as int,
                        o,
                    );
                }
                lemma_walk_push(g, s, walk, e as int, q@);
                assert(g.walk_edges(walk.push(e as int)) =~= g.walk_edges(walk).push(
                    g.edges[e as int],
                ));
            }
            let ghost shown = edges@.map_values(|x: MemoryEdge| x@);
            node_ids.push(self.nodes[vp].id);
            edges.push(self.edges[e].duplicate());
            proof {
                assert(edges@.map_values(|x: MemoryEdge| x@) =~= shown.push(g.edges[e as int]));
                walk = walk.push(e as int);
            }
            at = vp;
            left = left - 1;
        }
        proof {
            // Zero edges away from the target means at the target.
            let z = choose|z: Seq<int>| #[trigger]
                g.is_walk(g.nodes[at as int].id, z, t, q@) && z.len() == 0;
            assert(g.nodes[at as int].id == t);
            assert(g.dist_is(s, t, q@, total as nat));
            lemma_full_prefix_is_best(g, s, t, q@, walk);
        }
        (GraphPath { node_ids, edges }, Ghost(walk))
    }

    /// The shortest path from `source` to `target` with at most `max_depth`
    /// edges, if there is one. Among several of the same length it is the
    /// one that, at the first node where they part, follows the edge that
    /// was created first.
    pub fn shortest_path(&self, source: u64, target: u64, q: &Traversal, max_depth: u32) -> (r:
        Result<Option<GraphPath>, GraphStoreError>)
        requires
            self.wf(),
        ensures
            shortest_path_post(self@, source, target, q@, max_depth, r),
    {
        if max_depth == 0 && source != target {
            return Err(GraphStoreError::InvalidArgument);
        }
        if !self.is_visible(source, q.include_deleted) || !self.is_visible(
            target,
            q.include_deleted,
        ) {
            return Err(GraphStoreError::NotFound);
        }
        let ghost g = self@;
        let sp = match self.find_node(source) {
            Some(i) => i,
            None => 0,
        };
        let tp = match self.find_node(target) {
            Some(i) => i,
            None => 0,
        };
        let table = self.edge_table(q);
        let (dist, d) = self.distances(tp, sp, &table, q, max_depth);
        match dist[sp] {
            Some(total) => {
                let (path, Ghost(walk)) = self.trace(
                    sp,
                    &table,
                    q,
                    &dist,
                    total,
                    Ghost(target),
                    Ghost(d as nat),
                );
                proof {
                    lemma_shortest_walk_is(g, source, target, q@, walk, max_depth as nat);
                }
                Ok(Some(path))
            },
            None => {
                proof {
                    assert(g.farther_than(source, target, q@, max_depth as nat));
                    if exists|w: Seq<int>| #[trigger]
                        g.is_best_walk(source, target, q@, w) && w.len() <= max_depth {
                        let w = choose|w: Seq<int>| #[trigger]
                            g.is_best_walk(source, target, q@, w) && w.len() <= max_depth;
                        assert(g.is_walk(source, w, target, q@));
                    }
                }
                Ok(None)
            },
        }
    }
}

} // verus!
