//! Graph queries as the request layer asks them: ids and cursors as text,
//! and memories in place of nodes.

use vstd::prelude::*;
use vstd::string::*;
use crate::cube::{item_matches, item_of, lift_error, target_cube, MemCubeError, NaiveMemCube};
use crate::dto::{
    GraphNeighborItem, GraphNeighborsData, GraphNeighborsRequest, GraphPath, GraphPathData,
    GraphPathRequest, GraphPathsRequest, MemoryEdge, MemoryItem,
};
use crate::ids::{decimal, memory_id_text, parse_memory_id, parsed};
use crate::model::{GraphView, Scope};
use crate::shortest::realizes;
use crate::store::scope_of;

verus! {

/// The cursor that a cursor text stands for; `Err` for a text that is no
/// cursor.
pub open spec fn cursor_of(text: Option<String>) -> Result<Option<u64>, ()> {
    match text {
        None => Ok(None),
        Some(t) => match parsed(t@) {
            Some(c) => Ok(Some(c)),
            None => Err(()),
        },
    }
}

/// The text of a cursor.
pub open spec fn cursor_text(c: Option<u64>) -> Option<Seq<char>> {
    match c {
        Some(id) => Some(decimal(id as nat)),
        None => None,
    }
}

/// Every node that a walk passes is a node of the graph.
pub proof fn lemma_walk_nodes_exist(g: GraphView, s: u64, w: Seq<int>, q: Scope)
    requires
        g.has_node(s),
        g.walk_end(s, w, q).is_some(),
    ensures
        g.walk_nodes(s, w, q).len() == w.len() + 1,
        forall|i: int| 0 <= i <= w.len() ==> g.has_node(#[trigger] g.walk_nodes(s, w, q)[i]),
    decreases w.len(),
{
    if w.len() > 0 {
        let v = g.step(s, w[0], q).unwrap();
        lemma_walk_nodes_exist(g, v, w.drop_first(), q);
        let rest = g.walk_nodes(v, w.drop_first(), q);
        assert forall|i: int| 0 <= i <= w.len() implies g.has_node(
            #[trigger] g.walk_nodes(s, w, q)[i],
        ) by {
            if i > 0 {
                assert(g.walk_nodes(s, w, q)[i] == rest[i - 1]);
            }
        }
    }
}

/// The response data shows the path along the walk `w` from `s`: its
/// length, its edges, and the memories of the nodes it passes.
pub open spec fn shows_path(d: GraphPathData, g: GraphView, s: u64, w: Seq<int>, q: Scope) -> bool {
    &&& d.hops == w.len()
    &&& d.edges@.map_values(|e: MemoryEdge| e@) == g.walk_edges(w)
    &&& d.nodes@.len() == w.len() + 1
    &&& forall|i: int|
        0 <= i <= w.len() ==> item_matches(
            #[trigger] d.nodes@[i],
            g.node(g.walk_nodes(s, w, q)[i]),
        )
}

impl NaiveMemCube {
    /// The memories along a path.
    fn path_data(&self, cube_id: &String, path: GraphPath, Ghost(w): Ghost<Seq<int>>, Ghost(q): Ghost<
        Scope,
    >, Ghost(s): Ghost<u64>) -> (d: GraphPathData)
        requires
            self.wf(),
            self.graph@.has_cube(cube_id@),
            realizes(path, self.graph@.graph(cube_id@), s, w, q),
            self.graph@.graph(cube_id@).has_node(s),
            self.graph@.graph(cube_id@).walk_end(s, w, q).is_some(),
            w.len() <= u32::MAX,
        ensures
            shows_path(d, self.graph@.graph(cube_id@), s, w, q),
    {
        let ghost g = self.graph@.graph(cube_id@);
        proof {
            lemma_walk_nodes_exist(g, s, w, q);
            assert(path.edges@.map_values(|e: MemoryEdge| e@).len() == w.len());
        }
        let mut nodes: Vec<MemoryItem> = Vec::new();
        let mut i: usize = 0;
        while i < path.node_ids.len()
            invariant
                self.wf(),
                self.graph@.has_cube(cube_id@),
                g == self.graph@.graph(cube_id@),
                path.node_ids@ == g.walk_nodes(s, w, q),
                path.node_ids@.len() == w.len() + 1,
                forall|k: int| 0 <= k <= w.len() ==> g.has_node(#[trigger] g.walk_nodes(s, w, q)[k]),
                i <= path.node_ids@.len(),
                nodes@.len() == i,
                forall|k: int|
                    0 <= k < i ==> item_matches(
                        #[trigger] nodes@[k],
                        g.node(g.walk_nodes(s, w, q)[k]),
                    ),
            decreases path.node_ids@.len() - i,
        {
            let id = path.node_ids[i];
            assert(g.has_node(g.walk_nodes(s, w, q)[i as int]));
            match self.graph.get_node(cube_id, id, true) {
                Some(node) => {
                    nodes.push(item_of(&node));
                },
                None => {
                    proof {
                        assert(false);
                    }
                },
            }
            i += 1;
        }
        let hops: u32 = path.edges.len() as u32;
        GraphPathData { hops, nodes, edges: path.edges }
    }

    /// One page of the neighbors of a memory. The cursor of the request is
    /// the `next_cursor` of the page before.
    pub fn graph_neighbors(&self, req: &GraphNeighborsRequest) -> (r: Result<
        GraphNeighborsData,
        MemCubeError,
    >)
        requires
            self.wf(),
        ensures
            ({
                let cube = target_cube(req.mem_cube_id, req.user_id);
                let g = self.graph@.graph(cube);
                let q = scope_of(req.relation, req.direction, req.include_deleted);
                match (parsed(req.memory_id@), cursor_of(req.cursor)) {
                    (None, _) => r matches Err(e) && e == MemCubeError::NotFound,
                    (Some(_), Err(_)) => r matches Err(e) && e == MemCubeError::InvalidArgument,
                    (Some(id), Ok(cursor)) => if !self.graph@.has_cube(cube) {
                        r matches Err(e) && e == MemCubeError::NotFound
                    } else if req.limit == 0 {
                        r matches Err(e) && e == MemCubeError::InvalidArgument
                    } else if !g.visible(id, req.include_deleted) {
                        r matches Err(e) && e == MemCubeError::NotFound
                    } else {
                        r matches Ok(data) && {
                            let page = g.page_items(id, q, cursor, req.limit as nat);
                            &&& crate::audit::opt_text(data.next_cursor) == cursor_text(
                                g.page_cursor(id, q, cursor, req.limit as nat),
                            )
                            &&& data.items@.len() == page.len()
                            &&& forall|k: int|
                                0 <= k < page.len() ==> (#[trigger] data.items@[k]).edge@
                                    == g.edges[page[k]] && item_matches(
                                    data.items@[k].memory,
                                    g.node(g.step(id, page[k], q).unwrap()),
                                )
                        }
                    },
                }
            }),
    {
        let cube_id = match &req.mem_cube_id {
            Some(c) => c.clone(),
            None => req.user_id.clone(),
        };
        let id = match parse_memory_id(req.memory_id.as_str()) {
            Some(id) => id,
            None => {
                return Err(MemCubeError::NotFound);
            },
        };
        let cursor = match &req.cursor {
            Some(t) => match parse_memory_id(t.as_str()) {
                Some(c) => Some(c),
                None => {
                    return Err(MemCubeError::InvalidArgument);
                },
            },
            None => None,
        };
        let relation = match &req.relation {
            Some(r) => Some(r.clone()),
            None => None,
        };
        let found = self.graph.neighbors(
            &cube_id,
            id,
            relation,
            req.direction,
            req.limit as usize,
            cursor,
            req.include_deleted,
        );
        let (neighbors, next) = match found {
            Ok(page) => page,
            Err(e) => {
                return Err(lift_error(e));
            },
        };
        let mut items: Vec<GraphNeighborItem> = Vec::new();
        let mut i: usize = 0;
        while i < neighbors.len()
            invariant
                i <= neighbors@.len(),
                items@.len() == i,
                forall|k: int|
                    0 <= k < i ==> (#[trigger] items@[k]).edge@ == neighbors@[k].edge@
                        && item_matches(items@[k].memory, neighbors@[k].node@),
            decreases neighbors@.len() - i,
        {
            items.push(
                GraphNeighborItem {
                    edge: neighbors[i].edge.duplicate(),
                    memory: item_of(&neighbors[i].node),
                },
            );
            i += 1;
        }
        let next_cursor = match next {
            Some(c) => Some(memory_id_text(c)),
            None => None,
        };
        Ok(GraphNeighborsData { items, next_cursor })
    }

    /// The shortest path between two memories, if one lies within the
    /// depth bound.
    pub fn graph_path(&self, req: &GraphPathRequest) -> (r: Result<
        Option<GraphPathData>,
        MemCubeError,
    >)
        requires
            self.wf(),
        ensures
            ({
                let cube = target_cube(req.mem_cube_id, req.user_id);
                let g = self.graph@.graph(cube);
                let q = scope_of(req.relation, req.direction, req.include_deleted);
                match (parsed(req.source_memory_id@), parsed(req.target_memory_id@)) {
                    (Some(s), Some(t)) => if !self.graph@.has_cube(cube) {
                        r matches Err(e) && e == MemCubeError::NotFound
                    } else if req.max_depth == 0 && s != t {
                        r matches Err(e) && e == MemCubeError::InvalidArgument
                    } else if !g.visible(s, req.include_deleted) || !g.visible(
                        t,
                        req.include_deleted,
                    ) {
                        r matches Err(e) && e == MemCubeError::NotFound
                    } else {
                        r matches Ok(found) && match (
                            found,
                            g.shortest_walk(s, t, q, req.max_depth as nat),
                        ) {
                            (Some(d), Some(w)) => shows_path(d, g, s, w, q),
                            (None, None) => g.farther_than(s, t, q, req.max_depth as nat),
                            _ => false,
                        }
                    },
                    _ => r matches Err(e) && e == MemCubeError::NotFound,
                }
            }),
    {
        let cube_id = match &req.mem_cube_id {
            Some(c) => c.clone(),
            None => req.user_id.clone(),
        };
        let s = match parse_memory_id(req.source_memory_id.as_str()) {
            Some(id) => id,
            None => {
                return Err(MemCubeError::NotFound);
            },
        };
        let t = match parse_memory_id(req.target_memory_id.as_str()) {
            Some(id) => id,
            None => {
                return Err(MemCubeError::NotFound);
            },
        };
        let relation = match &req.relation {
            Some(r) => Some(r.clone()),
            None => None,
        };
        let ghost q = scope_of(req.relation, req.direction, req.include_deleted);
        let ghost g = self.graph@.graph(cube_id@);
        let found = self.graph.shortest_path(
            &cube_id,
            s,
            t,
            relation,
            req.direction,
            req.max_depth,
            req.include_deleted,
        );
        match found {
            Err(e) => Err(lift_error(e)),
            Ok(None) => Ok(None),
            Ok(Some(path)) => {
                let ghost w = g.shortest_walk(s, t, q, req.max_depth as nat).unwrap();
                proof {
                    assert(g.is_best_walk(s, t, q, w) && w.len() <= req.max_depth);
                }
                Ok(Some(self.path_data(&cube_id, path, Ghost(w), Ghost(q), Ghost(s))))
            },
        }
    }

    /// Up to `top_k_paths` simple paths between two memories, first-ranked
    /// first.
    pub fn graph_paths(&self, req: &GraphPathsRequest) -> (r: Result<
        Vec<GraphPathData>,
        MemCubeError,
    >)
        requires
            self.wf(),
        ensures
            ({
                let cube = target_cube(req.mem_cube_id, req.user_id);
                let g = self.graph@.graph(cube);
                let q = scope_of(req.relation, req.direction, req.include_deleted);
                match (parsed(req.source_memory_id@), parsed(req.target_memory_id@)) {
                    (Some(s), Some(t)) => if !self.graph@.has_cube(cube) {
                        r matches Err(e) && e == MemCubeError::NotFound
                    } else if req.top_k_paths == 0 || (req.max_depth == 0 && s != t) {
                        r matches Err(e) && e == MemCubeError::InvalidArgument
                    } else if !g.visible(s, req.include_deleted) || !g.visible(
                        t,
                        req.include_deleted,
                    ) {
                        r matches Err(e) && e == MemCubeError::NotFound
                    } else {
                        r matches Ok(found) && {
                            let top = g.top_paths(
                                s,
                                t,
                                q,
                                req.max_depth as nat,
                                req.top_k_paths as nat,
                            );
                            &&& found@.len() == top.len()
                            &&& forall|i: int|
                                0 <= i < top.len() ==> shows_path(
                                    #[trigger] found@[i],
                                    g,
                                    s,
                                    top[i],
                                    q,
                                )
                        }
                    },
                    _ => r matches Err(e) && e == MemCubeError::NotFound,
                }
            }),
    {
        let cube_id = match &req.mem_cube_id {
            Some(c) => c.clone(),
            None => req.user_id.clone(),
        };
        let s = match parse_memory_id(req.source_memory_id.as_str()) {
            Some(id) => id,
            None => {
                return Err(MemCubeError::NotFound);
            },
        };
        let t = match parse_memory_id(req.target_memory_id.as_str()) {
            Some(id) => id,
            None => {
                return Err(MemCubeError::NotFound);
            },
        };
        let relation = match &req.relation {
            Some(r) => Some(r.clone()),
            None => None,
        };
        let ghost q = scope_of(req.relation, req.direction, req.include_deleted);
        let ghost g = self.graph@.graph(cube_id@);
        let found = self.graph.top_k_paths(
            &cube_id,
            s,
            t,
            relation,
            req.direction,
            req.max_depth,
            req.top_k_paths as usize,
            req.include_deleted,
        );
        let mut paths = match found {
            Ok(paths) => paths,
            Err(e) => {
                return Err(lift_error(e));
            },
        };
        let ghost top = g.top_paths(s, t, q, req.max_depth as nat, req.top_k_paths as nat);
        let ghost all = paths@;
        proof {
            crate::laws::law_top_paths_ordered(
                g,
                s,
                t,
                q,
                req.max_depth as nat,
                req.top_k_paths as nat,
            );
        }
        let mut out: Vec<GraphPathData> = Vec::new();
        let n = paths.len();
        // Paths are taken from the back and put in front-to-back order at
        // the end, so that each can be moved out of the vector.
        let mut i: usize = n;
        while i > 0
            invariant
                self.wf(),
                self.graph@.has_cube(cube_id@),
                g == self.graph@.graph(cube_id@),
                g.has_node(s),
                n == all.len(),
                all.len() == top.len(),
                i <= n,
                paths@ == all.take(i as int),
                forall|k: int| 0 <= k < top.len() ==> realizes(#[trigger] all[k], g, s, top[k], q),
                forall|k: int|
                    0 <= k < top.len() ==> g.is_walk(s, #[trigger] top[k], t, q) && top[k].len()
                        <= req.max_depth,
                out@.len() == n - i,
                forall|k: int|
                    0 <= k < out@.len() ==> shows_path(
                        #[trigger] out@[k],
                        g,
                        s,
                        top[n - 1 - k],
                        q,
                    ),
            decreases i,
        {
            i -= 1;
            let path = match paths.pop() {
                Some(p) => p,
                None => {
                    proof {
                        assert(false);
                    }
                    return Err(MemCubeError::Internal);
                },
            };
            proof {
                assert(path == all[i as int]);
                assert(paths@ =~= all.take(i as int));
                assert(g.is_walk(s, top[i as int], t, q));
            }
            let data = self.path_data(&cube_id, path, Ghost(top[i as int]), Ghost(q), Ghost(s));
            out.push(data);
        }
        let mut ordered: Vec<GraphPathData> = Vec::new();
        let mut j: usize = n;
        while j > 0
            invariant
                j <= n,
                n == top.len(),
                out@.len() == j,
                ordered@.len() == n - j,
                forall|k: int|
                    0 <= k < out@.len() ==> shows_path(
                        #[trigger] out@[k],
                        g,
                        s,
                        top[n - 1 - k],
                        q,
                    ),
                forall|k: int|
                    0 <= k < ordered@.len() ==> shows_path(#[trigger] ordered@[k], g, s, top[k], q),
            decreases j,
        {
            j -= 1;
            let ghost before = out@;
            match out.pop() {
                Some(d) => {
                    proof {
                        assert(d == before[j as int]);
                        assert(out@ =~= before.take(j as int));
                    }
                    ordered.push(d);
                },
                None => {
                    proof {
                        assert(false);
                    }
                },
            }
        }
        Ok(ordered)
    }
}

} // verus!
