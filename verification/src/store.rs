//! The graph store: one graph per cube, addressed by cube id, with ids for
//! nodes and edges drawn from one counter so that no id is used twice.

use vstd::prelude::*;
use crate::dto::{
    EdgeView, GraphDirection, GraphNeighbor, GraphPath, MemoryNode, NodeView};
use crate::error::GraphStoreError;
use crate::graph::{neighbors_post, CubeGraph, Traversal};
use crate::metadata::{MetaView, Metadata};
use crate::model::{GraphView, Scope};
use crate::shortest::shortest_path_post;
use crate::topk::top_k_post;

verus! {

/// What a store is, as a mathematical value: the graph of each cube that
/// exists, and the next id to hand out.
pub struct StoreView {
    pub cubes: Map<Seq<char>, GraphView>,
    pub next_id: u64,
}

/// The graph without nodes and edges.
pub open spec fn empty_graph() -> GraphView {
    GraphView { nodes: Seq::empty(), edges: Seq::empty() }
}

impl StoreView {
    /// Whether the cube exists.
    pub open spec fn has_cube(self, cube: Seq<char>) -> bool {
        self.cubes.dom().contains(cube)
    }

    /// The graph of a cube; the empty graph for a cube that does not exist.
    pub open spec fn graph(self, cube: Seq<char>) -> GraphView {
        if self.has_cube(cube) {
            self.cubes[cube]
        } else {
            empty_graph()
        }
    }

    /// Every graph is well-formed and uses only ids that were handed out.
    pub open spec fn wf(self) -> bool {
        forall|c: Seq<char>| #[trigger]
            self.has_cube(c) ==> self.cubes[c].wf() && self.cubes[c].ids_below(self.next_id)
    }

    /// The store with the graph of one cube set to `g`.
    pub open spec fn with_graph(self, cube: Seq<char>, g: GraphView) -> StoreView {
        StoreView { cubes: self.cubes.insert(cube, g), next_id: self.next_id }
    }

    /// The store after one more id has been handed out.
    pub open spec fn bumped(self) -> StoreView {
        StoreView { cubes: self.cubes, next_id: (self.next_id + 1) as u64 }
    }

    /// What creating a node makes of the store and what it returns.
    pub open spec fn create_node(self, cube: Seq<char>, content: Seq<char>, metadata: MetaView) -> (
        StoreView,
        Result<u64, GraphStoreError>,
    ) {
        if self.next_id == u64::MAX {
            (self, Err(GraphStoreError::Internal))
        } else {
            (
                self.with_graph(
                    cube,
                    self.graph(cube).with_node(
                        NodeView {
                            id: self.next_id,
                            memory: content,
                            metadata,
                            embedding: None,
                            tombstoned: false,
                        },
                    ),
                ).bumped(),
                Ok(self.next_id),
            )
        }
    }

    /// What creating an edge makes of the store and what it returns.
    pub open spec fn create_edge(
        self,
        cube: Seq<char>,
        from: u64,
        to: u64,
        relation: Seq<char>,
        metadata: MetaView,
    ) -> (StoreView, Result<u64, GraphStoreError>) {
        let g = self.graph(cube);
        if !self.has_cube(cube) || !g.has_node(from) || !g.has_node(to) {
            (self, Err(GraphStoreError::NotFound))
        } else if self.next_id == u64::MAX {
            (self, Err(GraphStoreError::Internal))
        } else {
            (
                self.with_graph(
                    cube,
                    g.with_edge(EdgeView { id: self.next_id, from, to, relation, metadata }),
                ).bumped(),
                Ok(self.next_id),
            )
        }
    }

    /// What tombstoning a node makes of the store and what it returns.
    pub open spec fn tombstone_node(self, cube: Seq<char>, id: u64) -> (
        StoreView,
        Result<(), GraphStoreError>,
    ) {
        let g = self.graph(cube);
        if !self.has_cube(cube) || !g.has_node(id) {
            (self, Err(GraphStoreError::NotFound))
        } else {
            (self.with_graph(cube, g.with_tombstone(id)), Ok(()))
        }
    }

    /// What deleting a node makes of the store and what it returns.
    pub open spec fn delete_node(self, cube: Seq<char>, id: u64) -> (
        StoreView,
        Result<(), GraphStoreError>,
    ) {
        let g = self.graph(cube);
        if !self.has_cube(cube) || !g.has_node(id) {
            (self, Err(GraphStoreError::NotFound))
        } else {
            (self.with_graph(cube, g.without_node(id)), Ok(()))
        }
    }

    /// What replacing parts of a node makes of the store and what it
    /// returns; `n` is what the node holds afterwards.
    pub open spec fn replace_node(self, cube: Seq<char>, id: u64, n: NodeView) -> (
        StoreView,
        Result<(), GraphStoreError>,
    ) {
        let g = self.graph(cube);
        if !self.has_cube(cube) || !g.has_node(id) {
            (self, Err(GraphStoreError::NotFound))
        } else {
            (self.with_graph(cube, g.with_node_replaced(id, n)), Ok(()))
        }
    }

    /// The node with the given id as a read sees it.
    pub open spec fn get_node(self, cube: Seq<char>, id: u64, include_deleted: bool) -> Option<
        NodeView,
    > {
        if self.has_cube(cube) && self.graph(cube).visible(id, include_deleted) {
            Some(self.graph(cube).node(id))
        } else {
            None
        }
    }
}

/// The map that a list of named values stands for.
pub open spec fn listed<G>(l: Seq<(Seq<char>, G)>) -> Map<Seq<char>, G> {
    Map::new(
        |c: Seq<char>| exists|i: int| 0 <= i < l.len() && (#[trigger] l[i]).0 == c,
        |c: Seq<char>| l[choose|i: int| 0 <= i < l.len() && (#[trigger] l[i]).0 == c].1,
    )
}

/// No name occurs twice in the list.
pub open spec fn names_distinct<G>(l: Seq<(Seq<char>, G)>) -> bool {
    forall|i: int, j: int| 0 <= i < j < l.len() ==> (#[trigger] l[i]).0 != (#[trigger] l[j]).0
}

/// An entry of a list without repeated names is what the map holds under
/// its name.
pub proof fn lemma_listed_at<G>(l: Seq<(Seq<char>, G)>, i: int)
    requires
        names_distinct(l),
        0 <= i < l.len(),
    ensures
        listed(l).dom().contains(l[i].0),
        listed(l)[l[i].0] == l[i].1,
{
    let c = l[i].0;
    let j = choose|j: int| 0 <= j < l.len() && (#[trigger] l[j]).0 == c;
    if j < i {
        assert(l[j].0 != l[i].0);
    }
    if i < j {
        assert(l[i].0 != l[j].0);
    }
}

/// Replacing the value of an entry is an insertion into the map.
pub proof fn lemma_listed_update<G>(l: Seq<(Seq<char>, G)>, i: int, g: G)
    requires
        names_distinct(l),
        0 <= i < l.len(),
    ensures
        names_distinct(l.update(i, (l[i].0, g))),
        listed(l.update(i, (l[i].0, g))) == listed(l).insert(l[i].0, g),
{
    let m = l.update(i, (l[i].0, g));
    assert forall|a: int, b: int| 0 <= a < b < m.len() implies (#[trigger] m[a]).0 != (
    #[trigger] m[b]).0 by {
        assert(l[a].0 != l[b].0);
    }
    assert forall|c: Seq<char>| listed(m).dom().contains(c) <==> listed(l).insert(
        l[i].0,
        g,
    ).dom().contains(c) by {
        if listed(m).dom().contains(c) {
            let j = choose|j: int| 0 <= j < m.len() && (#[trigger] m[j]).0 == c;
            assert(l[j].0 == c);
        }
        if listed(l).dom().contains(c) {
            let j = choose|j: int| 0 <= j < l.len() && (#[trigger] l[j]).0 == c;
            assert(m[j].0 == c);
        }
        if c == l[i].0 {
            assert(m[i].0 == c);
        }
    }
    assert forall|c: Seq<char>| listed(m).dom().contains(c) implies listed(m)[c] == listed(
        l,
    ).insert(l[i].0, g)[c] by {
        let j = choose|j: int| 0 <= j < m.len() && (#[trigger] m[j]).0 == c;
        lemma_listed_at(m, j);
        if j != i {
            assert(l[j].0 == c);
            lemma_listed_at(l, j);
        }
    }
    assert(listed(m) =~= listed(l).insert(l[i].0, g));
}

/// Appending an entry under a new name is an insertion into the map.
pub proof fn lemma_listed_push<G>(l: Seq<(Seq<char>, G)>, c: Seq<char>, g: G)
    requires
        names_distinct(l),
        !listed(l).dom().contains(c),
    ensures
        names_distinct(l.push((c, g))),
        listed(l.push((c, g))) == listed(l).insert(c, g),
{
    let m = l.push((c, g));
    assert forall|a: int, b: int| 0 <= a < b < m.len() implies (#[trigger] m[a]).0 != (
    #[trigger] m[b]).0 by {
        if b == l.len() {
            assert(l[a].0 != c);
        } else {
            assert(l[a].0 != l[b].0);
        }
    }
    assert forall|x: Seq<char>| listed(m).dom().contains(x) <==> listed(l).insert(
        c,
        g,
    ).dom().contains(x) by {
        if listed(m).dom().contains(x) {
            let j = choose|j: int| 0 <= j < m.len() && (#[trigger] m[j]).0 == x;
            if j < l.len() {
                assert(l[j].0 == x);
            }
        }
        if listed(l).dom().contains(x) {
            let j = choose|j: int| 0 <= j < l.len() && (#[trigger] l[j]).0 == x;
            assert(m[j].0 == x);
        }
        if x == c {
            assert(m[l.len() as int].0 == c);
        }
    }
    assert forall|x: Seq<char>| listed(m).dom().contains(x) implies listed(m)[x] == listed(
        l,
    ).insert(c, g)[x] by {
        let j = choose|j: int| 0 <= j < m.len() && (#[trigger] m[j]).0 == x;
        lemma_listed_at(m, j);
        if j < l.len() {
            assert(l[j].0 == x);
            lemma_listed_at(l, j);
        }
    }
    assert(listed(m) =~= listed(l).insert(c, g));
}

/// One cube of the store.
#[derive(Debug, Clone)]
pub struct CubeEntry {
    pub(crate) id: String,
    pub(crate) graph: CubeGraph,
}

/// The in-memory graph store.
#[derive(Debug, Clone)]
pub struct InMemoryGraphStore {
    pub(crate) cubes: Vec<CubeEntry>,
    pub(crate) next_id: u64,
}

impl View for InMemoryGraphStore {
    type V = StoreView;

    closed spec fn view(&self) -> StoreView {
        StoreView { cubes: listed(self.listing()), next_id: self.next_id }
    }
}

impl InMemoryGraphStore {
    /// The cubes in the order in which they were created.
    pub closed spec fn listing(&self) -> Seq<(Seq<char>, GraphView)> {
        self.cubes@.map_values(|e: CubeEntry| (e.id@, e.graph@))
    }

    /// The store's invariant: its model is well-formed and no cube id is
    /// held twice.
    pub open spec fn wf(&self) -> bool {
        self@.wf() && names_distinct(self.listing())
    }

    /// The model, entry by entry.
    pub(crate) proof fn lemma_view(&self)
        ensures
            self@.cubes == listed(self.listing()),
            self@.next_id == self.next_id,
            self.listing().len() == self.cubes@.len(),
            forall|i: int|
                0 <= i < self.cubes@.len() ==> #[trigger] self.listing()[i] == (
                    self.cubes@[i].id@,
                    self.cubes@[i].graph@,
                ),
    {
    }

    /// A store without cubes.
    pub fn new() -> (s: InMemoryGraphStore)
        ensures
            s.wf(),
            s@.cubes == Map::<Seq<char>, GraphView>::empty(),
            s@.next_id == 0,
    {
        let s = InMemoryGraphStore { cubes: Vec::new(), next_id: 0 };
        proof {
            assert(s@.cubes =~= Map::<Seq<char>, GraphView>::empty());
        }
        s
    }

    /// Position of the cube with the given id.
    pub(crate) fn find_cube(&self, cube_id: &String) -> (r: Option<usize>)
        requires
            self.wf(),
        ensures
            match r {
                Some(i) => i < self.cubes@.len() && self.cubes@[i as int].id@ == cube_id@
                    && self@.has_cube(cube_id@) && self@.cubes[cube_id@]
                    == self.cubes@[i as int].graph@ && self.cubes@[i as int].graph.wf(),
                None => !self@.has_cube(cube_id@),
            },
    {
        proof {
            self.lemma_view();
        }
        let mut i: usize = 0;
        while i < self.cubes.len()
            invariant
                i <= self.cubes@.len(),
                self.wf(),
                self.listing().len() == self.cubes@.len(),
                forall|k: int|
                    0 <= k < self.cubes@.len() ==> #[trigger] self.listing()[k] == (
                        self.cubes@[k].id@,
                        self.cubes@[k].graph@,
                    ),
                forall|k: int| 0 <= k < i ==> (#[trigger] self.listing()[k]).0 != cube_id@,
            decreases self.cubes@.len() - i,
        {
            if self.cubes[i].id == *cube_id {
                proof {
                    self.lemma_view();
                    assert(self.listing()[i as int].0 == cube_id@);
                    lemma_listed_at::<GraphView>(self.listing(), i as int);
                    assert(self@.cubes.dom().contains(cube_id@));
                    assert(self@.has_cube(cube_id@));
                    assert(self@.cubes[cube_id@] == self.cubes@[i as int].graph@);
                }
                return Some(i);
            }
            assert(self.listing()[i as int].0 != cube_id@);
            i += 1;
        }
        proof {
            self.lemma_view();
        }
        None
    }

    /// Whether a cube exists.
    pub fn has_cube(&self, cube_id: &String) -> (r: bool)
        requires
            self.wf(),
        ensures
            r == self@.has_cube(cube_id@),
    {
        self.find_cube(cube_id).is_some()
    }

    /// The graph of a cube, for queries on it.
    pub fn graph(&self, cube_id: &String) -> (r: Option<&CubeGraph>)
        requires
            self.wf(),
        ensures
            r.is_some() == self@.has_cube(cube_id@),
            r matches Some(g) ==> g.wf() && g@ == self@.cubes[cube_id@],
    {
        match self.find_cube(cube_id) {
            Some(at) => Some(&self.cubes[at].graph),
            None => None,
        }
    }

    /// Creates a node in a cube, and the cube itself if it does not exist
    /// yet. The node gets the next unused id and no embedding.
    pub fn create_node(&mut self, cube_id: &String, content: String, metadata: Metadata) -> (r:
        Result<u64, GraphStoreError>)
        requires
            old(self).wf(),
        ensures
            final(self).wf(),
            (final(self)@, r) == old(self)@.create_node(cube_id@, content@, metadata@),
    {
        if self.next_id == u64::MAX {
            return Err(GraphStoreError::Internal);
        }
        proof {
            self.lemma_view();
        }
        let id = self.next_id;
        let at = match self.find_cube(cube_id) {
            Some(i) => i,
            None => {
                let entry = CubeEntry { id: cube_id.clone(), graph: CubeGraph::new() };
                self.cubes.push(entry);
                proof {
                    self.lemma_view();
                    assert(self.listing() =~= old(self).listing().push((cube_id@, entry.graph@)));
                    lemma_listed_push(old(self).listing(), cube_id@, entry.graph@);
                    assert(entry.graph@.nodes =~= empty_graph().nodes);
                    assert(entry.graph@.edges =~= empty_graph().edges);
                }
                self.cubes.len() - 1
            },
        };
        let ghost mid = *self;
        let ghost base = old(self)@.graph(cube_id@);
        proof {
            mid.lemma_view();
            lemma_listed_at(mid.listing(), at as int);
            assert(mid.cubes@[at as int].graph@ == base);
            assert(base.wf() && base.ids_below(id));
        }
        let mut graph = CubeGraph::new();
        std::mem::swap(&mut graph, &mut self.cubes[at].graph);
        graph.create_node(id, content, metadata, None);
        std::mem::swap(&mut graph, &mut self.cubes[at].graph);
        self.next_id = id + 1;
        proof {
            self.lemma_view();
            let g1 = self.cubes@[at as int].graph@;
            assert(self.listing() =~= mid.listing().update(at as int, (cube_id@, g1)));
            lemma_listed_update(mid.listing(), at as int, g1);
            assert(self@.cubes =~= old(self)@.cubes.insert(cube_id@, g1));
            assert forall|c: Seq<char>| #[trigger] self@.has_cube(c) implies self@.cubes[c].wf()
                && self@.cubes[c].ids_below(self@.next_id) by {
                if c != cube_id@ {
                    assert(old(self)@.has_cube(c));
                }
            }
        }
        Ok(id)
    }

    /// After the graph of the cube at position `at` has been exchanged, the
    /// model differs in that cube alone.
    pub(crate) proof fn lemma_exchanged(before: &Self, after: &Self, at: int)
        requires
            before.wf(),
            0 <= at < before.cubes@.len(),
            after.cubes@.len() == before.cubes@.len(),
            after.cubes@[at].id@ == before.cubes@[at].id@,
            forall|k: int|
                0 <= k < before.cubes@.len() && k != at ==> #[trigger] after.cubes@[k]
                    == before.cubes@[k],
            after.next_id >= before.next_id,
            after.cubes@[at].graph@.wf(),
            after.cubes@[at].graph@.ids_below(after.next_id),
        ensures
            after.wf(),
            after@.cubes == before@.cubes.insert(
                before.cubes@[at].id@,
                after.cubes@[at].graph@,
            ),
            after@.next_id == after.next_id,
    {
        before.lemma_view();
        after.lemma_view();
        let c = before.cubes@[at].id@;
        let g1 = after.cubes@[at].graph@;
        assert(after.listing() =~= before.listing().update(at, (c, g1)));
        lemma_listed_update(before.listing(), at, g1);
        assert forall|x: Seq<char>| #[trigger] after@.has_cube(x) implies after@.cubes[x].wf()
            && after@.cubes[x].ids_below(after@.next_id) by {
            if x != c {
                assert(before@.has_cube(x));
            }
        }
    }

    /// Creates an edge between two nodes of a cube. The edge gets the next
    /// unused id.
    pub fn create_edge(
        &mut self,
        cube_id: &String,
        from: u64,
        to: u64,
        relation: String,
        metadata: Metadata,
    ) -> (r: Result<u64, GraphStoreError>)
        requires
            old(self).wf(),
        ensures
            final(self).wf(),
            (final(self)@, r) == old(self)@.create_edge(cube_id@, from, to, relation@, metadata@),
    {
        let at = match self.find_cube(cube_id) {
            Some(i) => i,
            None => {
                return Err(GraphStoreError::NotFound);
            },
        };
        if !self.cubes[at].graph.is_visible(from, true) || !self.cubes[at].graph.is_visible(
            to,
            true,
        ) {
            return Err(GraphStoreError::NotFound);
        }
        if self.next_id == u64::MAX {
            return Err(GraphStoreError::Internal);
        }
        proof {
            self.lemma_view();
        }
        let id = self.next_id;
        let mut graph = CubeGraph::new();
        std::mem::swap(&mut graph, &mut self.cubes[at].graph);
        let made = graph.create_edge(id, from, to, relation, metadata);
        std::mem::swap(&mut graph, &mut self.cubes[at].graph);
        self.next_id = id + 1;
        proof {
            Self::lemma_exchanged(old(self), self, at as int);
            assert(self@.cubes =~= old(self)@.cubes.insert(
                cube_id@,
                self.cubes@[at as int].graph@,
            ));
        }
        Ok(id)
    }

    /// The node with the given id in a cube; `None` if the cube or the node
    /// does not exist, or if the node is tombstoned and tombstoned nodes
    /// were not asked for.
    pub fn get_node(&self, cube_id: &String, node_id: u64, include_deleted: bool) -> (r: Option<
        MemoryNode,
    >)
        requires
            self.wf(),
        ensures
            match (r, self@.get_node(cube_id@, node_id, include_deleted)) {
                (Some(n), Some(v)) => n@ == v,
                (None, None) => true,
                _ => false,
            },
    {
        match self.find_cube(cube_id) {
            Some(at) => self.cubes[at].graph.get_node(node_id, include_deleted),
            None => None,
        }
    }

    /// Marks a node as tombstoned. Tombstoning a tombstoned node succeeds
    /// and changes nothing.
    pub fn tombstone_node(&mut self, cube_id: &String, node_id: u64) -> (r: Result<
        (),
        GraphStoreError,
    >)
        requires
            old(self).wf(),
        ensures
            final(self).wf(),
            (final(self)@, r) == old(self)@.tombstone_node(cube_id@, node_id),
    {
        let at = match self.find_cube(cube_id) {
            Some(i) => i,
            None => {
                return Err(GraphStoreError::NotFound);
            },
        };
        if !self.cubes[at].graph.is_visible(node_id, true) {
            return Err(GraphStoreError::NotFound);
        }
        proof {
            self.lemma_view();
        }
        let mut graph = CubeGraph::new();
        std::mem::swap(&mut graph, &mut self.cubes[at].graph);
        let ghost g0 = graph@;
        let done = graph.tombstone_node(node_id);
        proof {
            let g1 = graph@;
            assert forall|i: int| 0 <= i < g1.nodes.len() implies (#[trigger] g1.nodes[i]).id
                == g0.nodes[i].id by {}
        }
        std::mem::swap(&mut graph, &mut self.cubes[at].graph);
        proof {
            Self::lemma_exchanged(old(self), self, at as int);
            assert(done.is_ok());
        }
        Ok(())
    }

    /// Removes a node and every edge that touches it.
    pub fn delete_node(&mut self, cube_id: &String, node_id: u64) -> (r: Result<
        (),
        GraphStoreError,
    >)
        requires
            old(self).wf(),
        ensures
            final(self).wf(),
            (final(self)@, r) == old(self)@.delete_node(cube_id@, node_id),
    {
        let at = match self.find_cube(cube_id) {
            Some(i) => i,
            None => {
                return Err(GraphStoreError::NotFound);
            },
        };
        if !self.cubes[at].graph.is_visible(node_id, true) {
            return Err(GraphStoreError::NotFound);
        }
        proof {
            self.lemma_view();
        }
        let mut graph = CubeGraph::new();
        std::mem::swap(&mut graph, &mut self.cubes[at].graph);
        let done = graph.delete_node(node_id);
        std::mem::swap(&mut graph, &mut self.cubes[at].graph);
        proof {
            Self::lemma_exchanged(old(self), self, at as int);
            assert(done.is_ok());
        }
        Ok(())
    }

    /// Replaces parts of what a node holds: each argument that is given
    /// takes the place of what the node held. Its id and tombstone stay.
    pub fn update_node(
        &mut self,
        cube_id: &String,
        node_id: u64,
        content: Option<String>,
        metadata: Option<Metadata>,
        embedding: Option<Vec<u32>>,
    ) -> (r: Result<(), GraphStoreError>)
        requires
            old(self).wf(),
        ensures
            final(self).wf(),
            (final(self)@, r) == old(self)@.replace_node(
                cube_id@,
                node_id,
                updated_node(
                    old(self)@.graph(cube_id@).node(node_id),
                    content,
                    metadata,
                    embedding,
                ),
            ),
    {
        let at = match self.find_cube(cube_id) {
            Some(i) => i,
            None => {
                return Err(GraphStoreError::NotFound);
            },
        };
        let current = match self.cubes[at].graph.get_node(node_id, true) {
            Some(n) => n,
            None => {
                return Err(GraphStoreError::NotFound);
            },
        };
        proof {
            self.lemma_view();
        }
        let new_content = match content {
            Some(c) => c,
            None => current.memory,
        };
        let new_metadata = match metadata {
            Some(m) => m,
            None => current.metadata,
        };
        let new_embedding = match embedding {
            Some(e) => Some(e),
            None => current.embedding,
        };
        let mut graph = CubeGraph::new();
        std::mem::swap(&mut graph, &mut self.cubes[at].graph);
        let ghost g0 = graph@;
        let done = graph.replace_node(node_id, new_content, new_metadata, new_embedding);
        proof {
            let g1 = graph@;
            crate::model::lemma_node_pos(g0, g0.node_pos(node_id));
            assert forall|i: int| 0 <= i < g1.nodes.len() implies (#[trigger] g1.nodes[i]).id
                == g0.nodes[i].id by {}
            assert(g1.ids_below(self.next_id));
        }
        std::mem::swap(&mut graph, &mut self.cubes[at].graph);
        proof {
            Self::lemma_exchanged(old(self), self, at as int);
            assert(done.is_ok());
        }
        Ok(())
    }

    /// One page of a node's neighbors; see `CubeGraph::neighbors`.
    pub fn neighbors(
        &self,
        cube_id: &String,
        node_id: u64,
        relation: Option<String>,
        direction: GraphDirection,
        limit: usize,
        cursor: Option<u64>,
        include_deleted: bool,
    ) -> (r: Result<(Vec<GraphNeighbor>, Option<u64>), GraphStoreError>)
        requires
            self.wf(),
        ensures
            !self@.has_cube(cube_id@) ==> (r matches Err(e) && e == GraphStoreError::NotFound),
            self@.has_cube(cube_id@) ==> neighbors_post(
                self@.graph(cube_id@),
                node_id,
                scope_of(relation, direction, include_deleted),
                limit,
                cursor,
                r,
            ),
    {
        match self.find_cube(cube_id) {
            Some(at) => {
                let q = Traversal { relation, direction, include_deleted };
                self.cubes[at].graph.neighbors(node_id, &q, limit, cursor)
            },
            None => Err(GraphStoreError::NotFound),
        }
    }

    /// The shortest path between two nodes of a cube; see
    /// `CubeGraph::shortest_path`.
    pub fn shortest_path(
        &self,
        cube_id: &String,
        source: u64,
        target: u64,
        relation: Option<String>,
        direction: GraphDirection,
        max_depth: u32,
        include_deleted: bool,
    ) -> (r: Result<Option<GraphPath>, GraphStoreError>)
        requires
            self.wf(),
        ensures
            !self@.has_cube(cube_id@) ==> (r matches Err(e) && e == GraphStoreError::NotFound),
            self@.has_cube(cube_id@) ==> shortest_path_post(
                self@.graph(cube_id@),
                source,
                target,
                scope_of(relation, direction, include_deleted),
                max_depth,
                r,
            ),
    {
        match self.find_cube(cube_id) {
            Some(at) => {
                let q = Traversal { relation, direction, include_deleted };
                self.cubes[at].graph.shortest_path(source, target, &q, max_depth)
            },
            None => Err(GraphStoreError::NotFound),
        }
    }

    /// The `k` first-ranked simple paths between two nodes of a cube; see
    /// `CubeGraph::top_k_paths`.
    pub fn top_k_paths(
        &self,
        cube_id: &String,
        source: u64,
        target: u64,
        relation: Option<String>,
        direction: GraphDirection,
        max_depth: u32,
        k: usize,
        include_deleted: bool,
    ) -> (r: Result<Vec<GraphPath>, GraphStoreError>)
        requires
            self.wf(),
        ensures
            !self@.has_cube(cube_id@) ==> (r matches Err(e) && e == GraphStoreError::NotFound),
            self@.has_cube(cube_id@) ==> top_k_post(
                self@.graph(cube_id@),
                source,
                target,
                scope_of(relation, direction, include_deleted),
                max_depth,
                k,
                r,
            ),
    {
        match self.find_cube(cube_id) {
            Some(at) => {
                let q = Traversal { relation, direction, include_deleted };
                self.cubes[at].graph.top_k_paths(source, target, &q, max_depth, k)
            },
            None => Err(GraphStoreError::NotFound),
        }
    }
}

/// The scope that the arguments of a query describe.
pub open spec fn scope_of(
    relation: Option<String>,
    direction: GraphDirection,
    include_deleted: bool,
) -> Scope {
    Scope {
        relation: match relation {
            Some(r) => Some(r@),
            None => None,
        },
        direction,
        include_deleted,
    }
}

/// What a node holds after an update: each part that is given replaces the
/// part that was there.
pub open spec fn updated_node(
    n: NodeView,
    content: Option<String>,
    metadata: Option<Metadata>,
    embedding: Option<Vec<u32>>,
) -> NodeView {
    NodeView {
        id: n.id,
        memory: match content {
            Some(c) => c@,
            None => n.memory,
        },
        metadata: match metadata {
            Some(m) => m@,
            None => n.metadata,
        },
        embedding: match embedding {
            Some(e) => Some(e@),
            None => n.embedding,
        },
        tombstoned: n.tombstoned,
    }
}

} // verus!
