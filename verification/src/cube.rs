//! The memory cube: one logical add, search, update, forget or get, carried
//! out on the graph store. The embedder and the vector index are services
//! of the caller: each operation is split at the point where one of them is
//! needed, into a step that says what to ask and a step that takes the
//! answer.

use vstd::prelude::*;
use vstd::string::*;
use crate::dto::{
    resolved_cube_ids, stored_content, texts, AddMemoryRelation, ApiAddRequest, ApiSearchRequest,
    ForgetMemoryRequest, GetMemoryRequest, GetMemoryResponse, GraphDirection, MemoryBucket,
    MemoryItem, MemoryNode, NodeView, SearchResponse, SearchResponseData, UpdateMemoryRequest,
};
use crate::error::GraphStoreError;
use crate::ids::{decimal, memory_id_text, parse_memory_id, parsed};
use crate::metadata::{meta_merge, MetaView, Metadata};
use crate::store::{InMemoryGraphStore, StoreView};

verus! {

/// Why a memory-cube operation failed.
#[derive(Debug, Clone)]
pub enum MemCubeError {
    /// The memory or the cube does not exist.
    NotFound,
    /// The request is malformed: no content, or a bound of zero.
    InvalidArgument,
    /// The embedder or the vector index failed; the text is theirs.
    Upstream(String),
    /// The store could not carry out the operation.
    Internal,
}

/// The cube-level error that a store error becomes.
pub open spec fn lifted(e: GraphStoreError) -> MemCubeError {
    match e {
        GraphStoreError::NotFound => MemCubeError::NotFound,
        GraphStoreError::InvalidArgument => MemCubeError::InvalidArgument,
        GraphStoreError::Internal => MemCubeError::Internal,
    }
}

/// The cube-level error that a store error becomes.
pub fn lift_error(e: GraphStoreError) -> (r: MemCubeError)
    ensures
        r == lifted(e),
{
    match e {
        GraphStoreError::NotFound => MemCubeError::NotFound,
        GraphStoreError::InvalidArgument => MemCubeError::InvalidArgument,
        GraphStoreError::Internal => MemCubeError::Internal,
    }
}

impl MemCubeError {
    /// A human-readable description.
    pub fn message(&self) -> (s: String)
        ensures
            s@ == match *self {
                MemCubeError::NotFound => "not found"@,
                MemCubeError::InvalidArgument => "invalid argument"@,
                MemCubeError::Upstream(m) => "upstream error: "@ + m@,
                MemCubeError::Internal => "internal error"@,
            },
    {
        match self {
            MemCubeError::NotFound => "not found".to_owned(),
            MemCubeError::InvalidArgument => "invalid argument".to_owned(),
            MemCubeError::Upstream(m) => {
                let mut s = "upstream error: ".to_owned();
                s.append(m.as_str());
                s
            },
            MemCubeError::Internal => "internal error".to_owned(),
        }
    }
}

/// What an add will store and where, decided before the embedder is asked.
#[derive(Debug, Clone)]
pub struct AddPlan {
    pub cube_id: String,
    /// The content to store, which is also the text to embed.
    pub content: String,
}

/// A relation of an add that could not be written, by its position in the
/// request.
#[derive(Debug, Clone, Copy, PartialEq, Eq, Hash, Structural)]
pub struct RelationFailure {
    pub index: usize,
    pub error: GraphStoreError,
}

/// What an add has done: the new memory, and the relations that failed.
#[derive(Debug, Clone)]
pub struct AddOutcome {
    pub memory_id: u64,
    pub cube_id: String,
    pub relation_failures: Vec<RelationFailure>,
}

/// What writing one relation of a new memory makes of the store, and the
/// error if it could not be written. `Both` writes the edge from the new
/// memory first and the edge to it second.
pub open spec fn relate_one(s: StoreView, cube: Seq<char>, new_id: u64, rel: AddMemoryRelation) -> (
    StoreView,
    Option<GraphStoreError>,
) {
    match parsed(rel.memory_id@) {
        None => (s, Some(GraphStoreError::NotFound)),
        Some(other) => {
            let out = s.create_edge(cube, new_id, other, rel.relation@, rel.metadata@);
            let back = s.create_edge(cube, other, new_id, rel.relation@, rel.metadata@);
            match rel.direction {
                GraphDirection::Outbound => (out.0, failure(out.1)),
                GraphDirection::Inbound => (back.0, failure(back.1)),
                GraphDirection::Both => match out.1 {
                    Err(e) => (out.0, Some(e)),
                    Ok(_) => {
                        let second = out.0.create_edge(
                            cube,
                            other,
                            new_id,
                            rel.relation@,
                            rel.metadata@,
                        );
                        (second.0, failure(second.1))
                    },
                },
            }
        },
    }
}

/// The error of a result, if it is one.
pub open spec fn failure(r: Result<u64, GraphStoreError>) -> Option<GraphStoreError> {
    match r {
        Ok(_) => None,
        Err(e) => Some(e),
    }
}

/// What writing the first `n` relations makes of the store, and the
/// failures among them.
pub open spec fn relate_all(
    s: StoreView,
    cube: Seq<char>,
    new_id: u64,
    rels: Seq<AddMemoryRelation>,
    n: int,
) -> (StoreView, Seq<RelationFailure>)
    decreases n,
{
    if n <= 0 {
        (s, Seq::empty())
    } else {
        let before = relate_all(s, cube, new_id, rels, n - 1);
        let step = relate_one(before.0, cube, new_id, rels[n - 1]);
        (
            step.0,
            match step.1 {
                Some(e) => before.1.push(RelationFailure { index: (n - 1) as usize, error: e }),
                None => before.1,
            },
        )
    }
}

/// The store with the embedding of a node set.
pub open spec fn with_embedding(s: StoreView, cube: Seq<char>, id: u64, embedding: Seq<u32>) -> StoreView {
    s.replace_node(
        cube,
        id,
        NodeView { embedding: Some(embedding), ..s.graph(cube).node(id) },
    ).0
}

/// What an add makes of the store once the embedding is there, and what
/// it returns: the new node's id and the relations that failed. A store
/// that cannot create the node is left as it was.
pub open spec fn add_memory(
    s: StoreView,
    cube: Seq<char>,
    content: Seq<char>,
    metadata: MetaView,
    embedding: Seq<u32>,
    rels: Seq<AddMemoryRelation>,
) -> (StoreView, Result<(u64, Seq<RelationFailure>), GraphStoreError>) {
    let created = s.create_node(cube, content, metadata);
    match created.1 {
        Err(e) => (s, Err(e)),
        Ok(id) => {
            let embedded = with_embedding(created.0, cube, id, embedding);
            let related = relate_all(embedded, cube, id, rels, rels.len() as int);
            (related.0, Ok((id, related.1)))
        },
    }
}

/// The relations of a request.
pub open spec fn relations_of(req: ApiAddRequest) -> Seq<AddMemoryRelation> {
    match req.relations {
        Some(v) => v@,
        None => Seq::empty(),
    }
}

/// The metadata of a request.
pub open spec fn info_of(req: ApiAddRequest) -> MetaView {
    match req.info {
        Some(m) => m@,
        None => Seq::empty(),
    }
}

/// The memory cube over the in-memory graph store.
#[derive(Debug, Clone)]
pub struct NaiveMemCube {
    pub graph: InMemoryGraphStore,
}

impl NaiveMemCube {
    /// The store is well-formed.
    pub open spec fn wf(&self) -> bool {
        self.graph.wf()
    }

    /// A cube over an empty store.
    pub fn new() -> (c: NaiveMemCube)
        ensures
            c.wf(),
            c.graph@.cubes == Map::<Seq<char>, crate::model::GraphView>::empty(),
            c.graph@.next_id == 0,
    {
        NaiveMemCube { graph: InMemoryGraphStore::new() }
    }

    /// First step of an add: what to store and where. The content is the
    /// request's messages as lines, else its raw content; a request with
    /// neither, or with empty content, is refused. The cube is the first
    /// one that the request may write to. The caller embeds the content
    /// and goes on with `commit_add`.
    pub fn plan_add(req: &ApiAddRequest) -> (r: Result<AddPlan, MemCubeError>)
        ensures
            match stored_content(*req) {
                Some(c) => if c.len() > 0 {
                    r matches Ok(plan) && plan.content@ == c && plan.cube_id@ == resolved_cube_ids(
                        req.writable_cube_ids,
                        req.mem_cube_id,
                        req.user_id,
                    )[0]
                } else {
                    r matches Err(e) && e == MemCubeError::InvalidArgument
                },
                None => r matches Err(e) && e == MemCubeError::InvalidArgument,
            },
    {
        let content = match req.content_to_store() {
            Some(c) => c,
            None => {
                return Err(MemCubeError::InvalidArgument);
            },
        };
        if content.as_str().unicode_len() == 0 {
            return Err(MemCubeError::InvalidArgument);
        }
        let cubes = req.writable_cube_ids();
        let cube_id = cubes[0].clone();
        proof {
            assert(crate::dto::texts(cubes@)[0] == cubes@[0]@);
        }
        Ok(AddPlan { cube_id, content })
    }

    /// Writes one relation of a new memory.
    fn relate(&mut self, cube_id: &String, new_id: u64, rel: &AddMemoryRelation) -> (r: Option<
        GraphStoreError,
    >)
        requires
            old(self).wf(),
        ensures
            final(self).wf(),
            (final(self).graph@, r) == relate_one(old(self).graph@, cube_id@, new_id, *rel),
    {
        let other = match parse_memory_id(rel.memory_id.as_str()) {
            Some(id) => id,
            None => {
                return Some(GraphStoreError::NotFound);
            },
        };
        match rel.direction {
            GraphDirection::Outbound => {
                match self.graph.create_edge(
                    cube_id,
                    new_id,
                    other,
                    rel.relation.clone(),
                    rel.metadata.duplicate(),
                ) {
                    Ok(_) => None,
                    Err(e) => Some(e),
                }
            },
            GraphDirection::Inbound => {
                match self.graph.create_edge(
                    cube_id,
                    other,
                    new_id,
                    rel.relation.clone(),
                    rel.metadata.duplicate(),
                ) {
                    Ok(_) => None,
                    Err(e) => Some(e),
                }
            },
            GraphDirection::Both => {
                match self.graph.create_edge(
                    cube_id,
                    new_id,
                    other,
                    rel.relation.clone(),
                    rel.metadata.duplicate(),
                ) {
                    Ok(_) => {
                        match self.graph.create_edge(
                            cube_id,
                            other,
                            new_id,
                            rel.relation.clone(),
                            rel.metadata.duplicate(),
                        ) {
                            Ok(_) => None,
                            Err(e) => Some(e),
                        }
                    },
                    Err(e) => Some(e),
                }
            },
        }
    }

    /// Last step of an add, once the vector index has answered: a failure
    /// of the index is reported as the add's error; the node stays.
    pub fn finish_add(outcome: AddOutcome, indexed: Result<(), String>) -> (r: Result<
        AddOutcome,
        MemCubeError,
    >)
        ensures
            match indexed {
                Ok(_) => r == Ok::<AddOutcome, MemCubeError>(outcome),
                Err(msg) => r matches Err(MemCubeError::Upstream(m)) && m@ == msg@,
            },
    {
        match indexed {
            Ok(_) => Ok(outcome),
            Err(msg) => Err(MemCubeError::Upstream(msg)),
        }
    }

    /// First step of a search: which cubes to read and how many results to
    /// ask for. An empty query or a result count of zero is refused. The
    /// caller embeds the query, asks the vector index, and goes on with
    /// `finish_search`.
    pub fn plan_search(req: &ApiSearchRequest) -> (r: Result<SearchPlan, MemCubeError>)
        ensures
            req.query@.len() == 0 || req.top_k == 0 ==> (r matches Err(e) && e
                == MemCubeError::InvalidArgument),
            req.query@.len() > 0 && req.top_k > 0 ==> (r matches Ok(plan) && plan.query@
                == req.query@ && plan.top_k == req.top_k && texts(plan.cube_ids@)
                == resolved_cube_ids(req.readable_cube_ids, req.mem_cube_id, req.user_id)),
    {
        if req.query.as_str().unicode_len() == 0 || req.top_k == 0 {
            return Err(MemCubeError::InvalidArgument);
        }
        Ok(
            SearchPlan {
                cube_ids: req.readable_cube_ids(),
                query: req.query.clone(),
                top_k: req.top_k,
            },
        )
    }

    /// The node with the given id in the first cube that shows it.
    fn find_visible(&self, cube_ids: &Vec<String>, id: u64) -> (r: Option<MemoryNode>)
        requires
            self.wf(),
        ensures
            match (r, find_in(self.graph@, texts(cube_ids@), id, cube_ids@.len() as int)) {
                (Some(n), Some(v)) => n@ == v,
                (None, None) => true,
                _ => false,
            },
    {
        let mut i: usize = 0;
        while i < cube_ids.len()
            invariant
                self.wf(),
                i <= cube_ids@.len(),
                find_in(self.graph@, texts(cube_ids@), id, i as int).is_none(),
            decreases cube_ids@.len() - i,
        {
            assert(texts(cube_ids@)[i as int] == cube_ids@[i as int]@);
            match self.graph.get_node(&cube_ids[i], id, false) {
                Some(n) => {
                    proof {
                        lemma_find_in_stays(
                            self.graph@,
                            texts(cube_ids@),
                            id,
                            i + 1,
                            cube_ids@.len() as int,
                        );
                    }
                    return Some(n);
                },
                None => {},
            }
            i += 1;
        }
        None
    }
}

/// The memory item that stands for a node in responses.
pub open spec fn item_matches(item: MemoryItem, n: NodeView) -> bool {
    &&& item.id@ == decimal(n.id as nat)
    &&& item.memory@ == n.memory
    &&& item.metadata@ == n.metadata
}

/// The memory item that stands for a node in responses.
pub fn item_of(node: &MemoryNode) -> (item: MemoryItem)
    ensures
        item_matches(item, node@),
{
    MemoryItem {
        id: memory_id_text(node.id),
        memory: node.memory.clone(),
        metadata: node.metadata.duplicate(),
    }
}


/// One result of the vector index: the id of the item, as text, and whether
/// its score reaches the similarity floor of the search. Hits come in the
/// order in which the index ranks them.
#[derive(Debug, Clone)]
pub struct VecSearchHit {
    pub id: String,
    pub above_floor: bool,
}

/// What a search will ask the vector index, decided before the embedder is
/// asked.
#[derive(Debug, Clone)]
pub struct SearchPlan {
    pub cube_ids: Vec<String>,
    pub query: String,
    pub top_k: u32,
}

/// The node with the given id in the first of the first `n` cubes that
/// shows it.
pub open spec fn find_in(s: StoreView, cubes: Seq<Seq<char>>, id: u64, n: int) -> Option<NodeView>
    decreases n,
{
    if n <= 0 {
        None
    } else {
        match find_in(s, cubes, id, n - 1) {
            Some(v) => Some(v),
            None => s.get_node(cubes[n - 1], id, false),
        }
    }
}

/// A node that is found among the first cubes is found among more cubes.
pub proof fn lemma_find_in_stays(s: StoreView, cubes: Seq<Seq<char>>, id: u64, n: int, m: int)
    requires
        n <= m,
        find_in(s, cubes, id, n).is_some(),
    ensures
        find_in(s, cubes, id, m) == find_in(s, cubes, id, n),
    decreases m - n,
{
    if n < m {
        lemma_find_in_stays(s, cubes, id, n, m - 1);
    }
}

/// The node that a hit stands for: none if the hit lies below the floor,
/// if its id is no id, or if no cube shows the node.
pub open spec fn hit_node(s: StoreView, cubes: Seq<Seq<char>>, hit: VecSearchHit) -> Option<
    NodeView,
> {
    if !hit.above_floor {
        None
    } else {
        match parsed(hit.id@) {
            None => None,
            Some(id) => find_in(s, cubes, id, cubes.len() as int),
        }
    }
}

/// The nodes that the first `n` hits select: in rank order, at most
/// `top_k`.
pub open spec fn selected(
    s: StoreView,
    cubes: Seq<Seq<char>>,
    hits: Seq<VecSearchHit>,
    top_k: nat,
    n: int,
) -> Seq<NodeView>
    decreases n,
{
    if n <= 0 {
        Seq::empty()
    } else {
        let before = selected(s, cubes, hits, top_k, n - 1);
        if before.len() >= top_k {
            before
        } else {
            match hit_node(s, cubes, hits[n - 1]) {
                Some(v) => before.push(v),
                None => before,
            }
        }
    }
}

/// The items stand for the nodes, one for one.
pub open spec fn items_match(items: Seq<MemoryItem>, nodes: Seq<NodeView>) -> bool {
    &&& items.len() == nodes.len()
    &&& forall|i: int| 0 <= i < nodes.len() ==> item_matches(#[trigger] items[i], nodes[i])
}

/// The cube that a request about one memory addresses: the cube it names,
/// else the cube of its user.
pub open spec fn target_cube(mem_cube_id: Option<String>, user_id: String) -> Seq<char> {
    match mem_cube_id {
        Some(c) => c@,
        None => user_id@,
    }
}

/// The cube that a request about one memory addresses.
fn resolve_cube(mem_cube_id: &Option<String>, user_id: &String) -> (r: String)
    ensures
        r@ == target_cube(*mem_cube_id, *user_id),
{
    match mem_cube_id {
        Some(c) => c.clone(),
        None => user_id.clone(),
    }
}

/// What an update will do, decided before the embedder is asked.
#[derive(Debug, Clone)]
pub struct UpdatePlan {
    pub cube_id: String,
    pub memory_id: u64,
    /// The new content, if it differs from the old: the text to embed.
    pub reembed: Option<String>,
}

/// What an update has done.
#[derive(Debug, Clone)]
pub struct UpdateOutcome {
    pub memory_id: u64,
    pub cube_id: String,
    /// Whether the embedding was replaced, so that the vector index needs
    /// the new one.
    pub reembedded: bool,
}

/// What a forget has done.
#[derive(Debug, Clone)]
pub struct ForgetOutcome {
    pub memory_id: u64,
    pub cube_id: String,
    /// Whether the vector of the memory is to be removed from the index:
    /// after a hard delete, not after a tombstone.
    pub remove_vector: bool,
}

/// What a node holds after an update.
pub open spec fn node_after_update(
    n: NodeView,
    reembed: Option<Seq<char>>,
    patch: Option<MetaView>,
    bits: Seq<u32>,
) -> NodeView {
    NodeView {
        id: n.id,
        memory: match reembed {
            Some(t) => t,
            None => n.memory,
        },
        metadata: match patch {
            Some(p) => meta_merge(n.metadata, p),
            None => n.metadata,
        },
        embedding: match reembed {
            Some(_) => Some(bits),
            None => n.embedding,
        },
        tombstoned: n.tombstoned,
    }
}

/// What the second step of an add makes of the store and what it
/// returns. A failure of the embedder fails the add and leaves the store
/// as it was; else the store and the outcome are those of `add_memory`.
pub open spec fn commit_add_post(
    before: StoreView,
    plan: AddPlan,
    req: ApiAddRequest,
    embedding: Result<Vec<u32>, String>,
    after: StoreView,
    r: Result<AddOutcome, MemCubeError>,
) -> bool {
    match embedding {
        Err(msg) => after == before && (r matches Err(
            MemCubeError::Upstream(m),
        ) && m@ == msg@),
        Ok(bits) => {
            let spec = add_memory(
                before,
                plan.cube_id@,
                plan.content@,
                info_of(req),
                bits@,
                relations_of(req),
            );
            &&& after == spec.0
            &&& match (r, spec.1) {
                (Ok(outcome), Ok((id, failures))) => outcome.memory_id == id
                    && outcome.cube_id@ == plan.cube_id@ && outcome.relation_failures@
                    == failures,
                (Err(e), Err(f)) => e == lifted(f),
                _ => false,
            }
        },
    }
}

/// What the second step of a search returns. A failure of the embedder or
/// the index fails the search; else the response holds, in one bucket, the
/// memories of the nodes that the hits select.
pub open spec fn finish_search_post(
    s: StoreView,
    plan: SearchPlan,
    hits: Result<Vec<VecSearchHit>, String>,
    r: Result<SearchResponse, MemCubeError>,
) -> bool {
    match hits {
        Err(msg) => r matches Err(MemCubeError::Upstream(m)) && m@ == msg@,
        Ok(found) => r matches Ok(resp) && resp.code == 200 && resp.message@ == "Success"@
            && (resp.data matches Some(data) && data.pref_mem@.len() == 0
            && data.text_mem@.len() == 1 && items_match(
            data.text_mem@[0].memories@,
            selected(
                s,
                texts(plan.cube_ids@),
                found@,
                plan.top_k as nat,
                found@.len() as int,
            ),
        ) && data.text_mem@[0].total_nodes == Some(data.text_mem@[0].memories@.len() as usize)),
    }
}

/// What the first step of an update returns: the memory to update, and
/// its new content as the text to embed exactly if the content changes.
pub open spec fn plan_update_post(
    s: StoreView,
    req: UpdateMemoryRequest,
    r: Result<UpdatePlan, MemCubeError>,
) -> bool {
    ({
        let cube = target_cube(req.mem_cube_id, req.user_id);
        match parsed(req.memory_id@) {
            None => r matches Err(e) && e == MemCubeError::NotFound,
            Some(id) => match s.get_node(cube, id, false) {
                None => r matches Err(e) && e == MemCubeError::NotFound,
                Some(n) => r matches Ok(plan) && plan.memory_id == id && plan.cube_id@
                    == cube && match (plan.reembed, req.memory) {
                    (Some(t), Some(m)) => t@ == m@ && m@ != n.memory,
                    (None, Some(m)) => m@ == n.memory,
                    (None, None) => true,
                    _ => false,
                },
            },
        }
    })
}

/// What the second step of an update makes of the store and what it
/// returns. Where a new embedding is needed and there is none, the update
/// fails and the store stays as it was.
pub open spec fn commit_update_post(
    before: StoreView,
    plan: UpdatePlan,
    patch: Option<Metadata>,
    embedding: Option<Result<Vec<u32>, String>>,
    after: StoreView,
    r: Result<UpdateOutcome, MemCubeError>,
) -> bool {
    ({
        let s = before;
        let cube = plan.cube_id@;
        let id = plan.memory_id;
        let needs = plan.reembed.is_some();
        if needs && !(embedding matches Some(Ok(_))) {
            after == s && (r matches Err(MemCubeError::Upstream(m)) && m@
                == match embedding {
                Some(Err(msg)) => msg@,
                _ => "no embedding for the new content"@,
            })
        } else if s.get_node(cube, id, true).is_none() {
            after == s && (r matches Err(e) && e == MemCubeError::NotFound)
        } else {
            let bits = match embedding {
                Some(Ok(b)) => b@,
                _ => Seq::empty(),
            };
            &&& after == s.replace_node(
                cube,
                id,
                node_after_update(
                    s.graph(cube).node(id),
                    match plan.reembed {
                        Some(t) => Some(t@),
                        None => None,
                    },
                    match patch {
                        Some(p) => Some(p@),
                        None => None,
                    },
                    bits,
                ),
            ).0
            &&& r matches Ok(outcome) && outcome.memory_id == id && outcome.cube_id@
                == cube && outcome.reembedded == needs
        }
    })
}

/// What a forget makes of the store and what it returns: the node is
/// tombstoned or deleted as the request asks.
pub open spec fn forget_post(
    before: StoreView,
    req: ForgetMemoryRequest,
    after: StoreView,
    r: Result<ForgetOutcome, MemCubeError>,
) -> bool {
    ({
        let s = before;
        let cube = target_cube(req.mem_cube_id, req.user_id);
        match parsed(req.memory_id@) {
            None => after == s && (r matches Err(e) && e
                == MemCubeError::NotFound),
            Some(id) => {
                let spec = if req.soft {
                    s.tombstone_node(cube, id)
                } else {
                    s.delete_node(cube, id)
                };
                &&& after == spec.0
                &&& match (r, spec.1) {
                    (Ok(outcome), Ok(_)) => outcome.memory_id == id && outcome.cube_id@
                        == cube && outcome.remove_vector == !req.soft,
                    (Err(e), Err(f)) => e == lifted(f),
                    _ => false,
                }
            },
        }
    })
}

/// What a get returns: the memory of the node as a read of the store sees
/// it, or not found.
pub open spec fn get_post(
    s: StoreView,
    req: GetMemoryRequest,
    r: Result<GetMemoryResponse, MemCubeError>,
) -> bool {
    ({
        let cube = target_cube(req.mem_cube_id, req.user_id);
        let found = match parsed(req.memory_id@) {
            None => None,
            Some(id) => s.get_node(cube, id, req.include_deleted),
        };
        match found {
            None => r matches Err(e) && e == MemCubeError::NotFound,
            Some(n) => r matches Ok(resp) && resp.code == 200 && resp.message@
                == "Success"@ && (resp.data matches Some(item) && item_matches(item, n)),
        }
    })
}

/// What a memory cube can do once the answers of its collaborators are
/// there. The memory cube and the entity-aware cube both offer it, under
/// one contract.
pub trait MemCube {
    /// The graph store that the cube works on, as a mathematical value.
    spec fn store(&self) -> StoreView;

    /// The cube's invariant.
    spec fn valid(&self) -> bool;

    /// Second step of an add, once the embedder has answered. A failure of
    /// the embedder fails the add and leaves the store as it was. Else the
    /// node is created with its content, metadata and embedding, and the
    /// relations of the request are written one by one; a relation that
    /// cannot be written is reported and does not undo the add. The caller
    /// then puts the embedding into the vector index under the new id.
    fn commit_add(
        &mut self,
        plan: &AddPlan,
        req: &ApiAddRequest,
        embedding: Result<Vec<u32>, String>,
    ) -> (r: Result<AddOutcome, MemCubeError>)
        requires
            old(self).valid(),
        ensures
            final(self).valid(),
            commit_add_post(old(self).store(), *plan, *req, embedding, final(self).store(), r),
    ;

    /// Second step of a search, once the vector index has answered. A
    /// failure of the embedder or the index fails the search. Else the hits
    /// are taken in rank order; a hit counts if it reaches the similarity
    /// floor and one of the cubes shows its node, tombstoned nodes being
    /// skipped; the first `top_k` that count are the result.
    fn finish_search(&self, plan: &SearchPlan, hits: Result<Vec<VecSearchHit>, String>) -> (r:
        Result<SearchResponse, MemCubeError>)
        requires
            self.valid(),
        ensures
            finish_search_post(self.store(), *plan, hits, r),
    ;

    /// First step of an update: which memory, and whether its content
    /// changes, in which case the caller embeds the new content before
    /// `commit_update`. A metadata patch alone asks for no embedding.
    fn plan_update(&self, req: &UpdateMemoryRequest) -> (r: Result<UpdatePlan, MemCubeError>)
        requires
            self.valid(),
        ensures
            plan_update_post(self.store(), *req, r),
    ;

    /// Second step of an update. Where the plan asks for a new embedding
    /// and the embedder has failed or was not asked, the update fails and
    /// the store stays as it was. Else the content, if it changes, is
    /// replaced together with the embedding, and the metadata patch, if
    /// there is one, is written over the node's metadata.
    fn commit_update(
        &mut self,
        plan: &UpdatePlan,
        patch: &Option<Metadata>,
        embedding: Option<Result<Vec<u32>, String>>,
    ) -> (r: Result<UpdateOutcome, MemCubeError>)
        requires
            old(self).valid(),
        ensures
            final(self).valid(),
            commit_update_post(old(self).store(), *plan, *patch, embedding, final(self).store(), r),
    ;

    /// Forgets a memory: tombstones it if the request asks for a soft
    /// delete, else removes it with its edges. The caller removes the
    /// memory's vector from the index where the outcome says so.
    fn forget(&mut self, req: &ForgetMemoryRequest) -> (r: Result<ForgetOutcome, MemCubeError>)
        requires
            old(self).valid(),
        ensures
            final(self).valid(),
            forget_post(old(self).store(), *req, final(self).store(), r),
    ;

    /// Gets one memory by id. A tombstoned memory is found only if the
    /// request asks for deleted memories.
    fn get(&self, req: &GetMemoryRequest) -> (r: Result<GetMemoryResponse, MemCubeError>)
        requires
            self.valid(),
        ensures
            get_post(self.store(), *req, r),
    ;
}

impl MemCube for NaiveMemCube {
    open spec fn store(&self) -> StoreView {
        self.graph@
    }

    open spec fn valid(&self) -> bool {
        self.wf()
    }

    fn commit_add(
        &mut self,
        plan: &AddPlan,
        req: &ApiAddRequest,
        embedding: Result<Vec<u32>, String>,
    ) -> (r: Result<AddOutcome, MemCubeError>)
    {
        let bits = match embedding {
            Ok(bits) => bits,
            Err(msg) => {
                return Err(MemCubeError::Upstream(msg));
            },
        };
        let metadata = match &req.info {
            Some(m) => m.duplicate(),
            None => Metadata::new(),
        };
        let ghost s0 = self.graph@;
        let ghost cube = plan.cube_id@;
        let id = match self.graph.create_node(&plan.cube_id, plan.content.clone(), metadata) {
            Ok(id) => id,
            Err(e) => {
                return Err(lift_error(e));
            },
        };
        let ghost s1 = self.graph@;
        proof {
            let g = s1.graph(cube);
            assert(s1.has_cube(cube));
            let last = g.nodes.len() - 1;
            assert(g.nodes[last].id == id);
            assert(g.has_node(id));
        }
        let set = self.graph.update_node(&plan.cube_id, id, None, None, Some(bits));
        let ghost s2 = self.graph@;
        proof {
            assert(s2 == with_embedding(s1, cube, id, bits@));
        }
        let mut failures: Vec<RelationFailure> = Vec::new();
        match &req.relations {
            Some(rels) => {
                let mut i: usize = 0;
                while i < rels.len()
                    invariant
                        self.wf(),
                        i <= rels@.len(),
                        (self.graph@, failures@) == relate_all(s2, cube, id, rels@, i as int),
                        cube == plan.cube_id@,
                    decreases rels@.len() - i,
                {
                    match self.relate(&plan.cube_id, id, &rels[i]) {
                        Some(e) => {
                            failures.push(RelationFailure { index: i, error: e });
                        },
                        None => {},
                    }
                    i += 1;
                }
            },
            None => {},
        }
        Ok(AddOutcome { memory_id: id, cube_id: plan.cube_id.clone(), relation_failures: failures })
    }

    fn finish_search(&self, plan: &SearchPlan, hits: Result<Vec<VecSearchHit>, String>) -> (r:
        Result<SearchResponse, MemCubeError>)
    {
        let found = match hits {
            Ok(found) => found,
            Err(msg) => {
                return Err(MemCubeError::Upstream(msg));
            },
        };
        let ghost s = self.graph@;
        let ghost cubes = texts(plan.cube_ids@);
        let mut items: Vec<MemoryItem> = Vec::new();
        let mut i: usize = 0;
        while i < found.len()
            invariant
                self.wf(),
                s == self.graph@,
                cubes == texts(plan.cube_ids@),
                i <= found@.len(),
                items_match(items@, selected(s, cubes, found@, plan.top_k as nat, i as int)),
            decreases found@.len() - i,
        {
            let ghost before = selected(s, cubes, found@, plan.top_k as nat, i as int);
            if items.len() < plan.top_k as usize && found[i].above_floor {
                match parse_memory_id(found[i].id.as_str()) {
                    Some(id) => {
                        match self.find_visible(&plan.cube_ids, id) {
                            Some(node) => {
                                let item = item_of(&node);
                                items.push(item);
                            },
                            None => {},
                        }
                    },
                    None => {},
                }
            }
            i += 1;
        }
        let total = items.len();
        let mut text_mem: Vec<MemoryBucket> = Vec::new();
        text_mem.push(MemoryBucket { memories: items, total_nodes: Some(total) });
        Ok(
            SearchResponse {
                code: 200,
                message: "Success".to_owned(),
                data: Some(SearchResponseData { text_mem, pref_mem: Vec::new() }),
            },
        )
    }

    fn plan_update(&self, req: &UpdateMemoryRequest) -> (r: Result<UpdatePlan, MemCubeError>)
    {
        let cube_id = resolve_cube(&req.mem_cube_id, &req.user_id);
        let id = match parse_memory_id(req.memory_id.as_str()) {
            Some(id) => id,
            None => {
                return Err(MemCubeError::NotFound);
            },
        };
        let node = match self.graph.get_node(&cube_id, id, false) {
            Some(n) => n,
            None => {
                return Err(MemCubeError::NotFound);
            },
        };
        let reembed = match &req.memory {
            Some(m) => if *m == node.memory {
                None
            } else {
                Some(m.clone())
            },
            None => None,
        };
        Ok(UpdatePlan { cube_id, memory_id: id, reembed })
    }

    fn commit_update(
        &mut self,
        plan: &UpdatePlan,
        patch: &Option<Metadata>,
        embedding: Option<Result<Vec<u32>, String>>,
    ) -> (r: Result<UpdateOutcome, MemCubeError>)
    {
        let needs = plan.reembed.is_some();
        let bits: Option<Vec<u32>> = match embedding {
            Some(Ok(b)) => Some(b),
            Some(Err(msg)) => {
                if needs {
                    return Err(MemCubeError::Upstream(msg));
                }
                None
            },
            None => {
                if needs {
                    return Err(MemCubeError::Upstream("no embedding for the new content".to_owned()));
                }
                None
            },
        };
        let node = match self.graph.get_node(&plan.cube_id, plan.memory_id, true) {
            Some(n) => n,
            None => {
                return Err(MemCubeError::NotFound);
            },
        };
        let metadata = match patch {
            Some(p) => Some(node.metadata.merged_with(p)),
            None => None,
        };
        let content = match &plan.reembed {
            Some(t) => Some(t.clone()),
            None => None,
        };
        let new_bits = if needs {
            bits
        } else {
            None
        };
        let done = self.graph.update_node(
            &plan.cube_id,
            plan.memory_id,
            content,
            metadata,
            new_bits,
        );
        Ok(
            UpdateOutcome {
                memory_id: plan.memory_id,
                cube_id: plan.cube_id.clone(),
                reembedded: needs,
            },
        )
    }

    fn forget(&mut self, req: &ForgetMemoryRequest) -> (r: Result<ForgetOutcome, MemCubeError>)
    {
        let cube_id = resolve_cube(&req.mem_cube_id, &req.user_id);
        let id = match parse_memory_id(req.memory_id.as_str()) {
            Some(id) => id,
            None => {
                return Err(MemCubeError::NotFound);
            },
        };
        let done = if req.soft {
            self.graph.tombstone_node(&cube_id, id)
        } else {
            self.graph.delete_node(&cube_id, id)
        };
        match done {
            Ok(_) => Ok(ForgetOutcome { memory_id: id, cube_id, remove_vector: !req.soft }),
            Err(e) => Err(lift_error(e)),
        }
    }

    fn get(&self, req: &GetMemoryRequest) -> (r: Result<GetMemoryResponse, MemCubeError>)
    {
        let cube_id = resolve_cube(&req.mem_cube_id, &req.user_id);
        let id = match parse_memory_id(req.memory_id.as_str()) {
            Some(id) => id,
            None => {
                return Err(MemCubeError::NotFound);
            },
        };
        match self.graph.get_node(&cube_id, id, req.include_deleted) {
            Some(node) => Ok(
                GetMemoryResponse {
                    code: 200,
                    message: "Success".to_owned(),
                    data: Some(item_of(&node)),
                },
            ),
            None => Err(MemCubeError::NotFound),
        }
    }
}

} // verus!
