//! Request, response and graph data types.

use vstd::prelude::*;
use vstd::string::*;
use crate::metadata::{MetaView, Metadata};

verus! {

/// Traversal direction for graph queries, relative to the node asked about.
#[derive(Debug, Clone, Copy, PartialEq, Eq, Hash, Structural)]
pub enum GraphDirection {
    Outbound,
    Inbound,
    Both,
}

impl Default for GraphDirection {
    fn default() -> (r: Self)
        ensures
            r == GraphDirection::Outbound,
    {
        GraphDirection::Outbound
    }
}

/// What a memory node is, as a mathematical value.
pub struct NodeView {
    pub id: u64,
    pub memory: Seq<char>,
    pub metadata: MetaView,
    pub embedding: Option<Seq<u32>>,
    pub tombstoned: bool,
}

/// A memory: one node of a cube's graph. The embedding is kept as the bit
/// patterns of its 32-bit components; the store never computes on it.
#[derive(Debug, Clone)]
pub struct MemoryNode {
    pub id: u64,
    pub memory: String,
    pub metadata: Metadata,
    pub embedding: Option<Vec<u32>>,
    pub tombstoned: bool,
}

impl View for MemoryNode {
    type V = NodeView;

    open spec fn view(&self) -> NodeView {
        NodeView {
            id: self.id,
            memory: self.memory@,
            metadata: self.metadata@,
            embedding: match self.embedding {
                Some(v) => Some(v@),
                None => None,
            },
            tombstoned: self.tombstoned,
        }
    }
}

/// Copies an optional embedding.
pub fn copy_embedding(e: &Option<Vec<u32>>) -> (r: Option<Vec<u32>>)
    ensures
        match (*e, r) {
            (Some(a), Some(b)) => a@ == b@,
            (None, None) => true,
            _ => false,
        },
{
    match e {
        Some(v) => {
            let mut out: Vec<u32> = Vec::new();
            let mut i: usize = 0;
            while i < v.len()
                invariant
                    i <= v@.len(),
                    out@ == v@.take(i as int),
                decreases v@.len() - i,
            {
                out.push(v[i]);
                assert(v@.take(i + 1) =~= v@.take(i as int).push(v@[i as int]));
                i += 1;
            }
            assert(v@.take(i as int) =~= v@);
            Some(out)
        },
        None => None,
    }
}

impl MemoryNode {
    /// A copy of this node.
    pub fn duplicate(&self) -> (r: MemoryNode)
        ensures
            r@ == self@,
    {
        MemoryNode {
            id: self.id,
            memory: self.memory.clone(),
            metadata: self.metadata.duplicate(),
            embedding: copy_embedding(&self.embedding),
            tombstoned: self.tombstoned,
        }
    }
}

/// What an edge is, as a mathematical value.
pub struct EdgeView {
    pub id: u64,
    pub from: u64,
    pub to: u64,
    pub relation: Seq<char>,
    pub metadata: MetaView,
}

/// A directed, labelled edge between two memories of one cube.
#[derive(Debug, Clone)]
pub struct MemoryEdge {
    pub id: u64,
    pub from: u64,
    pub to: u64,
    pub relation: String,
    pub metadata: Metadata,
}

impl View for MemoryEdge {
    type V = EdgeView;

    open spec fn view(&self) -> EdgeView {
        EdgeView {
            id: self.id,
            from: self.from,
            to: self.to,
            relation: self.relation@,
            metadata: self.metadata@,
        }
    }
}

impl MemoryEdge {
    /// A copy of this edge.
    pub fn duplicate(&self) -> (r: MemoryEdge)
        ensures
            r@ == self@,
    {
        MemoryEdge {
            id: self.id,
            from: self.from,
            to: self.to,
            relation: self.relation.clone(),
            metadata: self.metadata.duplicate(),
        }
    }
}

/// One neighbor of a node: the connecting edge and the node at its far end.
#[derive(Debug, Clone)]
pub struct GraphNeighbor {
    pub edge: MemoryEdge,
    pub node: MemoryNode,
}

/// A path through a cube's graph: the nodes visited, and between each two
/// consecutive nodes the edge that was followed.
#[derive(Debug, Clone)]
pub struct GraphPath {
    pub node_ids: Vec<u64>,
    pub edges: Vec<MemoryEdge>,
}

/// The views of a list of strings.
pub open spec fn texts(v: Seq<String>) -> Seq<Seq<char>> {
    v.map_values(|s: String| s@)
}

/// Copies a list of strings.
pub fn copy_strings(v: &Vec<String>) -> (r: Vec<String>)
    ensures
        texts(r@) == texts(v@),
{
    let mut out: Vec<String> = Vec::new();
    let mut i: usize = 0;
    while i < v.len()
        invariant
            i <= v@.len(),
            out@.len() == i,
            forall|k: int| 0 <= k < i ==> (#[trigger] out@[k])@ == v@[k]@,
        decreases v@.len() - i,
    {
        out.push(v[i].clone());
        i += 1;
    }
    assert(texts(out@) =~= texts(v@));
    out
}

/// A list that holds one string.
pub fn one_string(s: &String) -> (r: Vec<String>)
    ensures
        texts(r@) == seq![s@],
{
    let mut out: Vec<String> = Vec::new();
    out.push(s.clone());
    assert(texts(out@) =~= seq![s@]);
    out
}

/// Single chat message (user or assistant).
#[derive(Debug, Clone)]
pub struct Message {
    pub role: String,
    pub content: String,
}

/// The mode in which an add request runs unless it says otherwise.
pub fn default_async_mode() -> (s: String)
    ensures
        s@ == "sync"@,
{
    "sync".to_owned()
}

/// The number of search results asked for unless the request says otherwise.
pub fn default_top_k() -> (k: u32)
    ensures
        k == 10,
{
    10
}

/// The status code of a response unless it says otherwise.
pub fn default_code() -> (c: i32)
    ensures
        c == 200,
{
    200
}

/// The page size of a neighbor query unless the request says otherwise.
pub fn default_graph_limit() -> (n: u32)
    ensures
        n == 10,
{
    10
}

/// The depth bound of a path query unless the request says otherwise.
pub fn default_graph_max_depth() -> (n: u32)
    ensures
        n == 6,
{
    6
}

/// The number of paths asked for unless the request says otherwise.
pub fn default_graph_top_k_paths() -> (n: u32)
    ensures
        n == 3,
{
    3
}

/// A relation to an existing memory, asked for together with an add.
#[derive(Debug, Clone)]
pub struct AddMemoryRelation {
    /// Id of the existing memory, as text.
    pub memory_id: String,
    pub relation: String,
    /// Direction as seen from the new memory: `Outbound` is new to
    /// existing, `Inbound` is existing to new, `Both` writes both edges.
    pub direction: GraphDirection,
    pub metadata: Metadata,
}

/// Add-memory request.
#[derive(Debug, Clone)]
pub struct ApiAddRequest {
    pub user_id: String,
    pub session_id: Option<String>,
    pub task_id: Option<String>,
    pub writable_cube_ids: Option<Vec<String>>,
    pub mem_cube_id: Option<String>,
    pub async_mode: String,
    pub messages: Option<Vec<Message>>,
    pub memory_content: Option<String>,
    pub chat_history: Option<Vec<Message>>,
    pub custom_tags: Option<Vec<String>>,
    pub info: Option<Metadata>,
    pub relations: Option<Vec<AddMemoryRelation>>,
    pub is_feedback: bool,
}

/// The cube ids that a request resolves to: the listed ids if there are
/// any, else the single cube id if given, else the user id.
pub open spec fn resolved_cube_ids(
    listed: Option<Vec<String>>,
    single: Option<String>,
    user: String,
) -> Seq<Seq<char>> {
    match listed {
        Some(ids) if ids@.len() > 0 => texts(ids@),
        _ => match single {
            Some(id) => seq![id@],
            None => seq![user@],
        },
    }
}

/// One message as a line of text: role, colon, space, content.
pub open spec fn line_of(m: Message) -> Seq<char> {
    m.role@ + seq![':', ' '] + m.content@
}

/// The lines of the first `n` messages, joined by line feeds.
pub open spec fn lines_joined(ms: Seq<Message>, n: int) -> Seq<char>
    decreases n,
{
    if n <= 0 {
        Seq::empty()
    } else if n == 1 {
        line_of(ms[0])
    } else {
        lines_joined(ms, n - 1) + seq!['\n'] + line_of(ms[n - 1])
    }
}

/// The content that an add request asks to store: its messages as lines if
/// it has any, else its raw content.
pub open spec fn stored_content(req: ApiAddRequest) -> Option<Seq<char>> {
    match req.messages {
        Some(ms) if ms@.len() > 0 => Some(lines_joined(ms@, ms@.len() as int)),
        _ => match req.memory_content {
            Some(c) => Some(c@),
            None => None,
        },
    }
}

/// The cube ids that a request resolves to.
fn resolve_cube_ids(listed: &Option<Vec<String>>, single: &Option<String>, user: &String) -> (r:
    Vec<String>)
    ensures
        texts(r@) == resolved_cube_ids(*listed, *single, *user),
{
    match listed {
        Some(ids) => {
            if ids.len() > 0 {
                return copy_strings(ids);
            }
        },
        None => {},
    }
    match single {
        Some(id) => one_string(id),
        None => one_string(user),
    }
}

impl ApiAddRequest {
    /// Resolve cube ids to write to.
    pub fn writable_cube_ids(&self) -> (r: Vec<String>)
        ensures
            texts(r@) == resolved_cube_ids(self.writable_cube_ids, self.mem_cube_id, self.user_id),
            r@.len() > 0,
    {
        let r = resolve_cube_ids(&self.writable_cube_ids, &self.mem_cube_id, &self.user_id);
        assert(texts(r@).len() == r@.len());
        r
    }

    /// Content to store: from messages or memory_content.
    pub fn content_to_store(&self) -> (r: Option<String>)
        ensures
            match (r, stored_content(*self)) {
                (Some(text), Some(spec)) => text@ == spec,
                (None, None) => true,
                _ => false,
            },
    {
        match &self.messages {
            Some(msgs) => {
                if msgs.len() > 0 {
                    let mut out = String::new();
                    let mut i: usize = 0;
                    while i < msgs.len()
                        invariant
                            i <= msgs@.len(),
                            out@ == lines_joined(msgs@, i as int),
                        decreases msgs@.len() - i,
                    {
                        if i > 0 {
                            out.push('\n');
                        }
                        let ghost before = out@;
                        out.append(msgs[i].role.as_str());
                        out.push(':');
                        out.push(' ');
                        out.append(msgs[i].content.as_str());
                        proof {
                            assert(out@ =~= before + line_of(msgs@[i as int]));
                            if i > 0 {
                                assert(before =~= lines_joined(msgs@, i as int) + seq!['\n']);
                            } else {
                                assert(before =~= Seq::<char>::empty());
                            }
                        }
                        i += 1;
                    }
                    return Some(out);
                }
            },
            None => {},
        }
        match &self.memory_content {
            Some(c) => Some(c.clone()),
            None => None,
        }
    }
}

/// Search-memory request. The similarity floor of a search is applied where
/// the scores are computed and is not part of this value.
#[derive(Debug, Clone)]
pub struct ApiSearchRequest {
    pub query: String,
    pub user_id: String,
    pub readable_cube_ids: Option<Vec<String>>,
    pub mem_cube_id: Option<String>,
    pub top_k: u32,
    pub session_id: Option<String>,
    pub include_preference: bool,
    pub pref_top_k: u32,
    pub filter: Option<Metadata>,
}

impl ApiSearchRequest {
    /// Resolve cube ids to read from.
    pub fn readable_cube_ids(&self) -> (r: Vec<String>)
        ensures
            texts(r@) == resolved_cube_ids(self.readable_cube_ids, self.mem_cube_id, self.user_id),
            r@.len() > 0,
    {
        let r = resolve_cube_ids(&self.readable_cube_ids, &self.mem_cube_id, &self.user_id);
        assert(texts(r@).len() == r@.len());
        r
    }
}

/// Base response envelope.
#[derive(Debug, Clone)]
pub struct BaseResponse<T> {
    pub code: i32,
    pub message: String,
    pub data: Option<T>,
}

/// Single memory item as returned in search: id as text, content, metadata.
#[derive(Debug, Clone)]
pub struct MemoryItem {
    pub id: String,
    pub memory: String,
    pub metadata: Metadata,
}

/// One bucket of memories.
#[derive(Debug, Clone)]
pub struct MemoryBucket {
    pub memories: Vec<MemoryItem>,
    pub total_nodes: Option<usize>,
}

/// Search result data: text memories and preference memories.
#[derive(Debug, Clone)]
pub struct SearchResponseData {
    pub text_mem: Vec<MemoryBucket>,
    pub pref_mem: Vec<MemoryBucket>,
}

/// Search response.
#[derive(Debug, Clone)]
pub struct SearchResponse {
    pub code: i32,
    pub message: String,
    pub data: Option<SearchResponseData>,
}

/// Request to update an existing memory (partial fields).
#[derive(Debug, Clone)]
pub struct UpdateMemoryRequest {
    pub memory_id: String,
    pub user_id: String,
    pub mem_cube_id: Option<String>,
    pub memory: Option<String>,
    pub metadata: Option<Metadata>,
}

/// Request to forget (soft or hard delete) a memory.
#[derive(Debug, Clone)]
pub struct ForgetMemoryRequest {
    pub memory_id: String,
    pub user_id: String,
    pub mem_cube_id: Option<String>,
    /// If true, soft delete (mark tombstone); else hard delete.
    pub soft: bool,
}

/// Request to get a single memory by id.
#[derive(Debug, Clone)]
pub struct GetMemoryRequest {
    pub memory_id: String,
    pub user_id: String,
    pub mem_cube_id: Option<String>,
    /// If true, return memories marked tombstone. Default false.
    pub include_deleted: bool,
}

/// Response for a get: the memory item, if any.
#[derive(Debug, Clone)]
pub struct GetMemoryResponse {
    pub code: i32,
    pub message: String,
    pub data: Option<MemoryItem>,
}

/// Request for a page of graph neighbors.
#[derive(Debug, Clone)]
pub struct GraphNeighborsRequest {
    pub memory_id: String,
    pub user_id: String,
    pub mem_cube_id: Option<String>,
    pub relation: Option<String>,
    pub direction: GraphDirection,
    pub limit: u32,
    /// Opaque cursor token from the previous response.
    pub cursor: Option<String>,
    pub include_embedding: bool,
    pub include_deleted: bool,
}

/// One graph neighbor in a response.
#[derive(Debug, Clone)]
pub struct GraphNeighborItem {
    pub edge: MemoryEdge,
    pub memory: MemoryItem,
}

/// Response payload of a neighbor query.
#[derive(Debug, Clone)]
pub struct GraphNeighborsData {
    pub items: Vec<GraphNeighborItem>,
    pub next_cursor: Option<String>,
}

/// Request for the shortest path between two memories.
#[derive(Debug, Clone)]
pub struct GraphPathRequest {
    pub source_memory_id: String,
    pub target_memory_id: String,
    pub user_id: String,
    pub mem_cube_id: Option<String>,
    pub relation: Option<String>,
    pub direction: GraphDirection,
    pub max_depth: u32,
    pub include_deleted: bool,
}

/// Response payload of a path query.
#[derive(Debug, Clone)]
pub struct GraphPathData {
    pub hops: u32,
    pub nodes: Vec<MemoryItem>,
    pub edges: Vec<MemoryEdge>,
}

/// Request for several paths between two memories.
#[derive(Debug, Clone)]
pub struct GraphPathsRequest {
    pub source_memory_id: String,
    pub target_memory_id: String,
    pub user_id: String,
    pub mem_cube_id: Option<String>,
    pub relation: Option<String>,
    pub direction: GraphDirection,
    pub max_depth: u32,
    pub top_k_paths: u32,
    pub include_deleted: bool,
}

/// Scope for memory.
#[derive(Debug, Clone, Copy, PartialEq, Eq, Hash, Structural)]
pub enum MemoryScope {
    WorkingMemory,
    LongTermMemory,
    UserMemory,
}

impl MemoryScope {
    /// The name of the scope, as a mathematical value.
    pub open spec fn name(self) -> Seq<char> {
        match self {
            MemoryScope::WorkingMemory => "WorkingMemory"@,
            MemoryScope::LongTermMemory => "LongTermMemory"@,
            MemoryScope::UserMemory => "UserMemory"@,
        }
    }

    /// The name of the scope.
    pub fn as_str(self) -> (s: &'static str)
        ensures
            s@ == self.name(),
    {
        match self {
            MemoryScope::WorkingMemory => "WorkingMemory",
            MemoryScope::LongTermMemory => "LongTermMemory",
            MemoryScope::UserMemory => "UserMemory",
        }
    }

    /// The name of the scope as an owned string.
    pub fn to_text(self) -> (s: String)
        ensures
            s@ == self.name(),
    {
        self.as_str().to_owned()
    }
}

} // verus!
