//! What holds of the library's operations taken together: of paging,
//! tombstones, path search, entity upserts, jobs and cubes.

use vstd::prelude::*;
use crate::dto::{ApiAddRequest, NodeView};
use crate::entity::{empty_kg, lemma_upserted, KgStoreView};
use crate::job::JobStatus;
use crate::metadata::MetaView;
use crate::model::{lemma_node_pos, GraphView, Scope};
use crate::scheduler::{lemma_first_pending, lemma_job_pos, SchedView};
use crate::select::{
    increasing, lemma_lists_positions_unique, lemma_positions_where, lists_positions,
};
use crate::shortest::lemma_shortest_walk_is;
use crate::store::StoreView;
use crate::text::normalized;
use crate::topk::lemma_upto_sound;
use crate::walks::{lemma_lex_total, lemma_path_lt_asym, lemma_path_lt_trans, path_lt};

verus! {

impl GraphView {
    /// Everything that paging delivers from the given cursor on: the page
    /// at the cursor, then the pages that its next cursors lead to. On a
    /// well-formed graph each next cursor leaves fewer edges to deliver,
    /// which is what lets the definition follow the cursors.
    pub open spec fn pages_from(self, node: u64, q: Scope, cursor: Option<u64>, limit: nat) -> Seq<
        int,
    >
        decreases self.neighbor_edges(node, q, cursor).len(),
    {
        let items = self.page_items(node, q, cursor, limit);
        let next = self.page_cursor(node, q, cursor, limit);
        if next.is_some() && self.wf() && self.neighbor_edges(node, q, next).len()
            < self.neighbor_edges(node, q, cursor).len() {
            items + self.pages_from(node, q, next, limit)
        } else {
            items
        }
    }
}

/// After a page of `limit` edges, the edges behind its next cursor are the
/// remaining ones.
pub proof fn lemma_next_page(g: GraphView, node: u64, q: Scope, cursor: Option<u64>, limit: nat)
    requires
        g.wf(),
        limit > 0,
        g.neighbor_edges(node, q, cursor).len() > limit,
    ensures
        g.neighbor_edges(node, q, g.page_cursor(node, q, cursor, limit)) == g.neighbor_edges(
            node,
            q,
            cursor,
        ).skip(limit as int),
{
    let n = g.edges.len() as int;
    let all = g.neighbor_edges(node, q, cursor);
    let next = g.page_cursor(node, q, cursor, limit);
    let last = all[limit - 1];
    let before = g.neighbor_pred(node, q, cursor);
    let after = g.neighbor_pred(node, q, next);
    lemma_positions_where(before, n);
    lemma_positions_where(after, n);
    let rest = all.skip(limit as int);
    assert(next == Some(g.edges[last].id));
    assert(lists_positions(rest, after, n)) by {
        assert forall|k: int| 0 <= k < rest.len() implies 0 <= #[trigger] rest[k] < n && after(
            rest[k],
        ) by {
            assert(rest[k] == all[k + limit]);
            assert(all[limit - 1] < all[k + limit]);
            assert(g.edges[last].id < g.edges[rest[k]].id);
            assert(before(rest[k]));
        }
        assert forall|i: int| 0 <= i < n && after(i) implies rest.contains(i) by {
            assert(before(i));
            assert(all.contains(i));
            let k = choose|k: int| 0 <= k < all.len() && all[k] == i;
            if k < limit {
                if k < limit - 1 {
                    assert(all[k] < all[limit - 1]);
                    assert(g.edges[all[k]].id < g.edges[last].id);
                }
                assert(false);
            }
            assert(rest[k - limit] == i);
        }
        assert forall|a: int, b: int| 0 <= a < b < rest.len() implies rest[a] < rest[b] by {
            assert(all[a + limit] < all[b + limit]);
        }
    }
    lemma_lists_positions_unique(g.neighbor_edges(node, q, next), rest, after, n);
}

/// Paging through the neighbors of a node with any positive page size
/// delivers exactly what one page that is large enough delivers: every
/// edge once, in the same order.
pub proof fn law_paging_is_complete(
    g: GraphView,
    node: u64,
    q: Scope,
    cursor: Option<u64>,
    limit: nat,
    whole: nat,
)
    requires
        g.wf(),
        limit > 0,
        whole >= g.neighbor_edges(node, q, cursor).len(),
    ensures
        g.pages_from(node, q, cursor, limit) == g.page_items(node, q, cursor, whole),
        g.page_items(node, q, cursor, whole) == g.neighbor_edges(node, q, cursor),
        increasing(g.pages_from(node, q, cursor, limit)),
        whole > 0 ==> g.page_cursor(node, q, cursor, whole).is_none(),
    decreases g.neighbor_edges(node, q, cursor).len(),
{
    let all = g.neighbor_edges(node, q, cursor);
    lemma_positions_where(g.neighbor_pred(node, q, cursor), g.edges.len() as int);
    if all.len() > limit {
        let next = g.page_cursor(node, q, cursor, limit);
        lemma_next_page(g, node, q, cursor, limit);
        let rest = g.neighbor_edges(node, q, next);
        assert(rest.len() < all.len());
        law_paging_is_complete(g, node, q, next, limit, rest.len());
        assert(all.take(limit as int) + all.skip(limit as int) =~= all);
    }
}

/// Tombstoning a node twice leaves the graph as tombstoning it once does;
/// afterwards the node is hidden from reads that do not ask for deleted
/// nodes and still there, unchanged but for its mark, for reads that do.
pub proof fn law_tombstone_idempotent(g: GraphView, id: u64)
    requires
        g.wf(),
        g.has_node(id),
    ensures
        g.with_tombstone(id).with_tombstone(id) == g.with_tombstone(id),
        g.with_tombstone(id).wf(),
        !g.with_tombstone(id).visible(id, false),
        g.with_tombstone(id).visible(id, true),
        g.with_tombstone(id).node(id) == (NodeView { tombstoned: true, ..g.node(id) }),
{
    let g1 = g.with_tombstone(id);
    let p = g.node_pos(id);
    crate::graph::lemma_same_ids_wf(g, g1);
    assert(g1.nodes[p].id == id);
    lemma_node_pos(g1, p);
    let g2 = g1.with_tombstone(id);
    assert(g2.nodes =~= g1.nodes);
}

/// The shortest path does not depend on the depth bound except through
/// whether the bound admits it: with a bound of at least its length the
/// same walk is found, below that none is, and no walk between the two
/// nodes is shorter than it.
pub proof fn law_shortest_path_depth(
    g: GraphView,
    s: u64,
    t: u64,
    q: Scope,
    depth: nat,
    other: nat,
)
    requires
        g.shortest_walk(s, t, q, depth).is_some(),
    ensures
        ({
            let w = g.shortest_walk(s, t, q, depth).unwrap();
            &&& w.len() <= depth
            &&& g.is_walk(s, w, t, q)
            &&& forall|o: Seq<int>| #[trigger] g.is_walk(s, o, t, q) ==> w.len() <= o.len()
            &&& other >= w.len() ==> g.shortest_walk(s, t, q, other) == Some(w)
            &&& other < w.len() ==> g.shortest_walk(s, t, q, other).is_none()
        }),
{
    let w = g.shortest_walk(s, t, q, depth).unwrap();
    assert(g.is_best_walk(s, t, q, w) && w.len() <= depth);
    lemma_shortest_walk_is(g, s, t, q, w, other);
    assert forall|o: Seq<int>| #[trigger] g.is_walk(s, o, t, q) implies w.len() <= o.len() by {
        assert(crate::walks::path_le(w, o));
    }
}

/// The k first-ranked paths are at most `k`, each is a walk between the
/// two nodes within the depth bound, and they come in order of length.
pub proof fn law_top_paths_ordered(g: GraphView, s: u64, t: u64, q: Scope, max_depth: nat, k: nat)
    ensures
        g.top_paths(s, t, q, max_depth, k).len() <= k,
        forall|i: int|
            0 <= i < g.top_paths(s, t, q, max_depth, k).len() ==> g.is_walk(
                s,
                #[trigger] g.top_paths(s, t, q, max_depth, k)[i],
                t,
                q,
            ) && g.top_paths(s, t, q, max_depth, k)[i].len() <= max_depth,
        forall|i: int, j: int|
            0 <= i < j < g.top_paths(s, t, q, max_depth, k).len() ==> (#[trigger] g.top_paths(
                s,
                t,
                q,
                max_depth,
                k,
            )[i]).len() <= (#[trigger] g.top_paths(s, t, q, max_depth, k)[j]).len(),
{
    lemma_upto_sound(g, s, t, q, max_depth);
    let all = g.paths_upto(s, t, q, max_depth);
    let top = g.top_paths(s, t, q, max_depth, k);
    assert forall|i: int| 0 <= i < top.len() implies top[i] == all[i] by {}
}

/// When some walk between two nodes ranks first, every list of simple paths
/// up to a depth that admits it starts with that walk.
pub proof fn lemma_upto_first(g: GraphView, s: u64, t: u64, q: Scope, w: Seq<int>, depth: nat)
    requires
        g.is_best_walk(s, t, q, w),
        w.len() <= depth,
    ensures
        g.paths_upto(s, t, q, depth).len() >= 1,
        g.paths_upto(s, t, q, depth)[0] == w,
    decreases depth,
{
    let len = w.len();
    if depth > len {
        lemma_upto_first(g, s, t, q, w, (depth - 1) as nat);
    } else {
        assert forall|o: Seq<int>| #[trigger] g.is_walk(s, o, t, q) implies w.len() <= o.len() by {
            assert(crate::walks::path_le(w, o));
        }
        crate::simple::lemma_shortest_is_simple(g, s, t, q, w);
        crate::simple::lemma_paths_complete(g, s, t, q, set![s], w);
        crate::simple::lemma_paths_ordered(g, s, t, q, set![s], len);
        crate::topk::lemma_paths_sound(g, s, t, q, set![s], len);
        let level = g.paths_exact(s, t, q, set![s], len);
        let at = choose|i: int| 0 <= i < level.len() && level[i] == w;
        let first = level[0];
        assert(g.is_walk(s, first, t, q));
        assert(crate::walks::path_le(w, first));
        if at > 0 {
            assert(crate::walks::lex_lt(first, w));
            if w != first {
                crate::walks::lemma_lex_lt_asym(first, w);
            }
        }
        assert(first == w);
        if len > 0 {
            lemma_upto_sound(g, s, t, q, (len - 1) as nat);
            let before = g.paths_upto(s, t, q, (len - 1) as nat);
            if before.len() > 0 {
                assert(g.is_walk(s, before[0], t, q));
                assert(before[0].len() <= len - 1);
            }
            assert(g.paths_upto(s, t, q, len) =~= level);
        }
    }
}

/// Asking for the single first-ranked path gives the shortest path: when
/// the shortest-path search finds a walk within the depth bound, the list
/// of first-ranked paths starts with it, and with `k = 1` holds nothing
/// else; when no walk lies within the bound, the list is empty.
pub proof fn law_first_path_is_shortest(
    g: GraphView,
    s: u64,
    t: u64,
    q: Scope,
    max_depth: nat,
    k: nat,
)
    requires
        k >= 1,
    ensures
        g.shortest_walk(s, t, q, max_depth) matches Some(w) ==> g.top_paths(
            s,
            t,
            q,
            max_depth,
            k,
        ).len() >= 1 && g.top_paths(s, t, q, max_depth, k)[0] == w && g.top_paths(
            s,
            t,
            q,
            max_depth,
            1,
        ) == seq![w],
        g.farther_than(s, t, q, max_depth) ==> g.top_paths(s, t, q, max_depth, k).len() == 0,
{
    let all = g.paths_upto(s, t, q, max_depth);
    lemma_upto_sound(g, s, t, q, max_depth);
    if let Some(w) = g.shortest_walk(s, t, q, max_depth) {
        assert(g.is_best_walk(s, t, q, w) && w.len() <= max_depth);
        lemma_upto_first(g, s, t, q, w, max_depth);
        assert(g.top_paths(s, t, q, max_depth, 1) =~= seq![w]);
    }
    if g.farther_than(s, t, q, max_depth) {
        if all.len() > 0 {
            assert(g.is_walk(s, all[0], t, q));
        }
    }
}

/// Two upserts under names that differ only in case and white space, that
/// is, names with one normal form, leave exactly one entity of that name:
/// the second returns the id that the first returned and adds no entity.
pub proof fn law_upsert_folds_names(
    s: KgStoreView,
    cube: Seq<char>,
    a: Seq<char>,
    b: Seq<char>,
    x: MetaView,
    y: MetaView,
)
    requires
        s.wf(),
        normalized(a) == normalized(b),
        s.upsert(cube, a, x).1.is_ok(),
    ensures
        ({
            let first = s.upsert(cube, a, x);
            let second = first.0.upsert(cube, b, y);
            let n = normalized(a);
            &&& first.0.wf()
            &&& second.1 == first.1
            &&& second.0.next_id == first.0.next_id
            &&& second.0.kg(cube).entities.len() == first.0.kg(cube).entities.len()
            &&& second.0.kg(cube).has_name(n)
            &&& forall|i: int, j: int|
                0 <= i < j < second.0.kg(cube).entities.len() ==> !((
                #[trigger] second.0.kg(cube).entities[i]).name == n && (
                #[trigger] second.0.kg(cube).entities[j]).name == n)
        }),
{
    let n = normalized(a);
    let kg = s.kg(cube);
    let first = s.upsert(cube, a, x);
    assert(kg.wf() && kg.ids_below(s.next_id)) by {
        if !s.has_cube(cube) {
            assert(kg == empty_kg());
        }
    }
    lemma_upserted(kg, n, x, s.next_id);
    let kg1 = kg.upserted(n, x, s.next_id);
    assert(first.0.cubes == s.cubes.insert(cube, kg1));
    assert(first.0.kg(cube) == kg1);
    assert(first.0.wf()) by {
        assert forall|c: Seq<char>| #[trigger] first.0.has_cube(c) implies first.0.cubes[c].wf()
            && first.0.cubes[c].ids_below(first.0.next_id) by {
            if c != cube {
                assert(s.has_cube(c));
            }
        }
    }
    lemma_upserted(kg1, n, y, first.0.next_id);
    let second = first.0.upsert(cube, b, y);
    let kg2 = kg1.upserted(n, y, first.0.next_id);
    assert(second.0.cubes == first.0.cubes.insert(cube, kg2));
    assert(second.0.kg(cube) == kg2);
}

/// The life of a job. Once submitted it is pending. The worker that takes
/// it is handed the request it was submitted with, and the job is running;
/// no worker is handed it again. Once it has ended it is done and holds the
/// summary it ended with, and from then on neither taking jobs nor ending
/// it again changes anything.
pub proof fn law_job_lifecycle(
    s: SchedView,
    id: Seq<char>,
    req: ApiAddRequest,
    submitted_at: Seq<char>,
    started_at: Seq<char>,
    ended_at: Seq<char>,
    later: Seq<char>,
    summary: serde_json::Value,
    other: serde_json::Value,
    outcome: bool,
)
    requires
        s.wf(),
        !s.has_job(id),
        !s.has_pending(),
    ensures
        ({
            let s1 = s.submitted(id, req, submitted_at);
            let s2 = s1.started(started_at);
            let s3 = s2.completed(id, true, summary, ended_at);
            &&& s1.wf() && s2.wf() && s3.wf()
            &&& s1.has_job(id) && s1.job(id).status == JobStatus::Pending
            &&& s1.handed_out() == Some((id, req))
            &&& s2.has_job(id) && s2.job(id).status == JobStatus::Running
            &&& s2.handed_out().is_none()
            &&& s3.has_job(id) && s3.job(id).status == JobStatus::Done
            &&& s3.job(id).result_summary == Some(summary)
            &&& s3.job(id).created_at == submitted_at
            &&& s3.job(id).updated_at == ended_at
            &&& s3.started(later) == s3
            &&& s3.completed(id, outcome, other, later) == s3
        }),
{
    let n = s.entries.len() as int;
    let s1 = s.submitted(id, req, submitted_at);
    assert(s1.entries[n].job.job_id == id);
    assert(s1.wf()) by {
        assert forall|i: int, j: int| 0 <= i < j < s1.entries.len() implies (
        #[trigger] s1.entries[i]).job.job_id != (#[trigger] s1.entries[j]).job.job_id by {
            if j == n {
                assert(s.entries[i].job.job_id != id);
            } else {
                assert(s.entries[i].job.job_id != s.entries[j].job.job_id);
            }
        }
    }
    lemma_job_pos(s1, n);
    assert forall|k: int| 0 <= k < n implies (#[trigger] s1.entries[k]).job.status
        != JobStatus::Pending by {
        assert(s.entries[k].job.status != JobStatus::Pending);
    }
    lemma_first_pending(s1, n);
    let s2 = s1.started(started_at);
    assert(s2.entries[n].job.job_id == id);
    assert(s2.wf()) by {
        assert forall|i: int, j: int| 0 <= i < j < s2.entries.len() implies (
        #[trigger] s2.entries[i]).job.job_id != (#[trigger] s2.entries[j]).job.job_id by {
            assert(s1.entries[i].job.job_id != s1.entries[j].job.job_id);
        }
    }
    lemma_job_pos(s2, n);
    assert(!s2.has_pending()) by {
        if s2.has_pending() {
            let k = choose|k: int|
                0 <= k < s2.entries.len() && (#[trigger] s2.entries[k]).job.status
                    == JobStatus::Pending;
            if k < n {
                assert(s1.entries[k].job.status != JobStatus::Pending);
            }
        }
    }
    let s3 = s2.completed(id, true, summary, ended_at);
    assert(s3.entries[n].job.job_id == id);
    assert(s3.wf()) by {
        assert forall|i: int, j: int| 0 <= i < j < s3.entries.len() implies (
        #[trigger] s3.entries[i]).job.job_id != (#[trigger] s3.entries[j]).job.job_id by {
            assert(s2.entries[i].job.job_id != s2.entries[j].job.job_id);
        }
    }
    lemma_job_pos(s3, n);
    assert(!s3.has_pending()) by {
        if s3.has_pending() {
            let k = choose|k: int|
                0 <= k < s3.entries.len() && (#[trigger] s3.entries[k]).job.status
                    == JobStatus::Pending;
            if k < n {
                assert(s2.entries[k].job.status == JobStatus::Pending);
            }
        }
    }
}

/// The ranking of paths is a strict total order: no path ranks before
/// itself, of two different paths exactly one ranks before the other, and
/// ranking carries over from path to path. So the order in which paths are
/// returned is determined by the graph alone.
pub proof fn law_ranking_is_total_order(a: Seq<int>, b: Seq<int>, c: Seq<int>)
    ensures
        !path_lt(a, a),
        a != b ==> (path_lt(a, b) <==> !path_lt(b, a)),
        path_lt(a, b) && path_lt(b, c) ==> path_lt(a, c),
{
    if path_lt(a, a) {
        lemma_path_lt_asym(a, a);
    }
    if path_lt(a, b) {
        lemma_path_lt_asym(a, b);
        if path_lt(b, c) {
            lemma_path_lt_trans(a, b, c);
        }
    }
    if a != b && a.len() == b.len() {
        lemma_lex_total(a, b);
    }
}

/// A page never holds what was delivered before: every edge on the page
/// after a cursor has an id above the cursor, on whatever graph the page is
/// taken, and the next cursor is the largest id on the page. So writes
/// between two pages cannot make an edge come twice.
pub proof fn law_cursor_moves_forward(g: GraphView, node: u64, q: Scope, cursor: u64, limit: nat)
    requires
        g.wf(),
    ensures
        ({
            let page = g.page_items(node, q, Some(cursor), limit);
            let next = g.page_cursor(node, q, Some(cursor), limit);
            &&& forall|k: int| 0 <= k < page.len() ==> (#[trigger] g.edges[page[k]]).id > cursor
            &&& next matches Some(c) ==> c > cursor && forall|k: int|
                0 <= k < page.len() ==> (#[trigger] g.edges[page[k]]).id <= c
        }),
{
    let p = g.neighbor_pred(node, q, Some(cursor));
    let all = g.neighbor_edges(node, q, Some(cursor));
    let page = g.page_items(node, q, Some(cursor), limit);
    lemma_positions_where(p, g.edges.len() as int);
    assert forall|k: int| 0 <= k < page.len() implies (#[trigger] g.edges[page[k]]).id
        > cursor by {
        assert(page[k] == all[k]);
        assert(p(all[k]));
    }
    if all.len() > limit && limit > 0 {
        let last = all[limit - 1];
        assert(p(last));
        assert forall|k: int| 0 <= k < page.len() implies (#[trigger] g.edges[page[k]]).id
            <= g.edges[last].id by {
            assert(page[k] == all[k]);
            if k < limit - 1 {
                assert(all[k] < all[limit - 1]);
                assert(g.edges[all[k]].id < g.edges[last].id);
            }
        }
    }
}

/// Cubes are isolated: whatever is created, tombstoned or deleted in one
/// cube, the graph of every other cube stays as it is, and a node is read
/// only from the cube that is asked.
pub proof fn law_cubes_are_isolated(
    s: StoreView,
    cube: Seq<char>,
    other: Seq<char>,
    content: Seq<char>,
    metadata: MetaView,
    from: u64,
    to: u64,
    id: u64,
)
    requires
        cube != other,
    ensures
        s.create_node(cube, content, metadata).0.graph(other) == s.graph(other),
        s.create_edge(cube, from, to, content, metadata).0.graph(other) == s.graph(other),
        s.tombstone_node(cube, id).0.graph(other) == s.graph(other),
        s.delete_node(cube, id).0.graph(other) == s.graph(other),
        s.create_node(cube, content, metadata).0.get_node(other, id, true) == s.get_node(
            other,
            id,
            true,
        ),
{
}

} // verus!
