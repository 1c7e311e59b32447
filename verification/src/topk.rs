//! The k first-ranked simple paths between two nodes, found by a
//! depth-first enumeration that takes one path length at a time and, at
//! each node, the edges in creation order.

use vstd::prelude::*;
use crate::dto::{GraphPath, MemoryEdge};
use crate::error::GraphStoreError;
use crate::graph::{CubeGraph, Traversal};
use crate::model::{lemma_node_pos, GraphView, Scope};
use crate::shortest::{realizes, table_ok, EdgeEnds};
use crate::walks::lemma_walk_push;

verus! {

/// The first `k` entries of `s`, or all of `s` if it has no more.
pub open spec fn cap<A>(s: Seq<A>, k: nat) -> Seq<A> {
    if s.len() > k {
        s.take(k as int)
    } else {
        s
    }
}

/// Every walk of `ps` with `prefix` put in front.
pub open spec fn prepend_all(prefix: Seq<int>, ps: Seq<Seq<int>>) -> Seq<Seq<int>> {
    Seq::new(ps.len(), |i: int| prefix + ps[i])
}

impl GraphView {
    /// The simple paths from `u` to `t` with exactly `len` edges that enter
    /// no node of `seen`, first-ranked first. A path ends where it first
    /// reaches `t`.
    pub open spec fn paths_exact(self, u: u64, t: u64, q: Scope, seen: Set<u64>, len: nat) -> Seq<
        Seq<int>,
    >
        decreases len, self.edges.len() + 1,
    {
        if len == 0 {
            if u == t {
                seq![Seq::<int>::empty()]
            } else {
                Seq::empty()
            }
        } else if u == t {
            Seq::empty()
        } else {
            self.paths_via(u, t, q, seen, len, self.edges.len())
        }
    }

    /// Those of the paths above whose first edge lies at a position below
    /// `bound`.
    pub open spec fn paths_via(
        self,
        u: u64,
        t: u64,
        q: Scope,
        seen: Set<u64>,
        len: nat,
        bound: nat,
    ) -> Seq<Seq<int>>
        decreases len, bound,
    {
        if bound == 0 || len == 0 || bound > self.edges.len() {
            Seq::empty()
        } else {
            let e = (bound - 1) as int;
            let before = self.paths_via(u, t, q, seen, len, (bound - 1) as nat);
            match self.step(u, e, q) {
                Some(v) => if seen.contains(v) {
                    before
                } else {
                    before + prepend_all(
                        seq![e],
                        self.paths_exact(v, t, q, seen.insert(v), (len - 1) as nat),
                    )
                },
                None => before,
            }
        }
    }

    /// All simple paths from `s` to `t` with at most `depth` edges,
    /// first-ranked first.
    pub open spec fn paths_upto(self, s: u64, t: u64, q: Scope, depth: nat) -> Seq<Seq<int>>
        decreases depth,
    {
        if depth == 0 {
            self.paths_exact(s, t, q, set![s], 0)
        } else {
            self.paths_upto(s, t, q, (depth - 1) as nat) + self.paths_exact(
                s,
                t,
                q,
                set![s],
                depth,
            )
        }
    }

    /// Whether some simple path of exactly `len` edges leads from `u` away,
    /// entering no node of `seen` and not passing `t` before its end.
    pub open spec fn reaches(self, u: u64, t: u64, q: Scope, seen: Set<u64>, len: nat) -> bool
        decreases len, self.edges.len() + 1,
    {
        if len == 0 {
            true
        } else if u == t {
            false
        } else {
            self.reaches_via(u, t, q, seen, len, self.edges.len())
        }
    }

    /// As `reaches`, for paths whose first edge lies at a position below
    /// `bound`.
    pub open spec fn reaches_via(
        self,
        u: u64,
        t: u64,
        q: Scope,
        seen: Set<u64>,
        len: nat,
        bound: nat,
    ) -> bool
        decreases len, bound,
    {
        if bound == 0 || len == 0 || bound > self.edges.len() {
            false
        } else {
            let e = (bound - 1) as int;
            self.reaches_via(u, t, q, seen, len, (bound - 1) as nat) || match self.step(u, e, q) {
                Some(v) => !seen.contains(v) && self.reaches(
                    v,
                    t,
                    q,
                    seen.insert(v),
                    (len - 1) as nat,
                ),
                None => false,
            }
        }
    }

    /// The `k` first-ranked simple paths from `s` to `t` with at most
    /// `max_depth` edges.
    pub open spec fn top_paths(self, s: u64, t: u64, q: Scope, max_depth: nat, k: nat) -> Seq<
        Seq<int>,
    > {
        cap(self.paths_upto(s, t, q, max_depth), k)
    }
}

/// What a query for the k first-ranked paths returns on the graph `g`.
pub open spec fn top_k_post(
    g: GraphView,
    source: u64,
    target: u64,
    q: Scope,
    max_depth: u32,
    k: usize,
    r: Result<Vec<GraphPath>, GraphStoreError>,
) -> bool {
    if k == 0 || (max_depth == 0 && source != target) {
        r matches Err(e) && e == GraphStoreError::InvalidArgument
    } else if !g.visible(source, q.include_deleted) || !g.visible(target, q.include_deleted) {
        r matches Err(e) && e == GraphStoreError::NotFound
    } else {
        r matches Ok(paths) && {
            let top = g.top_paths(source, target, q, max_depth as nat, k as nat);
            &&& paths@.len() == top.len()
            &&& forall|i: int|
                0 <= i < top.len() ==> realizes(#[trigger] paths@[i], g, source, top[i], q)
        }
    }
}

/// A walk kept as a vector of edge positions, as a sequence of integers.
pub open spec fn as_walk(w: Vec<usize>) -> Seq<int> {
    w@.map_values(|x: usize| x as int)
}

/// Walks kept as vectors of edge positions, as sequences of integers.
pub open spec fn as_walks(ws: Seq<Vec<usize>>) -> Seq<Seq<int>> {
    ws.map_values(|w: Vec<usize>| as_walk(w))
}

/// Capping is insensitive to an earlier capping of a prefix, and what
/// follows `k` entries does not matter.
pub proof fn lemma_cap_cap<A>(a: Seq<A>, b: Seq<A>, k: nat)
    ensures
        cap(cap(a, k) + b, k) == cap(a + b, k),
        cap(a, k).len() <= k,
        a.len() >= k ==> cap(a + b, k) == cap(a, k),
{
    assert(cap(cap(a, k) + b, k) =~= cap(a + b, k));
    if a.len() >= k {
        assert(cap(a + b, k) =~= cap(a, k));
    }
}

/// Putting a prefix in front distributes over concatenation and composes.
pub proof fn lemma_prepend_all(prefix: Seq<int>, e: int, a: Seq<Seq<int>>, b: Seq<Seq<int>>)
    ensures
        prepend_all(prefix, a + b) == prepend_all(prefix, a) + prepend_all(prefix, b),
        prepend_all(prefix, prepend_all(seq![e], a)) == prepend_all(prefix.push(e), a),
        prepend_all(prefix, Seq::<Seq<int>>::empty()) == Seq::<Seq<int>>::empty(),
        prepend_all(Seq::<int>::empty(), a) == a,
{
    assert(prepend_all(prefix, a + b) =~= prepend_all(prefix, a) + prepend_all(prefix, b));
    assert forall|i: int| 0 <= i < a.len() implies prepend_all(prefix, prepend_all(seq![e], a))[i]
        == prepend_all(prefix.push(e), a)[i] by {
        assert(prefix + (seq![e] + a[i]) =~= prefix.push(e) + a[i]);
    }
    assert(prepend_all(prefix, prepend_all(seq![e], a)) =~= prepend_all(prefix.push(e), a));
    assert(prepend_all(prefix, Seq::<Seq<int>>::empty()) =~= Seq::<Seq<int>>::empty());
    assert forall|i: int| 0 <= i < a.len() implies prepend_all(Seq::<int>::empty(), a)[i]
        == a[i] by {
        assert(Seq::<int>::empty() + a[i] =~= a[i]);
    }
    assert(prepend_all(Seq::<int>::empty(), a) =~= a);
}

/// Where paths of some length are enumerated, simple paths of every
/// smaller length lead away from the start.
pub proof fn lemma_enumerated_reaches(
    g: GraphView,
    u: u64,
    t: u64,
    q: Scope,
    seen: Set<u64>,
    len: nat,
    longer: nat,
)
    requires
        len <= longer,
        g.paths_exact(u, t, q, seen, longer).len() > 0,
    ensures
        g.reaches(u, t, q, seen, len),
    decreases longer, g.edges.len() + 1,
{
    if len > 0 {
        lemma_enumerated_reaches_via(g, u, t, q, seen, len, longer, g.edges.len());
    }
}

/// As `lemma_enumerated_reaches`, for paths whose first edge lies below a
/// bound.
pub proof fn lemma_enumerated_reaches_via(
    g: GraphView,
    u: u64,
    t: u64,
    q: Scope,
    seen: Set<u64>,
    len: nat,
    longer: nat,
    bound: nat,
)
    requires
        0 < len <= longer,
        g.paths_via(u, t, q, seen, longer, bound).len() > 0,
    ensures
        g.reaches_via(u, t, q, seen, len, bound),
    decreases longer, bound,
{
    let e = (bound - 1) as int;
    let before = g.paths_via(u, t, q, seen, longer, (bound - 1) as nat);
    if before.len() > 0 {
        lemma_enumerated_reaches_via(g, u, t, q, seen, len, longer, (bound - 1) as nat);
    } else {
        let v = g.step(u, e, q).unwrap();
        let inner = g.paths_exact(v, t, q, seen.insert(v), (longer - 1) as nat);
        assert(prepend_all(seq![e], inner).len() == inner.len());
        lemma_enumerated_reaches(g, v, t, q, seen.insert(v), (len - 1) as nat, (longer - 1) as nat);
    }
}

/// Where no simple path of `len` edges leads away from the start, the
/// paths of fewer edges are all there are.
pub proof fn lemma_upto_stops(g: GraphView, s: u64, t: u64, q: Scope, len: nat, depth: nat)
    requires
        0 < len <= depth + 1,
        !g.reaches(s, t, q, set![s], len),
    ensures
        g.paths_upto(s, t, q, depth) == g.paths_upto(s, t, q, (len - 1) as nat),
    decreases depth,
{
    if depth >= len {
        lemma_upto_stops(g, s, t, q, len, (depth - 1) as nat);
        let level = g.paths_exact(s, t, q, set![s], depth);
        if level.len() > 0 {
            lemma_enumerated_reaches(g, s, t, q, set![s], len, depth);
        }
        assert(g.paths_upto(s, t, q, (depth - 1) as nat) + level =~= g.paths_upto(
            s,
            t,
            q,
            (depth - 1) as nat,
        ));
    }
}

/// Copies a vector of positions.
fn copy_positions(v: &Vec<usize>) -> (r: Vec<usize>)
    ensures
        r@ == v@,
{
    let mut out: Vec<usize> = Vec::new();
    let mut i: usize = 0;
    while i < v.len()
        invariant
            i <= v@.len(),
            out@ == v@.take(i as int),
        decreases v@.len() - i,
    {
        out.push(v[i]);
        assert(v@.take(i + 1) =~= v@.take(i as int).push(v@[i as int]));
        i += 1;
    }
    assert(v@.take(i as int) =~= v@);
    out
}

/// A vector of `n` unset marks.
fn no_marks(n: usize) -> (v: Vec<bool>)
    ensures
        v@.len() == n,
        forall|i: int| 0 <= i < n ==> !#[trigger] v@[i],
{
    let mut v: Vec<bool> = Vec::new();
    let mut i: usize = 0;
    while i < n
        invariant
            i <= n,
            v@.len() == i,
            forall|k: int| 0 <= k < i ==> !#[trigger] v@[k],
        decreases n - i,
    {
        v.push(false);
        i += 1;
    }
    v
}

/// The marks tell, for each node position, whether the node is in `seen`.
pub open spec fn marks_ok(g: GraphView, marks: Seq<bool>, seen: Set<u64>) -> bool {
    &&& marks.len() == g.nodes.len()
    &&& forall|p: int| 0 <= p < marks.len() ==> #[trigger] marks[p] == seen.contains(g.nodes[p].id)
}

impl CubeGraph {
    /// Appends to `out`, up to `k` entries in all, the simple paths of
    /// exactly `len` edges from the node at position `at` to the one at
    /// `tp`, each behind `prefix`. Returns `false` only if no simple path
    /// of `len` edges leads away from `at` at all, so that a search for
    /// longer paths is pointless.
    fn collect(
        &self,
        table: &Vec<EdgeEnds>,
        q: &Traversal,
        at: usize,
        tp: usize,
        marks: &mut Vec<bool>,
        prefix: &mut Vec<usize>,
        len: u32,
        k: usize,
        out: &mut Vec<Vec<usize>>,
        Ghost(seen): Ghost<Set<u64>>,
    ) -> (deeper: bool)
        requires
            self.wf(),
            table_ok(self@, q@, table@),
            at < self@.nodes.len(),
            tp < self@.nodes.len(),
            marks_ok(self@, old(marks)@, seen),
            old(out)@.len() <= k,
        ensures
            !deeper ==> !self@.reaches(
                self@.nodes[at as int].id,
                self@.nodes[tp as int].id,
                q@,
                seen,
                len as nat,
            ),
            final(marks)@ == old(marks)@,
            final(prefix)@ == old(prefix)@,
            as_walks(final(out)@) == cap(
                as_walks(old(out)@) + prepend_all(
                    as_walk(*old(prefix)),
                    self@.paths_exact(
                        self@.nodes[at as int].id,
                        self@.nodes[tp as int].id,
                        q@,
                        seen,
                        len as nat,
                    ),
                ),
                k as nat,
            ),
        decreases len,
    {
        let ghost g = self@;
        let ghost u = g.nodes[at as int].id;
        let ghost t = g.nodes[tp as int].id;
        let ghost start = as_walks(out@);
        let ghost pre = as_walk(*prefix);
        proof {
            lemma_node_pos(g, at as int);
            lemma_node_pos(g, tp as int);
            lemma_cap_cap(start, prepend_all(pre, g.paths_exact(u, t, q@, seen, len as nat)), k as nat);
            assert(cap(start, k as nat) =~= start);
        }
        if out.len() >= k {
            return true;
        }
        if len == 0 {
            if at == tp {
                let copy = copy_positions(prefix);
                out.push(copy);
                proof {
                    let one = seq![Seq::<int>::empty()];
                    assert(prepend_all(pre, one) =~= seq![pre]) by {
                        assert(pre + Seq::<int>::empty() =~= pre);
                    }
                    assert(as_walk(copy) == pre);
                    assert(as_walks(out@) =~= start + seq![pre]);
                }
            } else {
                proof {
                    assert(prepend_all(pre, Seq::<Seq<int>>::empty()) =~= Seq::<Seq<int>>::empty());
                    assert(start + Seq::<Seq<int>>::empty() =~= start);
                }
            }
            return true;
        }
        if at == tp {
            proof {
                assert(prepend_all(pre, Seq::<Seq<int>>::empty()) =~= Seq::<Seq<int>>::empty());
                assert(start + Seq::<Seq<int>>::empty() =~= start);
            }
            return false;
        }
        let mut deeper = false;
        let mut e: usize = 0;
        proof {
            assert(prepend_all(pre, g.paths_via(u, t, q@, seen, len as nat, 0)) =~= Seq::<
                Seq<int>,
            >::empty());
            assert(start + Seq::<Seq<int>>::empty() =~= start);
        }
        while e < table.len()
            invariant
                self.wf(),
                g == self@,
                table_ok(g, q@, table@),
                at < g.nodes.len(),
                tp < g.nodes.len(),
                u == g.nodes[at as int].id,
                t == g.nodes[tp as int].id,
                len > 0,
                e <= table@.len(),
                marks@ == old(marks)@,
                marks_ok(g, marks@, seen),
                prefix@ == old(prefix)@,
                pre == as_walk(*old(prefix)),
                start.len() <= k,
                as_walks(out@) == cap(
                    start + prepend_all(pre, g.paths_via(u, t, q@, seen, len as nat, e as nat)),
                    k as nat,
                ),
                !deeper ==> !g.reaches_via(u, t, q@, seen, len as nat, e as nat),
            decreases table@.len() - e,
        {
            let ghost sofar = g.paths_via(u, t, q@, seen, len as nat, e as nat);
            let hop = self.step_pos(table, at, e, q);
            let mut entered: Option<usize> = None;
            match hop {
                Some(vp) => {
                    if !marks[vp] {
                        entered = Some(vp);
                    }
                },
                None => {},
            }
            match entered {
                Some(vp) => {
                    let ghost v = g.nodes[vp as int].id;
                    let ghost inner = g.paths_exact(v, t, q@, seen.insert(v), (len - 1) as nat);
                    let ghost marks0 = marks@;
                    marks.set(vp, true);
                    prefix.push(e);
                    proof {
                        lemma_cap_cap(start + prepend_all(pre, sofar), Seq::<Seq<int>>::empty(), k as nat);
                        assert forall|p: int| 0 <= p < marks@.len() implies #[trigger] marks@[p]
                            == seen.insert(v).contains(g.nodes[p].id) by {
                            lemma_node_pos(g, p);
                            lemma_node_pos(g, vp as int);
                        }
                        assert(as_walk(*prefix) =~= pre.push(e as int));
                    }
                    let further = self.collect(
                        table,
                        q,
                        vp,
                        tp,
                        marks,
                        prefix,
                        len - 1,
                        k,
                        out,
                        Ghost(seen.insert(v)),
                    );
                    if further {
                        deeper = true;
                    }
                    prefix.pop();
                    marks.set(vp, false);
                    proof {
                        assert(marks@ =~= marks0);
                        assert(prefix@ =~= old(prefix)@);
                        lemma_prepend_all(pre, e as int, inner, Seq::<Seq<int>>::empty());
                        lemma_prepend_all(
                            pre,
                            e as int,
                            sofar,
                            prepend_all(seq![e as int], inner),
                        );
                        lemma_cap_cap(
                            start + prepend_all(pre, sofar),
                            prepend_all(pre.push(e as int), inner),
                            k as nat,
                        );
                        assert(start + prepend_all(pre, sofar) + prepend_all(
                            pre.push(e as int),
                            inner,
                        ) =~= start + (prepend_all(pre, sofar) + prepend_all(
                            pre.push(e as int),
                            inner,
                        )));
                        assert(g.paths_via(u, t, q@, seen, len as nat, (e + 1) as nat) == sofar
                            + prepend_all(seq![e as int], inner));
                    }
                },
                None => {
                    proof {
                        assert(g.paths_via(u, t, q@, seen, len as nat, (e + 1) as nat) == sofar);
                    }
                },
            }
            e += 1;
        }
        deeper
    }
}

/// Every enumerated path is a walk from `u` to `t` with exactly `len` edges.
pub proof fn lemma_paths_sound(g: GraphView, u: u64, t: u64, q: Scope, seen: Set<u64>, len: nat)
    ensures
        forall|i: int|
            0 <= i < g.paths_exact(u, t, q, seen, len).len() ==> g.is_walk(
                u,
                #[trigger] g.paths_exact(u, t, q, seen, len)[i],
                t,
                q,
            ) && g.paths_exact(u, t, q, seen, len)[i].len() == len,
    decreases len, g.edges.len() + 1,
{
    let all = g.paths_exact(u, t, q, seen, len);
    if len == 0 {
        if u == t {
            assert(all.len() == 1);
            assert(all[0] == Seq::<int>::empty());
            assert(g.is_walk(u, Seq::<int>::empty(), t, q));
        }
    } else if u != t {
        lemma_paths_via_sound(g, u, t, q, seen, len, g.edges.len());
        assert(all == g.paths_via(u, t, q, seen, len, g.edges.len()));
    }
}

/// Every path enumerated up to a bound is a walk from `u` to `t` with
/// exactly `len` edges.
pub proof fn lemma_paths_via_sound(
    g: GraphView,
    u: u64,
    t: u64,
    q: Scope,
    seen: Set<u64>,
    len: nat,
    bound: nat,
)
    ensures
        forall|i: int|
            0 <= i < g.paths_via(u, t, q, seen, len, bound).len() ==> g.is_walk(
                u,
                #[trigger] g.paths_via(u, t, q, seen, len, bound)[i],
                t,
                q,
            ) && g.paths_via(u, t, q, seen, len, bound)[i].len() == len,
    decreases len, bound,
{
    if bound == 0 || len == 0 || bound > g.edges.len() {
    } else {
        let e = (bound - 1) as int;
        let before = g.paths_via(u, t, q, seen, len, (bound - 1) as nat);
        lemma_paths_via_sound(g, u, t, q, seen, len, (bound - 1) as nat);
        match g.step(u, e, q) {
            Some(v) => {
                if !seen.contains(v) {
                    let inner = g.paths_exact(v, t, q, seen.insert(v), (len - 1) as nat);
                    lemma_paths_sound(g, v, t, q, seen.insert(v), (len - 1) as nat);
                    let all = g.paths_via(u, t, q, seen, len, bound);
                    assert forall|i: int| 0 <= i < all.len() implies g.is_walk(
                        u,
                        #[trigger] all[i],
                        t,
                        q,
                    ) && all[i].len() == len by {
                        if i >= before.len() {
                            let p = inner[i - before.len()];
                            assert(all[i] == seq![e] + p);
                            crate::shortest::lemma_walk_cons(g, u, e, v, p, t, q);
                        } else {
                            assert(all[i] == before[i]);
                        }
                    }
                }
            },
            None => {},
        }
    }
}

/// Every path listed up to a depth is a walk from `s` to `t` with at most
/// that many edges, and the list is in order of length.
pub proof fn lemma_upto_sound(g: GraphView, s: u64, t: u64, q: Scope, depth: nat)
    ensures
        forall|i: int|
            0 <= i < g.paths_upto(s, t, q, depth).len() ==> g.is_walk(
                s,
                #[trigger] g.paths_upto(s, t, q, depth)[i],
                t,
                q,
            ) && g.paths_upto(s, t, q, depth)[i].len() <= depth,
        forall|i: int, j: int|
            0 <= i < j < g.paths_upto(s, t, q, depth).len() ==> (#[trigger] g.paths_upto(
                s,
                t,
                q,
                depth,
            )[i]).len() <= (#[trigger] g.paths_upto(s, t, q, depth)[j]).len(),
    decreases depth,
{
    lemma_paths_sound(g, s, t, q, set![s], depth);
    let all = g.paths_upto(s, t, q, depth);
    let level = g.paths_exact(s, t, q, set![s], depth);
    if depth > 0 {
        lemma_upto_sound(g, s, t, q, (depth - 1) as nat);
        let before = g.paths_upto(s, t, q, (depth - 1) as nat);
        assert(all == before + level);
        assert forall|i: int| 0 <= i < all.len() implies g.is_walk(s, #[trigger] all[i], t, q)
            && all[i].len() <= depth && (i < before.len() ==> all[i].len() < depth) && (i
            >= before.len() ==> all[i].len() == depth) by {
            if i < before.len() {
                assert(all[i] == before[i]);
            } else {
                assert(all[i] == level[i - before.len()]);
            }
        }
        assert forall|i: int, j: int| 0 <= i < j < all.len() implies (#[trigger] all[i]).len() <= (
        #[trigger] all[j]).len() by {
            if j < before.len() {
                assert(all[i] == before[i]);
                assert(all[j] == before[j]);
            }
        }
    } else {
        assert(all == level);
    }
}

/// Once `k` paths are listed, a larger depth bound does not change the
/// first `k`.
pub proof fn lemma_upto_extends(g: GraphView, s: u64, t: u64, q: Scope, d: nat, m: nat, k: nat)
    requires
        d <= m,
        g.paths_upto(s, t, q, d).len() >= k,
    ensures
        cap(g.paths_upto(s, t, q, m), k) == cap(g.paths_upto(s, t, q, d), k),
        g.paths_upto(s, t, q, m).len() >= k,
    decreases m - d,
{
    if d < m {
        lemma_upto_extends(g, s, t, q, d, (m - 1) as nat, k);
        lemma_cap_cap(
            g.paths_upto(s, t, q, (m - 1) as nat),
            g.paths_exact(s, t, q, set![s], m),
            k,
        );
    }
}

impl CubeGraph {
    /// The nodes and edges along a walk.
    fn path_of(&self, source: u64, walk: &Vec<usize>, q: &Traversal) -> (p: GraphPath)
        requires
            self.wf(),
            self@.walk_end(source, as_walk(*walk), q@).is_some(),
        ensures
            realizes(p, self@, source, as_walk(*walk), q@),
    {
        let ghost g = self@;
        let ghost w = as_walk(*walk);
        proof {
            self.lemma_view();
        }
        let mut node_ids: Vec<u64> = Vec::new();
        node_ids.push(source);
        let mut edges: Vec<MemoryEdge> = Vec::new();
        let mut cur: u64 = source;
        let mut i: usize = 0;
        proof {
            assert(w.take(0) =~= Seq::<int>::empty());
            assert(node_ids@ =~= g.walk_nodes(source, w.take(0), q@));
            assert(edges@.map_values(|e: MemoryEdge| e@) =~= g.walk_edges(w.take(0)));
        }
        while i < walk.len()
            invariant
                self.wf(),
                g == self@,
                w == as_walk(*walk),
                g.walk_end(source, w, q@).is_some(),
                self@.edges.len() == self.edges@.len(),
                forall|k: int|
                    0 <= k < self.edges@.len() ==> #[trigger] self@.edges[k] == self.edges@[k]@,
                i <= walk@.len(),
                g.walk_end(source, w.take(i as int), q@) == Some(cur),
                node_ids@ == g.walk_nodes(source, w.take(i as int), q@),
                edges@.map_values(|e: MemoryEdge| e@) == g.walk_edges(w.take(i as int)),
            decreases walk@.len() - i,
        {
            let e = walk[i];
            let ghost head = w.take(i as int);
            let ghost shown = edges@.map_values(|x: MemoryEdge| x@);
            proof {
                assert(w[i as int] == e as int);
                assert(w.take(i + 1) =~= head.push(e as int));
                assert(w =~= w.take(i + 1) + w.skip(i + 1));
                crate::walks::lemma_walk_concat(g, source, w.take(i + 1), w.skip(i + 1), q@);
                lemma_walk_push(g, source, head, e as int, q@);
                assert(g.step(cur, e as int, q@).is_some());
                assert(g.walk_edges(head.push(e as int)) =~= g.walk_edges(head).push(
                    g.edges[e as int],
                ));
            }
            let hop = self.step_from(cur, e, q);
            match hop {
                Some(v) => {
                    node_ids.push(v);
                    cur = v;
                },
                None => {},
            }
            edges.push(self.edges[e].duplicate());
            proof {
                assert(edges@.map_values(|x: MemoryEdge| x@) =~= shown.push(g.edges[e as int]));
            }
            i += 1;
        }
        proof {
            assert(w.take(i as int) =~= w);
        }
        GraphPath { node_ids, edges }
    }

    /// Up to `k` simple paths from `source` to `target` with at most
    /// `max_depth` edges: shorter paths first, and among paths of one
    /// length the one first that, where two part, follows the edge that was
    /// created earlier. The search stops as soon as `k` paths are found.
    pub fn top_k_paths(
        &self,
        source: u64,
        target: u64,
        q: &Traversal,
        max_depth: u32,
        k: usize,
    ) -> (r: Result<Vec<GraphPath>, GraphStoreError>)
        requires
            self.wf(),
        ensures
            top_k_post(self@, source, target, q@, max_depth, k, r),
    {
        if k == 0 || (max_depth == 0 && source != target) {
            return Err(GraphStoreError::InvalidArgument);
        }
        if !self.is_visible(source, q.include_deleted) || !self.is_visible(
            target,
            q.include_deleted,
        ) {
            return Err(GraphStoreError::NotFound);
        }
        let ghost g = self@;
        let ghost seen = set![source];
        let sp = match self.find_node(source) {
            Some(i) => i,
            None => 0,
        };
        let tp = match self.find_node(target) {
            Some(i) => i,
            None => 0,
        };
        let table = self.edge_table(q);
        let mut marks = no_marks(self.node_count());
        marks.set(sp, true);
        proof {
            assert forall|p: int| 0 <= p < marks@.len() implies #[trigger] marks@[p]
                == seen.contains(g.nodes[p].id) by {
                lemma_node_pos(g, p);
                lemma_node_pos(g, sp as int);
            }
        }
        let mut prefix: Vec<usize> = Vec::new();
        let mut out: Vec<Vec<usize>> = Vec::new();
        let mut len: u32 = 0;
        let mut deeper = self.collect(
            &table,
            q,
            sp,
            tp,
            &mut marks,
            &mut prefix,
            0,
            k,
            &mut out,
            Ghost(seen),
        );
        proof {
            assert(as_walks(out@).len() == out@.len());
            lemma_cap_cap(g.paths_exact(source, target, q@, seen, 0), Seq::empty(), k as nat);
            assert(as_walk(prefix) =~= Seq::<int>::empty());
            lemma_prepend_all(Seq::<int>::empty(), 0, g.paths_exact(source, target, q@, seen, 0), Seq::empty());
            assert(as_walks(Seq::<Vec<usize>>::empty()) =~= Seq::<Seq<int>>::empty());
            assert(Seq::<Seq<int>>::empty() + g.paths_exact(source, target, q@, seen, 0)
                =~= g.paths_exact(source, target, q@, seen, 0));
        }
        while len < max_depth && out.len() < k && deeper
            invariant
                self.wf(),
                g == self@,
                seen == set![source],
                table_ok(g, q@, table@),
                sp < g.nodes.len(),
                tp < g.nodes.len(),
                g.nodes[sp as int].id == source,
                g.nodes[tp as int].id == target,
                marks_ok(g, marks@, seen),
                prefix@.len() == 0,
                len <= max_depth,
                out@.len() <= k,
                as_walks(out@) == cap(g.paths_upto(source, target, q@, len as nat), k as nat),
                !deeper ==> len > 0 && !g.reaches(source, target, q@, seen, len as nat),
            decreases max_depth - len,
        {
            len += 1;
            let ghost before = g.paths_upto(source, target, q@, (len - 1) as nat);
            let ghost level = g.paths_exact(source, target, q@, seen, len as nat);
            deeper = self.collect(
                &table,
                q,
                sp,
                tp,
                &mut marks,
                &mut prefix,
                len,
                k,
                &mut out,
                Ghost(seen),
            );
            proof {
                assert(as_walk(prefix) =~= Seq::<int>::empty());
                lemma_prepend_all(Seq::<int>::empty(), 0, level, Seq::empty());
                lemma_cap_cap(before, level, k as nat);
                lemma_cap_cap(before + level, Seq::empty(), k as nat);
                assert(as_walks(out@).len() == out@.len());
            }
        }
        proof {
            lemma_cap_cap(g.paths_upto(source, target, q@, len as nat), Seq::empty(), k as nat);
            if len < max_depth {
                if !deeper {
                    lemma_upto_stops(g, source, target, q@, len as nat, max_depth as nat);
                    lemma_upto_stops(g, source, target, q@, len as nat, len as nat);
                } else {
                    lemma_upto_extends(
                        g,
                        source,
                        target,
                        q@,
                        len as nat,
                        max_depth as nat,
                        k as nat,
                    );
                }
            }
            lemma_upto_sound(g, source, target, q@, max_depth as nat);
        }
        let ghost top = g.top_paths(source, target, q@, max_depth as nat, k as nat);
        let mut paths: Vec<GraphPath> = Vec::new();
        let mut i: usize = 0;
        while i < out.len()
            invariant
                self.wf(),
                g == self@,
                i <= out@.len(),
                top == g.top_paths(source, target, q@, max_depth as nat, k as nat),
                as_walks(out@) == top,
                forall|j: int|
                    0 <= j < top.len() ==> g.walk_end(source, #[trigger] top[j], q@).is_some(),
                paths@.len() == i,
                forall|j: int| 0 <= j < i ==> realizes(#[trigger] paths@[j], g, source, top[j], q@),
            decreases out@.len() - i,
        {
            assert(as_walks(out@)[i as int] == as_walk(out@[i as int]));
            let path = self.path_of(source, &out[i], q);
            paths.push(path);
            i += 1;
        }
        Ok(paths)
    }
}

} // verus!
