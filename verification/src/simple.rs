//! Facts about the enumeration of simple paths: it lists every simple path
//! once, in ranking order, and a first-ranked walk is a simple path.

use vstd::prelude::*;
use crate::model::{GraphView, Scope};
use crate::shortest::lemma_walk_first;
use crate::topk::{lemma_paths_sound, lemma_paths_via_sound, prepend_all};
use crate::walks::{lemma_lex_cons, lemma_walk_concat, lex_lt};

verus! {

impl GraphView {
    /// The walk `p` from `u` can be taken and enters no node of `seen` and
    /// no node twice.
    pub open spec fn avoids(self, u: u64, p: Seq<int>, q: Scope, seen: Set<u64>) -> bool
        decreases p.len(),
    {
        if p.len() == 0 {
            true
        } else {
            match self.step(u, p[0], q) {
                Some(v) => !seen.contains(v) && self.avoids(v, p.drop_first(), q, seen.insert(v)),
                None => false,
            }
        }
    }

    /// The node reached after the first `i` edges of the walk `p` from `u`.
    pub open spec fn node_at(self, u: u64, p: Seq<int>, q: Scope, i: int) -> u64 {
        self.walk_end(u, p.take(i), q).unwrap()
    }
}

/// A walk that avoids `seen` ends outside `seen`, unless it has no edges.
pub proof fn lemma_avoids_end(g: GraphView, u: u64, p: Seq<int>, q: Scope, seen: Set<u64>)
    requires
        g.avoids(u, p, q, seen),
        p.len() > 0,
    ensures
        g.walk_end(u, p, q).is_some(),
        !seen.contains(g.walk_end(u, p, q).unwrap()),
    decreases p.len(),
{
    let v = g.step(u, p[0], q).unwrap();
    let rest = p.drop_first();
    assert(g.step(u, p[0], q).is_some());
    assert(!seen.contains(v) && g.avoids(v, rest, q, seen.insert(v)));
    assert(g.walk_end(u, p, q) == g.walk_end(v, rest, q));
    if rest.len() > 0 {
        lemma_avoids_end(g, v, rest, q, seen.insert(v));
    } else {
        assert(g.walk_end(v, rest, q) == Some(v));
    }
}

/// The enumeration lists every simple path.
pub proof fn lemma_paths_complete(
    g: GraphView,
    u: u64,
    t: u64,
    q: Scope,
    seen: Set<u64>,
    p: Seq<int>,
)
    requires
        g.is_walk(u, p, t, q),
        g.avoids(u, p, q, seen),
        seen.contains(u),
    ensures
        g.paths_exact(u, t, q, seen, p.len()).contains(p),
    decreases p.len(), g.edges.len() + 1,
{
    if p.len() == 0 {
        assert(p =~= Seq::<int>::empty());
        assert(g.paths_exact(u, t, q, seen, 0)[0] == p);
    } else {
        lemma_avoids_end(g, u, p, q, seen);
        assert(u != t);
        lemma_walk_first(g, u, p, t, q);
        lemma_via_complete(g, u, t, q, seen, p, g.edges.len());
    }
}

/// The enumeration up to a bound lists every simple path whose first edge
/// lies below the bound.
pub proof fn lemma_via_complete(
    g: GraphView,
    u: u64,
    t: u64,
    q: Scope,
    seen: Set<u64>,
    p: Seq<int>,
    bound: nat,
)
    requires
        g.is_walk(u, p, t, q),
        g.avoids(u, p, q, seen),
        seen.contains(u),
        p.len() > 0,
        p[0] < bound <= g.edges.len(),
    ensures
        g.paths_via(u, t, q, seen, p.len(), bound).contains(p),
    decreases p.len(), bound,
{
    let e = (bound - 1) as int;
    let before = g.paths_via(u, t, q, seen, p.len(), (bound - 1) as nat);
    let all = g.paths_via(u, t, q, seen, p.len(), bound);
    if p[0] < e {
        lemma_via_complete(g, u, t, q, seen, p, (bound - 1) as nat);
        let i = choose|i: int| 0 <= i < before.len() && before[i] == p;
        assert(all[i] == p);
    } else {
        let v = g.step(u, e, q).unwrap();
        let rest = p.drop_first();
        let inner = g.paths_exact(v, t, q, seen.insert(v), (p.len() - 1) as nat);
        lemma_walk_first(g, u, p, t, q);
        lemma_paths_complete(g, v, t, q, seen.insert(v), rest);
        let i = choose|i: int| 0 <= i < inner.len() && inner[i] == rest;
        assert(seq![e] + rest =~= p);
        assert(prepend_all(seq![e], inner)[i] == p);
        assert(all[before.len() + i] == p);
    }
}

/// The enumeration is in ranking order.
pub proof fn lemma_paths_ordered(g: GraphView, u: u64, t: u64, q: Scope, seen: Set<u64>, len: nat)
    ensures
        forall|i: int, j: int|
            0 <= i < j < g.paths_exact(u, t, q, seen, len).len() ==> lex_lt(
                #[trigger] g.paths_exact(u, t, q, seen, len)[i],
                #[trigger] g.paths_exact(u, t, q, seen, len)[j],
            ),
    decreases len, g.edges.len() + 1,
{
    let all = g.paths_exact(u, t, q, seen, len);
    if len == 0 {
        assert(all.len() <= 1);
    } else if u != t {
        lemma_via_ordered(g, u, t, q, seen, len, g.edges.len());
        assert(all == g.paths_via(u, t, q, seen, len, g.edges.len()));
    } else {
        assert(all.len() == 0);
    }
}

/// The enumeration up to a bound is in ranking order, and its paths start
/// with an edge below the bound.
pub proof fn lemma_via_ordered(
    g: GraphView,
    u: u64,
    t: u64,
    q: Scope,
    seen: Set<u64>,
    len: nat,
    bound: nat,
)
    requires
        len > 0,
    ensures
        forall|i: int, j: int|
            0 <= i < j < g.paths_via(u, t, q, seen, len, bound).len() ==> lex_lt(
                #[trigger] g.paths_via(u, t, q, seen, len, bound)[i],
                #[trigger] g.paths_via(u, t, q, seen, len, bound)[j],
            ),
        forall|i: int|
            0 <= i < g.paths_via(u, t, q, seen, len, bound).len() ==> (#[trigger] g.paths_via(
                u,
                t,
                q,
                seen,
                len,
                bound,
            )[i]).len() == len && g.paths_via(u, t, q, seen, len, bound)[i][0] < bound,
    decreases len, bound,
{
    let all = g.paths_via(u, t, q, seen, len, bound);
    lemma_paths_via_sound(g, u, t, q, seen, len, bound);
    if bound == 0 || bound > g.edges.len() {
    } else {
        let e = (bound - 1) as int;
        let before = g.paths_via(u, t, q, seen, len, (bound - 1) as nat);
        lemma_via_ordered(g, u, t, q, seen, len, (bound - 1) as nat);
        match g.step(u, e, q) {
            Some(v) => {
                if !seen.contains(v) {
                    let inner = g.paths_exact(v, t, q, seen.insert(v), (len - 1) as nat);
                    lemma_paths_ordered(g, v, t, q, seen.insert(v), (len - 1) as nat);
                    lemma_paths_sound(g, v, t, q, seen.insert(v), (len - 1) as nat);
                    let fresh = prepend_all(seq![e], inner);
                    assert(all == before + fresh);
                    assert forall|i: int| 0 <= i < all.len() implies (#[trigger] all[i]).len()
                        == len && all[i][0] < bound by {
                        if i >= before.len() {
                            assert(all[i] == seq![e] + inner[i - before.len()]);
                        } else {
                            assert(all[i] == before[i]);
                        }
                    }
                    assert forall|i: int, j: int| 0 <= i < j < all.len() implies lex_lt(
                        #[trigger] all[i],
                        #[trigger] all[j],
                    ) by {
                        if j < before.len() {
                            assert(all[i] == before[i] && all[j] == before[j]);
                        } else if i < before.len() {
                            assert(all[i] == before[i]);
                            assert(all[j] == seq![e] + inner[j - before.len()]);
                            assert(all[i][0] < all[j][0]);
                        } else {
                            let a = inner[i - before.len()];
                            let b = inner[j - before.len()];
                            assert(all[i] == seq![e] + a);
                            assert(all[j] == seq![e] + b);
                            lemma_lex_cons(e, a, e, b);
                        }
                    }
                }
            },
            None => {},
        }
    }
}

/// The node after `i + 1` edges of a walk is the node after `i` edges of
/// what follows its first step.
pub proof fn lemma_node_at_shift(g: GraphView, u: u64, p: Seq<int>, q: Scope, i: int)
    requires
        p.len() > 0,
        0 <= i < p.len(),
        g.step(u, p[0], q).is_some(),
    ensures
        g.walk_end(u, p.take(i + 1), q) == g.walk_end(
            g.step(u, p[0], q).unwrap(),
            p.drop_first().take(i),
            q,
        ),
{
    let head = p.take(i + 1);
    assert(head[0] == p[0]);
    assert(head.drop_first() =~= p.drop_first().take(i));
}

/// Every prefix of a walk that can be taken can be taken.
pub proof fn lemma_prefix_walks(g: GraphView, u: u64, p: Seq<int>, q: Scope, i: int)
    requires
        g.walk_end(u, p, q).is_some(),
        0 <= i <= p.len(),
    ensures
        g.walk_end(u, p.take(i), q).is_some(),
        g.walk_end(g.node_at(u, p, q, i), p.skip(i), q) == g.walk_end(u, p, q),
{
    assert(p =~= p.take(i) + p.skip(i));
    lemma_walk_concat(g, u, p.take(i), p.skip(i), q);
}

/// A walk that enters no node of `seen` and no node twice avoids `seen`.
pub proof fn lemma_distinct_avoids(g: GraphView, u: u64, p: Seq<int>, q: Scope, seen: Set<u64>)
    requires
        g.walk_end(u, p, q).is_some(),
        forall|i: int| 1 <= i <= p.len() ==> !seen.contains(#[trigger] g.node_at(u, p, q, i)),
        forall|i: int, j: int|
            1 <= i < j <= p.len() ==> #[trigger] g.node_at(u, p, q, i) != #[trigger] g.node_at(
                u,
                p,
                q,
                j,
            ),
    ensures
        g.avoids(u, p, q, seen),
    decreases p.len(),
{
    if p.len() > 0 {
        let v = g.step(u, p[0], q).unwrap();
        let rest = p.drop_first();
        assert forall|i: int| 0 <= i <= rest.len() implies g.node_at(v, rest, q, i) == g.node_at(
            u,
            p,
            q,
            i + 1,
        ) by {
            if i < rest.len() {
                lemma_node_at_shift(g, u, p, q, i);
            } else {
                assert(p.take(i + 1) =~= p);
                assert(rest.take(i) =~= rest);
            }
        }
        assert(g.node_at(u, p, q, 1) == v) by {
            assert(rest.take(0) =~= Seq::<int>::empty());
            assert(g.node_at(v, rest, q, 0) == v);
        }
        assert forall|i: int| 1 <= i <= rest.len() implies !seen.insert(v).contains(
            #[trigger] g.node_at(v, rest, q, i),
        ) by {
            assert(g.node_at(v, rest, q, i) == g.node_at(u, p, q, i + 1));
            assert(g.node_at(u, p, q, 1) != g.node_at(u, p, q, i + 1));
        }
        assert forall|i: int, j: int| 1 <= i < j <= rest.len() implies #[trigger] g.node_at(
            v,
            rest,
            q,
            i,
        ) != #[trigger] g.node_at(v, rest, q, j) by {
            assert(g.node_at(v, rest, q, i) == g.node_at(u, p, q, i + 1));
            assert(g.node_at(v, rest, q, j) == g.node_at(u, p, q, j + 1));
        }
        lemma_distinct_avoids(g, v, rest, q, seen.insert(v));
    }
}

/// A walk that no other walk between the same two nodes undercuts in
/// length enters no node twice and never returns to its start.
pub proof fn lemma_shortest_is_simple(g: GraphView, s: u64, t: u64, q: Scope, w: Seq<int>)
    requires
        g.is_walk(s, w, t, q),
        forall|o: Seq<int>| #[trigger] g.is_walk(s, o, t, q) ==> w.len() <= o.len(),
    ensures
        g.avoids(s, w, q, set![s]),
{
    assert(w.take(0) =~= Seq::<int>::empty());
    assert(g.node_at(s, w, q, 0) == s);
    assert forall|i: int, j: int| 0 <= i < j <= w.len() implies g.node_at(s, w, q, i) != g.node_at(
        s,
        w,
        q,
        j,
    ) by {
        if g.node_at(s, w, q, i) == g.node_at(s, w, q, j) {
            lemma_prefix_walks(g, s, w, q, i);
            lemma_prefix_walks(g, s, w, q, j);
            let cut = w.take(i) + w.skip(j);
            lemma_walk_concat(g, s, w.take(i), w.skip(j), q);
            assert(g.is_walk(s, cut, t, q));
            assert(cut.len() < w.len());
        }
    }
    assert forall|i: int| 1 <= i <= w.len() implies !set![s].contains(
        #[trigger] g.node_at(s, w, q, i),
    ) by {
        assert(g.node_at(s, w, q, 0) != g.node_at(s, w, q, i));
    }
    lemma_distinct_avoids(g, s, w, q, set![s]);
}

} // verus!
