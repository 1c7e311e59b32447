//! Facts about walks and the order in which paths are ranked: shorter
//! first, and among walks of one length the one whose first differing edge
//! was created earlier.

use vstd::prelude::*;
use crate::model::{GraphView, Scope};

verus! {

/// Among sequences of one length: `a` comes before `b` when, at the first
/// place where they differ, `a` holds the smaller entry.
pub open spec fn lex_lt(a: Seq<int>, b: Seq<int>) -> bool {
    exists|k: int|
        0 <= k < a.len() && k < b.len() && #[trigger] a[k] < b[k] && forall|j: int|
            0 <= j < k ==> a[j] == b[j]
}

/// `a` ranks strictly before `b`.
pub open spec fn path_lt(a: Seq<int>, b: Seq<int>) -> bool {
    a.len() < b.len() || (a.len() == b.len() && lex_lt(a, b))
}

/// `a` ranks before `b` or is `b`.
pub open spec fn path_le(a: Seq<int>, b: Seq<int>) -> bool {
    a == b || path_lt(a, b)
}

/// `p` does not rank after the first `p.len()` edges of `o`.
pub open spec fn prefix_le(p: Seq<int>, o: Seq<int>) -> bool {
    p.len() <= o.len() && (lex_lt(p, o.take(p.len() as int)) || p == o.take(p.len() as int))
}

/// Of two sequences at most one comes before the other.
pub proof fn lemma_lex_lt_asym(a: Seq<int>, b: Seq<int>)
    requires
        lex_lt(a, b),
    ensures
        !lex_lt(b, a),
        a != b,
{
    let k = choose|k: int|
        0 <= k < a.len() && k < b.len() && #[trigger] a[k] < b[k] && forall|j: int|
            0 <= j < k ==> a[j] == b[j];
    if lex_lt(b, a) {
        let m = choose|m: int|
            0 <= m < b.len() && m < a.len() && #[trigger] b[m] < a[m] && forall|j: int|
                0 <= j < m ==> b[j] == a[j];
        if m < k {
            assert(a[m] == b[m]);
        } else if k < m {
            assert(b[k] == a[k]);
        }
    }
}

/// Coming before carries over.
pub proof fn lemma_lex_lt_trans(a: Seq<int>, b: Seq<int>, c: Seq<int>)
    requires
        lex_lt(a, b),
        lex_lt(b, c),
    ensures
        lex_lt(a, c),
{
    let k = choose|k: int|
        0 <= k < a.len() && k < b.len() && #[trigger] a[k] < b[k] && forall|j: int|
            0 <= j < k ==> a[j] == b[j];
    let m = choose|m: int|
        0 <= m < b.len() && m < c.len() && #[trigger] b[m] < c[m] && forall|j: int|
            0 <= j < m ==> b[j] == c[j];
    let n = if k <= m {
        k
    } else {
        m
    };
    assert(a[n] < c[n]) by {
        if k < m {
            assert(b[k] == c[k]);
        } else if m < k {
            assert(a[m] == b[m]);
        }
    }
    assert forall|j: int| 0 <= j < n implies a[j] == c[j] by {
        assert(a[j] == b[j]);
        assert(b[j] == c[j]);
    }
}

/// Two different sequences of one length are ordered one way or the other.
pub proof fn lemma_lex_total(a: Seq<int>, b: Seq<int>)
    requires
        a.len() == b.len(),
        a != b,
    ensures
        lex_lt(a, b) || lex_lt(b, a),
    decreases a.len(),
{
    if a.len() == 0 {
        assert(a =~= b);
    } else if a[0] < b[0] {
        assert(a[0] < b[0]);
    } else if b[0] < a[0] {
        assert(b[0] < a[0]);
    } else {
        let a1 = a.drop_first();
        let b1 = b.drop_first();
        if a1 == b1 {
            assert(a =~= seq![a[0]] + a1);
            assert(b =~= seq![b[0]] + b1);
        }
        lemma_lex_total(a1, b1);
        if lex_lt(a1, b1) {
            lemma_lex_cons(a[0], a1, b[0], b1);
            assert(a =~= seq![a[0]] + a1);
            assert(b =~= seq![b[0]] + b1);
        } else {
            lemma_lex_cons(b[0], b1, a[0], a1);
            assert(a =~= seq![a[0]] + a1);
            assert(b =~= seq![b[0]] + b1);
        }
    }
}

/// Ranking of two sequences that each start with one more entry.
pub proof fn lemma_lex_cons(x: int, a: Seq<int>, y: int, b: Seq<int>)
    ensures
        lex_lt(seq![x] + a, seq![y] + b) <==> (x < y || (x == y && lex_lt(a, b))),
{
    let xa = seq![x] + a;
    let yb = seq![y] + b;
    if lex_lt(xa, yb) {
        let k = choose|k: int|
            0 <= k < xa.len() && k < yb.len() && #[trigger] xa[k] < yb[k] && forall|j: int|
                0 <= j < k ==> xa[j] == yb[j];
        if k > 0 {
            assert(xa[0] == yb[0]);
            assert(a[k - 1] == xa[k]);
            assert(b[k - 1] == yb[k]);
            assert forall|j: int| 0 <= j < k - 1 implies a[j] == b[j] by {
                assert(xa[j + 1] == yb[j + 1]);
            }
            assert(a[k - 1] < b[k - 1]);
        }
    }
    if x < y {
        assert(xa[0] < yb[0]);
    }
    if x == y && lex_lt(a, b) {
        let k = choose|k: int|
            0 <= k < a.len() && k < b.len() && #[trigger] a[k] < b[k] && forall|j: int|
                0 <= j < k ==> a[j] == b[j];
        assert(xa[k + 1] == a[k] && yb[k + 1] == b[k]);
        assert forall|j: int| 0 <= j < k + 1 implies xa[j] == yb[j] by {
            if j > 0 {
                assert(a[j - 1] == b[j - 1]);
            }
        }
        assert(xa[k + 1] < yb[k + 1]);
    }
}

/// Of two paths at most one ranks before the other.
pub proof fn lemma_path_lt_asym(a: Seq<int>, b: Seq<int>)
    requires
        path_lt(a, b),
    ensures
        !path_lt(b, a),
        a != b,
{
    if a.len() == b.len() {
        lemma_lex_lt_asym(a, b);
    }
}

/// Ranking carries over.
pub proof fn lemma_path_lt_trans(a: Seq<int>, b: Seq<int>, c: Seq<int>)
    requires
        path_lt(a, b),
        path_lt(b, c),
    ensures
        path_lt(a, c),
{
    if a.len() == b.len() && b.len() == c.len() {
        lemma_lex_lt_trans(a, b, c);
    }
}

/// The ranking is antisymmetric, so at most one walk ranks first.
pub proof fn lemma_path_le_antisym(a: Seq<int>, b: Seq<int>)
    requires
        path_le(a, b),
        path_le(b, a),
    ensures
        a == b,
{
    if a != b {
        lemma_path_lt_asym(a, b);
    }
}

/// A walk that continues with `b` after `a` ends where `b` ends when it
/// starts where `a` ended.
pub proof fn lemma_walk_concat(g: GraphView, s: u64, a: Seq<int>, b: Seq<int>, q: Scope)
    ensures
        g.walk_end(s, a + b, q) == match g.walk_end(s, a, q) {
            Some(m) => g.walk_end(m, b, q),
            None => None,
        },
    decreases a.len(),
{
    if a.len() == 0 {
        assert(a + b =~= b);
    } else {
        assert((a + b)[0] == a[0]);
        assert((a + b).drop_first() =~= a.drop_first() + b);
        match g.step(s, a[0], q) {
            Some(v) => {
                lemma_walk_concat(g, v, a.drop_first(), b, q);
            },
            None => {},
        }
    }
}

/// A walk of one edge ends where the step leads.
pub proof fn lemma_walk_single(g: GraphView, s: u64, e: int, q: Scope)
    ensures
        g.walk_end(s, seq![e], q) == g.step(s, e, q),
        g.step(s, e, q) matches Some(v) ==> g.walk_nodes(s, seq![e], q) == seq![s, v],
{
    let w = seq![e];
    assert(w[0] == e);
    assert(w.drop_first() =~= Seq::<int>::empty());
    match g.step(s, e, q) {
        Some(v) => {
            assert(g.walk_end(v, w.drop_first(), q) == Some(v));
            assert(g.walk_nodes(v, w.drop_first(), q) == seq![v]);
            assert(seq![s] + seq![v] =~= seq![s, v]);
        },
        None => {},
    }
}

/// Following one more edge at the end of a walk.
pub proof fn lemma_walk_push(g: GraphView, s: u64, w: Seq<int>, e: int, q: Scope)
    requires
        g.walk_end(s, w, q).is_some(),
    ensures
        g.walk_end(s, w.push(e), q) == g.step(g.walk_end(s, w, q).unwrap(), e, q),
        g.step(g.walk_end(s, w, q).unwrap(), e, q) matches Some(v) ==> g.walk_nodes(
            s,
            w.push(e),
            q,
        ) == g.walk_nodes(s, w, q).push(v),
        g.walk_nodes(s, w, q).len() == w.len() + 1,
        g.walk_nodes(s, w, q).last() == g.walk_end(s, w, q).unwrap(),
    decreases w.len(),
{
    if w.len() == 0 {
        assert(w.push(e) =~= seq![e]);
        lemma_walk_single(g, s, e, q);
        match g.step(s, e, q) {
            Some(v) => {
                assert(seq![s].push(v) =~= seq![s, v]);
            },
            None => {},
        }
    } else {
        let v = g.step(s, w[0], q).unwrap();
        assert(w.push(e)[0] == w[0]);
        assert(w.push(e).drop_first() =~= w.drop_first().push(e));
        lemma_walk_push(g, v, w.drop_first(), e, q);
        match g.step(g.walk_end(s, w, q).unwrap(), e, q) {
            Some(x) => {
                assert((seq![s] + g.walk_nodes(v, w.drop_first(), q)).push(x) =~= seq![s]
                    + g.walk_nodes(v, w.drop_first(), q).push(x));
            },
            None => {},
        }
    }
}

} // verus!
