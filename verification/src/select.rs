//! Ordered selections of positions: the increasing list of all positions
//! below a bound that satisfy a predicate.

use vstd::prelude::*;

verus! {

/// The positions `i` with `0 <= i < n` and `p(i)`, in increasing order.
pub open spec fn positions_where(p: spec_fn(int) -> bool, n: int) -> Seq<int>
    decreases n,
{
    if n <= 0 {
        Seq::empty()
    } else if p(n - 1) {
        positions_where(p, n - 1).push(n - 1)
    } else {
        positions_where(p, n - 1)
    }
}

/// `s` is strictly increasing.
pub open spec fn increasing(s: Seq<int>) -> bool {
    forall|a: int, b: int| 0 <= a < b < s.len() ==> s[a] < s[b]
}

/// `s` lists, in increasing order and without gaps, exactly the positions
/// below `n` that satisfy `p`.
pub open spec fn lists_positions(s: Seq<int>, p: spec_fn(int) -> bool, n: int) -> bool {
    &&& increasing(s)
    &&& forall|k: int| 0 <= k < s.len() ==> 0 <= #[trigger] s[k] < n && p(s[k])
    &&& forall|i: int| 0 <= i < n && p(i) ==> s.contains(i)
}

/// The selection is what its name says.
pub proof fn lemma_positions_where(p: spec_fn(int) -> bool, n: int)
    ensures
        lists_positions(positions_where(p, n), p, n),
        positions_where(p, n).len() <= if n < 0 {
            0
        } else {
            n
        },
    decreases n,
{
    if n > 0 {
        lemma_positions_where(p, n - 1);
        let prev = positions_where(p, n - 1);
        let cur = positions_where(p, n);
        if p(n - 1) {
            assert(cur[cur.len() - 1] == n - 1);
            assert forall|i: int| 0 <= i < n && p(i) implies cur.contains(i) by {
                if i < n - 1 {
                    assert(prev.contains(i));
                    let k = choose|k: int| 0 <= k < prev.len() && prev[k] == i;
                    assert(cur[k] == i);
                } else {
                    assert(cur[cur.len() - 1] == i);
                }
            }
        }
    }
}

/// Only one sequence lists the positions that satisfy `p`.
pub proof fn lemma_lists_positions_unique(a: Seq<int>, b: Seq<int>, p: spec_fn(int) -> bool, n: int)
    requires
        lists_positions(a, p, n),
        lists_positions(b, p, n),
    ensures
        a == b,
    decreases a.len() + b.len(),
{
    if a.len() == 0 {
        if b.len() > 0 {
            assert(a.contains(b[0]));
        }
        assert(a =~= b);
    } else if b.len() == 0 {
        assert(b.contains(a[0]));
    } else {
        let la = a[a.len() - 1];
        let lb = b[b.len() - 1];
        // Both end in the largest position that satisfies `p`.
        assert(la == lb) by {
            assert(b.contains(la));
            assert(a.contains(lb));
            let i = choose|i: int| 0 <= i < b.len() && b[i] == la;
            let j = choose|j: int| 0 <= j < a.len() && a[j] == lb;
            if i < b.len() - 1 {
                assert(b[i] < b[b.len() - 1]);
            }
            if j < a.len() - 1 {
                assert(a[j] < a[a.len() - 1]);
            }
        }
        let q = |i: int| p(i);
        let a0 = a.drop_last();
        let b0 = b.drop_last();
        assert(lists_positions(a0, p, la)) by {
            assert forall|i: int| 0 <= i < la && p(i) implies a0.contains(i) by {
                assert(a.contains(i));
                let k = choose|k: int| 0 <= k < a.len() && a[k] == i;
                assert(k < a.len() - 1);
                assert(a0[k] == i);
            }
            assert forall|k: int| 0 <= k < a0.len() implies 0 <= #[trigger] a0[k] < la && p(
                a0[k],
            ) by {
                assert(a[k] < a[a.len() - 1]);
            }
        }
        assert(lists_positions(b0, p, la)) by {
            assert forall|i: int| 0 <= i < la && p(i) implies b0.contains(i) by {
                assert(b.contains(i));
                let k = choose|k: int| 0 <= k < b.len() && b[k] == i;
                assert(k < b.len() - 1);
                assert(b0[k] == i);
            }
            assert forall|k: int| 0 <= k < b0.len() implies 0 <= #[trigger] b0[k] < la && p(
                b0[k],
            ) by {
                assert(b[k] < b[b.len() - 1]);
            }
        }
        lemma_lists_positions_unique(a0, b0, p, la);
        assert(a =~= a0.push(la));
        assert(b =~= b0.push(lb));
    }
}

/// A selection up to a smaller bound is a prefix of one up to a larger bound.
pub proof fn lemma_positions_prefix(p: spec_fn(int) -> bool, n: int, m: int)
    requires
        0 <= n <= m,
    ensures
        positions_where(p, n).len() <= positions_where(p, m).len(),
        positions_where(p, m).take(positions_where(p, n).len() as int) == positions_where(p, n),
        (forall|i: int| n <= i < m ==> !#[trigger] p(i)) ==> positions_where(p, m) == positions_where(p, n),
        (exists|i: int| n <= i < m && #[trigger] p(i)) ==> positions_where(p, m).len() > positions_where(
            p,
            n,
        ).len(),
    decreases m - n,
{
    if n == m {
        assert(positions_where(p, m).take(positions_where(p, n).len() as int) =~= positions_where(
            p,
            n,
        ));
    } else {
        lemma_positions_prefix(p, n, m - 1);
        let small = positions_where(p, n);
        let mid = positions_where(p, m - 1);
        let big = positions_where(p, m);
        assert(big.take(small.len() as int) =~= mid.take(small.len() as int));
    }
}

} // verus!
