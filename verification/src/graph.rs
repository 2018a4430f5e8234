//! Walks, reachability and distance in a graph that is given by its adjacency lists.
//!
//! A graph over vertices of type `T` is a function `adj` from a vertex to the sequence of
//! the vertices one edge away from it. Edges carry no weight, so the length of a walk is
//! its number of edges.
use vstd::prelude::*;
use vstd::set_lib::{lemma_int_range, set_int_range};

verus! {

/// The `i`-th vertex of `p` is one edge away from the vertex before it.
pub open spec fn linked<T>(adj: spec_fn(T) -> Seq<T>, p: Seq<T>, i: int) -> bool {
    adj(p[i - 1]).contains(p[i])
}

/// Every vertex of `p` but the first is one edge away from the vertex before it.
pub open spec fn is_walk<T>(adj: spec_fn(T) -> Seq<T>, p: Seq<T>) -> bool {
    forall|i: int| 0 < i < p.len() ==> #[trigger] linked(adj, p, i)
}

/// `p` is a walk that starts at `a` and stops at `b`.
pub open spec fn connects<T>(adj: spec_fn(T) -> Seq<T>, p: Seq<T>, a: T, b: T) -> bool {
    &&& p.len() > 0
    &&& p.first() == a
    &&& p.last() == b
    &&& is_walk(adj, p)
}

/// Some walk leads from `a` to `b`.
pub open spec fn reachable<T>(adj: spec_fn(T) -> Seq<T>, a: T, b: T) -> bool {
    exists|p: Seq<T>| connects(adj, p, a, b)
}

/// Some walk of at most `n` edges leads from `a` to `b`.
pub open spec fn within<T>(adj: spec_fn(T) -> Seq<T>, a: T, b: T, n: nat) -> bool {
    exists|p: Seq<T>| #[trigger] connects(adj, p, a, b) && p.len() <= n + 1
}

/// A walk of `n` edges leads from `a` to `b`, and no shorter one does.
pub open spec fn at_distance<T>(adj: spec_fn(T) -> Seq<T>, a: T, b: T, n: nat) -> bool {
    &&& within(adj, a, b, n)
    &&& n > 0 ==> !within(adj, a, b, (n - 1) as nat)
}

/// The least number of edges on a walk from `a` to `b`; meaningful where `b` is reachable.
pub open spec fn distance<T>(adj: spec_fn(T) -> Seq<T>, a: T, b: T) -> nat {
    choose|n: nat| at_distance(adj, a, b, n)
}

/// `p` is a walk from `a` to `b`, and no walk from `a` to `b` has fewer vertices.
pub open spec fn is_shortest<T>(adj: spec_fn(T) -> Seq<T>, p: Seq<T>, a: T, b: T) -> bool {
    &&& connects(adj, p, a, b)
    &&& forall|q: Seq<T>| #[trigger] connects(adj, q, a, b) ==> p.len() <= q.len()
}

/// The vertices that some walk from `a` reaches.
pub open spec fn component<T>(adj: spec_fn(T) -> Seq<T>, a: T) -> Set<T> {
    Set::new(|v: T| reachable(adj, a, v))
}

/// The vertices that a walk of at most `n` edges from `a` reaches.
pub open spec fn ball<T>(adj: spec_fn(T) -> Seq<T>, a: T, n: nat) -> Set<T> {
    Set::new(|v: T| within(adj, a, v, n))
}

/// A search from `a` for `b` comes to an end: it finds `b`, or it runs out of vertices.
pub open spec fn searchable<T>(adj: spec_fn(T) -> Seq<T>, a: T, b: T) -> bool {
    reachable(adj, a, b) || component(adj, a).finite()
}

/// A set is finite if its members can be told apart by a number between `lo` and `hi`. So
/// is every set of values of an integer type, and with it every component of a graph over
/// such values.
pub proof fn lemma_numbered_set_finite<T>(s: Set<T>, number: spec_fn(T) -> int, lo: int, hi: int)
    requires
        forall|v: T| s.contains(v) ==> lo <= #[trigger] number(v) < hi,
        forall|v: T, w: T|
            s.contains(v) && s.contains(w) && #[trigger] number(v) == #[trigger] number(w) ==> v
                == w,
    ensures
        s.finite(),
{
    if lo < hi {
        let range: Set<int> = set_int_range(lo, hi);
        lemma_int_range(lo, hi);
        let member: spec_fn(int) -> T = |i: int| choose|v: T| s.contains(v) && number(v) == i;
        let all: Set<T> = range.map(member);
        range.lemma_map_finite(member);
        assert(s.subset_of(all)) by {
            assert forall|v: T| s.contains(v) implies all.contains(v) by {
                let i: int = number(v);
                assert(range.contains(i));
            }
        }
    } else {
        assert(s =~= Set::<T>::empty()) by {
            assert forall|v: T| !s.contains(v) by {
                if s.contains(v) {
                    assert(lo <= number(v) < hi);
                }
            }
        }
    }
}

/// Only `a` itself is within no edges of `a`.
pub proof fn lemma_within_zero<T>(adj: spec_fn(T) -> Seq<T>, a: T, b: T)
    ensures
        within(adj, a, b, 0) <==> a == b,
{
    if a == b {
        let p: Seq<T> = seq![a];
        assert(connects(adj, p, a, b));
    }
}

/// A walk can be continued by one edge.
pub proof fn lemma_walk_push<T>(adj: spec_fn(T) -> Seq<T>, p: Seq<T>, a: T, u: T, v: T)
    requires
        connects(adj, p, a, u),
        adj(u).contains(v),
    ensures
        connects(adj, p.push(v), a, v),
{
    let q: Seq<T> = p.push(v);
    assert forall|i: int| 0 < i < q.len() implies #[trigger] linked(adj, q, i) by {
        if i < p.len() {
            assert(linked(adj, p, i));
        }
    }
}

/// One more edge reaches the neighbors of what was within reach.
pub proof fn lemma_within_step<T>(adj: spec_fn(T) -> Seq<T>, a: T, u: T, v: T, n: nat)
    requires
        within(adj, a, u, n),
        adj(u).contains(v),
    ensures
        within(adj, a, v, n + 1),
{
    let p: Seq<T> = choose|p: Seq<T>| #[trigger] connects(adj, p, a, u) && p.len() <= n + 1;
    lemma_walk_push(adj, p, a, u, v);
}

/// A vertex first reached with the last of `n + 1` edges is a neighbor of one at distance `n`.
pub proof fn lemma_within_pred<T>(adj: spec_fn(T) -> Seq<T>, a: T, v: T, n: nat) -> (u: T)
    requires
        within(adj, a, v, n + 1),
        !within(adj, a, v, n),
    ensures
        at_distance(adj, a, u, n),
        adj(u).contains(v),
{
    let p: Seq<T> = choose|p: Seq<T>| #[trigger] connects(adj, p, a, v) && p.len() <= n + 1 + 1;
    let q: Seq<T> = p.drop_last();
    let u: T = q.last();
    assert forall|i: int| 0 < i < q.len() implies #[trigger] linked(adj, q, i) by {
        assert(linked(adj, p, i));
    }
    assert(connects(adj, q, a, u) && q.len() <= n + 1);
    assert(linked(adj, p, p.len() - 1));
    if n > 0 && within(adj, a, u, (n - 1) as nat) {
        lemma_within_step(adj, a, u, v, (n - 1) as nat);
    }
    u
}

/// Among the bounds within which `b` is reached there is a least one.
proof fn lemma_least_bound<T>(adj: spec_fn(T) -> Seq<T>, a: T, b: T, n: nat) -> (m: nat)
    requires
        within(adj, a, b, n),
    ensures
        m <= n,
        at_distance(adj, a, b, m),
    decreases n,
{
    if n > 0 && within(adj, a, b, (n - 1) as nat) {
        lemma_least_bound(adj, a, b, (n - 1) as nat)
    } else {
        n
    }
}

/// A reachable vertex lies at its distance.
pub proof fn lemma_distance<T>(adj: spec_fn(T) -> Seq<T>, a: T, b: T)
    requires
        reachable(adj, a, b),
    ensures
        at_distance(adj, a, b, distance(adj, a, b)),
{
    let p: Seq<T> = choose|p: Seq<T>| connects(adj, p, a, b);
    let n: nat = p.len();
    let m: nat = lemma_least_bound(adj, a, b, n);
}

/// A vertex lies at one distance only.
pub proof fn lemma_distance_unique<T>(adj: spec_fn(T) -> Seq<T>, a: T, b: T, n: nat)
    requires
        at_distance(adj, a, b, n),
    ensures
        distance(adj, a, b) == n,
        reachable(adj, a, b),
{
}

/// Every walk from `a` to `b` has at least as many edges as the distance from `a` to `b`.
pub proof fn law_distance_is_minimum<T>(adj: spec_fn(T) -> Seq<T>, p: Seq<T>, a: T, b: T)
    requires
        connects(adj, p, a, b),
    ensures
        distance(adj, a, b) + 1 <= p.len(),
        within(adj, a, b, (p.len() - 1) as nat),
{
    lemma_distance(adj, a, b);
}

/// A shortest walk visits no vertex twice: the part between two visits could be left out.
pub proof fn law_shortest_is_simple<T>(adj: spec_fn(T) -> Seq<T>, p: Seq<T>, a: T, b: T)
    requires
        is_shortest(adj, p, a, b),
    ensures
        p.no_duplicates(),
{
    assert forall|i: int, j: int| 0 <= i < j < p.len() implies p[i] != p[j] by {
        if p[i] == p[j] {
            let q: Seq<T> = p.take(i + 1) + p.skip(j + 1);
            assert forall|n: int| 0 < n < q.len() implies #[trigger] linked(adj, q, n) by {
                if n <= i {
                    assert(linked(adj, p, n));
                } else {
                    assert(linked(adj, p, n + j - i));
                }
            }
            assert(connects(adj, q, a, b));
        }
    }
}

} // verus!
