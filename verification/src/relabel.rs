//! The search does not depend on what the vertices are called: under a one-to-one renaming
//! of the vertices it finds the renamed parents and the renamed route.
use crate::graph::{connects, distance, linked, reachable, within};
use crate::graph::{lemma_distance, lemma_distance_unique};
use crate::outcome::law_search_outcome;
use crate::search::{
    bfs_parents, completes, discover, expand, finished, finishes_at, initial, rounds, route,
    scan, search_after, shortest_route, Search,
};
use vstd::prelude::*;

verus! {

/// `f` and `g` undo each other.
pub open spec fn inverse<A, B>(f: spec_fn(A) -> B, g: spec_fn(B) -> A) -> bool {
    &&& forall|a: A| #[trigger] g(f(a)) == a
    &&& forall|b: B| #[trigger] f(g(b)) == b
}

/// The graph `adj` with each vertex `a` called `f(a)`.
pub open spec fn renamed_graph<A, B>(
    adj: spec_fn(A) -> Seq<A>,
    f: spec_fn(A) -> B,
    g: spec_fn(B) -> A,
) -> spec_fn(B) -> Seq<B> {
    |b: B| adj(g(b)).map_values(f)
}

/// The parent map `parents` with each vertex `a` called `f(a)`.
pub open spec fn renamed_parents<A, B>(
    parents: Map<A, Option<A>>,
    f: spec_fn(A) -> B,
    g: spec_fn(B) -> A,
) -> Map<B, Option<B>> {
    Map::new(
        |b: B| parents.contains_key(g(b)),
        |b: B|
            match parents[g(b)] {
                Some(u) => Some(f(u)),
                None => None,
            },
    )
}

/// The search `s` with each vertex `a` called `f(a)`.
pub open spec fn renamed<A, B>(s: Search<A>, f: spec_fn(A) -> B, g: spec_fn(B) -> A) -> Search<B> {
    Search { parents: renamed_parents(s.parents, f, g), frontier: s.frontier.map_values(f) }
}

/// Looking at a vertex commutes with renaming.
proof fn lemma_renamed_discover<A, B>(
    s: Search<A>,
    u: A,
    v: A,
    f: spec_fn(A) -> B,
    g: spec_fn(B) -> A,
)
    requires
        inverse(f, g),
    ensures
        renamed(discover(s, u, v), f, g) == discover(renamed(s, f, g), f(u), f(v)),
{
    let left: Search<B> = renamed(discover(s, u, v), f, g);
    let right: Search<B> = discover(renamed(s, f, g), f(u), f(v));
    assert(left.frontier =~= right.frontier);
    assert(left.parents =~= right.parents);
}

/// Looking at a list of vertices commutes with renaming.
proof fn lemma_renamed_scan<A, B>(
    s: Search<A>,
    u: A,
    vs: Seq<A>,
    f: spec_fn(A) -> B,
    g: spec_fn(B) -> A,
)
    requires
        inverse(f, g),
    ensures
        renamed(scan(s, u, vs), f, g) == scan(renamed(s, f, g), f(u), vs.map_values(f)),
    decreases vs.len(),
{
    if vs.len() > 0 {
        lemma_renamed_scan(s, u, vs.drop_last(), f, g);
        lemma_renamed_discover(scan(s, u, vs.drop_last()), u, vs.last(), f, g);
        assert(vs.map_values(f).drop_last() =~= vs.drop_last().map_values(f));
    }
}

/// Expanding a list of vertices commutes with renaming.
proof fn lemma_renamed_expand<A, B>(
    adj: spec_fn(A) -> Seq<A>,
    s: Search<A>,
    us: Seq<A>,
    f: spec_fn(A) -> B,
    g: spec_fn(B) -> A,
)
    requires
        inverse(f, g),
    ensures
        renamed(expand(adj, s, us), f, g) == expand(
            renamed_graph(adj, f, g),
            renamed(s, f, g),
            us.map_values(f),
        ),
    decreases us.len(),
{
    if us.len() > 0 {
        let u: A = us.last();
        lemma_renamed_expand(adj, s, us.drop_last(), f, g);
        lemma_renamed_scan(expand(adj, s, us.drop_last()), u, adj(u), f, g);
        assert(us.map_values(f).drop_last() =~= us.drop_last().map_values(f));
    }
}

/// Each round of the search commutes with renaming.
pub proof fn lemma_renamed_search<A, B>(
    adj: spec_fn(A) -> Seq<A>,
    start: A,
    end: A,
    k: nat,
    f: spec_fn(A) -> B,
    g: spec_fn(B) -> A,
)
    requires
        inverse(f, g),
    ensures
        renamed(search_after(adj, start, end, k), f, g) == search_after(
            renamed_graph(adj, f, g),
            f(start),
            f(end),
            k,
        ),
        finished(search_after(adj, start, end, k), end) <==> finished(
            search_after(renamed_graph(adj, f, g), f(start), f(end), k),
            f(end),
        ),
    decreases k,
{
    if k == 0 {
        let left: Search<B> = renamed(initial(start), f, g);
        let right: Search<B> = initial(f(start));
        assert(left.frontier =~= right.frontier);
        assert(left.parents =~= right.parents);
    } else {
        let j: nat = (k - 1) as nat;
        lemma_renamed_search(adj, start, end, j, f, g);
        let s: Search<A> = search_after(adj, start, end, j);
        if !finished(s, end) {
            let base: Search<A> = Search { parents: s.parents, frontier: Seq::empty() };
            lemma_renamed_expand(adj, base, s.frontier, f, g);
            assert(renamed(base, f, g).frontier =~= Seq::<B>::empty());
        }
    }
}

/// The finished search commutes with renaming.
pub proof fn lemma_renamed_parents<A, B>(
    adj: spec_fn(A) -> Seq<A>,
    start: A,
    end: A,
    f: spec_fn(A) -> B,
    g: spec_fn(B) -> A,
)
    requires
        inverse(f, g),
        completes(adj, start, end),
    ensures
        completes(renamed_graph(adj, f, g), f(start), f(end)),
        bfs_parents(renamed_graph(adj, f, g), f(start), f(end)) == renamed_parents(
            bfs_parents(adj, start, end),
            f,
            g,
        ),
{
    let there = renamed_graph(adj, f, g);
    let k: nat = rounds(adj, start, end);
    lemma_renamed_search(adj, start, end, k, f, g);
    assert forall|j: nat| j < k implies !finished(
        #[trigger] search_after(there, f(start), f(end), j),
        f(end),
    ) by {
        lemma_renamed_search(adj, start, end, j, f, g);
    }
    assert(finishes_at(there, f(start), f(end), k));
}

/// A renamed walk is a walk in the renamed graph.
pub proof fn lemma_renamed_walk<A, B>(
    adj: spec_fn(A) -> Seq<A>,
    p: Seq<A>,
    a: A,
    b: A,
    f: spec_fn(A) -> B,
    g: spec_fn(B) -> A,
)
    requires
        inverse(f, g),
        connects(adj, p, a, b),
    ensures
        connects(renamed_graph(adj, f, g), p.map_values(f), f(a), f(b)),
{
    let there = renamed_graph(adj, f, g);
    let q: Seq<B> = p.map_values(f);
    assert forall|i: int| 0 < i < q.len() implies #[trigger] linked(there, q, i) by {
        assert(linked(adj, p, i));
        let near: Seq<A> = adj(p[i - 1]);
        let n: int = choose|n: int| 0 <= n < near.len() && near[n] == p[i];
        assert(near.map_values(f)[n] == q[i]);
    }
}

/// A walk in the renamed graph is a renamed walk.
pub proof fn lemma_walk_renamed<A, B>(
    adj: spec_fn(A) -> Seq<A>,
    q: Seq<B>,
    a: B,
    b: B,
    f: spec_fn(A) -> B,
    g: spec_fn(B) -> A,
)
    requires
        inverse(f, g),
        connects(renamed_graph(adj, f, g), q, a, b),
    ensures
        connects(adj, q.map_values(g), g(a), g(b)),
{
    let p: Seq<A> = q.map_values(g);
    assert forall|i: int| 0 < i < p.len() implies #[trigger] linked(adj, p, i) by {
        assert(linked(renamed_graph(adj, f, g), q, i));
    }
}

/// Renaming keeps what lies within reach, and how far away it lies.
pub proof fn lemma_renamed_distance<A, B>(
    adj: spec_fn(A) -> Seq<A>,
    a: A,
    b: A,
    f: spec_fn(A) -> B,
    g: spec_fn(B) -> A,
)
    requires
        inverse(f, g),
    ensures
        forall|n: nat| within(adj, a, b, n) <==> within(renamed_graph(adj, f, g), f(a), f(b), n),
        reachable(adj, a, b) <==> reachable(renamed_graph(adj, f, g), f(a), f(b)),
        reachable(adj, a, b) ==> distance(adj, a, b) == distance(
            renamed_graph(adj, f, g),
            f(a),
            f(b),
        ),
{
    let there = renamed_graph(adj, f, g);
    assert forall|n: nat| within(adj, a, b, n) <==> within(there, f(a), f(b), n) by {
        if within(adj, a, b, n) {
            let p: Seq<A> = choose|p: Seq<A>| #[trigger]
                connects(adj, p, a, b) && p.len() <= n + 1;
            lemma_renamed_walk(adj, p, a, b, f, g);
        }
        if within(there, f(a), f(b), n) {
            let q: Seq<B> = choose|q: Seq<B>| #[trigger]
                connects(there, q, f(a), f(b)) && q.len() <= n + 1;
            lemma_walk_renamed(adj, q, f(a), f(b), f, g);
        }
    }
    if reachable(adj, a, b) {
        lemma_distance(adj, a, b);
        lemma_distance_unique(there, f(a), f(b), distance(adj, a, b));
    }
    if reachable(there, f(a), f(b)) {
        let fa: B = f(a);
        let fb: B = f(b);
        let q: Seq<B> = choose|q: Seq<B>| connects(there, q, fa, fb);
        lemma_walk_renamed(adj, q, fa, fb, f, g);
    }
}

/// The way back over renamed parents is the renamed way back.
proof fn lemma_renamed_route<A, B>(
    parents: Map<A, Option<A>>,
    v: A,
    n: nat,
    f: spec_fn(A) -> B,
    g: spec_fn(B) -> A,
)
    requires
        inverse(f, g),
    ensures
        route(renamed_parents(parents, f, g), f(v), n) == route(parents, v, n).map_values(f),
    decreases n,
{
    if n > 0 && parents.contains_key(v) && parents[v] is Some {
        lemma_renamed_route(parents, parents[v].unwrap(), (n - 1) as nat, f, g);
    }
}

/// In the renamed graph the search finds the renamed route.
pub proof fn law_renamed_route<A, B>(
    adj: spec_fn(A) -> Seq<A>,
    start: A,
    end: A,
    f: spec_fn(A) -> B,
    g: spec_fn(B) -> A,
)
    requires
        inverse(f, g),
        completes(adj, start, end),
    ensures
        shortest_route(renamed_graph(adj, f, g), f(start), f(end)) == shortest_route(
            adj,
            start,
            end,
        ).map_values(f),
{
    let parents: Map<A, Option<A>> = bfs_parents(adj, start, end);
    lemma_renamed_parents(adj, start, end, f, g);
    law_search_outcome(adj, start, end);
    lemma_renamed_distance(adj, start, end, f, g);
    if parents.contains_key(end) {
        lemma_renamed_route(parents, end, distance(adj, start, end), f, g);
    }
}

} // verus!
