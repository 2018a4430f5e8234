//! What the finished search holds: which vertices it knows, that it finds `end` exactly
//! where `end` can be reached, and that its route is a shortest walk.
use crate::graph::{
    at_distance, ball, component, connects, distance, is_shortest, reachable, searchable, within,
};
use crate::graph::{lemma_distance, lemma_distance_unique, lemma_walk_push, lemma_within_pred};
use crate::levels::{layered, rooted};
use crate::levels::{lemma_first_finish, lemma_search_layered};
use crate::search::{
    bfs_parents, completes, finished, finishes_at, is_chain, rounds, route, search_after,
    shortest_route,
};
use vstd::prelude::*;
use vstd::set_lib::lemma_len_subset;

verus! {

/// A search that completes is first finished after `rounds` rounds, and is layered there.
pub proof fn lemma_completes<T>(adj: spec_fn(T) -> Seq<T>, start: T, end: T)
    requires
        completes(adj, start, end),
    ensures
        finishes_at(adj, start, end, rounds(adj, start, end)),
        layered(
            adj,
            start,
            search_after(adj, start, end, rounds(adj, start, end)),
            rounds(adj, start, end),
        ),
{
    let k: nat = choose|k: nat| finishes_at(adj, start, end, k);
    lemma_search_layered(adj, start, end, k);
}

/// While the search goes on, each round reaches at least one vertex more.
proof fn lemma_ball_size<T>(adj: spec_fn(T) -> Seq<T>, start: T, end: T, k: nat)
    requires
        component(adj, start).finite(),
        forall|j: nat| j <= k ==> !finished(#[trigger] search_after(adj, start, end, j), end),
    ensures
        ball(adj, start, k).finite(),
        ball(adj, start, k).len() >= k + 1,
    decreases k,
{
    let b: Set<T> = ball(adj, start, k);
    assert(b.subset_of(component(adj, start)));
    lemma_search_layered(adj, start, end, k);
    let s = search_after(adj, start, end, k);
    let w: T = s.frontier[0];
    assert(s.frontier.contains(w));
    if k > 0 {
        let j: nat = (k - 1) as nat;
        lemma_ball_size(adj, start, end, j);
        lemma_len_subset(ball(adj, start, j), b.remove(w));
    }
}

/// A search for a vertex that can be reached, or in a finite component, completes.
pub proof fn lemma_searchable_completes<T>(adj: spec_fn(T) -> Seq<T>, start: T, end: T)
    requires
        searchable(adj, start, end),
    ensures
        completes(adj, start, end),
{
    let n: nat = if reachable(adj, start, end) {
        distance(adj, start, end)
    } else {
        component(adj, start).len()
    };
    if forall|j: nat| j <= n ==> !finished(#[trigger] search_after(adj, start, end, j), end) {
        lemma_search_layered(adj, start, end, n);
        if reachable(adj, start, end) {
            lemma_distance(adj, start, end);
        } else {
            lemma_ball_size(adj, start, end, n);
            lemma_len_subset(ball(adj, start, n), component(adj, start));
        }
    } else {
        let j: nat = choose|j: nat|
            j <= n && finished(#[trigger] search_after(adj, start, end, j), end);
        let m: nat = lemma_first_finish(adj, start, end, j);
    }
}

/// The search for the vertex it starts from is finished before its first round: it knows
/// the start and nothing else.
pub proof fn law_self_search<T>(adj: spec_fn(T) -> Seq<T>, start: T)
    ensures
        finishes_at(adj, start, start, 0),
        rounds(adj, start, start) == 0,
        bfs_parents(adj, start, start) == Map::<T, Option<T>>::empty().insert(start, None),
{
}

/// Where no vertex lies at distance `k`, none lies further away either.
proof fn lemma_empty_layer<T>(adj: spec_fn(T) -> Seq<T>, start: T, v: T, k: nat, n: nat)
    requires
        forall|w: T| !at_distance(adj, start, w, k),
        within(adj, start, v, n),
    ensures
        within(adj, start, v, k),
    decreases n,
{
    if n > k {
        if within(adj, start, v, (n - 1) as nat) {
            lemma_empty_layer(adj, start, v, k, (n - 1) as nat);
        } else {
            let u: T = lemma_within_pred(adj, start, v, (n - 1) as nat);
            lemma_empty_layer(adj, start, u, k, (n - 1) as nat);
        }
    }
}

/// The finished search knows `end` exactly where `end` can be reached; it then took as
/// many rounds as the distance to `end` counts edges, and otherwise knows all that can be
/// reached.
pub proof fn law_search_outcome<T>(adj: spec_fn(T) -> Seq<T>, start: T, end: T)
    requires
        completes(adj, start, end),
    ensures
        bfs_parents(adj, start, end).contains_key(end) <==> reachable(adj, start, end),
        reachable(adj, start, end) ==> rounds(adj, start, end) == distance(adj, start, end),
        rooted(adj, start, bfs_parents(adj, start, end)),
        forall|v: T| #[trigger]
            bfs_parents(adj, start, end).contains_key(v) <==> if reachable(adj, start, end) {
                within(adj, start, v, distance(adj, start, end))
            } else {
                reachable(adj, start, v)
            },
{
    lemma_completes(adj, start, end);
    let k: nat = rounds(adj, start, end);
    let s = search_after(adj, start, end, k);
    if s.parents.contains_key(end) {
        if k > 0 {
            lemma_search_layered(adj, start, end, (k - 1) as nat);
        }
        lemma_distance_unique(adj, start, end, k);
    } else {
        assert forall|w: T| !at_distance(adj, start, w, k) by {
            if at_distance(adj, start, w, k) {
                assert(s.frontier.contains(w));
            }
        }
        assert forall|v: T| reachable(adj, start, v) implies #[trigger] s.parents.contains_key(
            v,
        ) by {
            let p: Seq<T> = choose|p: Seq<T>| connects(adj, p, start, v);
            lemma_empty_layer(adj, start, v, k, p.len());
        }
    }
}

/// In a tree by distance, the way back from a known vertex over as many parents as its
/// distance counts edges is a shortest walk from the root to it.
pub proof fn lemma_route_shortest<T>(
    adj: spec_fn(T) -> Seq<T>,
    start: T,
    parents: Map<T, Option<T>>,
    v: T,
)
    requires
        rooted(adj, start, parents),
        parents.contains_key(v),
        reachable(adj, start, v),
    ensures
        connects(adj, route(parents, v, distance(adj, start, v)), start, v),
        route(parents, v, distance(adj, start, v)).len() == distance(adj, start, v) + 1,
        is_shortest(adj, route(parents, v, distance(adj, start, v)), start, v),
        is_chain(parents, route(parents, v, distance(adj, start, v)), v),
    decreases distance(adj, start, v),
{
    let d: nat = distance(adj, start, v);
    lemma_distance(adj, start, v);
    if v != start {
        let u: T = parents[v].unwrap();
        lemma_route_shortest(adj, start, parents, u);
        lemma_walk_push(adj, route(parents, u, (d - 1) as nat), start, u, v);
    }
}

/// In a tree by distance only one chain ends at a known vertex: the way back from it.
pub proof fn lemma_chain_is_route<T>(
    adj: spec_fn(T) -> Seq<T>,
    start: T,
    parents: Map<T, Option<T>>,
    p: Seq<T>,
    v: T,
)
    requires
        rooted(adj, start, parents),
        is_chain(parents, p, v),
        forall|i: int| 0 <= i < p.len() ==> parents.contains_key(#[trigger] p[i]),
        reachable(adj, start, v),
    ensures
        p == route(parents, v, distance(adj, start, v)),
    decreases p.len(),
{
    if p.len() > 1 {
        let q: Seq<T> = p.drop_last();
        lemma_chain_is_route(adj, start, parents, q, q.last());
    }
}

/// The route that the search finds is a shortest walk from `start` to `end` where `end`
/// can be reached, and empty where it cannot.
pub proof fn law_shortest_route<T>(adj: spec_fn(T) -> Seq<T>, start: T, end: T)
    requires
        completes(adj, start, end),
    ensures
        reachable(adj, start, end) ==> is_shortest(
            adj,
            shortest_route(adj, start, end),
            start,
            end,
        ),
        reachable(adj, start, end) ==> shortest_route(adj, start, end).len() == distance(
            adj,
            start,
            end,
        ) + 1,
        !reachable(adj, start, end) ==> shortest_route(adj, start, end) == Seq::<T>::empty(),
        start == end ==> shortest_route(adj, start, end) == seq![start],
{
    law_search_outcome(adj, start, end);
    if reachable(adj, start, end) {
        lemma_route_shortest(adj, start, bfs_parents(adj, start, end), end);
    }
}

} // verus!
