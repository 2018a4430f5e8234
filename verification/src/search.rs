//! The breadth-first search as a function of the graph: its state round by round, the
//! parent map it ends with, and the route that the parent map holds.
use crate::graph::distance;
use vstd::prelude::*;

verus! {

/// What a breadth-first search knows between two rounds.
#[verifier::reject_recursive_types(T)]
pub struct Search<T> {
    /// Each vertex found so far, with the vertex it was first found from (none for the start).
    pub parents: Map<T, Option<T>>,
    /// The vertices found in the last round, in the order in which they were found.
    pub frontier: Seq<T>,
}

/// The search before its first round: only `start` is known.
pub open spec fn initial<T>(start: T) -> Search<T> {
    Search { parents: Map::empty().insert(start, None), frontier: seq![start] }
}

/// The search has nothing left to do: `end` has been found, or no vertex is left to expand.
pub open spec fn finished<T>(s: Search<T>, end: T) -> bool {
    s.parents.contains_key(end) || s.frontier.len() == 0
}

/// Looking at `v` from `u`: a vertex seen for the first time gets `u` as its parent and
/// joins the frontier; one that was seen before changes nothing.
pub open spec fn discover<T>(s: Search<T>, u: T, v: T) -> Search<T> {
    if s.parents.contains_key(v) {
        s
    } else {
        Search { parents: s.parents.insert(v, Some(u)), frontier: s.frontier.push(v) }
    }
}

/// Looking from `u` at each vertex of `vs`, first to last.
pub open spec fn scan<T>(s: Search<T>, u: T, vs: Seq<T>) -> Search<T>
    decreases vs.len(),
{
    if vs.len() == 0 {
        s
    } else {
        discover(scan(s, u, vs.drop_last()), u, vs.last())
    }
}

/// Looking from each vertex of `us`, first to last, at each of its neighbors.
pub open spec fn expand<T>(adj: spec_fn(T) -> Seq<T>, s: Search<T>, us: Seq<T>) -> Search<T>
    decreases us.len(),
{
    if us.len() == 0 {
        s
    } else {
        scan(expand(adj, s, us.drop_last()), us.last(), adj(us.last()))
    }
}

/// One round: a finished search stays as it is; any other expands its whole frontier, and
/// what it finds is the next frontier.
pub open spec fn advance<T>(adj: spec_fn(T) -> Seq<T>, s: Search<T>, end: T) -> Search<T> {
    if finished(s, end) {
        s
    } else {
        expand(adj, Search { parents: s.parents, frontier: Seq::empty() }, s.frontier)
    }
}

/// The search from `start` for `end` after `k` rounds.
pub open spec fn search_after<T>(adj: spec_fn(T) -> Seq<T>, start: T, end: T, k: nat) -> Search<T>
    decreases k,
{
    if k == 0 {
        initial(start)
    } else {
        advance(adj, search_after(adj, start, end, (k - 1) as nat), end)
    }
}

/// The search from `start` for `end` is finished after `k` rounds, and not before.
pub open spec fn finishes_at<T>(adj: spec_fn(T) -> Seq<T>, start: T, end: T, k: nat) -> bool {
    &&& finished(search_after(adj, start, end, k), end)
    &&& forall|j: nat| j < k ==> !finished(#[trigger] search_after(adj, start, end, j), end)
}

/// The search from `start` for `end` is finished after some round.
pub open spec fn completes<T>(adj: spec_fn(T) -> Seq<T>, start: T, end: T) -> bool {
    exists|k: nat| finishes_at(adj, start, end, k)
}

/// The number of rounds that the search from `start` for `end` takes; meaningful where it
/// finishes at all.
pub open spec fn rounds<T>(adj: spec_fn(T) -> Seq<T>, start: T, end: T) -> nat {
    choose|k: nat| finishes_at(adj, start, end, k)
}

/// The parent map that the search from `start` for `end` ends with.
pub open spec fn bfs_parents<T>(adj: spec_fn(T) -> Seq<T>, start: T, end: T) -> Map<T, Option<T>> {
    search_after(adj, start, end, rounds(adj, start, end)).parents
}

/// The vertices met on the way back from `v` over at most `n` parents, as far as there
/// are parents, in the order root first.
pub open spec fn route<T>(parents: Map<T, Option<T>>, v: T, n: nat) -> Seq<T>
    decreases n,
{
    if n > 0 && parents.contains_key(v) && parents[v] is Some {
        route(parents, parents[v].unwrap(), (n - 1) as nat).push(v)
    } else {
        seq![v]
    }
}

/// `p` ends at `v`, begins at a vertex without a parent, and each other vertex of it
/// follows its parent.
pub open spec fn is_chain<T>(parents: Map<T, Option<T>>, p: Seq<T>, v: T) -> bool {
    &&& p.len() > 0
    &&& p.last() == v
    &&& parents[p.first()] == None::<T>
    &&& forall|i: int| 0 < i < p.len() ==> parents[#[trigger] p[i]] == Some(p[i - 1])
}

/// The route from `start` to `end` that the search finds: from `end` back over as many
/// parents as the distance counts edges; empty where the search does not find `end`.
pub open spec fn shortest_route<T>(adj: spec_fn(T) -> Seq<T>, start: T, end: T) -> Seq<T> {
    let parents: Map<T, Option<T>> = bfs_parents(adj, start, end);
    if parents.contains_key(end) {
        route(parents, end, distance(adj, start, end))
    } else {
        Seq::empty()
    }
}

} // verus!
