//! Breadth-first search over a graph that is given by a function from a vertex to its
//! neighbors, and the shortest path that the search finds.
use crate::graph::{distance, is_shortest, reachable, searchable, within};
use crate::graph::{law_shortest_is_simple, lemma_within_zero};
use crate::levels::rooted;
use crate::outcome::{
    law_search_outcome, law_self_search, law_shortest_route, lemma_chain_is_route,
    lemma_searchable_completes,
};
use crate::search::{
    bfs_parents, completes, discover, expand, finished, finishes_at, initial, rounds, scan,
    search_after, shortest_route, Search,
};
use std::collections::HashMap;
use std::hash::Hash;
use vstd::prelude::*;
use vstd::std_specs::hash::obeys_key_model;

verus! {

/// Whatever `f` returns for a vertex is the list of that vertex's neighbors in `adj`.
pub open spec fn implements<T, F: Fn(T) -> Vec<T>>(f: &F, adj: spec_fn(T) -> Seq<T>) -> bool {
    forall|u: T, r: Vec<T>| #[trigger] call_ensures(f, (u,), r) ==> r@ == adj(u)
}

/// `parents` and `frontier` are what the search from `start` for `end` holds after `k`
/// rounds, none of which it began finished.
spec fn tracks<T>(
    adj: spec_fn(T) -> Seq<T>,
    start: T,
    end: T,
    k: nat,
    parents: Map<T, Option<T>>,
    frontier: Seq<T>,
) -> bool {
    &&& parents == search_after(adj, start, end, k).parents
    &&& frontier == search_after(adj, start, end, k).frontier
    &&& forall|j: nat| j < k ==> !finished(#[trigger] search_after(adj, start, end, j), end)
}

/// Looking at one vertex more continues a scan.
proof fn lemma_scan_next<T>(s: Search<T>, u: T, vs: Seq<T>, j: int)
    requires
        0 <= j < vs.len(),
    ensures
        scan(s, u, vs.take(j + 1)) == discover(scan(s, u, vs.take(j)), u, vs[j]),
{
    assert(vs.take(j + 1).drop_last() =~= vs.take(j));
}

/// Scanning from one vertex more continues an expansion.
proof fn lemma_expand_next<T>(adj: spec_fn(T) -> Seq<T>, s: Search<T>, us: Seq<T>, i: int)
    requires
        0 <= i < us.len(),
    ensures
        expand(adj, s, us.take(i + 1)) == scan(expand(adj, s, us.take(i)), us[i], adj(us[i])),
{
    assert(us.take(i + 1).drop_last() =~= us.take(i));
}

/// Searches breadth-first from `start` until `end` is found or nothing is left to expand,
/// and returns each vertex found with the vertex it was first found from.
///
/// `neighbor_fn` gives the neighbors of a vertex in the order in which they are tried. It
/// has to be a function of the vertex alone, and the search has to be one that ends: `end`
/// can be reached, or only finitely many vertices can. Where `end` is `start` nothing is
/// asked of `neighbor_fn`, which is then not called.
pub fn bfs<T: Hash + Eq + Copy, F: Fn(T) -> Vec<T>>(
    start: T,
    end: T,
    neighbor_fn: &F,
) -> (parent_map: HashMap<T, Option<T>>)
    requires
        obeys_key_model::<T>(),
        start != end ==> forall|u: T| call_requires(neighbor_fn, (u,)),
        start != end ==> exists|adj: spec_fn(T) -> Seq<T>|
            #[trigger] implements(neighbor_fn, adj) && searchable(adj, start, end),
    ensures
        forall|adj: spec_fn(T) -> Seq<T>| #[trigger]
            implements(neighbor_fn, adj) ==> {
                &&& completes(adj, start, end)
                &&& parent_map@ == bfs_parents(adj, start, end)
                &&& parent_map@.contains_key(end) <==> reachable(adj, start, end)
                &&& rooted(adj, start, parent_map@)
                &&& forall|v: T| #[trigger]
                    parent_map@.contains_key(v) <==> if reachable(adj, start, end) {
                        within(adj, start, v, distance(adj, start, end))
                    } else {
                        reachable(adj, start, v)
                    }
            },
        start == end ==> parent_map@ == Map::<T, Option<T>>::empty().insert(start, None),
{
    let ghost adj0: spec_fn(T) -> Seq<T> = if start == end {
        |u: T| Seq::<T>::empty()
    } else {
        choose|adj: spec_fn(T) -> Seq<T>|
            #[trigger] implements(neighbor_fn, adj) && searchable(adj, start, end)
    };
    proof {
        if start == end {
            law_self_search(adj0, start);
        } else {
            lemma_searchable_completes(adj0, start, end);
        }
    }
    let ghost total: nat = rounds(adj0, start, end);
    let ghost mut k: nat = 0;
    let mut parent_map: HashMap<T, Option<T>> = HashMap::new();
    parent_map.insert(start, None);
    let mut frontier: Vec<T> = Vec::new();
    frontier.push(start);
    while !frontier.is_empty() && !parent_map.contains_key(&end)
        invariant
            obeys_key_model::<T>(),
            start != end ==> forall|u: T| call_requires(neighbor_fn, (u,)),
            start != end ==> implements(neighbor_fn, adj0),
            finishes_at(adj0, start, end, total),
            parent_map@.contains_key(start),
            start == end ==> k == 0 && parent_map@ == initial(start).parents,
            forall|adj: spec_fn(T) -> Seq<T>| #[trigger]
                implements(neighbor_fn, adj) ==> tracks(
                    adj,
                    start,
                    end,
                    k,
                    parent_map@,
                    frontier@,
                ),
        decreases total - k,
    {
        let ghost base: Search<T> = Search { parents: parent_map@, frontier: Seq::empty() };
        let mut new_frontier: Vec<T> = Vec::new();
        let mut i: usize = 0;
        while i < frontier.len()
            invariant
                obeys_key_model::<T>(),
                forall|u: T| call_requires(neighbor_fn, (u,)),
                i <= frontier.len(),
                parent_map@.contains_key(start),
                forall|adj: spec_fn(T) -> Seq<T>| #[trigger]
                    implements(neighbor_fn, adj) ==> {
                        &&& parent_map@ == expand(adj, base, frontier@.take(i as int)).parents
                        &&& new_frontier@ == expand(adj, base, frontier@.take(i as int)).frontier
                    },
            decreases frontier.len() - i,
        {
            let u: T = frontier[i];
            let ns: Vec<T> = neighbor_fn(u);
            let ghost mid: Search<T> = Search { parents: parent_map@, frontier: new_frontier@ };
            let mut j: usize = 0;
            while j < ns.len()
                invariant
                    obeys_key_model::<T>(),
                    j <= ns.len(),
                    parent_map@.contains_key(start),
                    parent_map@ == scan(mid, u, ns@.take(j as int)).parents,
                    new_frontier@ == scan(mid, u, ns@.take(j as int)).frontier,
                decreases ns.len() - j,
            {
                let v: T = ns[j];
                proof {
                    lemma_scan_next(mid, u, ns@, j as int);
                }
                if !parent_map.contains_key(&v) {
                    parent_map.insert(v, Some(u));
                    new_frontier.push(v);
                }
                j += 1;
            }
            proof {
                assert(ns@.take(ns@.len() as int) =~= ns@);
                assert forall|adj: spec_fn(T) -> Seq<T>| #[trigger]
                    implements(neighbor_fn, adj) implies {
                    &&& parent_map@ == expand(adj, base, frontier@.take(i + 1)).parents
                    &&& new_frontier@ == expand(adj, base, frontier@.take(i + 1)).frontier
                } by {
                    lemma_expand_next(adj, base, frontier@, i as int);
                }
            }
            i += 1;
        }
        proof {
            assert(frontier@.take(frontier@.len() as int) =~= frontier@);
            k = k + 1;
        }
        frontier = new_frontier;
    }
    proof {
        assert forall|adj: spec_fn(T) -> Seq<T>| #[trigger]
            implements(neighbor_fn, adj) implies {
            &&& completes(adj, start, end)
            &&& parent_map@ == bfs_parents(adj, start, end)
            &&& parent_map@.contains_key(end) <==> reachable(adj, start, end)
            &&& rooted(adj, start, parent_map@)
            &&& forall|v: T| #[trigger]
                parent_map@.contains_key(v) <==> if reachable(adj, start, end) {
                    within(adj, start, v, distance(adj, start, end))
                } else {
                    reachable(adj, start, v)
                }
        } by {
            assert(finishes_at(adj, start, end, k));
            law_search_outcome(adj, start, end);
        }
    }
    parent_map
}

/// The elements of `v`, last to first.
fn reversed<T: Copy>(v: &Vec<T>) -> (r: Vec<T>)
    ensures
        r@ == v@.reverse(),
{
    let mut r: Vec<T> = Vec::new();
    let mut i: usize = v.len();
    while i > 0
        invariant
            i <= v.len(),
            r@.len() == v.len() - i,
            forall|j: int| 0 <= j < r@.len() ==> r@[j] == v@[v.len() - 1 - j],
        decreases i,
    {
        i -= 1;
        r.push(v[i]);
    }
    r
}

/// The vertices of a shortest path from `start` to `end`, both included, in the order in
/// which the path visits them; empty where `end` cannot be reached from `start`.
///
/// Among the shortest paths it is the one that the search finds: each vertex on it was
/// first found from the vertex before it. `neighbor_fn` is as for [`bfs`].
pub fn shortest_path<T: Hash + Eq + Copy, F: Fn(T) -> Vec<T>>(
    start: T,
    end: T,
    neighbor_fn: &F,
) -> (path: Vec<T>)
    requires
        obeys_key_model::<T>(),
        start != end ==> forall|u: T| call_requires(neighbor_fn, (u,)),
        start != end ==> exists|adj: spec_fn(T) -> Seq<T>|
            #[trigger] implements(neighbor_fn, adj) && searchable(adj, start, end),
    ensures
        forall|adj: spec_fn(T) -> Seq<T>| #[trigger]
            implements(neighbor_fn, adj) ==> {
                &&& path@ == shortest_route(adj, start, end)
                &&& reachable(adj, start, end) ==> is_shortest(adj, path@, start, end)
                &&& reachable(adj, start, end) ==> path@.len() == distance(adj, start, end) + 1
                &&& !reachable(adj, start, end) ==> path@.len() == 0
            },
        start == end ==> path@ == seq![start],
        path@.no_duplicates(),
{
    let ghost adj0: spec_fn(T) -> Seq<T> = if start == end {
        |u: T| Seq::<T>::empty()
    } else {
        choose|adj: spec_fn(T) -> Seq<T>|
            #[trigger] implements(neighbor_fn, adj) && searchable(adj, start, end)
    };
    let parent_map: HashMap<T, Option<T>> = bfs(start, end, neighbor_fn);
    let ghost parents: Map<T, Option<T>> = parent_map@;
    proof {
        if start == end {
            lemma_within_zero(adj0, start, start);
        }
    }
    let mut back: Vec<T> = Vec::new();
    let mut curr: T = end;
    let ghost mut d: nat = distance(adj0, start, end);
    loop
        invariant_except_break
            obeys_key_model::<T>(),
            parents == parent_map@,
            rooted(adj0, start, parents),
            start == end ==> parents == initial(start).parents,
            back@.len() == 0 ==> curr == end,
            back@.len() > 0 ==> back@[0] == end && parents[back@.last()] == Some(curr),
            forall|i: int| 0 <= i < back@.len() ==> parents.contains_key(#[trigger] back@[i]),
            forall|i: int|
                0 < i < back@.len() ==> parents[back@[i - 1]] == Some(#[trigger] back@[i]),
            parents.contains_key(curr) ==> reachable(adj0, start, curr) && distance(
                adj0,
                start,
                curr,
            ) == d,
        ensures
            parents == parent_map@,
            back@.len() == 0 ==> !parents.contains_key(end),
            back@.len() > 0 ==> back@[0] == end && parents[back@.last()] == None::<T>,
            forall|i: int| 0 <= i < back@.len() ==> parents.contains_key(#[trigger] back@[i]),
            forall|i: int|
                0 < i < back@.len() ==> parents[back@[i - 1]] == Some(#[trigger] back@[i]),
            start == end ==> back@ == seq![start],
        decreases d,
    {
        match parent_map.get(&curr) {
            None => {
                break ;
            },
            Some(Some(parent)) => {
                back.push(curr);
                curr = *parent;
                proof {
                    d = (d - 1) as nat;
                }
            },
            Some(None) => {
                back.push(curr);
                break ;
            },
        }
    }
    let path: Vec<T> = reversed(&back);
    proof {
        assert forall|adj: spec_fn(T) -> Seq<T>| #[trigger]
            implements(neighbor_fn, adj) implies {
            &&& path@ == shortest_route(adj, start, end)
            &&& reachable(adj, start, end) ==> is_shortest(adj, path@, start, end)
            &&& reachable(adj, start, end) ==> path@.len() == distance(adj, start, end) + 1
            &&& !reachable(adj, start, end) ==> path@.len() == 0
        } by {
            law_shortest_route(adj, start, end);
            if back@.len() > 0 {
                lemma_chain_is_route(adj, start, parents, path@, end);
            }
        }
        if start != end && reachable(adj0, start, end) {
            law_shortest_is_simple(adj0, path@, start, end);
        }
    }
    path
}

/// Two searches with the same arguments end with the same parents: whatever meets the
/// contract of [`bfs`] for some arguments is one map.
pub proof fn law_same_arguments_same_parents<T, F: Fn(T) -> Vec<T>>(
    start: T,
    end: T,
    neighbor_fn: &F,
    first: Map<T, Option<T>>,
    second: Map<T, Option<T>>,
)
    requires
        start != end ==> exists|adj: spec_fn(T) -> Seq<T>| #[trigger] implements(neighbor_fn, adj),
        forall|adj: spec_fn(T) -> Seq<T>| #[trigger]
            implements(neighbor_fn, adj) ==> first == bfs_parents(adj, start, end),
        forall|adj: spec_fn(T) -> Seq<T>| #[trigger]
            implements(neighbor_fn, adj) ==> second == bfs_parents(adj, start, end),
        start == end ==> first == Map::<T, Option<T>>::empty().insert(start, None),
        start == end ==> second == Map::<T, Option<T>>::empty().insert(start, None),
    ensures
        first == second,
{
}

/// Two searches with the same arguments find the same path: whatever meets the contract
/// of [`shortest_path`] for some arguments is one sequence.
pub proof fn law_same_arguments_same_path<T, F: Fn(T) -> Vec<T>>(
    start: T,
    end: T,
    neighbor_fn: &F,
    first: Seq<T>,
    second: Seq<T>,
)
    requires
        start != end ==> exists|adj: spec_fn(T) -> Seq<T>| #[trigger] implements(neighbor_fn, adj),
        forall|adj: spec_fn(T) -> Seq<T>| #[trigger]
            implements(neighbor_fn, adj) ==> first == shortest_route(adj, start, end),
        forall|adj: spec_fn(T) -> Seq<T>| #[trigger]
            implements(neighbor_fn, adj) ==> second == shortest_route(adj, start, end),
        start == end ==> first == seq![start],
        start == end ==> second == seq![start],
    ensures
        first == second,
{
}

} // verus!
