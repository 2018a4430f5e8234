//! Why the search works: after `k` rounds it knows exactly the vertices within `k` edges of
//! the start, its frontier holds exactly those at distance `k`, and every parent is one
//! edge nearer to the start than its child.
use crate::graph::{at_distance, distance, reachable, within};
use crate::graph::{lemma_within_pred, lemma_within_step, lemma_within_zero};
use crate::search::{
    advance, discover, expand, finished, finishes_at, initial, rounds, scan, search_after, Search,
};
use vstd::prelude::*;

verus! {

/// `v` got its parent from among `src`, and the parent has `v` as a neighbor.
pub open spec fn found_from<T>(
    adj: spec_fn(T) -> Seq<T>,
    src: Seq<T>,
    parents: Map<T, Option<T>>,
    v: T,
) -> bool {
    &&& parents[v] is Some
    &&& src.contains(parents[v].unwrap())
    &&& adj(parents[v].unwrap()).contains(v)
}

/// `t` is `base` with an empty frontier, after looking from some of `src` at some of their
/// neighbors: what was known is kept, and what is new is in the frontier.
pub open spec fn grown<T>(
    adj: spec_fn(T) -> Seq<T>,
    base: Map<T, Option<T>>,
    src: Seq<T>,
    t: Search<T>,
) -> bool {
    &&& forall|v: T| #[trigger]
        t.parents.contains_key(v) ==> base.contains_key(v) || t.frontier.contains(v)
    &&& forall|v: T| #[trigger]
        t.frontier.contains(v) ==> t.parents.contains_key(v) && !base.contains_key(v)
            && found_from(adj, src, t.parents, v)
    &&& forall|v: T| #[trigger]
        base.contains_key(v) ==> t.parents.contains_key(v) && t.parents[v] == base[v]
}

/// Every neighbor of every vertex of `us` is known to `t`.
pub open spec fn covers<T>(adj: spec_fn(T) -> Seq<T>, us: Seq<T>, t: Search<T>) -> bool {
    forall|u: T, v: T|
        #![trigger us.contains(u), adj(u).contains(v)]
        us.contains(u) && adj(u).contains(v) ==> t.parents.contains_key(v)
}

/// Looking from `u` at `vs` keeps a grown search grown, and makes each of `vs` known.
pub proof fn lemma_scan_grown<T>(
    adj: spec_fn(T) -> Seq<T>,
    base: Map<T, Option<T>>,
    src: Seq<T>,
    t: Search<T>,
    u: T,
    vs: Seq<T>,
)
    requires
        grown(adj, base, src, t),
        src.contains(u),
        forall|i: int| 0 <= i < vs.len() ==> adj(u).contains(#[trigger] vs[i]),
    ensures
        grown(adj, base, src, scan(t, u, vs)),
        forall|v: T| #[trigger]
            t.parents.contains_key(v) ==> scan(t, u, vs).parents.contains_key(v),
        forall|i: int|
            0 <= i < vs.len() ==> scan(t, u, vs).parents.contains_key(#[trigger] vs[i]),
    decreases vs.len(),
{
    broadcast use vstd::seq_lib::lemma_seq_contains_after_push;

    if vs.len() > 0 {
        let ws: Seq<T> = vs.drop_last();
        let w: T = vs.last();
        lemma_scan_grown(adj, base, src, t, u, ws);
        let s: Search<T> = scan(t, u, ws);
        let r: Search<T> = discover(s, u, w);
        assert forall|i: int| 0 <= i < vs.len() implies r.parents.contains_key(
            #[trigger] vs[i],
        ) by {
            if i < ws.len() {
                assert(ws[i] == vs[i]);
            }
        }
    }
}

/// Expanding `us` from `base` gives a grown search to which every neighbor of `us` is known.
pub proof fn lemma_expand_grown<T>(
    adj: spec_fn(T) -> Seq<T>,
    base: Map<T, Option<T>>,
    src: Seq<T>,
    us: Seq<T>,
)
    requires
        forall|i: int| 0 <= i < us.len() ==> src.contains(#[trigger] us[i]),
    ensures
        grown(adj, base, src, expand(adj, Search { parents: base, frontier: Seq::empty() }, us)),
        covers(adj, us, expand(adj, Search { parents: base, frontier: Seq::empty() }, us)),
    decreases us.len(),
{
    let b: Search<T> = Search { parents: base, frontier: Seq::empty() };
    if us.len() > 0 {
        let ws: Seq<T> = us.drop_last();
        let w: T = us.last();
        lemma_expand_grown(adj, base, src, ws);
        let s: Search<T> = expand(adj, b, ws);
        lemma_scan_grown(adj, base, src, s, w, adj(w));
        let r: Search<T> = scan(s, w, adj(w));
        assert forall|u: T, v: T|
            #![trigger us.contains(u), adj(u).contains(v)]
            us.contains(u) && adj(u).contains(v) implies r.parents.contains_key(v) by {
            let i: int = choose|i: int| 0 <= i < us.len() && #[trigger] us[i] == u;
            if i < ws.len() {
                assert(ws[i] == u);
                assert(ws.contains(u));
            }
        }
    }
}

/// Below `start` the parent map is a tree by distance: `start` is the root, and the parent
/// of any other known vertex is known, has it as a neighbor, and is one edge nearer.
pub open spec fn rooted<T>(
    adj: spec_fn(T) -> Seq<T>,
    start: T,
    parents: Map<T, Option<T>>,
) -> bool {
    &&& parents.contains_key(start)
    &&& parents[start] == None::<T>
    &&& forall|v: T| #[trigger]
        parents.contains_key(v) && v != start ==> {
            &&& parents[v] is Some
            &&& parents.contains_key(parents[v].unwrap())
            &&& adj(parents[v].unwrap()).contains(v)
            &&& reachable(adj, start, parents[v].unwrap())
            &&& distance(adj, start, v) == distance(adj, start, parents[v].unwrap()) + 1
        }
}

/// The search `s` stands where `k` rounds from `start` leave it: it knows the vertices
/// within `k` edges, and its frontier holds those at distance `k`.
pub open spec fn layered<T>(adj: spec_fn(T) -> Seq<T>, start: T, s: Search<T>, k: nat) -> bool {
    &&& forall|v: T| #[trigger] s.parents.contains_key(v) <==> within(adj, start, v, k)
    &&& forall|v: T| #[trigger] s.frontier.contains(v) <==> at_distance(adj, start, v, k)
    &&& rooted(adj, start, s.parents)
}

/// Before the first round the search is layered at 0.
pub proof fn lemma_initial_layered<T>(adj: spec_fn(T) -> Seq<T>, start: T)
    ensures
        layered(adj, start, initial(start), 0),
{
    let s: Search<T> = initial(start);
    assert forall|v: T| #[trigger] s.parents.contains_key(v) <==> within(adj, start, v, 0) by {
        lemma_within_zero(adj, start, v);
    }
    assert forall|v: T| #[trigger] s.frontier.contains(v) <==> at_distance(adj, start, v, 0) by {
        lemma_within_zero(adj, start, v);
        if v == start {
            assert(s.frontier[0] == v);
        }
    }
}

/// A round takes a search layered at `k` to one layered at `k + 1`.
pub proof fn lemma_round_layered<T>(
    adj: spec_fn(T) -> Seq<T>,
    start: T,
    s: Search<T>,
    end: T,
    k: nat,
)
    requires
        layered(adj, start, s, k),
        !finished(s, end),
    ensures
        layered(adj, start, advance(adj, s, end), k + 1),
{
    let base: Map<T, Option<T>> = s.parents;
    let us: Seq<T> = s.frontier;
    let t: Search<T> = advance(adj, s, end);
    lemma_expand_grown(adj, base, us, us);
    assert forall|v: T| #[trigger] t.parents.contains_key(v) implies within(
        adj,
        start,
        v,
        k + 1,
    ) by {
        if !base.contains_key(v) {
            lemma_within_step(adj, start, t.parents[v].unwrap(), v, k);
        }
    }
    assert forall|v: T| within(adj, start, v, k + 1) implies #[trigger] t.parents.contains_key(
        v,
    ) by {
        if within(adj, start, v, k) {
            assert(base.contains_key(v));
        } else {
            let u: T = lemma_within_pred(adj, start, v, k);
            assert(us.contains(u));
        }
    }
    assert forall|v: T| #[trigger] t.frontier.contains(v) <==> at_distance(
        adj,
        start,
        v,
        k + 1,
    ) by {
        if at_distance(adj, start, v, k + 1) {
            assert(t.parents.contains_key(v));
        }
    }
}

/// A finished search stays as it is, round after round.
pub proof fn lemma_finished_stays<T>(adj: spec_fn(T) -> Seq<T>, start: T, end: T, k: nat, j: nat)
    requires
        finished(search_after(adj, start, end, k), end),
        k <= j,
    ensures
        search_after(adj, start, end, j) == search_after(adj, start, end, k),
    decreases j,
{
    if k < j {
        lemma_finished_stays(adj, start, end, k, (j - 1) as nat);
    }
}

/// As long as no earlier round finished the search, it is layered at its round.
pub proof fn lemma_search_layered<T>(adj: spec_fn(T) -> Seq<T>, start: T, end: T, k: nat)
    requires
        forall|j: nat| j < k ==> !finished(#[trigger] search_after(adj, start, end, j), end),
    ensures
        layered(adj, start, search_after(adj, start, end, k), k),
    decreases k,
{
    if k == 0 {
        lemma_initial_layered(adj, start);
    } else {
        let j: nat = (k - 1) as nat;
        lemma_search_layered(adj, start, end, j);
        lemma_round_layered(adj, start, search_after(adj, start, end, j), end, j);
    }
}

/// A search that is finished after some round has a first round after which it is finished.
pub proof fn lemma_first_finish<T>(adj: spec_fn(T) -> Seq<T>, start: T, end: T, k: nat) -> (m: nat)
    requires
        finished(search_after(adj, start, end, k), end),
    ensures
        m <= k,
        finishes_at(adj, start, end, m),
    decreases k,
{
    if k > 0 && finished(search_after(adj, start, end, (k - 1) as nat), end) {
        lemma_first_finish(adj, start, end, (k - 1) as nat)
    } else {
        assert forall|j: nat| j < k implies !finished(
            #[trigger] search_after(adj, start, end, j),
            end,
        ) by {
            if finished(search_after(adj, start, end, j), end) {
                lemma_finished_stays(adj, start, end, j, (k - 1) as nat);
            }
        }
        k
    }
}

} // verus!
