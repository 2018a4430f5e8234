//! Shortest paths on the grid. The search itself runs over the numbers of the cells; what
//! it finds is what a search over the cells finds.
use crate::bfs::{implements, shortest_path};
use crate::graph::{component, distance, is_shortest, is_walk, linked, reachable, searchable};
use crate::graph::{law_shortest_is_simple, lemma_numbered_set_finite};
use crate::grid::law_open_adjacent;
use crate::grid::{admissible, open_adjacent, open_neighbors, CellSet, Position};
use crate::outcome::{law_shortest_route, lemma_searchable_completes};
use crate::relabel::{law_renamed_route, renamed_graph};
use crate::search::shortest_route;
use vstd::prelude::*;

verus! {

/// The grid as a graph: from a cell one step leads to each cell next to it that a path
/// may enter.
pub open spec fn cell_graph(
    obstacles: Set<Position>,
    width: u8,
    height: u8,
    allow_diagonal: bool,
) -> spec_fn(Position) -> Seq<Position> {
    |p: Position| open_adjacent(p, obstacles, width, height, allow_diagonal)
}

/// The route from `start` to `end` that a breadth-first search on the grid finds.
pub open spec fn grid_route(
    start: Position,
    end: Position,
    obstacles: Set<Position>,
    width: u8,
    height: u8,
    allow_diagonal: bool,
) -> Seq<Position> {
    shortest_route(cell_graph(obstacles, width, height, allow_diagonal), start, end)
}

/// The number of a cell.
pub open spec fn to_key() -> spec_fn(Position) -> u16 {
    |p: Position| p.key_spec()
}

/// The cell that has a number.
pub open spec fn to_cell() -> spec_fn(u16) -> Position {
    |k: u16| Position::at_key(k)
}

/// The grid as a graph over the numbers of its cells.
pub open spec fn key_graph(
    obstacles: Set<Position>,
    width: u8,
    height: u8,
    allow_diagonal: bool,
) -> spec_fn(u16) -> Seq<u16> {
    renamed_graph(cell_graph(obstacles, width, height, allow_diagonal), to_key(), to_cell())
}

/// Every set of cell numbers is finite.
pub proof fn lemma_key_sets_finite(s: Set<u16>)
    ensures
        s.finite(),
{
    lemma_numbered_set_finite(s, |k: u16| k as int, 0, 0x1_0000);
}

/// Every set of cells is finite.
pub proof fn lemma_cell_sets_finite(s: Set<Position>)
    ensures
        s.finite(),
{
    lemma_numbered_set_finite(s, |p: Position| p.key_spec() as int, 0, 0x1_0000);
}

/// Each step of a walk on the grid leads to a cell next to the one before that a path may
/// enter: a cell inside the grid without an obstacle.
pub proof fn law_walk_on_grid(
    p: Seq<Position>,
    obstacles: Set<Position>,
    width: u8,
    height: u8,
    allow_diagonal: bool,
    i: int,
)
    requires
        is_walk(cell_graph(obstacles, width, height, allow_diagonal), p),
        0 < i < p.len(),
    ensures
        p[i - 1].adjacent(allow_diagonal).contains(p[i]),
        admissible(p[i], obstacles, width, height),
{
    assert(linked(cell_graph(obstacles, width, height, allow_diagonal), p, i));
    law_open_adjacent(p[i - 1], obstacles, width, height, allow_diagonal, p[i]);
}

/// The route that the search on the grid finds is a shortest walk from `start` to `end`
/// over cells that a path may enter, where there is such a walk, and empty where there is
/// none.
pub proof fn law_grid_route(
    start: Position,
    end: Position,
    obstacles: Set<Position>,
    width: u8,
    height: u8,
    allow_diagonal: bool,
)
    ensures
        ({
            let cells = cell_graph(obstacles, width, height, allow_diagonal);
            let found = grid_route(start, end, obstacles, width, height, allow_diagonal);
            &&& reachable(cells, start, end) ==> is_shortest(cells, found, start, end)
            &&& reachable(cells, start, end) ==> found.len() == distance(cells, start, end) + 1
            &&& !reachable(cells, start, end) ==> found == Seq::<Position>::empty()
            &&& start == end ==> found == seq![start]
            &&& found.no_duplicates()
        }),
{
    let cells = cell_graph(obstacles, width, height, allow_diagonal);
    lemma_cell_sets_finite(component(cells, start));
    lemma_searchable_completes(cells, start, end);
    law_shortest_route(cells, start, end);
    if reachable(cells, start, end) {
        law_shortest_is_simple(
            cells,
            grid_route(start, end, obstacles, width, height, allow_diagonal),
            start,
            end,
        );
    }
}

/// The numbers of `cells`, in their order.
fn keys_from(cells: &Vec<Position>) -> (keys: Vec<u16>)
    ensures
        keys@ == cells@.map_values(to_key()),
{
    let mut keys: Vec<u16> = Vec::new();
    let mut i: usize = 0;
    while i < cells.len()
        invariant
            i <= cells.len(),
            keys@ == cells@.take(i as int).map_values(to_key()),
        decreases cells.len() - i,
    {
        keys.push(cells[i].key());
        i += 1;
    }
    keys
}

/// The cells that have the numbers `keys`, in their order.
fn cells_from(keys: &Vec<u16>) -> (cells: Vec<Position>)
    ensures
        cells@ == keys@.map_values(to_cell()),
{
    let mut cells: Vec<Position> = Vec::new();
    let mut i: usize = 0;
    while i < keys.len()
        invariant
            i <= keys.len(),
            cells@ == keys@.take(i as int).map_values(to_cell()),
        decreases keys.len() - i,
    {
        cells.push(Position::from_key(keys[i]));
        i += 1;
    }
    cells
}

/// A shortest path from `start` to `end` over the grid of `width` columns and `height` rows,
/// both ends included, that enters no cell outside the grid and no obstacle; empty where
/// there is none. Steps are cardinal, and diagonal too if `allow_diagonal`.
///
/// Among the shortest paths it is the one that a breadth-first search finds which tries
/// the neighbors of a cell in the order up, down, left, right, then the diagonal ones.
/// `start` is not itself tested against the grid or the obstacles: a path only never
/// enters a cell that fails the test, so it may begin on one.
pub fn find_path(
    start: Position,
    end: Position,
    obstacles: &CellSet,
    width: u8,
    height: u8,
    allow_diagonal: bool,
) -> (path: Vec<Position>)
    ensures
        path@ == grid_route(start, end, obstacles@, width, height, allow_diagonal),
        ({
            let cells = cell_graph(obstacles@, width, height, allow_diagonal);
            &&& reachable(cells, start, end) ==> is_shortest(cells, path@, start, end)
            &&& reachable(cells, start, end) ==> path@.len() == distance(cells, start, end) + 1
            &&& !reachable(cells, start, end) ==> path@.len() == 0
        }),
        start == end ==> path@ == seq![start],
        path@.no_duplicates(),
        forall|i: int|
            0 < i < path@.len() ==> path@[i - 1].adjacent(allow_diagonal).contains(
                #[trigger] path@[i],
            ) && admissible(path@[i], obstacles@, width, height),
{
    let ghost cells = cell_graph(obstacles@, width, height, allow_diagonal);
    let ghost numbers = key_graph(obstacles@, width, height, allow_diagonal);
    let neighbor_fn = |k: u16| -> (r: Vec<u16>)
        ensures
            r@ == key_graph(obstacles@, width, height, allow_diagonal)(k),
        {
            let near: Vec<Position> = open_neighbors(
                Position::from_key(k),
                obstacles,
                width,
                height,
                allow_diagonal,
            );
            keys_from(&near)
        };
    proof {
        lemma_key_sets_finite(component(numbers, start.key_spec()));
        assert(implements(&neighbor_fn, numbers) && searchable(
            numbers,
            start.key_spec(),
            end.key_spec(),
        ));
    }
    let keys: Vec<u16> = shortest_path(start.key(), end.key(), &neighbor_fn);
    let path: Vec<Position> = cells_from(&keys);
    proof {
        lemma_cell_sets_finite(component(cells, start));
        lemma_searchable_completes(cells, start, end);
        law_renamed_route(cells, start, end, to_key(), to_cell());
        law_grid_route(start, end, obstacles@, width, height, allow_diagonal);
        assert forall|i: int| 0 < i < path@.len() implies path@[i - 1].adjacent(
            allow_diagonal,
        ).contains(#[trigger] path@[i]) && admissible(path@[i], obstacles@, width, height) by {
            law_walk_on_grid(path@, obstacles@, width, height, allow_diagonal, i);
        }
    }
    path
}

} // verus!
