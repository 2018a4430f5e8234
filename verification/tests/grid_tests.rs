use grid_path::bfs::{bfs, shortest_path};
use grid_path::finder::find_path;
use grid_path::grid::{open_neighbors, CellSet, Position};

fn at(y: u8, x: u8) -> Position {
    Position { y, x }
}

fn cells(list: &[(u8, u8)]) -> Vec<Position> {
    list.iter().map(|&(y, x)| at(y, x)).collect()
}

fn set_of(list: &[(u8, u8)]) -> CellSet {
    CellSet::from_cells(&cells(list))
}

/// The neighbors of a cell in a grid without obstacles, as the search is handed them.
fn bounded(width: u8, height: u8, diagonal: bool) -> impl Fn(Position) -> Vec<Position> {
    move |p: Position| {
        let all = if diagonal { p.neighbors_with_diagonals() } else { p.simple_neighbors() };
        all.into_iter().filter(|q| q.x < width && q.y < height).collect()
    }
}

#[test]
fn empty_five_by_five_cardinal() {
    let path = shortest_path(at(0, 0), at(4, 4), &bounded(5, 5, false));
    assert_eq!(path.len(), 9);
    assert_eq!(path[0], at(0, 0));
    assert_eq!(path[8], at(4, 4));
    let found = find_path(at(0, 0), at(4, 4), &CellSet::new(), 5, 5, false);
    assert_eq!(found, path);
}

#[test]
fn empty_five_by_five_diagonal() {
    let path = shortest_path(at(0, 0), at(4, 4), &bounded(5, 5, true));
    assert_eq!(path.len(), 5);
    assert_eq!(path, cells(&[(0, 0), (1, 1), (2, 2), (3, 3), (4, 4)]));
    let found = find_path(at(0, 0), at(4, 4), &CellSet::new(), 5, 5, true);
    assert_eq!(found, path);
}

#[test]
fn wall_blocks_cardinal_movement() {
    let wall = set_of(&[(0, 1), (1, 1), (2, 1)]);
    assert_eq!(find_path(at(0, 0), at(0, 2), &wall, 3, 3, false), Vec::<Position>::new());
    let f = |p: Position| open_neighbors(p, &wall, 3, 3, false);
    assert_eq!(shortest_path(at(0, 0), at(0, 2), &f), Vec::<Position>::new());
    let m = bfs(at(0, 0), at(0, 2), &f);
    assert!(!m.contains_key(&at(0, 2)));
    assert_eq!(m.len(), 3);
}

#[test]
fn wall_blocks_diagonal_movement_too() {
    let wall = set_of(&[(0, 1), (1, 1), (2, 1)]);
    assert_eq!(find_path(at(0, 0), at(0, 2), &wall, 3, 3, true), Vec::<Position>::new());
}

#[test]
fn gap_in_the_wall_is_found() {
    let wall = set_of(&[(0, 1), (1, 1)]);
    assert_eq!(
        find_path(at(0, 0), at(0, 2), &wall, 3, 3, false),
        cells(&[(0, 0), (1, 0), (2, 0), (2, 1), (2, 2), (1, 2), (0, 2)])
    );
    assert_eq!(
        find_path(at(0, 0), at(0, 2), &wall, 3, 3, true),
        cells(&[(0, 0), (1, 0), (2, 1), (1, 2), (0, 2)])
    );
}

#[test]
fn cardinal_path_in_the_order_of_the_search() {
    assert_eq!(
        find_path(at(0, 0), at(2, 2), &CellSet::new(), 3, 3, false),
        cells(&[(0, 0), (1, 0), (2, 0), (2, 1), (2, 2)])
    );
}

#[test]
fn path_to_itself() {
    assert_eq!(find_path(at(3, 4), at(3, 4), &CellSet::new(), 10, 10, false), vec![at(3, 4)]);
    // neither the grid nor the obstacles are asked about the start
    let taken = set_of(&[(30, 40)]);
    assert_eq!(find_path(at(30, 40), at(30, 40), &taken, 10, 10, true), vec![at(30, 40)]);
}

#[test]
fn end_outside_the_grid_is_not_reached() {
    let none = CellSet::new();
    assert_eq!(find_path(at(0, 0), at(0, 5), &none, 5, 5, false), Vec::<Position>::new());
    assert_eq!(find_path(at(0, 0), at(5, 0), &none, 5, 5, true), Vec::<Position>::new());
}

#[test]
fn end_on_an_obstacle_is_not_reached() {
    let taken = set_of(&[(1, 1)]);
    assert_eq!(find_path(at(0, 0), at(1, 1), &taken, 5, 5, true), Vec::<Position>::new());
}

#[test]
fn start_outside_the_grid_may_step_in() {
    assert_eq!(
        find_path(at(0, 5), at(0, 3), &CellSet::new(), 5, 5, false),
        cells(&[(0, 5), (0, 4), (0, 3)])
    );
}

#[test]
fn cardinal_neighbors_at_the_origin() {
    assert_eq!(at(0, 0).simple_neighbors(), cells(&[(1, 0), (0, 1)]));
}

#[test]
fn cardinal_neighbors_at_the_far_corner() {
    assert_eq!(at(255, 255).simple_neighbors(), cells(&[(254, 255), (255, 254)]));
}

#[test]
fn cardinal_neighbors_inside() {
    assert_eq!(at(5, 9).simple_neighbors(), cells(&[(4, 9), (6, 9), (5, 8), (5, 10)]));
}

#[test]
fn cardinal_neighbors_on_the_edges() {
    assert_eq!(at(0, 7).simple_neighbors(), cells(&[(1, 7), (0, 6), (0, 8)]));
    assert_eq!(at(255, 7).simple_neighbors(), cells(&[(254, 7), (255, 6), (255, 8)]));
    assert_eq!(at(7, 0).simple_neighbors(), cells(&[(6, 0), (8, 0), (7, 1)]));
    assert_eq!(at(7, 255).simple_neighbors(), cells(&[(6, 255), (8, 255), (7, 254)]));
    assert_eq!(at(0, 255).simple_neighbors(), cells(&[(1, 255), (0, 254)]));
    assert_eq!(at(255, 0).simple_neighbors(), cells(&[(254, 0), (255, 1)]));
}

#[test]
fn eight_neighbors_inside() {
    assert_eq!(
        at(5, 9).neighbors_with_diagonals(),
        cells(&[(4, 9), (6, 9), (5, 8), (5, 10), (4, 8), (4, 10), (6, 8), (6, 10)])
    );
    for y in 1u8..255 {
        assert_eq!(at(y, 1).neighbors_with_diagonals().len(), 8);
        assert_eq!(at(y, 254).neighbors_with_diagonals().len(), 8);
        assert_eq!(at(1, y).neighbors_with_diagonals().len(), 8);
        assert_eq!(at(254, y).neighbors_with_diagonals().len(), 8);
    }
}

#[test]
fn three_neighbors_in_a_corner() {
    assert_eq!(at(0, 0).neighbors_with_diagonals(), cells(&[(1, 0), (0, 1), (1, 1)]));
    assert_eq!(at(0, 255).neighbors_with_diagonals(), cells(&[(1, 255), (0, 254), (1, 254)]));
    assert_eq!(at(255, 0).neighbors_with_diagonals(), cells(&[(254, 0), (255, 1), (254, 1)]));
    assert_eq!(
        at(255, 255).neighbors_with_diagonals(),
        cells(&[(254, 255), (255, 254), (254, 254)])
    );
}

#[test]
fn five_neighbors_on_an_edge() {
    assert_eq!(
        at(0, 7).neighbors_with_diagonals(),
        cells(&[(1, 7), (0, 6), (0, 8), (1, 6), (1, 8)])
    );
    assert_eq!(at(7, 255).neighbors_with_diagonals().len(), 5);
}

#[test]
fn no_neighbor_is_listed_twice_and_none_is_the_cell() {
    for &(y, x) in &[(0u8, 0u8), (0, 9), (9, 0), (9, 9), (255, 255), (255, 3), (3, 255)] {
        let all = at(y, x).neighbors_with_diagonals();
        for (i, p) in all.iter().enumerate() {
            assert_ne!(*p, at(y, x));
            assert!(p.y.abs_diff(y) <= 1 && p.x.abs_diff(x) <= 1);
            for q in &all[i + 1..] {
                assert_ne!(p, q);
            }
        }
        for p in at(y, x).simple_neighbors() {
            assert_eq!(p.y.abs_diff(y) + p.x.abs_diff(x), 1);
        }
    }
}

#[test]
fn neighbors_outside_the_grid_are_left_out() {
    let none = CellSet::new();
    assert_eq!(open_neighbors(at(4, 4), &none, 5, 5, true), cells(&[(3, 4), (4, 3), (3, 3)]));
    assert_eq!(open_neighbors(at(4, 4), &none, 5, 5, false), cells(&[(3, 4), (4, 3)]));
    assert_eq!(
        open_neighbors(at(2, 2), &none, 5, 5, false),
        cells(&[(1, 2), (3, 2), (2, 1), (2, 3)])
    );
    assert_eq!(open_neighbors(at(2, 2), &none, 3, 5, false), cells(&[(1, 2), (3, 2), (2, 1)]));
    assert_eq!(open_neighbors(at(2, 2), &none, 5, 3, false), cells(&[(1, 2), (2, 1), (2, 3)]));
    assert_eq!(open_neighbors(at(2, 2), &none, 0, 0, true), Vec::<Position>::new());
}

#[test]
fn neighbors_on_obstacles_are_left_out() {
    let blocked = set_of(&[(1, 2), (2, 3), (3, 3)]);
    assert_eq!(open_neighbors(at(2, 2), &blocked, 5, 5, false), cells(&[(3, 2), (2, 1)]));
    assert_eq!(
        open_neighbors(at(2, 2), &blocked, 5, 5, true),
        cells(&[(3, 2), (2, 1), (1, 1), (1, 3), (3, 1)])
    );
}

#[test]
fn cells_and_their_numbers() {
    assert_eq!(at(0, 0).key(), 0);
    assert_eq!(at(0, 255).key(), 255);
    assert_eq!(at(1, 0).key(), 256);
    assert_eq!(at(255, 255).key(), 65535);
    assert_eq!(at(3, 4).key(), 3 * 256 + 4);
    assert_eq!(Position::from_key(3 * 256 + 4), at(3, 4));
    for k in [0u16, 1, 255, 256, 257, 4660, 65535] {
        assert_eq!(Position::from_key(k).key(), k);
    }
}

#[test]
fn cell_sets() {
    let mut s = CellSet::new();
    assert!(s.is_empty());
    assert_eq!(s.len(), 0);
    assert!(!s.contains(&at(1, 2)));
    assert!(s.insert(at(1, 2)));
    assert!(!s.insert(at(1, 2)));
    assert!(s.insert(at(2, 1)));
    assert!(s.contains(&at(1, 2)));
    assert!(s.contains(&at(2, 1)));
    assert!(!s.contains(&at(1, 1)));
    assert_eq!(s.len(), 2);
    assert!(!s.is_empty());
    assert!(s.remove(&at(1, 2)));
    assert!(!s.remove(&at(1, 2)));
    assert!(!s.contains(&at(1, 2)));
    assert_eq!(s.len(), 1);
    let t = set_of(&[(0, 0), (0, 1), (0, 0), (9, 9)]);
    assert_eq!(t.len(), 3);
    assert!(t.contains(&at(9, 9)));
}
