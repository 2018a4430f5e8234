//! The grid: its cells, which cells lie next to a cell, and which of those a path may enter.
use std::collections::HashSet;
use vstd::prelude::*;

verus! {

/// A cell of the grid, addressed by row `y` and column `x`.
#[derive(Debug, Clone, Copy, PartialEq, Eq, Hash, Structural)]
pub struct Position {
    pub y: u8,
    pub x: u8,
}

/// How far apart two coordinates are.
pub open spec fn gap(a: u8, b: u8) -> int {
    if a <= b {
        b - a
    } else {
        a - b
    }
}

impl Position {
    /// The cell as one number: the row in the high byte, the column in the low byte.
    pub open spec fn key_spec(self) -> u16 {
        (self.y * 256 + self.x) as u16
    }

    /// The cell that has the number `k`.
    pub open spec fn at_key(k: u16) -> Position {
        Position { y: (k / 256) as u8, x: (k % 256) as u8 }
    }

    /// The cell `dy` rows below and `dx` columns right of this one, as a sequence: empty
    /// where a coordinate of that cell would be less than 0 or more than 255.
    pub open spec fn shifted(self, dy: int, dx: int) -> Seq<Position> {
        if 0 <= self.y + dy <= u8::MAX && 0 <= self.x + dx <= u8::MAX {
            seq![Position { y: (self.y + dy) as u8, x: (self.x + dx) as u8 }]
        } else {
            Seq::empty()
        }
    }

    /// The cells one step up, down, left and right, in this order, as far as they exist.
    pub open spec fn cardinal(self) -> Seq<Position> {
        self.shifted(-1, 0) + self.shifted(1, 0) + self.shifted(0, -1) + self.shifted(0, 1)
    }

    /// The cells one step up-left, up-right, down-left and down-right, in this order, as far
    /// as they exist.
    pub open spec fn diagonal(self) -> Seq<Position> {
        self.shifted(-1, -1) + self.shifted(-1, 1) + self.shifted(1, -1) + self.shifted(1, 1)
    }

    /// The cells next to this one: the cardinal ones, then the diagonal ones if they count.
    pub open spec fn adjacent(self, allow_diagonal: bool) -> Seq<Position> {
        if allow_diagonal {
            self.cardinal() + self.diagonal()
        } else {
            self.cardinal()
        }
    }

    /// The cell as one number.
    pub fn key(&self) -> (k: u16)
        ensures
            k == self.key_spec(),
    {
        let y: u16 = self.y as u16;
        let x: u16 = self.x as u16;
        y * 256 + x
    }

    /// The cell that has the number `k`.
    pub fn from_key(k: u16) -> (p: Position)
        ensures
            p == Position::at_key(k),
    {
        Position { y: (k / 256) as u8, x: (k % 256) as u8 }
    }

    /// The cells one step up, down, left and right of this one, in this order. A cell that
    /// would lie outside the range of the coordinates is left out.
    pub fn simple_neighbors(&self) -> (ret: Vec<Position>)
        ensures
            ret@ == self.cardinal(),
            ret@.no_duplicates(),
            forall|q: Position| ret@.contains(q) <==> gap(self.y, q.y) + gap(self.x, q.x) == 1,
            0 < self.y < u8::MAX && 0 < self.x < u8::MAX ==> ret@.len() == 4,
            (self.y == 0 || self.y == u8::MAX) && (self.x == 0 || self.x == u8::MAX) ==> ret@.len()
                == 2,
    {
        proof {
            assert forall|q: Position|
                self.cardinal().contains(q) <==> gap(self.y, q.y) + gap(self.x, q.x) == 1 by {
                law_cardinal_neighbors(*self, q);
            }
        }
        let mut ret: Vec<Position> = Vec::new();
        if self.y > 0 {
            ret.push(Position { y: self.y - 1, x: self.x });
        }
        if self.y < u8::MAX {
            ret.push(Position { y: self.y + 1, x: self.x });
        }
        if self.x > 0 {
            ret.push(Position { y: self.y, x: self.x - 1 });
        }
        if self.x < u8::MAX {
            ret.push(Position { y: self.y, x: self.x + 1 });
        }
        assert(ret@ =~= self.cardinal());
        ret
    }

    /// The cardinal neighbors, then the cells one step away along both axes: up-left,
    /// up-right, down-left, down-right. A cell that would lie outside the range of the
    /// coordinates is left out.
    pub fn neighbors_with_diagonals(&self) -> (ret: Vec<Position>)
        ensures
            ret@ == self.cardinal() + self.diagonal(),
            ret@.no_duplicates(),
            forall|q: Position|
                ret@.contains(q) <==> q != *self && gap(self.y, q.y) <= 1 && gap(self.x, q.x) <= 1,
            0 < self.y < u8::MAX && 0 < self.x < u8::MAX ==> ret@.len() == 8,
            (self.y == 0 || self.y == u8::MAX) && (self.x == 0 || self.x == u8::MAX) ==> ret@.len()
                == 3,
    {
        proof {
            law_neighbors_distinct(*self, true);
            assert forall|q: Position|
                self.adjacent(true).contains(q) <==> q != *self && gap(self.y, q.y) <= 1 && gap(
                    self.x,
                    q.x,
                ) <= 1 by {
                law_adjacent(*self, q);
            }
        }
        let mut ret: Vec<Position> = self.simple_neighbors();
        let ghost first: Seq<Position> = ret@;
        if self.y > 0 && self.x > 0 {
            ret.push(Position { y: self.y - 1, x: self.x - 1 });
        }
        if self.y > 0 && self.x < u8::MAX {
            ret.push(Position { y: self.y - 1, x: self.x + 1 });
        }
        if self.y < u8::MAX && self.x > 0 {
            ret.push(Position { y: self.y + 1, x: self.x - 1 });
        }
        if self.y < u8::MAX && self.x < u8::MAX {
            ret.push(Position { y: self.y + 1, x: self.x + 1 });
        }
        assert(ret@ =~= first + self.diagonal());
        ret
    }
}

/// A cell and its number stand for each other.
pub proof fn law_key_round_trip(p: Position, k: u16)
    ensures
        Position::at_key(p.key_spec()) == p,
        Position::at_key(k).key_spec() == k,
{
}

/// `shifted` holds the one cell at that offset, if any.
pub proof fn lemma_shifted(p: Position, dy: int, dx: int, q: Position)
    ensures
        p.shifted(dy, dx).contains(q) <==> q.y == p.y + dy && q.x == p.x + dx,
        p.shifted(dy, dx).len() <= 1,
{
    let s: Seq<Position> = p.shifted(dy, dx);
    if q.y == p.y + dy && q.x == p.x + dx {
        assert(s[0] == q);
    }
}

/// The cardinal neighbors of a cell are the cells one step away from it along one axis.
pub proof fn law_cardinal_neighbors(p: Position, q: Position)
    ensures
        p.cardinal().contains(q) <==> gap(p.y, q.y) + gap(p.x, q.x) == 1,
{
    broadcast use vstd::seq_lib::lemma_seq_concat_contains_all_elements;

    lemma_shifted(p, -1, 0, q);
    lemma_shifted(p, 1, 0, q);
    lemma_shifted(p, 0, -1, q);
    lemma_shifted(p, 0, 1, q);
}

/// The diagonal neighbors of a cell are the cells one step away from it along both axes.
pub proof fn law_diagonal_neighbors(p: Position, q: Position)
    ensures
        p.diagonal().contains(q) <==> gap(p.y, q.y) == 1 && gap(p.x, q.x) == 1,
{
    broadcast use vstd::seq_lib::lemma_seq_concat_contains_all_elements;

    lemma_shifted(p, -1, -1, q);
    lemma_shifted(p, -1, 1, q);
    lemma_shifted(p, 1, -1, q);
    lemma_shifted(p, 1, 1, q);
}

/// With diagonals, the neighbors of a cell are the other cells at most one step away from
/// it along each axis; without, they are the cardinal ones.
pub proof fn law_adjacent(p: Position, q: Position)
    ensures
        p.adjacent(true).contains(q) <==> p != q && gap(p.y, q.y) <= 1 && gap(p.x, q.x) <= 1,
        p.adjacent(false).contains(q) <==> gap(p.y, q.y) + gap(p.x, q.x) == 1,
        p.adjacent(false).contains(q) ==> p.adjacent(true).contains(q),
{
    broadcast use vstd::seq_lib::lemma_seq_concat_contains_all_elements;

    law_cardinal_neighbors(p, q);
    law_diagonal_neighbors(p, q);
}

/// No cell is listed twice among the neighbors of a cell.
pub proof fn law_neighbors_distinct(p: Position, allow_diagonal: bool)
    ensures
        p.adjacent(allow_diagonal).no_duplicates(),
{
}

/// How many neighbors a cell has: inside the range of the coordinates 4, or 8 with
/// diagonals; in a corner of that range 2, or 3 with diagonals.
pub proof fn law_neighbor_counts(p: Position)
    ensures
        0 < p.y < u8::MAX && 0 < p.x < u8::MAX ==> p.adjacent(false).len() == 4 && p.adjacent(
            true,
        ).len() == 8,
        (p.y == 0 || p.y == u8::MAX) && (p.x == 0 || p.x == u8::MAX) ==> p.adjacent(false).len()
            == 2 && p.adjacent(true).len() == 3,
        p == (Position { y: 0, x: 0 }) ==> p.cardinal() == seq![
            Position { y: 1, x: 0 },
            Position { y: 0, x: 1 },
        ],
        p == (Position { y: u8::MAX, x: u8::MAX }) ==> p.cardinal() == seq![
            Position { y: 254, x: 255 },
            Position { y: 255, x: 254 },
        ],
{
    if p == (Position { y: 0, x: 0 }) {
        assert(p.cardinal() =~= seq![Position { y: 1, x: 0 }, Position { y: 0, x: 1 }]);
    }
    if p == (Position { y: u8::MAX, x: u8::MAX }) {
        assert(p.cardinal() =~= seq![Position { y: 254, x: 255 }, Position { y: 255, x: 254 }]);
    }
}

/// A set of cells.
#[derive(Debug)]
pub struct CellSet {
    keys: HashSet<u16>,
}

impl View for CellSet {
    type V = Set<Position>;

    closed spec fn view(&self) -> Set<Position> {
        Set::new(|p: Position| self.keys@.contains(p.key_spec()))
    }
}

impl CellSet {
    /// Only finitely many cells are ever in the set.
    #[verifier::type_invariant]
    spec fn is_finite(self) -> bool {
        self.keys@.finite()
    }

    /// The set without cells.
    pub fn new() -> (s: CellSet)
        ensures
            s@ == Set::<Position>::empty(),
    {
        CellSet { keys: HashSet::new() }
    }

    /// Whether `pos` is in the set.
    pub fn contains(&self, pos: &Position) -> (b: bool)
        ensures
            b == self@.contains(*pos),
    {
        let k: u16 = pos.key();
        self.keys.contains(&k)
    }

    /// Puts `pos` into the set, and says whether it was new to the set.
    pub fn insert(&mut self, pos: Position) -> (fresh: bool)
        ensures
            final(self)@ == old(self)@.insert(pos),
            fresh == !old(self)@.contains(pos),
    {
        let k: u16 = pos.key();
        proof {
            use_type_invariant(&*self);
        }
        let mut keys: HashSet<u16> = HashSet::new();
        core::mem::swap(&mut self.keys, &mut keys);
        let fresh: bool = keys.insert(k);
        core::mem::swap(&mut self.keys, &mut keys);
        fresh
    }

    /// Takes `pos` out of the set, and says whether it was in the set.
    pub fn remove(&mut self, pos: &Position) -> (was_in: bool)
        ensures
            final(self)@ == old(self)@.remove(*pos),
            was_in == old(self)@.contains(*pos),
    {
        let k: u16 = pos.key();
        proof {
            use_type_invariant(&*self);
        }
        let mut keys: HashSet<u16> = HashSet::new();
        core::mem::swap(&mut self.keys, &mut keys);
        let was_in: bool = keys.remove(&k);
        core::mem::swap(&mut self.keys, &mut keys);
        was_in
    }

    /// The number of cells in the set.
    pub fn len(&self) -> (n: usize)
        ensures
            self@.finite(),
            n == self@.len(),
    {
        proof {
            use_type_invariant(self);
            self.lemma_same_size();
        }
        self.keys.len()
    }

    /// Whether the set is without cells.
    pub fn is_empty(&self) -> (b: bool)
        ensures
            b == (self@ == Set::<Position>::empty()),
    {
        let b: bool = self.keys.is_empty();
        proof {
            if b {
                assert(self@ =~= Set::<Position>::empty());
            } else {
                let k: u16 = choose|k: u16| self.keys@.contains(k);
                assert(self@.contains(Position::at_key(k)));
            }
        }
        b
    }

    /// The set of the cells of `cells`.
    pub fn from_cells(cells: &Vec<Position>) -> (s: CellSet)
        ensures
            s@ == cells@.to_set(),
    {
        let mut s: CellSet = CellSet::new();
        let mut i: usize = 0;
        while i < cells.len()
            invariant
                i <= cells.len(),
                s@ == cells@.take(i as int).to_set(),
            decreases cells.len() - i,
        {
            s.insert(cells[i]);
            proof {
                broadcast use vstd::seq_lib::lemma_seq_contains_after_push;

                assert(cells@.take(i + 1) =~= cells@.take(i as int).push(cells@[i as int]));
            }
            i += 1;
        }
        assert(cells@.take(cells@.len() as int) =~= cells@);
        s
    }

    /// The set is finite, and holds as many cells as it holds numbers.
    proof fn lemma_same_size(&self)
        requires
            self.keys@.finite(),
        ensures
            self@.finite(),
            self@.len() == self.keys@.len(),
    {
        let keys: Set<u16> = self.keys@;
        let cells: Set<Position> = keys.map(|k: u16| Position::at_key(k));
        assert forall|p: Position| cells.contains(p) implies self@.contains(p) by {
            let k: u16 = choose|k: u16| keys.contains(k) && Position::at_key(k) == p;
            assert(p.key_spec() == k);
        }
        assert(self@ =~= cells);
        vstd::set_lib::lemma_map_size(keys, cells, |k: u16| Position::at_key(k));
    }
}

/// A path may enter `pos`: it lies inside a grid of `width` columns and `height` rows, and
/// no obstacle stands on it.
pub open spec fn admissible(
    pos: Position,
    obstacles: Set<Position>,
    width: u8,
    height: u8,
) -> bool {
    &&& pos.x < width
    &&& pos.y < height
    &&& !obstacles.contains(pos)
}

/// The cells next to `pos` that a path may enter, in the order in which they are next to it.
pub open spec fn open_adjacent(
    pos: Position,
    obstacles: Set<Position>,
    width: u8,
    height: u8,
    allow_diagonal: bool,
) -> Seq<Position> {
    pos.adjacent(allow_diagonal).filter(|q: Position| admissible(q, obstacles, width, height))
}

/// A cell is among the cells next to `pos` that a path may enter exactly if it is next to
/// `pos` and a path may enter it.
pub proof fn law_open_adjacent(
    pos: Position,
    obstacles: Set<Position>,
    width: u8,
    height: u8,
    allow_diagonal: bool,
    q: Position,
)
    ensures
        open_adjacent(pos, obstacles, width, height, allow_diagonal).contains(q) <==> pos.adjacent(
            allow_diagonal,
        ).contains(q) && admissible(q, obstacles, width, height),
{
    let all: Seq<Position> = pos.adjacent(allow_diagonal);
    let keep: spec_fn(Position) -> bool = |c: Position| admissible(c, obstacles, width, height);
    let kept: Seq<Position> = all.filter(keep);
    if kept.contains(q) {
        all.lemma_filter_contains_rev(keep, q);
    }
}

/// The cells next to `pos` that lie inside a grid of `width` columns and `height` rows
/// and hold no obstacle: the cardinal ones first, then, if `allow_diagonal`, the diagonal
/// ones.
pub fn open_neighbors(
    pos: Position,
    obstacles: &CellSet,
    width: u8,
    height: u8,
    allow_diagonal: bool,
) -> (ret: Vec<Position>)
    ensures
        ret@ == open_adjacent(pos, obstacles@, width, height, allow_diagonal),
        forall|q: Position|
            ret@.contains(q) <==> pos.adjacent(allow_diagonal).contains(q) && admissible(
                q,
                obstacles@,
                width,
                height,
            ),
{
    proof {
        assert forall|q: Position|
            open_adjacent(pos, obstacles@, width, height, allow_diagonal).contains(q)
                <==> pos.adjacent(allow_diagonal).contains(q) && admissible(
                q,
                obstacles@,
                width,
                height,
            ) by {
            law_open_adjacent(pos, obstacles@, width, height, allow_diagonal, q);
        }
    }
    let all: Vec<Position> = if allow_diagonal {
        pos.neighbors_with_diagonals()
    } else {
        pos.simple_neighbors()
    };
    let ghost keep: spec_fn(Position) -> bool = |q: Position|
        admissible(q, obstacles@, width, height);
    let mut ret: Vec<Position> = Vec::new();
    let mut i: usize = 0;
    while i < all.len()
        invariant
            i <= all.len(),
            all@ == pos.adjacent(allow_diagonal),
            keep == (|q: Position| admissible(q, obstacles@, width, height)),
            ret@ == all@.take(i as int).filter(keep),
        decreases all.len() - i,
    {
        let q: Position = all[i];
        proof {
            reveal(Seq::filter);
            assert(all@.take(i + 1).drop_last() =~= all@.take(i as int));
        }
        if q.x < width && q.y < height && !obstacles.contains(&q) {
            ret.push(q);
        }
        i += 1;
    }
    assert(all@.take(all@.len() as int) =~= all@);
    ret
}

} // verus!
