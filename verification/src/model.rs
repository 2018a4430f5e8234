//! The state of the grid editor: where start, end and obstacles stand, what a click does,
//! and when the path between start and end is computed or forgotten.
use crate::finder::law_grid_route;
use crate::finder::{cell_graph, find_path, grid_route};
use crate::graph::{distance, reachable};
use crate::grid::{CellSet, Position};
use vstd::prelude::*;

verus! {

/// The least width that the editor offers, which is the width it begins with.
pub const MIN_WIDTH: u8 = 10;

/// The greatest width that the editor offers.
pub const MAX_WIDTH: u8 = 50;

/// The least height that the editor offers, which is the height it begins with.
pub const MIN_HEIGHT: u8 = 10;

/// The greatest height that the editor offers.
pub const MAX_HEIGHT: u8 = 50;

/// What can stand on a cell.
#[derive(Debug, Clone, Copy, PartialEq, Eq, Structural)]
pub enum SymbolType {
    Start,
    End,
    Obstacle,
}

/// What a click on a cell does: it puts a symbol there, or it clears the cell.
#[derive(Debug, Clone, Copy, PartialEq, Eq, Structural)]
pub enum ClickButtonType {
    ST(SymbolType),
    Delete,
}

/// What the user can ask of the editor.
#[derive(Debug, Clone, Copy, PartialEq, Eq, Structural)]
pub enum Msg {
    SwitchClickButtonType(ClickButtonType),
    ApplyClickButtonTypeOnCell(Position),
    ComputePath,
    Reset,
    SetWidth(u8),
    SetHeight(u8),
    ToggleDiagonal,
}

/// How a cell is shown.
#[derive(Debug, Clone, Copy, PartialEq, Eq, Structural)]
pub enum CellKind {
    Start,
    End,
    Obstacle,
    Path,
    Empty,
}

/// The editor.
#[derive(Debug)]
pub struct Model {
    pub start: Option<Position>,
    pub end: Option<Position>,
    pub obstacles: CellSet,
    pub path: CellSet,
    pub click_button_type: ClickButtonType,
    pub width: u8,
    pub height: u8,
    pub allow_diagonal: bool,
}

/// The editor as a value: its sets of cells are sets.
#[verifier::ext_equal]
pub struct ModelState {
    pub start: Option<Position>,
    pub end: Option<Position>,
    pub obstacles: Set<Position>,
    pub path: Set<Position>,
    pub click_button_type: ClickButtonType,
    pub width: u8,
    pub height: u8,
    pub allow_diagonal: bool,
}

impl View for Model {
    type V = ModelState;

    open spec fn view(&self) -> ModelState {
        ModelState {
            start: self.start,
            end: self.end,
            obstacles: self.obstacles@,
            path: self.path@,
            click_button_type: self.click_button_type,
            width: self.width,
            height: self.height,
            allow_diagonal: self.allow_diagonal,
        }
    }
}

impl ModelState {
    /// An empty grid of the given size; a click puts the start, and steps are cardinal.
    pub open spec fn empty(width: u8, height: u8) -> ModelState {
        ModelState {
            start: None,
            end: None,
            obstacles: Set::empty(),
            path: Set::empty(),
            click_button_type: ClickButtonType::ST(SymbolType::Start),
            width,
            height,
            allow_diagonal: false,
        }
    }

    /// The symbol that stands on `pos`: the start before the end before an obstacle.
    pub open spec fn symbol_at(self, pos: Position) -> Option<SymbolType> {
        if self.start == Some(pos) {
            Some(SymbolType::Start)
        } else if self.end == Some(pos) {
            Some(SymbolType::End)
        } else if self.obstacles.contains(pos) {
            Some(SymbolType::Obstacle)
        } else {
            None
        }
    }

    /// How `pos` is shown: by its symbol, else as part of the path if it is one.
    pub open spec fn kind_at(self, pos: Position) -> CellKind {
        match self.symbol_at(pos) {
            Some(SymbolType::Start) => CellKind::Start,
            Some(SymbolType::End) => CellKind::End,
            Some(SymbolType::Obstacle) => CellKind::Obstacle,
            None => if self.path.contains(pos) {
                CellKind::Path
            } else {
                CellKind::Empty
            },
        }
    }

    /// The editor without the symbol `st` on `pos`.
    pub open spec fn without(self, st: SymbolType, pos: Position) -> ModelState {
        match st {
            SymbolType::Start => ModelState { start: None, ..self },
            SymbolType::End => ModelState { end: None, ..self },
            SymbolType::Obstacle => ModelState { obstacles: self.obstacles.remove(pos), ..self },
        }
    }

    /// The editor with the symbol `st` on `pos`. There is one start and one end: putting
    /// one of them moves it.
    pub open spec fn with(self, st: SymbolType, pos: Position) -> ModelState {
        match st {
            SymbolType::Start => ModelState { start: Some(pos), ..self },
            SymbolType::End => ModelState { end: Some(pos), ..self },
            SymbolType::Obstacle => ModelState { obstacles: self.obstacles.insert(pos), ..self },
        }
    }

    /// The editor after a click on `pos`: a cell with a symbol is cleared if clicks clear,
    /// and stays as it is otherwise; a cell without one gets the symbol that clicks put.
    pub open spec fn clicked(self, pos: Position) -> ModelState {
        match (self.symbol_at(pos), self.click_button_type) {
            (Some(st), ClickButtonType::Delete) => self.without(st, pos),
            (Some(_), ClickButtonType::ST(_)) => self,
            (None, ClickButtonType::ST(st)) => self.with(st, pos),
            (None, ClickButtonType::Delete) => self,
        }
    }

    /// The cells of the path that the search finds from the start to the end.
    pub open spec fn found_path(self) -> Set<Position> {
        grid_route(
            self.start.unwrap(),
            self.end.unwrap(),
            self.obstacles,
            self.width,
            self.height,
            self.allow_diagonal,
        ).to_set()
    }

    /// The editor after `msg`. Whatever changes the grid forgets the path.
    pub open spec fn after(self, msg: Msg) -> ModelState {
        match msg {
            Msg::SwitchClickButtonType(cbt) => ModelState { click_button_type: cbt, ..self },
            Msg::ApplyClickButtonTypeOnCell(pos) => ModelState {
                path: Set::empty(),
                ..self.clicked(pos)
            },
            Msg::ComputePath => if self.start is Some && self.end is Some {
                ModelState { path: self.found_path(), ..self }
            } else {
                self
            },
            Msg::Reset => ModelState::empty(MIN_WIDTH, MIN_HEIGHT),
            Msg::SetWidth(width) => ModelState { width, path: Set::empty(), ..self },
            Msg::SetHeight(height) => ModelState { height, path: Set::empty(), ..self },
            Msg::ToggleDiagonal => ModelState {
                allow_diagonal: !self.allow_diagonal,
                path: Set::empty(),
                ..self
            },
        }
    }

    /// Whether `msg` calls for the editor to be drawn again: always, but for a path asked
    /// for while the start or the end is missing.
    pub open spec fn redraws(self, msg: Msg) -> bool {
        msg is ComputePath ==> self.start is Some && self.end is Some
    }

    /// No cell holds two symbols.
    pub open spec fn apart(self) -> bool {
        &&& self.start is Some ==> self.start != self.end
        &&& self.start is Some ==> !self.obstacles.contains(self.start.unwrap())
        &&& self.end is Some ==> !self.obstacles.contains(self.end.unwrap())
    }
}

/// No message puts a second symbol on a cell.
pub proof fn law_symbols_stay_apart(s: ModelState, msg: Msg)
    requires
        s.apart(),
    ensures
        s.after(msg).apart(),
        ModelState::empty(s.width, s.height).apart(),
{
}

/// A click that puts a symbol on a free cell leaves that symbol there, and a click that
/// clears leaves the cell free, as long as no cell holds two symbols.
pub proof fn law_click(s: ModelState, pos: Position)
    requires
        s.apart(),
    ensures
        s.symbol_at(pos) is None ==> s.clicked(pos).symbol_at(pos) == match s.click_button_type {
            ClickButtonType::ST(st) => Some(st),
            ClickButtonType::Delete => None,
        },
        s.symbol_at(pos) is Some ==> s.clicked(pos).symbol_at(pos) == match s.click_button_type {
            ClickButtonType::ST(_) => s.symbol_at(pos),
            ClickButtonType::Delete => None,
        },
{
}

/// A path is shown only as long as the grid stays as it was when the path was computed:
/// every message but a change of what clicks do, and a request for the path itself,
/// leaves the editor without a path.
pub proof fn law_path_forgotten(s: ModelState, msg: Msg)
    requires
        !(msg is SwitchClickButtonType),
        !(msg is ComputePath),
    ensures
        s.after(msg).path == Set::<Position>::empty(),
{
}

/// A path that was asked for while start and end stood on the grid holds both of them and
/// one cell for each step between them, if the end can be reached, and no cell if it cannot.
pub proof fn law_computed_path(s: ModelState)
    requires
        s.start is Some,
        s.end is Some,
    ensures
        ({
            let cells = cell_graph(s.obstacles, s.width, s.height, s.allow_diagonal);
            let path = s.after(Msg::ComputePath).path;
            let start = s.start.unwrap();
            let end = s.end.unwrap();
            &&& path.finite()
            &&& reachable(cells, start, end) ==> path.contains(start) && path.contains(end)
                && path.len() == distance(cells, start, end) + 1
            &&& !reachable(cells, start, end) ==> path == Set::<Position>::empty()
        }),
{
    let start = s.start.unwrap();
    let end = s.end.unwrap();
    let found = grid_route(start, end, s.obstacles, s.width, s.height, s.allow_diagonal);
    law_grid_route(start, end, s.obstacles, s.width, s.height, s.allow_diagonal);
    found.unique_seq_to_set();
}

/// Whether `slot` holds `pos`.
fn holds(slot: Option<Position>, pos: Position) -> (b: bool)
    ensures
        b == (slot == Some(pos)),
{
    match slot {
        Some(p) => p.y == pos.y && p.x == pos.x,
        None => false,
    }
}

impl Model {
    /// An editor with an empty grid of the given size.
    pub fn new(width: u8, height: u8) -> (model: Model)
        ensures
            model@ == ModelState::empty(width, height),
    {
        Model {
            start: None,
            end: None,
            obstacles: CellSet::new(),
            path: CellSet::new(),
            click_button_type: ClickButtonType::ST(SymbolType::Start),
            width,
            height,
            allow_diagonal: false,
        }
    }

    /// The symbol that stands on `pos`, if any.
    pub fn symbol_type_at_position(&self, pos: &Position) -> (symbol: Option<SymbolType>)
        ensures
            symbol == self@.symbol_at(*pos),
    {
        if holds(self.start, *pos) {
            Some(SymbolType::Start)
        } else if holds(self.end, *pos) {
            Some(SymbolType::End)
        } else if self.obstacles.contains(pos) {
            Some(SymbolType::Obstacle)
        } else {
            None
        }
    }

    /// How `pos` is to be shown.
    pub fn cell_kind(&self, pos: &Position) -> (kind: CellKind)
        ensures
            kind == self@.kind_at(*pos),
    {
        match self.symbol_type_at_position(pos) {
            Some(SymbolType::Start) => CellKind::Start,
            Some(SymbolType::End) => CellKind::End,
            Some(SymbolType::Obstacle) => CellKind::Obstacle,
            None => if self.path.contains(pos) {
                CellKind::Path
            } else {
                CellKind::Empty
            },
        }
    }

    /// Does what a click on `pos` does.
    pub fn apply_click_button_type_on_cell(&mut self, pos: &Position)
        ensures
            final(self)@ == old(self)@.clicked(*pos),
    {
        match self.symbol_type_at_position(pos) {
            Some(st) => {
                match self.click_button_type {
                    ClickButtonType::Delete => {
                        match st {
                            SymbolType::Start => {
                                self.start = None;
                            },
                            SymbolType::End => {
                                self.end = None;
                            },
                            SymbolType::Obstacle => {
                                self.obstacles.remove(pos);
                            },
                        }
                    },
                    ClickButtonType::ST(_) => {},
                }
            },
            None => {
                match self.click_button_type {
                    ClickButtonType::ST(SymbolType::Start) => {
                        self.start = Some(*pos);
                    },
                    ClickButtonType::ST(SymbolType::End) => {
                        self.end = Some(*pos);
                    },
                    ClickButtonType::ST(SymbolType::Obstacle) => {
                        self.obstacles.insert(*pos);
                    },
                    ClickButtonType::Delete => {},
                }
            },
        }
    }

    /// Brings the editor to the state after `msg`, and says whether it has to be drawn
    /// again.
    pub fn update(&mut self, msg: Msg) -> (redraw: bool)
        ensures
            final(self)@ == old(self)@.after(msg),
            redraw == old(self)@.redraws(msg),
    {
        match msg {
            Msg::SwitchClickButtonType(cbt) => {
                self.click_button_type = cbt;
                true
            },
            Msg::ApplyClickButtonTypeOnCell(pos) => {
                self.apply_click_button_type_on_cell(&pos);
                self.path = CellSet::new();
                true
            },
            Msg::ComputePath => {
                match (self.start, self.end) {
                    (Some(start), Some(end)) => {
                        let found: Vec<Position> = find_path(
                            start,
                            end,
                            &self.obstacles,
                            self.width,
                            self.height,
                            self.allow_diagonal,
                        );
                        self.path = CellSet::from_cells(&found);
                        true
                    },
                    _ => false,
                }
            },
            Msg::Reset => {
                *self = Model::new(MIN_WIDTH, MIN_HEIGHT);
                true
            },
            Msg::SetWidth(width) => {
                self.width = width;
                self.path = CellSet::new();
                true
            },
            Msg::SetHeight(height) => {
                self.height = height;
                self.path = CellSet::new();
                true
            },
            Msg::ToggleDiagonal => {
                self.allow_diagonal = !self.allow_diagonal;
                self.path = CellSet::new();
                true
            },
        }
    }
}

} // verus!
