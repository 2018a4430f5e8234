use grid_path::grid::Position;
use grid_path::model::{
    CellKind, ClickButtonType, Model, Msg, SymbolType, MAX_HEIGHT, MAX_WIDTH, MIN_HEIGHT, MIN_WIDTH,
};

fn at(y: u8, x: u8) -> Position {
    Position { y, x }
}

fn put(model: &mut Model, symbol: SymbolType, y: u8, x: u8) {
    assert!(model.update(Msg::SwitchClickButtonType(ClickButtonType::ST(symbol))));
    assert!(model.update(Msg::ApplyClickButtonTypeOnCell(at(y, x))));
}

fn path_cells(model: &Model) -> Vec<Position> {
    let mut out = Vec::new();
    for y in 0..=255u8 {
        for x in 0..=255u8 {
            if model.path.contains(&at(y, x)) {
                out.push(at(y, x));
            }
        }
    }
    out
}

#[test]
fn new_model_is_empty() {
    let model = Model::new(12, 34);
    assert_eq!(model.start, None);
    assert_eq!(model.end, None);
    assert!(model.obstacles.is_empty());
    assert!(model.path.is_empty());
    assert_eq!(model.click_button_type, ClickButtonType::ST(SymbolType::Start));
    assert_eq!(model.width, 12);
    assert_eq!(model.height, 34);
    assert!(!model.allow_diagonal);
}

#[test]
fn limits_of_the_grid() {
    assert_eq!((MIN_WIDTH, MAX_WIDTH, MIN_HEIGHT, MAX_HEIGHT), (10, 50, 10, 50));
}

#[test]
fn clicks_put_symbols() {
    let mut model = Model::new(10, 10);
    model.apply_click_button_type_on_cell(&at(1, 1));
    assert_eq!(model.start, Some(at(1, 1)));
    assert_eq!(model.symbol_type_at_position(&at(1, 1)), Some(SymbolType::Start));
    put(&mut model, SymbolType::End, 2, 2);
    assert_eq!(model.end, Some(at(2, 2)));
    put(&mut model, SymbolType::Obstacle, 3, 3);
    put(&mut model, SymbolType::Obstacle, 3, 4);
    assert!(model.obstacles.contains(&at(3, 3)));
    assert!(model.obstacles.contains(&at(3, 4)));
    assert_eq!(model.obstacles.len(), 2);
    assert_eq!(model.symbol_type_at_position(&at(2, 2)), Some(SymbolType::End));
    assert_eq!(model.symbol_type_at_position(&at(3, 3)), Some(SymbolType::Obstacle));
    assert_eq!(model.symbol_type_at_position(&at(4, 4)), None);
}

#[test]
fn start_and_end_move() {
    let mut model = Model::new(10, 10);
    put(&mut model, SymbolType::Start, 1, 1);
    put(&mut model, SymbolType::Start, 5, 5);
    assert_eq!(model.start, Some(at(5, 5)));
    assert_eq!(model.symbol_type_at_position(&at(1, 1)), None);
    put(&mut model, SymbolType::End, 1, 1);
    put(&mut model, SymbolType::End, 6, 6);
    assert_eq!(model.end, Some(at(6, 6)));
}

#[test]
fn taken_cell_keeps_its_symbol() {
    let mut model = Model::new(10, 10);
    put(&mut model, SymbolType::Start, 1, 1);
    put(&mut model, SymbolType::End, 1, 1);
    assert_eq!(model.end, None);
    put(&mut model, SymbolType::Obstacle, 1, 1);
    assert!(model.obstacles.is_empty());
    put(&mut model, SymbolType::Obstacle, 2, 2);
    put(&mut model, SymbolType::Start, 2, 2);
    assert_eq!(model.start, Some(at(1, 1)));
    put(&mut model, SymbolType::End, 2, 2);
    assert_eq!(model.end, None);
    assert_eq!(model.symbol_type_at_position(&at(2, 2)), Some(SymbolType::Obstacle));
}

#[test]
fn delete_clears_a_cell() {
    let mut model = Model::new(10, 10);
    put(&mut model, SymbolType::Start, 1, 1);
    put(&mut model, SymbolType::End, 2, 2);
    put(&mut model, SymbolType::Obstacle, 3, 3);
    assert!(model.update(Msg::SwitchClickButtonType(ClickButtonType::Delete)));
    assert_eq!(model.click_button_type, ClickButtonType::Delete);
    assert!(model.update(Msg::ApplyClickButtonTypeOnCell(at(4, 4))));
    assert_eq!(model.start, Some(at(1, 1)));
    assert_eq!(model.end, Some(at(2, 2)));
    assert_eq!(model.obstacles.len(), 1);
    assert!(model.update(Msg::ApplyClickButtonTypeOnCell(at(3, 3))));
    assert!(model.obstacles.is_empty());
    assert!(model.update(Msg::ApplyClickButtonTypeOnCell(at(1, 1))));
    assert_eq!(model.start, None);
    assert_eq!(model.end, Some(at(2, 2)));
    assert!(model.update(Msg::ApplyClickButtonTypeOnCell(at(2, 2))));
    assert_eq!(model.end, None);
}

#[test]
fn path_is_computed_between_start_and_end() {
    let mut model = Model::new(5, 5);
    put(&mut model, SymbolType::Start, 0, 0);
    put(&mut model, SymbolType::End, 4, 4);
    assert!(model.update(Msg::ComputePath));
    assert_eq!(model.path.len(), 9);
    assert_eq!(
        path_cells(&model),
        vec![
            at(0, 0),
            at(1, 0),
            at(2, 0),
            at(3, 0),
            at(4, 0),
            at(4, 1),
            at(4, 2),
            at(4, 3),
            at(4, 4)
        ]
    );
    assert!(model.update(Msg::ToggleDiagonal));
    assert!(model.allow_diagonal);
    assert!(model.path.is_empty());
    assert!(model.update(Msg::ComputePath));
    assert_eq!(path_cells(&model), vec![at(0, 0), at(1, 1), at(2, 2), at(3, 3), at(4, 4)]);
}

#[test]
fn path_goes_round_obstacles() {
    let mut model = Model::new(3, 3);
    put(&mut model, SymbolType::Start, 0, 0);
    put(&mut model, SymbolType::End, 0, 2);
    put(&mut model, SymbolType::Obstacle, 0, 1);
    put(&mut model, SymbolType::Obstacle, 1, 1);
    assert!(model.update(Msg::ComputePath));
    assert_eq!(
        path_cells(&model),
        vec![at(0, 0), at(0, 2), at(1, 0), at(1, 2), at(2, 0), at(2, 1), at(2, 2)]
    );
    put(&mut model, SymbolType::Obstacle, 2, 1);
    assert!(model.path.is_empty());
    assert!(model.update(Msg::ComputePath));
    assert!(model.path.is_empty());
}

#[test]
fn path_needs_start_and_end() {
    let mut model = Model::new(5, 5);
    assert!(!model.update(Msg::ComputePath));
    put(&mut model, SymbolType::Start, 0, 0);
    assert!(!model.update(Msg::ComputePath));
    assert!(model.path.is_empty());
    let mut model = Model::new(5, 5);
    put(&mut model, SymbolType::End, 0, 0);
    assert!(!model.update(Msg::ComputePath));
    assert!(model.path.is_empty());
}

#[test]
fn changes_of_the_grid_forget_the_path() {
    let fresh = || {
        let mut model = Model::new(5, 5);
        put(&mut model, SymbolType::Start, 0, 0);
        put(&mut model, SymbolType::End, 0, 3);
        assert!(model.update(Msg::ComputePath));
        assert_eq!(model.path.len(), 4);
        model
    };
    let mut model = fresh();
    assert!(model.update(Msg::SetWidth(20)));
    assert_eq!(model.width, 20);
    assert!(model.path.is_empty());
    let mut model = fresh();
    assert!(model.update(Msg::SetHeight(30)));
    assert_eq!(model.height, 30);
    assert!(model.path.is_empty());
    let mut model = fresh();
    assert!(model.update(Msg::ToggleDiagonal));
    assert!(model.path.is_empty());
    let mut model = fresh();
    assert!(model.update(Msg::ApplyClickButtonTypeOnCell(at(0, 0))));
    assert_eq!(model.start, Some(at(0, 0)));
    assert!(model.path.is_empty());
    let mut model = fresh();
    assert!(model.update(Msg::SwitchClickButtonType(ClickButtonType::Delete)));
    assert_eq!(model.path.len(), 4);
}

#[test]
fn reset_gives_the_least_grid() {
    let mut model = Model::new(40, 45);
    put(&mut model, SymbolType::Start, 0, 0);
    put(&mut model, SymbolType::End, 0, 3);
    put(&mut model, SymbolType::Obstacle, 7, 7);
    assert!(model.update(Msg::ToggleDiagonal));
    assert!(model.update(Msg::ComputePath));
    assert!(model.update(Msg::Reset));
    assert_eq!(model.start, None);
    assert_eq!(model.end, None);
    assert!(model.obstacles.is_empty());
    assert!(model.path.is_empty());
    assert_eq!(model.click_button_type, ClickButtonType::ST(SymbolType::Start));
    assert_eq!(model.width, MIN_WIDTH);
    assert_eq!(model.height, MIN_HEIGHT);
    assert!(!model.allow_diagonal);
}

#[test]
fn cells_are_shown_by_symbol_then_path() {
    let mut model = Model::new(5, 5);
    put(&mut model, SymbolType::Start, 0, 0);
    put(&mut model, SymbolType::End, 0, 3);
    put(&mut model, SymbolType::Obstacle, 2, 2);
    assert!(model.update(Msg::ComputePath));
    assert_eq!(model.cell_kind(&at(0, 0)), CellKind::Start);
    assert_eq!(model.cell_kind(&at(0, 3)), CellKind::End);
    assert_eq!(model.cell_kind(&at(2, 2)), CellKind::Obstacle);
    assert_eq!(model.cell_kind(&at(0, 1)), CellKind::Path);
    assert_eq!(model.cell_kind(&at(0, 2)), CellKind::Path);
    assert_eq!(model.cell_kind(&at(1, 1)), CellKind::Empty);
    assert_eq!(model.cell_kind(&at(0, 4)), CellKind::Empty);
}

#[test]
fn grid_may_shrink_under_the_symbols() {
    let mut model = Model::new(10, 10);
    put(&mut model, SymbolType::Start, 0, 8);
    put(&mut model, SymbolType::End, 0, 2);
    assert!(model.update(Msg::SetWidth(5)));
    assert!(model.update(Msg::ComputePath));
    assert_eq!(model.path.len(), 0);
    assert!(model.update(Msg::SetWidth(9)));
    assert!(model.update(Msg::ComputePath));
    assert_eq!(model.path.len(), 7);
}
