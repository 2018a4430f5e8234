use grid_path::grid::Position;
use grid_path::model::{ClickButtonType, SymbolType};
use grid_path::style::{cell_id, decimal, StyledGrid};

#[test]
fn numbers_in_decimal() {
    assert_eq!(decimal(0), "0");
    assert_eq!(decimal(7), "7");
    assert_eq!(decimal(10), "10");
    assert_eq!(decimal(42), "42");
    assert_eq!(decimal(99), "99");
    assert_eq!(decimal(100), "100");
    assert_eq!(decimal(105), "105");
    assert_eq!(decimal(255), "255");
    for n in 0..=255u8 {
        assert_eq!(decimal(n), format!("{}", n));
    }
}

#[test]
fn style_of_a_grid() {
    assert_eq!(
        StyledGrid(10).style(),
        "\n                display: grid;\n                grid-template-columns: repeat(10, 30px);\n                grid-template-rows: auto;\n                grid-gap: 10px;\n            "
    );
    for width in [0u8, 9, 50, 255] {
        assert_eq!(
            StyledGrid(width).style(),
            format!(
                r#"
                display: grid;
                grid-template-columns: repeat({}, 30px);
                grid-template-rows: auto;
                grid-gap: 10px;
            "#,
                width
            )
        );
    }
}

#[test]
fn names_of_cells() {
    assert_eq!(cell_id(&Position { y: 0, x: 0 }), "0,0");
    assert_eq!(cell_id(&Position { y: 12, x: 3 }), "12,3");
    assert_eq!(cell_id(&Position { y: 255, x: 100 }), "255,100");
}

#[test]
fn signs_of_symbols() {
    assert_eq!(SymbolType::Start.to_string(), "🟢");
    assert_eq!(SymbolType::End.to_string(), "🔴");
    assert_eq!(SymbolType::Obstacle.to_string(), "🚧");
}

#[test]
fn hints_for_clicks() {
    let put = |symbol: SymbolType| ClickButtonType::ST(symbol).to_string();
    assert_eq!(put(SymbolType::Start), "Click on grid cell to put 🟢");
    assert_eq!(put(SymbolType::End), "Click on grid cell to put 🔴");
    assert_eq!(put(SymbolType::Obstacle), "Click on grid cell to put 🚧");
    assert_eq!(ClickButtonType::Delete.to_string(), "Click on grid cell to clear the symbol");
}
