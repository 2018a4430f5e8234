//! The texts that the editor shows: numbers in decimal, the style of the grid, the names
//! of the cells and the labels of the symbols.
use crate::grid::Position;
use crate::model::{ClickButtonType, SymbolType};
use vstd::prelude::*;

verus! {

/// The digit for `d`, where `d` is less than ten.
pub open spec fn digit(d: int) -> char {
    "0123456789"@[d]
}

/// `n` in decimal, without leading zeros.
pub open spec fn decimal_spec(n: nat) -> Seq<char>
    decreases n,
{
    if n < 10 {
        seq![digit(n as int)]
    } else {
        decimal_spec(n / 10).push(digit((n % 10) as int))
    }
}

/// The digit for `d`, as a text.
fn digit_text(d: u8) -> (s: &'static str)
    requires
        d < 10,
    ensures
        s@ == seq![digit(d as int)],
{
    proof {
        reveal_strlit("0123456789");
        reveal_strlit("0");
        reveal_strlit("1");
        reveal_strlit("2");
        reveal_strlit("3");
        reveal_strlit("4");
        reveal_strlit("5");
        reveal_strlit("6");
        reveal_strlit("7");
        reveal_strlit("8");
        reveal_strlit("9");
    }
    match d {
        0 => "0",
        1 => "1",
        2 => "2",
        3 => "3",
        4 => "4",
        5 => "5",
        6 => "6",
        7 => "7",
        8 => "8",
        _ => "9",
    }
}

/// `n` in decimal, without leading zeros.
pub fn decimal(n: u8) -> (s: String)
    ensures
        s@ == decimal_spec(n as nat),
{
    let mut s: String = String::new();
    if n >= 100 {
        s.append(digit_text(n / 100));
    }
    if n >= 10 {
        s.append(digit_text((n / 10) % 10));
    }
    s.append(digit_text(n % 10));
    proof {
        reveal_with_fuel(decimal_spec, 3);
    }
    s
}

/// A grid that is as many cells wide as the number it holds.
#[derive(Debug, Clone, Copy, PartialEq, Eq, Structural)]
pub struct StyledGrid(pub u8);

/// The style of a grid, up to the number of its columns.
pub open spec fn style_head() -> Seq<char> {
    "\n                display: grid;\n                grid-template-columns: repeat("@
}

/// The style of a grid, after the number of its columns.
pub open spec fn style_tail() -> Seq<char> {
    ", 30px);\n                grid-template-rows: auto;\n                grid-gap: 10px;\n            "@
}

impl StyledGrid {
    /// The style that lays cells of 30 pixels out in as many columns as the grid is wide.
    pub fn style(&self) -> (css: String)
        ensures
            css@ == style_head() + decimal_spec(self.0 as nat) + style_tail(),
    {
        let mut css: String = String::from_str(
            "\n                display: grid;\n                grid-template-columns: repeat(",
        );
        let width: String = decimal(self.0);
        css.append(width.as_str());
        css.append(
            ", 30px);\n                grid-template-rows: auto;\n                grid-gap: 10px;\n            ",
        );
        css
    }
}

/// The name of the cell `pos`: its row and its column in decimal, with a comma between.
pub fn cell_id(pos: &Position) -> (id: String)
    ensures
        id@ == decimal_spec(pos.y as nat) + ","@ + decimal_spec(pos.x as nat),
{
    let mut id: String = decimal(pos.y);
    let column: String = decimal(pos.x);
    id.append(",");
    id.append(column.as_str());
    id
}

impl SymbolType {
    /// The sign that stands for the symbol.
    pub open spec fn sign(self) -> Seq<char> {
        match self {
            SymbolType::Start => "🟢"@,
            SymbolType::End => "🔴"@,
            SymbolType::Obstacle => "🚧"@,
        }
    }

    /// The sign that stands for the symbol.
    pub fn to_string(&self) -> (s: String)
        ensures
            s@ == self.sign(),
    {
        String::from_str(
            match self {
                SymbolType::Start => "🟢",
                SymbolType::End => "🔴",
                SymbolType::Obstacle => "🚧",
            },
        )
    }
}

impl ClickButtonType {
    /// What is said of the clicks.
    pub open spec fn hint(self) -> Seq<char> {
        match self {
            ClickButtonType::ST(st) => "Click on grid cell to put "@ + st.sign(),
            ClickButtonType::Delete => "Click on grid cell to clear the symbol"@,
        }
    }

    /// What is said of the clicks: which symbol they put, or that they clear.
    pub fn to_string(&self) -> (s: String)
        ensures
            s@ == self.hint(),
    {
        match self {
            ClickButtonType::ST(st) => {
                let mut s: String = String::from_str("Click on grid cell to put ");
                let sign: String = st.to_string();
                s.append(sign.as_str());
                s
            },
            ClickButtonType::Delete => String::from_str("Click on grid cell to clear the symbol"),
        }
    }
}

} // verus!
