//! Per-cell state: the `Hidden`/`Revealed`/`Flagged` state machine, the mine
//! flag fixed at population time, and a transient highlight mark with no
//! gameplay effect.

use vstd::prelude::*;

verus! {

/// Interaction state of a single cell.
///
/// `Hidden` is the initial state. A cell moves to `Revealed` at most once and
/// never leaves it; `Hidden` and `Flagged` toggle into each other.
#[derive(Clone, Copy, Debug, PartialEq, Eq, Structural)]
pub enum CellType {
    Hidden,
    Revealed,
    Flagged,
}

impl Default for CellType {
    fn default() -> (r: Self)
        ensures
            r == CellType::Hidden,
    {
        CellType::Hidden
    }
}

/// One cell of the grid.
///
/// `is_mine` is set once during population and never changed afterward; the
/// reveal, flag, and chord operations only change `cell_type`. `highlight` is
/// a visual-attention mark, settable and clearable independently of
/// `cell_type`.
#[derive(Clone, Copy, Debug, PartialEq, Eq, Structural)]
pub struct Cell {
    pub cell_type: CellType,
    pub is_mine: bool,
    pub highlight: bool,
}

impl Default for Cell {
    fn default() -> (r: Self)
        ensures
            r == (Cell { cell_type: CellType::Hidden, is_mine: false, highlight: false }),
    {
        Cell { cell_type: CellType::Hidden, is_mine: false, highlight: false }
    }
}

/// The text a cell shows for a given neighboring-mine count: a block for a
/// hidden cell, a flag for a flagged one, and for a revealed cell either a
/// bomb, a blank, or the count itself.
pub open spec fn cell_text(cell: Cell, neighboring_mines: u8) -> Seq<char> {
    match cell.cell_type {
        CellType::Hidden => "⬛"@,
        CellType::Revealed => if cell.is_mine {
            "💣"@
        } else if neighboring_mines == 0 {
            "  "@
        } else {
            decimal_u8(neighboring_mines as int)
        },
        CellType::Flagged => "🚩"@,
    }
}

/// Decimal digits of `n`, for `0 <= n <= 255`.
pub open spec fn decimal_u8(n: int) -> Seq<char> {
    if n < 10 {
        seq![digit_char(n)]
    } else if n < 100 {
        seq![digit_char(n / 10), digit_char(n % 10)]
    } else {
        seq![digit_char(n / 100), digit_char(n / 10 % 10), digit_char(n % 10)]
    }
}

/// The character for a single decimal digit.
pub open spec fn digit_char(d: int) -> char {
    if d == 0 {
        '0'
    } else if d == 1 {
        '1'
    } else if d == 2 {
        '2'
    } else if d == 3 {
        '3'
    } else if d == 4 {
        '4'
    } else if d == 5 {
        '5'
    } else if d == 6 {
        '6'
    } else if d == 7 {
        '7'
    } else if d == 8 {
        '8'
    } else {
        '9'
    }
}

/// A single decimal digit as a string.
fn digit_str(d: u8) -> (r: &'static str)
    requires
        d < 10,
    ensures
        r@ == seq![digit_char(d as int)],
{
    proof {
        reveal_strlit("0");
        reveal_strlit("1");
        reveal_strlit("2");
        reveal_strlit("3");
        reveal_strlit("4");
        reveal_strlit("5");
        reveal_strlit("6");
        reveal_strlit("7");
        reveal_strlit("8");
        reveal_strlit("9");
    }
    match d {
        0 => "0",
        1 => "1",
        2 => "2",
        3 => "3",
        4 => "4",
        5 => "5",
        6 => "6",
        7 => "7",
        8 => "8",
        _ => "9",
    }
}

/// The decimal representation of `n`.
fn u8_to_decimal(n: u8) -> (r: String)
    ensures
        r@ == decimal_u8(n as int),
{
    if n < 10 {
        digit_str(n).to_string()
    } else if n < 100 {
        let s = digit_str(n / 10).to_string();
        s.concat(digit_str(n % 10))
    } else {
        let s = digit_str(n / 100).to_string();
        let s = s.concat(digit_str(n / 10 % 10));
        s.concat(digit_str(n % 10))
    }
}

impl Cell {
    /// Text form of this cell, given its neighboring-mine count.
    pub fn to_string(&self, neighboring_mines: u8) -> (r: String)
        ensures
            r@ == cell_text(*self, neighboring_mines),
    {
        match self.cell_type {
            CellType::Hidden => "⬛".to_string(),
            CellType::Revealed => {
                if self.is_mine {
                    "💣".to_string()
                } else {
                    if neighboring_mines == 0 {
                        "  ".to_string()
                    } else {
                        u8_to_decimal(neighboring_mines)
                    }
                }
            },
            CellType::Flagged => "🚩".to_string(),
        }
    }
}

} // verus!
