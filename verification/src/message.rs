//! User intents, as plain values handed in by the presentation layer.

use vstd::prelude::*;

use crate::grid::{GridConfig, GridLoc};

verus! {

/// One user intent. The presentation layer turns clicks and keys into
/// these and hands them to `App::update`.
#[derive(Clone, Debug)]
pub enum Message {
    ClickRelease,
    NoOp,
    InputRows(usize),
    InputCols(usize),
    InputMines(usize),
    InputGridConfig(GridConfig),
    GameNew,
    GameStart,
    ClickModeToggle,
    RevealClick(GridLoc),
    ChordClick(GridLoc),
    FlagClick(GridLoc),
    HighlightCells(Vec<GridLoc>),
    RequestHint,
    Quit,
}

} // verus!
