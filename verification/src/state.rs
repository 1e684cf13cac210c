//! Game lifecycle state and the built-in difficulty presets.

use vstd::prelude::*;

use crate::grid::{Grid, GridConfig, GridSize};

verus! {

/// Where a game stands: being configured, configured and waiting for the
/// first click, in play, or finished.
#[derive(Debug)]
pub enum GameState {
    CreationScreen(GridConfig),
    Initialized(GridConfig),
    Started(Grid),
    Won(Grid),
    Lost(Grid),
}

impl Default for GameState {
    fn default() -> (r: Self)
        ensures
            (r matches GameState::Initialized(cfg) && cfg.size.rows == 9 && cfg.size.cols == 9
                && cfg.mines == 10),
    {
        GameState::Initialized(Difficulty::easy().state)
    }
}

/// A named difficulty preset: a grid configuration under a display name.
#[derive(Clone, Copy, Debug)]
pub struct Difficulty {
    pub name: &'static str,
    pub state: GridConfig,
}

impl Difficulty {
    /// The easy preset: a 9-by-9 grid with 10 mines.
    pub fn easy() -> (r: Self)
        ensures
            r.name@ == "Easy"@,
            r.state.size.rows == 9,
            r.state.size.cols == 9,
            r.state.mines == 10,
    {
        Difficulty {
            name: "Easy",
            state: GridConfig { size: GridSize { rows: 9, cols: 9 }, mines: 10 },
        }
    }

    /// The medium preset: a 16-by-16 grid with 40 mines.
    pub fn medium() -> (r: Self)
        ensures
            r.name@ == "Medium"@,
            r.state.size.rows == 16,
            r.state.size.cols == 16,
            r.state.mines == 40,
    {
        Difficulty {
            name: "Medium",
            state: GridConfig { size: GridSize { rows: 16, cols: 16 }, mines: 40 },
        }
    }

    /// The hard preset: a 16-by-30 grid with 99 mines.
    pub fn hard() -> (r: Self)
        ensures
            r.name@ == "Hard"@,
            r.state.size.rows == 16,
            r.state.size.cols == 30,
            r.state.mines == 99,
    {
        Difficulty {
            name: "Hard",
            state: GridConfig { size: GridSize { rows: 16, cols: 30 }, mines: 99 },
        }
    }

    /// The extreme preset: a 30-by-24 grid with 160 mines.
    pub fn extreme() -> (r: Self)
        ensures
            r.name@ == "Extreme"@,
            r.state.size.rows == 30,
            r.state.size.cols == 24,
            r.state.mines == 160,
    {
        Difficulty {
            name: "Extreme",
            state: GridConfig { size: GridSize { rows: 30, cols: 24 }, mines: 160 },
        }
    }

    /// All presets, easiest first.
    pub fn all() -> (r: Vec<Self>)
        ensures
            r@.len() == 4,
            r@[0].name@ == "Easy"@ && r@[0].state.size == (GridSize { rows: 9, cols: 9 })
                && r@[0].state.mines == 10,
            r@[1].name@ == "Medium"@ && r@[1].state.size == (GridSize { rows: 16, cols: 16 })
                && r@[1].state.mines == 40,
            r@[2].name@ == "Hard"@ && r@[2].state.size == (GridSize { rows: 16, cols: 30 })
                && r@[2].state.mines == 99,
            r@[3].name@ == "Extreme"@ && r@[3].state.size == (GridSize { rows: 30, cols: 24 })
                && r@[3].state.mines == 160,
    {
        let mut v: Vec<Difficulty> = Vec::new();
        v.push(Self::easy());
        v.push(Self::medium());
        v.push(Self::hard());
        v.push(Self::extreme());
        v
    }
}

impl Default for Difficulty {
    fn default() -> (r: Self)
        ensures
            r.name@ == "Easy"@,
            r.state.size.rows == 9,
            r.state.size.cols == 9,
            r.state.mines == 10,
    {
        Difficulty::easy()
    }
}

} // verus!
