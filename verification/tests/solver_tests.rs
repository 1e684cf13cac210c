use minesweeper_engine::algorithms::generate_brute_force_hints;
use minesweeper_engine::cell::CellType;
use minesweeper_engine::grid::{Grid, GridLoc, GridSize};

fn loc(row: usize, col: usize) -> GridLoc {
    GridLoc { row, col }
}

/// Mines at (0, 0) and (0, 2) on a four-by-four board opened at (3, 0):
/// exactly (0, 0), (0, 1), and (0, 2) stay hidden.
fn four_by_four_two_mines() -> Grid {
    let mut grid = Grid::new(GridSize { rows: 4, cols: 4 });
    let done = grid.populate_mines_from_draws(loc(3, 0), 2, &vec![loc(0, 0), loc(0, 2)]);
    assert!(done);
    grid
}

#[test]
fn mine_rule_names_the_certain_mine() {
    let mut grid = Grid::new(GridSize { rows: 3, cols: 3 });
    let done = grid.populate_mines_from_draws(loc(0, 0), 1, &vec![loc(2, 2)]);
    assert!(done);
    // (1, 1) shows 1, has no flags, and exactly one hidden neighbor: that
    // neighbor is certainly a mine
    let hints = generate_brute_force_hints(&grid);
    assert_eq!(hints, vec![loc(2, 2)]);
    // the hint was hidden at call time, and it really is a mine
    assert!(matches!(grid.get(2, 2).unwrap().cell_type, CellType::Hidden));
    assert!(grid.get(2, 2).unwrap().is_mine);
}

#[test]
fn safe_rule_names_the_certain_safe_cell() {
    let mut grid = four_by_four_two_mines();
    grid.flag_cell(loc(0, 0));
    grid.flag_cell(loc(0, 2));
    // (1, 0) shows 1 with one flagged neighbor: its remaining hidden
    // neighbor (0, 1) is certainly safe
    let hints = generate_brute_force_hints(&grid);
    assert_eq!(hints, vec![loc(0, 1)]);
    assert!(matches!(grid.get(0, 1).unwrap().cell_type, CellType::Hidden));
    assert!(!grid.get(0, 1).unwrap().is_mine);
}

#[test]
fn no_deduction_yields_no_hints() {
    let mut grid = four_by_four_two_mines();
    // three hidden cells around two unflagged mines: neither rule is
    // conclusive anywhere
    let hints = generate_brute_force_hints(&grid);
    assert!(hints.is_empty());
    // an untouched board has nothing revealed to reason from either
    let fresh = Grid::new(GridSize { rows: 3, cols: 3 });
    assert!(generate_brute_force_hints(&fresh).is_empty());
}

#[test]
fn every_hint_is_hidden_at_call_time() {
    let mut grid = four_by_four_two_mines();
    grid.flag_cell(loc(0, 0));
    grid.flag_cell(loc(0, 2));
    let hints = generate_brute_force_hints(&grid);
    assert!(!hints.is_empty());
    for h in &hints {
        assert!(matches!(
            grid.get(h.row, h.col).unwrap().cell_type,
            CellType::Hidden
        ));
    }
}

#[test]
fn hints_feed_highlighting() {
    let mut grid = Grid::new(GridSize { rows: 3, cols: 3 });
    let done = grid.populate_mines_from_draws(loc(0, 0), 1, &vec![loc(2, 2)]);
    assert!(done);
    let hints = generate_brute_force_hints(&grid);
    grid.highlight_cells(hints);
    assert!(grid.get(2, 2).unwrap().highlight);
    assert!(!grid.get(0, 0).unwrap().highlight);
}
