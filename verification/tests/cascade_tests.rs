use minesweeper_engine::cell::CellType;
use minesweeper_engine::grid::{CellChordResult, CellRevealResult, Grid, GridLoc, GridSize};

fn loc(row: usize, col: usize) -> GridLoc {
    GridLoc { row, col }
}

/// Builds a four-by-four board whose mines sit at (0, 0) and (0, 2), opened
/// with a first click at (3, 0). The opening cascade leaves exactly the
/// cells (0, 0), (0, 1), and (0, 2) hidden.
fn four_by_four_two_mines() -> Grid {
    let mut grid = Grid::new(GridSize { rows: 4, cols: 4 });
    let done = grid.populate_mines_from_draws(loc(3, 0), 2, &vec![loc(0, 0), loc(0, 2)]);
    assert!(done);
    grid
}

fn is_revealed(grid: &Grid, row: usize, col: usize) -> bool {
    matches!(grid.get(row, col).unwrap().cell_type, CellType::Revealed)
}

#[test]
fn zero_mine_cascade_reveals_every_cell() {
    let mut grid = Grid::new(GridSize { rows: 5, cols: 7 });
    let res = grid.cascade_reveal(loc(2, 3));
    assert!(matches!(res, CellRevealResult::Success));
    for row in 0..5 {
        for col in 0..7 {
            assert!(is_revealed(&grid, row, col));
        }
    }
}

#[test]
fn zero_mine_cascade_covers_from_any_corner() {
    let mut grid = Grid::new(GridSize { rows: 4, cols: 4 });
    let res = grid.cascade_reveal(loc(3, 3));
    assert!(matches!(res, CellRevealResult::Success));
    for row in 0..4 {
        for col in 0..4 {
            assert!(is_revealed(&grid, row, col));
        }
    }
}

#[test]
fn revealing_a_mine_stops_expansion() {
    let mut grid = four_by_four_two_mines();
    assert!(!is_revealed(&grid, 0, 0));
    assert!(!is_revealed(&grid, 0, 1));
    assert!(!is_revealed(&grid, 0, 2));
    let res = grid.cascade_reveal(loc(0, 0));
    assert!(matches!(res, CellRevealResult::Mine));
    // the mine cell itself is revealed, and nothing beyond it
    assert!(is_revealed(&grid, 0, 0));
    assert!(!is_revealed(&grid, 0, 1));
    assert!(!is_revealed(&grid, 0, 2));
}

#[test]
fn cascade_rejects_bad_targets() {
    let mut grid = four_by_four_two_mines();
    assert!(matches!(
        grid.cascade_reveal(loc(9, 9)),
        CellRevealResult::OutOfBounds
    ));
    assert!(matches!(
        grid.cascade_reveal(loc(3, 3)),
        CellRevealResult::AlreadyRevealed
    ));
    grid.flag_cell(loc(0, 1));
    assert!(matches!(
        grid.cascade_reveal(loc(0, 1)),
        CellRevealResult::Flagged
    ));
    // the flagged cell was protected
    assert!(matches!(
        grid.get(0, 1).unwrap().cell_type,
        CellType::Flagged
    ));
}

#[test]
fn chord_with_wrong_flag_count_changes_nothing() {
    let mut grid = four_by_four_two_mines();
    // (1, 1) shows 2 and has no flagged neighbors
    let res = grid.chord_reveal(loc(1, 1));
    assert!(matches!(res, CellChordResult::InvalidFlagCount));
    assert!(!is_revealed(&grid, 0, 0));
    assert!(!is_revealed(&grid, 0, 1));
    assert!(!is_revealed(&grid, 0, 2));
}

#[test]
fn chord_with_correct_flags_reveals_safe_neighbors() {
    let mut grid = four_by_four_two_mines();
    grid.flag_cell(loc(0, 0));
    grid.flag_cell(loc(0, 2));
    // (1, 1) shows 2 and now has exactly two flagged neighbors
    let res = grid.chord_reveal(loc(1, 1));
    assert!(matches!(res, CellChordResult::Success));
    assert!(is_revealed(&grid, 0, 1));
    // the flagged mines stay flagged
    assert!(matches!(
        grid.get(0, 0).unwrap().cell_type,
        CellType::Flagged
    ));
    assert!(matches!(
        grid.get(0, 2).unwrap().cell_type,
        CellType::Flagged
    ));
}

#[test]
fn chord_with_misplaced_flags_reports_hit_mines() {
    let mut grid = four_by_four_two_mines();
    // two flags, both wrong: the count matches but the mines are open
    grid.flag_cell(loc(0, 1));
    let mut grid2 = four_by_four_two_mines();
    grid2.flag_cell(loc(0, 1));
    // (1, 1) shows 2; one flag is not enough
    assert!(matches!(
        grid2.chord_reveal(loc(1, 1)),
        CellChordResult::InvalidFlagCount
    ));
    // (1, 0) shows 1 and has one flagged neighbor, but the flag is wrong:
    // chording it reveals the mine at (0, 0)
    let res = grid.chord_reveal(loc(1, 0));
    match res {
        CellChordResult::Mines(hit) => assert_eq!(hit, vec![loc(0, 0)]),
        other => panic!("expected Mines, got {:?}", other),
    }
    assert!(is_revealed(&grid, 0, 0));
}

#[test]
fn chord_rejects_bad_targets() {
    let mut grid = four_by_four_two_mines();
    assert!(matches!(
        grid.chord_reveal(loc(9, 0)),
        CellChordResult::OutOfBounds
    ));
    assert!(matches!(
        grid.chord_reveal(loc(0, 1)),
        CellChordResult::Hidden
    ));
    grid.flag_cell(loc(0, 1));
    assert!(matches!(
        grid.chord_reveal(loc(0, 1)),
        CellChordResult::Flagged
    ));
}

#[test]
fn corner_mine_scenario_reveals_all_but_the_mine() {
    let mut grid = Grid::new(GridSize { rows: 3, cols: 3 });
    let done = grid.populate_mines_from_draws(loc(0, 0), 1, &vec![loc(2, 2)]);
    assert!(done);
    // the neighboring-mine counts of the board, row by row
    let expected: [[u8; 3]; 3] = [[0, 0, 0], [0, 1, 1], [0, 1, 0]];
    for row in 0..3 {
        for col in 0..3 {
            assert_eq!(grid.count_neighboring_mines(loc(row, col)), expected[row][col]);
        }
    }
    // one cascade from the opposite corner reveals everything but the mine
    for row in 0..3 {
        for col in 0..3 {
            if row == 2 && col == 2 {
                assert!(matches!(
                    grid.get(row, col).unwrap().cell_type,
                    CellType::Hidden
                ));
            } else {
                assert!(is_revealed(&grid, row, col));
            }
        }
    }
    assert!(grid.get(2, 2).unwrap().is_mine);
    assert_eq!(grid.count_mines(), 1);
}
