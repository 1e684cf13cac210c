use minesweeper_engine::cell::CellType;
use minesweeper_engine::grid::{CellFlagResult, Grid, GridLoc, GridSize};
use rand::SeedableRng;
use rand_chacha::ChaCha20Rng;

fn loc(row: usize, col: usize) -> GridLoc {
    GridLoc { row, col }
}

/// Builds the three-by-three fixture with a single mine in the bottom-right
/// corner, populated with a first click in the top-left corner.
fn three_by_three_corner_mine() -> Grid {
    let mut grid = Grid::new(GridSize { rows: 3, cols: 3 });
    let done = grid.populate_mines_from_draws(loc(0, 0), 1, &vec![loc(2, 2)]);
    assert!(done);
    grid
}

#[test]
fn test_grid_populate_mines() {
    let mut rng = ChaCha20Rng::seed_from_u64(6767);
    let mut grid = Grid::new(GridSize { rows: 9, cols: 9 });
    grid.populate_mines_with_rng(loc(4, 4), 10, &mut rng);
    grid.reveal_all();
    println!("{}", grid.to_string());
}

#[test]
fn first_click_is_never_a_mine() {
    for seed in 0..20u64 {
        let mut rng = ChaCha20Rng::seed_from_u64(seed);
        let mut grid = Grid::new(GridSize { rows: 9, cols: 9 });
        let done = grid.populate_mines_with_rng(loc(4, 4), 10, &mut rng);
        assert!(done);
        assert!(!grid.get(4, 4).unwrap().is_mine);
    }
}

#[test]
fn populate_places_exact_mine_count() {
    for seed in 0..20u64 {
        let mut rng = ChaCha20Rng::seed_from_u64(seed);
        let mut grid = Grid::new(GridSize { rows: 9, cols: 9 });
        let done = grid.populate_mines_with_rng(loc(0, 0), 10, &mut rng);
        assert!(done);
        assert_eq!(grid.count_mines(), 10);
    }
}

#[test]
fn populate_with_zero_mines_succeeds_and_opens_the_board() {
    let mut rng = ChaCha20Rng::seed_from_u64(3);
    let mut grid = Grid::new(GridSize { rows: 4, cols: 5 });
    let done = grid.populate_mines_with_rng(loc(1, 1), 0, &mut rng);
    assert!(done);
    assert_eq!(grid.count_mines(), 0);
    // with no mines anywhere, the opening cascade reveals the whole board
    for row in 0..4 {
        for col in 0..5 {
            assert!(matches!(
                grid.get(row, col).unwrap().cell_type,
                CellType::Revealed
            ));
        }
    }
}

#[test]
fn populate_from_draws_rejects_duplicates_and_first_click() {
    let mut grid = Grid::new(GridSize { rows: 3, cols: 3 });
    // the draw at the first click and the repeated draw are both rejected
    let draws = vec![loc(0, 0), loc(1, 2), loc(1, 2), loc(2, 2)];
    let done = grid.populate_mines_from_draws(loc(0, 0), 2, &draws);
    assert!(done);
    assert_eq!(grid.count_mines(), 2);
    assert!(grid.get(1, 2).unwrap().is_mine);
    assert!(grid.get(2, 2).unwrap().is_mine);
    assert!(!grid.get(0, 0).unwrap().is_mine);
}

#[test]
fn populate_from_draws_reports_shortfall() {
    let mut grid = Grid::new(GridSize { rows: 3, cols: 3 });
    let done = grid.populate_mines_from_draws(loc(0, 0), 2, &vec![loc(1, 1)]);
    assert!(!done);
    assert_eq!(grid.count_mines(), 1);
    // nothing was revealed because the board never finished populating
    for row in 0..3 {
        for col in 0..3 {
            assert!(matches!(
                grid.get(row, col).unwrap().cell_type,
                CellType::Hidden
            ));
        }
    }
}

#[test]
fn flag_toggle_returns_cell_to_hidden() {
    let mut grid = Grid::new(GridSize { rows: 4, cols: 4 });
    assert!(matches!(grid.flag_cell(loc(1, 1)), CellFlagResult::Success));
    assert!(matches!(
        grid.get(1, 1).unwrap().cell_type,
        CellType::Flagged
    ));
    assert!(matches!(grid.flag_cell(loc(1, 1)), CellFlagResult::Success));
    for row in 0..4 {
        for col in 0..4 {
            let cell = grid.get(row, col).unwrap();
            assert!(matches!(cell.cell_type, CellType::Hidden));
            assert!(!cell.is_mine);
            assert!(!cell.highlight);
        }
    }
}

#[test]
fn flag_rejects_out_of_bounds_and_revealed() {
    let mut grid = three_by_three_corner_mine();
    assert!(matches!(
        grid.flag_cell(loc(5, 5)),
        CellFlagResult::OutOfBounds
    ));
    // (0, 0) was revealed by the opening cascade
    assert!(matches!(
        grid.flag_cell(loc(0, 0)),
        CellFlagResult::AlreadyRevealed
    ));
}

#[test]
fn win_detection_matches_flag_and_mine_sets() {
    let mut grid = Grid::new(GridSize { rows: 4, cols: 4 });
    let draws = vec![loc(0, 0), loc(0, 2)];
    let done = grid.populate_mines_from_draws(loc(3, 0), 2, &draws);
    assert!(done);
    assert!(!grid.is_won());
    grid.flag_cell(loc(0, 0));
    assert!(!grid.is_won());
    grid.flag_cell(loc(0, 2));
    assert!(grid.is_won());
    // one extra flag on a hidden non-mine breaks the exact match
    grid.flag_cell(loc(0, 1));
    assert!(!grid.is_won());
    assert!(grid.all_mines_flagged());
}

#[test]
fn reveal_all_reveals_every_cell() {
    let mut grid = Grid::new(GridSize { rows: 3, cols: 3 });
    grid.flag_cell(loc(0, 1));
    grid.reveal_all();
    for row in 0..3 {
        for col in 0..3 {
            assert!(matches!(
                grid.get(row, col).unwrap().cell_type,
                CellType::Revealed
            ));
        }
    }
}

#[test]
fn neighbor_lists_clip_at_edges() {
    let grid = Grid::new(GridSize { rows: 3, cols: 3 });
    let center = grid.neighbors(loc(1, 1));
    assert_eq!(center.len(), 8);
    let corner = grid.neighbors(loc(0, 0));
    assert_eq!(corner, vec![loc(0, 1), loc(1, 0), loc(1, 1)]);
    let edge = grid.neighbors(loc(0, 1));
    assert_eq!(edge, vec![loc(0, 0), loc(0, 2), loc(1, 0), loc(1, 1), loc(1, 2)]);
}

#[test]
fn neighboring_counts_match_layout() {
    let mut grid = Grid::new(GridSize { rows: 3, cols: 3 });
    let done = grid.populate_mines_from_draws(loc(0, 0), 1, &vec![loc(2, 2)]);
    assert!(done);
    let expected: [[u8; 3]; 3] = [[0, 0, 0], [0, 1, 1], [0, 1, 0]];
    for row in 0..3 {
        for col in 0..3 {
            assert_eq!(grid.count_neighboring_mines(loc(row, col)), expected[row][col]);
        }
    }
    grid.flag_cell(loc(2, 2));
    assert_eq!(grid.count_neighboring_flags(loc(1, 1)), 1);
    assert_eq!(grid.count_neighboring_flags(loc(0, 0)), 0);
    assert_eq!(grid.count_flags(), 1);
}

#[test]
fn highlights_set_and_clear() {
    let mut grid = Grid::new(GridSize { rows: 3, cols: 3 });
    assert!(!grid.is_animating());
    grid.highlight_cells(vec![loc(0, 0), loc(2, 1)]);
    assert!(grid.is_animating());
    assert!(grid.get(0, 0).unwrap().highlight);
    assert!(grid.get(2, 1).unwrap().highlight);
    assert!(!grid.get(1, 1).unwrap().highlight);
    grid.clear_highlights();
    assert!(!grid.is_animating());
    assert!(!grid.get(0, 0).unwrap().highlight);
}

#[test]
fn getters_report_dimensions() {
    let grid = Grid::new(GridSize { rows: 4, cols: 7 });
    assert_eq!(grid.rows(), 4);
    assert_eq!(grid.cols(), 7);
    assert!(grid.get(3, 6).is_some());
    assert!(grid.get(4, 0).is_none());
    assert!(grid.get(0, 7).is_none());
}

#[test]
fn grid_text_renders_rows() {
    let grid = Grid::new(GridSize { rows: 1, cols: 2 });
    assert_eq!(grid.to_string(), "⬛ ⬛\n");
    let mut open = Grid::new(GridSize { rows: 2, cols: 2 });
    open.reveal_all();
    // four blank cells: two spaces each, separated by single spaces, with a
    // blank line between the two rows
    assert_eq!(open.to_string(), "     \n\n     \n");
}
