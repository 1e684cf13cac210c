use minesweeper_engine::cell::{Cell, CellType};
use minesweeper_engine::game::{App, ClickMode, Face};
use minesweeper_engine::grid::{Grid, GridConfig, GridLoc, GridSize};
use minesweeper_engine::message::Message;
use minesweeper_engine::state::{Difficulty, GameState};
use rand::SeedableRng;
use rand_chacha::ChaCha20Rng;

fn loc(row: usize, col: usize) -> GridLoc {
    GridLoc { row, col }
}

#[test]
fn cell_text_covers_every_state() {
    let hidden = Cell { cell_type: CellType::Hidden, is_mine: false, highlight: false };
    assert_eq!(hidden.to_string(0), "⬛");
    let flagged = Cell { cell_type: CellType::Flagged, is_mine: true, highlight: false };
    assert_eq!(flagged.to_string(3), "🚩");
    let mine = Cell { cell_type: CellType::Revealed, is_mine: true, highlight: false };
    assert_eq!(mine.to_string(0), "💣");
    let blank = Cell { cell_type: CellType::Revealed, is_mine: false, highlight: false };
    assert_eq!(blank.to_string(0), "  ");
    assert_eq!(blank.to_string(3), "3");
    assert_eq!(blank.to_string(12), "12");
    assert_eq!(blank.to_string(205), "205");
}

#[test]
fn click_mode_toggles_and_labels() {
    let mut mode = ClickMode::default();
    assert_eq!(mode, ClickMode::Reveal);
    assert_eq!(mode.to_string(), "Normal Mode");
    mode.toggle();
    assert_eq!(mode, ClickMode::Flag);
    assert_eq!(mode.to_string(), "Flag Mode");
    mode.toggle();
    assert_eq!(mode, ClickMode::Reveal);
}

#[test]
fn difficulty_presets_hold_expected_boards() {
    let all = Difficulty::all();
    assert_eq!(all.len(), 4);
    assert_eq!(all[0].name, "Easy");
    assert_eq!(all[0].state.size.rows, 9);
    assert_eq!(all[0].state.size.cols, 9);
    assert_eq!(all[0].state.mines, 10);
    assert_eq!(all[1].name, "Medium");
    assert_eq!(all[1].state.mines, 40);
    assert_eq!(all[2].name, "Hard");
    assert_eq!(all[2].state.size.cols, 30);
    assert_eq!(all[3].name, "Extreme");
    assert_eq!(all[3].state.mines, 160);
}

#[test]
fn flag_mode_swaps_click_meanings() {
    let mut app = App::default();
    assert!(matches!(
        app.create_message_handler(Message::RevealClick(loc(1, 2))),
        Message::RevealClick(GridLoc { row: 1, col: 2 })
    ));
    app.click_mode.toggle();
    assert!(matches!(
        app.create_message_handler(Message::RevealClick(loc(1, 2))),
        Message::FlagClick(GridLoc { row: 1, col: 2 })
    ));
    assert!(matches!(
        app.create_message_handler(Message::FlagClick(loc(0, 0))),
        Message::RevealClick(GridLoc { row: 0, col: 0 })
    ));
    assert!(matches!(
        app.create_message_handler(Message::ChordClick(loc(2, 2))),
        Message::ChordClick(GridLoc { row: 2, col: 2 })
    ));
}

#[test]
fn resolve_game_state_decides_win_loss_and_play() {
    // a hit mine loses and bares the board
    let mut grid = Grid::new(GridSize { rows: 3, cols: 3 });
    let done = grid.populate_mines_from_draws(loc(0, 0), 1, &vec![loc(2, 2)]);
    assert!(done);
    match App::resolve_game_state(grid, true) {
        GameState::Lost(g) => {
            assert!(matches!(g.get(2, 2).unwrap().cell_type, CellType::Revealed));
        }
        other => panic!("expected Lost, got {:?}", other),
    }

    // flagging the full mine set wins
    let mut grid = Grid::new(GridSize { rows: 3, cols: 3 });
    let done = grid.populate_mines_from_draws(loc(0, 0), 1, &vec![loc(2, 2)]);
    assert!(done);
    grid.flag_cell(loc(2, 2));
    assert!(matches!(
        App::resolve_game_state(grid, false),
        GameState::Won(_)
    ));

    // anything else plays on
    let mut grid = Grid::new(GridSize { rows: 3, cols: 3 });
    let done = grid.populate_mines_from_draws(loc(0, 0), 1, &vec![loc(2, 2)]);
    assert!(done);
    assert!(matches!(
        App::resolve_game_state(grid, false),
        GameState::Started(_)
    ));
}

#[test]
fn update_drives_a_game_from_configuration_to_loss() {
    let mut rng = ChaCha20Rng::seed_from_u64(6767);
    let mut app = App::default();
    assert!(matches!(app.state, GameState::Initialized(_)));

    app.update(Message::GameNew, &mut rng);
    assert!(matches!(app.state, GameState::CreationScreen(_)));

    app.update(Message::InputRows(5), &mut rng);
    app.update(Message::InputCols(6), &mut rng);
    app.update(Message::InputMines(4), &mut rng);
    match &app.state {
        GameState::CreationScreen(cfg) => {
            assert_eq!(cfg.size.rows, 5);
            assert_eq!(cfg.size.cols, 6);
            assert_eq!(cfg.mines, 4);
        }
        other => panic!("expected CreationScreen, got {:?}", other),
    }

    app.update(
        Message::InputGridConfig(GridConfig { size: GridSize { rows: 4, cols: 4 }, mines: 2 }),
        &mut rng,
    );
    app.update(Message::GameStart, &mut rng);
    assert!(matches!(app.state, GameState::Initialized(_)));

    app.update(Message::RevealClick(loc(0, 0)), &mut rng);
    assert_eq!(app.face, Face::Surprised);
    let mine = match &app.state {
        GameState::Started(g) => {
            assert_eq!(g.count_mines(), 2);
            assert!(!g.get(0, 0).unwrap().is_mine);
            let mut found = None;
            for row in 0..4 {
                for col in 0..4 {
                    let cell = g.get(row, col).unwrap();
                    if cell.is_mine && matches!(cell.cell_type, CellType::Hidden) {
                        found = Some(loc(row, col));
                    }
                }
            }
            found.expect("a populated board keeps its mines hidden")
        }
        other => panic!("expected Started, got {:?}", other),
    };

    app.update(Message::ClickRelease, &mut rng);
    assert_eq!(app.face, Face::Happy);

    app.update(Message::RevealClick(mine), &mut rng);
    assert!(matches!(app.state, GameState::Lost(_)));
}

#[test]
fn update_flags_and_hints_during_play() {
    let mut rng = ChaCha20Rng::seed_from_u64(1);
    let mut app = App::default();
    app.update(Message::GameNew, &mut rng);
    app.update(
        Message::InputGridConfig(GridConfig { size: GridSize { rows: 9, cols: 9 }, mines: 10 }),
        &mut rng,
    );
    app.update(Message::GameStart, &mut rng);
    app.update(Message::RevealClick(loc(4, 4)), &mut rng);

    // pick some hidden cell and toggle a flag onto it
    let target = match &app.state {
        GameState::Started(g) => {
            let mut found = None;
            for row in 0..9 {
                for col in 0..9 {
                    if matches!(g.get(row, col).unwrap().cell_type, CellType::Hidden) {
                        found = Some(loc(row, col));
                    }
                }
            }
            found.expect("a fresh board keeps some cell hidden")
        }
        other => panic!("expected Started, got {:?}", other),
    };
    app.update(Message::FlagClick(target), &mut rng);
    match &app.state {
        GameState::Started(g) => {
            assert!(matches!(
                g.get(target.row, target.col).unwrap().cell_type,
                CellType::Flagged
            ));
        }
        other => panic!("expected Started, got {:?}", other),
    }

    // asking for a hint highlights only cells that are still hidden
    app.update(Message::RequestHint, &mut rng);
    match &app.state {
        GameState::Started(g) => {
            for row in 0..9 {
                for col in 0..9 {
                    let cell = g.get(row, col).unwrap();
                    if cell.highlight {
                        assert!(matches!(cell.cell_type, CellType::Hidden));
                    }
                }
            }
        }
        other => panic!("expected Started, got {:?}", other),
    }
}
