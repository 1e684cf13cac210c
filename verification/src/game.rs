//! The application state machine: what each user intent does to the game
//! state. The caller performs the surrounding work (rendering, timers,
//! quitting) and hands intents in as plain `Message` values.

use vstd::prelude::*;

use rand_chacha::ChaCha20Rng;

use crate::algorithms::{generate_brute_force_hints, hints_post};
use crate::cascade::{chord_hits, mines_unrevealed_except, reveal_frame};
use crate::grid::adjacent;
use crate::cell::{Cell, CellType};
use crate::grid::{
    flag_toggled, CellChordResult, CellRevealResult, Grid, GridConfig, GridLoc, GridSize,
};
use crate::message::Message;
use crate::state::{Difficulty, GameState};

verus! {

/// Whether a click reveals or flags: a toggle for play without a right
/// mouse button.
#[derive(Clone, Copy, Debug, PartialEq, Eq, Structural)]
pub enum ClickMode {
    Reveal,
    Flag,
}

impl Default for ClickMode {
    fn default() -> (r: Self)
        ensures
            r == ClickMode::Reveal,
    {
        ClickMode::Reveal
    }
}

impl ClickMode {
    /// Switches to the other mode.
    pub fn toggle(&mut self)
        ensures
            *old(self) == ClickMode::Reveal ==> *final (self) == ClickMode::Flag,
            *old(self) == ClickMode::Flag ==> *final (self) == ClickMode::Reveal,
    {
        *self = match self {
            ClickMode::Reveal => ClickMode::Flag,
            ClickMode::Flag => ClickMode::Reveal,
        };
    }

    /// The mode's display label.
    pub fn to_string(self) -> (r: &'static str)
        ensures
            self == ClickMode::Reveal ==> r@ == "Normal Mode"@,
            self == ClickMode::Flag ==> r@ == "Flag Mode"@,
    {
        match self {
            ClickMode::Reveal => "Normal Mode",
            ClickMode::Flag => "Flag Mode",
        }
    }
}

/// The face shown on the restart button.
#[derive(Clone, Copy, Debug, PartialEq, Eq, Structural)]
pub enum Face {
    Happy,
    Surprised,
}

impl Default for Face {
    fn default() -> (r: Self)
        ensures
            r == Face::Happy,
    {
        Face::Happy
    }
}

/// The application: the game lifecycle state, the click mode, and the face
/// to show.
pub struct App {
    pub state: GameState,
    pub click_mode: ClickMode,
    pub face: Face,
}

impl Default for App {
    fn default() -> (r: Self)
        ensures
            (r.state matches GameState::Initialized(cfg) && cfg.size.rows == 9 && cfg.size.cols
                == 9 && cfg.mines == 10),
            r.click_mode == ClickMode::Reveal,
            r.face == Face::Happy,
    {
        App { state: GameState::default(), click_mode: ClickMode::default(), face: Face::default() }
    }
}

/// `b` is `a` with every highlight mark cleared.
pub open spec fn highlights_cleared(a: Grid, b: Grid) -> bool {
    &&& b.wf()
    &&& b.same_size(&a)
    &&& b.is_populated() == a.is_populated()
    &&& forall|r: int, c: int|
        a.in_bounds(r, c) ==> #[trigger] b.cell_spec(r, c) == (Cell {
            highlight: false,
            ..a.cell_spec(r, c)
        })
}

/// `b` is `a` with every cell revealed.
pub open spec fn all_revealed_from(a: Grid, b: Grid) -> bool {
    &&& b.wf()
    &&& b.same_size(&a)
    &&& b.is_populated() == a.is_populated()
    &&& forall|r: int, c: int|
        a.in_bounds(r, c) ==> #[trigger] b.cell_spec(r, c) == (Cell {
            cell_type: CellType::Revealed,
            ..a.cell_spec(r, c)
        })
}

/// The win condition: the flagged cells are exactly the mine cells.
pub open spec fn flags_match_mines(g: Grid) -> bool {
    forall|r: int, c: int|
        g.in_bounds(r, c) ==> (#[trigger] g.kind(r, c) is Flagged <==> g.mine(r, c))
}

/// What resolving a finished move does: a hit mine loses and bares the
/// board, a satisfied win condition wins and bares the board, and anything
/// else plays on with the grid untouched.
pub open spec fn resolve_post(g: Grid, hit_mine: bool, out: GameState) -> bool {
    if hit_mine {
        out matches GameState::Lost(x) && all_revealed_from(g, x)
    } else if flags_match_mines(g) {
        out matches GameState::Won(x) && all_revealed_from(g, x)
    } else {
        out matches GameState::Started(x) && x == g
    }
}

/// What one cascade reveal guarantees, as far as the application cares: the
/// grid stays well-formed, cells only move from hidden to revealed, mines
/// other than the clicked cell stay untouched, and the result is `Mine`
/// exactly when the clicked cell was an unflagged, unrevealed mine.
pub open spec fn cascade_step(pre: Grid, post: Grid, loc: GridLoc, res: CellRevealResult) -> bool {
    &&& post.wf()
    &&& reveal_frame(pre, post)
    &&& mines_unrevealed_except(pre, post, loc)
    &&& (res is Mine <==> pre.loc_in_bounds(loc) && pre.kind_at(loc) is Hidden && pre.loc_mine(
        loc,
    ))
}

/// What one chord reveal guarantees, as far as the application cares: on a
/// revealed cell whose flags match its number, the neighbors cascade and
/// the result lists exactly the unflagged, unrevealed mine neighbors; on
/// any other target nothing changes.
pub open spec fn chord_step(pre: Grid, post: Grid, loc: GridLoc, res: CellChordResult) -> bool {
    &&& post.wf()
    &&& (pre.loc_in_bounds(loc) && pre.kind_at(loc) is Revealed && pre.neighboring_flags(loc)
        == pre.neighboring_mines(loc) ==> {
        let hits = chord_hits(pre, pre.neighbor_seq(loc));
        &&& reveal_frame(pre, post)
        &&& (res is Mines <==> hits.len() > 0)
        &&& (res matches CellChordResult::Mines(l) ==> l@ == hits)
        &&& forall|q: GridLoc|
            pre.loc_in_bounds(q) && adjacent(loc, q) && pre.kind_at(q) is Hidden
                ==> #[trigger] post.kind_at(q) is Revealed
    })
    &&& (!(pre.loc_in_bounds(loc) && pre.kind_at(loc) is Revealed && pre.neighboring_flags(loc)
        == pre.neighboring_mines(loc)) ==> post.same_state(&pre))
}

/// What one flag toggle guarantees: hidden and flagged cells flip, while an
/// off-grid or revealed target leaves the grid untouched.
pub open spec fn flag_step(pre: Grid, post: Grid, loc: GridLoc) -> bool {
    &&& post.wf()
    &&& (pre.loc_in_bounds(loc) && !(pre.kind_at(loc) is Revealed) ==> flag_toggled(
        pre,
        post,
        loc,
    ))
    &&& (!(pre.loc_in_bounds(loc)) || pre.kind_at(loc) is Revealed ==> post.same_state(&pre))
}

/// A grid configuration a game can actually be built from.
pub open spec fn config_ok(cfg: GridConfig) -> bool {
    1 <= cfg.size.rows && 1 <= cfg.size.cols && cfg.size.rows * cfg.size.cols <= usize::MAX as int
}

/// The message/state pairs the state machine handles. The presentation
/// layer only produces these: clicks arrive while a game is being set up or
/// played, configuration edits arrive on the creation screen, and quitting
/// never reaches the engine.
pub open spec fn handled(m: Message, s: GameState) -> bool {
    match m {
        Message::ClickRelease => true,
        Message::NoOp => true,
        Message::GameNew => true,
        Message::ClickModeToggle => true,
        Message::InputRows(_) => s matches GameState::CreationScreen(_),
        Message::InputCols(_) => s matches GameState::CreationScreen(_),
        Message::InputMines(_) => s matches GameState::CreationScreen(_),
        Message::InputGridConfig(_) => s matches GameState::CreationScreen(_),
        Message::GameStart => s matches GameState::CreationScreen(_),
        Message::RevealClick(loc) => (s matches GameState::Initialized(cfg) && config_ok(cfg)
            && loc.row < cfg.size.rows && loc.col < cfg.size.cols) || (s
            matches GameState::Started(g) && g.wf()),
        Message::ChordClick(_) => s matches GameState::Started(g) && g.wf(),
        Message::FlagClick(_) => s matches GameState::Started(g) && g.wf(),
        Message::RequestHint => s matches GameState::Started(g) && g.wf(),
        Message::HighlightCells(_) => false,
        Message::Quit => false,
    }
}

/// Everything `update` promises, by message.
pub open spec fn update_post(pre: App, post: App, m: Message) -> bool {
    match m {
        Message::ClickRelease => post.state == pre.state && post.click_mode == pre.click_mode
            && post.face is Happy,
        Message::NoOp => post.state == pre.state && post.click_mode == pre.click_mode && post.face
            == pre.face,
        Message::GameNew => (post.state matches GameState::CreationScreen(cfg) && cfg.size == (
        GridSize { rows: 9, cols: 9 }) && cfg.mines == 10) && post.click_mode == pre.click_mode
            && post.face == pre.face,
        Message::ClickModeToggle => post.state == pre.state && post.face == pre.face && (
        pre.click_mode == ClickMode::Reveal ==> post.click_mode == ClickMode::Flag) && (
        pre.click_mode == ClickMode::Flag ==> post.click_mode == ClickMode::Reveal),
        Message::InputRows(n) => pre.state matches GameState::CreationScreen(cfg) && post.state
            matches GameState::CreationScreen(c2) && c2.size.rows == n && c2.size.cols
            == cfg.size.cols && c2.mines == cfg.mines && post.click_mode == pre.click_mode
            && post.face == pre.face,
        Message::InputCols(n) => pre.state matches GameState::CreationScreen(cfg) && post.state
            matches GameState::CreationScreen(c2) && c2.size.cols == n && c2.size.rows
            == cfg.size.rows && c2.mines == cfg.mines && post.click_mode == pre.click_mode
            && post.face == pre.face,
        Message::InputMines(n) => pre.state matches GameState::CreationScreen(cfg) && post.state
            matches GameState::CreationScreen(c2) && c2.mines == n && c2.size == cfg.size
            && post.click_mode == pre.click_mode && post.face == pre.face,
        Message::InputGridConfig(cfg) => post.state matches GameState::CreationScreen(c2) && c2
            == cfg && post.click_mode == pre.click_mode && post.face == pre.face,
        Message::GameStart => pre.state matches GameState::CreationScreen(cfg) && post.state
            matches GameState::Initialized(c2) && c2 == cfg && post.click_mode == pre.click_mode
            && post.face == pre.face,
        Message::RevealClick(loc) => post.click_mode == pre.click_mode && post.face is Surprised
            && match pre.state {
            GameState::Initialized(cfg) => post.state matches GameState::Started(g) && g.wf()
                && g.rows_spec() == cfg.size.rows && g.cols_spec() == cfg.size.cols
                && g.is_populated() && !g.loc_mine(loc) && g.count_mines_spec() <= cfg.mines && (
            cfg.mines == 0 ==> g.count_mines_spec() == cfg.mines) && (g.count_mines_spec()
                == cfg.mines ==> g.kind_at(loc) is Revealed),
            GameState::Started(g0) => exists|g1: Grid, g2: Grid, res: CellRevealResult|
                {
                    &&& #[trigger] highlights_cleared(g0, g1)
                    &&& #[trigger] cascade_step(g1, g2, loc, res)
                    &&& resolve_post(g2, res is Mine, post.state)
                },
            _ => false,
        },
        Message::ChordClick(loc) => post.click_mode == pre.click_mode && post.face is Surprised
            && match pre.state {
            GameState::Started(g0) => exists|g1: Grid, g2: Grid, res: CellChordResult|
                {
                    &&& #[trigger] highlights_cleared(g0, g1)
                    &&& #[trigger] chord_step(g1, g2, loc, res)
                    &&& resolve_post(g2, res is Mines, post.state)
                },
            _ => false,
        },
        Message::FlagClick(loc) => post.click_mode == pre.click_mode && post.face == pre.face
            && match pre.state {
            GameState::Started(g0) => exists|g1: Grid, g2: Grid|
                {
                    &&& #[trigger] highlights_cleared(g0, g1)
                    &&& #[trigger] flag_step(g1, g2, loc)
                    &&& resolve_post(g2, false, post.state)
                },
            _ => false,
        },
        Message::RequestHint => post.click_mode == pre.click_mode && post.face == pre.face
            && match pre.state {
            GameState::Started(g0) => post.state matches GameState::Started(g) && g.wf()
                && g.same_size(&g0) && g.is_populated() == g0.is_populated() && exists|
                hs: Seq<GridLoc>,
            |
                #[trigger] hints_post(g0, hs) && forall|r: int, c: int|
                    g0.in_bounds(r, c) ==> #[trigger] g.cell_spec(r, c) == (Cell {
                        highlight: g0.highlighted(r, c) || hs.contains(
                            GridLoc { row: r as usize, col: c as usize },
                        ),
                        ..g0.cell_spec(r, c)
                    }),
            _ => false,
        },
        Message::HighlightCells(_) => true,
        Message::Quit => true,
    }
}

impl App {
    /// Decides how a finished move resolves the game: a hit mine loses, a
    /// satisfied win condition wins (both bare the whole board for
    /// display), and anything else plays on.
    pub fn resolve_game_state(grid: Grid, hit_mine: bool) -> (r: GameState)
        requires
            grid.wf(),
        ensures
            resolve_post(grid, hit_mine, r),
    {
        let mut grid = grid;
        if hit_mine {
            grid.reveal_all();
            GameState::Lost(grid)
        } else if grid.is_won() {
            grid.reveal_all();
            GameState::Won(grid)
        } else {
            GameState::Started(grid)
        }
    }

    /// In flag mode, a plain click flags and a flagging click reveals; in
    /// normal mode every click means itself.
    pub fn create_message_handler(&self, message: Message) -> (r: Message)
        requires
            self.click_mode == ClickMode::Flag ==> (message matches Message::RevealClick(_)
                || message matches Message::FlagClick(_) || message matches Message::ChordClick(
                _,
            )),
        ensures
            self.click_mode == ClickMode::Reveal ==> r == message,
            self.click_mode == ClickMode::Flag ==> match message {
                Message::RevealClick(loc) => r == Message::FlagClick(loc),
                Message::FlagClick(loc) => r == Message::RevealClick(loc),
                Message::ChordClick(loc) => r == Message::ChordClick(loc),
                _ => true,
            },
    {
        match self.click_mode {
            ClickMode::Reveal => message,
            ClickMode::Flag => match message {
                Message::RevealClick(loc) => Message::FlagClick(loc),
                Message::FlagClick(loc) => Message::RevealClick(loc),
                Message::ChordClick(loc) => Message::ChordClick(loc),
                other => other,
            },
        }
    }

    /// Applies one user intent to the application state: the whole decision
    /// logic of the game, from configuration edits through population,
    /// reveals, chords, flags, and hints, to win and loss resolution.
    pub fn update(&mut self, message: Message, rng: &mut ChaCha20Rng)
        requires
            handled(message, old(self).state),
        ensures
            update_post(*old(self), *final (self), message),
    {
        let ghost pre = *old(self);
        let mut state = GameState::default();
        core::mem::swap(&mut state, &mut self.state);
        match (message, state) {
            (Message::ClickRelease, s) => {
                self.face = Face::Happy;
                self.state = s;
            },
            (Message::NoOp, s) => {
                self.state = s;
            },
            (Message::GameNew, _) => {
                self.state = GameState::CreationScreen(Difficulty::easy().state);
            },
            (Message::ClickModeToggle, s) => {
                self.click_mode.toggle();
                self.state = s;
            },
            (Message::InputRows(rows), GameState::CreationScreen(cfg)) => {
                self.state = GameState::CreationScreen(
                    GridConfig { size: GridSize { rows, cols: cfg.size.cols }, mines: cfg.mines },
                );
            },
            (Message::InputCols(cols), GameState::CreationScreen(cfg)) => {
                self.state = GameState::CreationScreen(
                    GridConfig { size: GridSize { rows: cfg.size.rows, cols }, mines: cfg.mines },
                );
            },
            (Message::InputMines(mines), GameState::CreationScreen(cfg)) => {
                self.state = GameState::CreationScreen(GridConfig { size: cfg.size, mines });
            },
            (Message::InputGridConfig(cfg), GameState::CreationScreen(_)) => {
                self.state = GameState::CreationScreen(cfg);
            },
            (Message::GameStart, GameState::CreationScreen(cfg)) => {
                self.state = GameState::Initialized(cfg);
            },
            (Message::RevealClick(loc), GameState::Initialized(cfg)) => {
                self.face = Face::Surprised;
                let mut grid = Grid::new(cfg.size);
                grid.populate_mines_with_rng(loc, cfg.mines, rng);
                self.state = GameState::Started(grid);
            },
            (Message::RevealClick(loc), GameState::Started(mut grid)) => {
                self.face = Face::Surprised;
                let ghost g0 = grid;
                grid.clear_highlights();
                let ghost g1 = grid;
                let res = grid.cascade_reveal(loc);
                let ghost g2 = grid;
                let hit_mine = matches!(res, CellRevealResult::Mine);
                self.state = Self::resolve_game_state(grid, hit_mine);
                proof {
                    assert(highlights_cleared(g0, g1));
                    assert(cascade_step(g1, g2, loc, res));
                }
            },
            (Message::ChordClick(loc), GameState::Started(mut grid)) => {
                self.face = Face::Surprised;
                let ghost g0 = grid;
                grid.clear_highlights();
                let ghost g1 = grid;
                let res = grid.chord_reveal(loc);
                let ghost g2 = grid;
                let hit_mine = matches!(res, CellChordResult::Mines(..));
                self.state = Self::resolve_game_state(grid, hit_mine);
                proof {
                    assert(highlights_cleared(g0, g1));
                    assert(chord_step(g1, g2, loc, res));
                }
            },
            (Message::FlagClick(loc), GameState::Started(mut grid)) => {
                let ghost g0 = grid;
                grid.clear_highlights();
                let ghost g1 = grid;
                grid.flag_cell(loc);
                let ghost g2 = grid;
                self.state = Self::resolve_game_state(grid, false);
                proof {
                    assert(highlights_cleared(g0, g1));
                    assert(flag_step(g1, g2, loc));
                }
            },
            (Message::RequestHint, GameState::Started(mut grid)) => {
                let ghost g0 = grid;
                let hints = generate_brute_force_hints(&grid);
                let ghost hs = hints@;
                grid.highlight_cells(hints);
                proof {
                    assert(hints_post(g0, hs));
                }
                self.state = GameState::Started(grid);
            },
            (_, s) => {
                self.state = s;
            },
        }
    }
}

} // verus!
