//! Laws that relate several grid operations: proof functions whose
//! statements are the guarantees the engine makes beyond any single
//! function's contract.

use vstd::prelude::*;

use crate::cascade::{cascade_expanded, expansion_path, newly_revealed, reachable, reveal_frame};
use crate::grid::{adjacent, flag_toggled, Grid, GridLoc};

verus! {

/// The larger of the row distance and the column distance between two
/// cells: the number of king moves between them.
pub open spec fn cheb_dist(a: GridLoc, b: GridLoc) -> int {
    let dr = if a.row as int >= b.row as int {
        a.row as int - b.row as int
    } else {
        b.row as int - a.row as int
    };
    let dc = if a.col as int >= b.col as int {
        a.col as int - b.col as int
    } else {
        b.col as int - a.col as int
    };
    if dr >= dc {
        dr
    } else {
        dc
    }
}

/// Flood-fill coverage: on a fully hidden grid with no mines at all, one
/// cascade reveal reaches every cell. Each cell is revealed by the pass
/// that processed it, and the visited-set discipline of the work queue
/// means no cell is processed twice; this law states the coverage half:
/// nothing at all is left hidden.
pub proof fn lemma_cascade_zero_mines_covers(g0: Grid, g1: Grid, loc: GridLoc)
    requires
        g0.wf(),
        g0.loc_in_bounds(loc),
        forall|r: int, c: int| g0.in_bounds(r, c) ==> #[trigger] g0.kind(r, c) is Hidden,
        forall|r: int, c: int| g0.in_bounds(r, c) ==> !(#[trigger] g0.mine(r, c)),
        reveal_frame(g0, g1),
        newly_revealed(g0, g1, loc),
        cascade_expanded(g0, g1),
    ensures
        forall|r: int, c: int| g0.in_bounds(r, c) ==> #[trigger] g1.kind(r, c) is Revealed,
{
    assert forall|r: int, c: int| g0.in_bounds(r, c) implies #[trigger] g1.kind(r, c)
        is Revealed by {
        g0.lemma_dims_bounded();
        let q = GridLoc { row: r as usize, col: c as usize };
        lemma_zero_mines_reach(g0, g1, loc, q);
        assert(g1.kind_at(q) is Revealed);
    }
}

/// On a fully hidden, mine-free grid, the cell `q` ends up revealed:
/// induction on the king-move distance from the starting cell.
proof fn lemma_zero_mines_reach(g0: Grid, g1: Grid, loc: GridLoc, q: GridLoc)
    requires
        g0.wf(),
        g0.loc_in_bounds(loc),
        g0.loc_in_bounds(q),
        forall|r: int, c: int| g0.in_bounds(r, c) ==> #[trigger] g0.kind(r, c) is Hidden,
        forall|r: int, c: int| g0.in_bounds(r, c) ==> !(#[trigger] g0.mine(r, c)),
        reveal_frame(g0, g1),
        newly_revealed(g0, g1, loc),
        cascade_expanded(g0, g1),
    ensures
        g1.kind_at(q) is Revealed,
    decreases cheb_dist(loc, q),
{
    if q == loc {
        assert(g1.kind_at(loc) is Revealed);
    } else {
        g0.lemma_dims_bounded();
        let r = q.row as int;
        let c = q.col as int;
        let lr = loc.row as int;
        let lc = loc.col as int;
        let pr = if lr < r {
            r - 1
        } else if lr > r {
            r + 1
        } else {
            r
        };
        let pc = if lc < c {
            c - 1
        } else if lc > c {
            c + 1
        } else {
            c
        };
        let p = GridLoc { row: pr as usize, col: pc as usize };
        assert(g0.in_bounds(pr, pc));
        assert(adjacent(p, q));
        assert(cheb_dist(loc, p) < cheb_dist(loc, q));
        lemma_zero_mines_reach(g0, g1, loc, p);
        assert(newly_revealed(g0, g1, p)) by {
            assert(g0.kind(pr, pc) is Hidden);
        }
        assert(g0.neighboring_mines(p) == 0) by {
            assert(g0.mine_ind(pr - 1, pc - 1) == 0);
            assert(g0.mine_ind(pr - 1, pc) == 0);
            assert(g0.mine_ind(pr - 1, pc + 1) == 0);
            assert(g0.mine_ind(pr, pc - 1) == 0);
            assert(g0.mine_ind(pr, pc + 1) == 0);
            assert(g0.mine_ind(pr + 1, pc - 1) == 0);
            assert(g0.mine_ind(pr + 1, pc) == 0);
            assert(g0.mine_ind(pr + 1, pc + 1) == 0);
        }
        assert(g1.kind_at(q) is Revealed || g1.kind_at(q) is Flagged);
        assert(g0.kind(r, c) is Hidden);
        assert(!(g1.kind_at(q) is Flagged)) by {
            assert(g1.cell_spec(r, c).cell_type == g0.cell_spec(r, c).cell_type || (g0.cell_spec(
                r,
                c,
            ).cell_type is Hidden && g1.cell_spec(r, c).cell_type is Revealed));
        }
    }
}

/// Flood-fill completeness: a successful cascade reveals every hidden cell
/// it can expand to. Together with the cascade's own soundness guarantee
/// (everything it revealed is reachable), the revealed region is exactly
/// the reachable one.
pub proof fn lemma_cascade_completes(g0: Grid, g1: Grid, loc: GridLoc, q: GridLoc)
    requires
        g0.wf(),
        g0.loc_in_bounds(loc),
        g0.loc_in_bounds(q),
        g0.kind_at(q) is Hidden,
        reveal_frame(g0, g1),
        newly_revealed(g0, g1, loc),
        cascade_expanded(g0, g1),
        reachable(g0, loc, q),
    ensures
        g1.kind_at(q) is Revealed,
{
    let path = choose|path: Seq<GridLoc>| #[trigger] expansion_path(g0, loc, path, q);
    lemma_path_ends_revealed(g0, g1, loc, path, q);
}

/// Walking an expansion path front to back, every cell along it and the
/// hidden cell it ends at come out revealed.
proof fn lemma_path_ends_revealed(g0: Grid, g1: Grid, loc: GridLoc, path: Seq<GridLoc>, q: GridLoc)
    requires
        g0.wf(),
        g0.loc_in_bounds(loc),
        g0.loc_in_bounds(q),
        g0.kind_at(q) is Hidden,
        reveal_frame(g0, g1),
        newly_revealed(g0, g1, loc),
        cascade_expanded(g0, g1),
        expansion_path(g0, loc, path, q),
    ensures
        g1.kind_at(q) is Revealed,
    decreases path.len(),
{
    if path.len() == 0 {
        assert(q == loc);
    } else {
        let w = path.last();
        if w == loc {
            assert(expansion_path(g0, loc, path.drop_last(), w));
        } else {
            lemma_path_ends_revealed(g0, g1, loc, path.drop_last(), w);
        }
        assert(newly_revealed(g0, g1, w));
        assert(g1.kind_at(q) is Revealed || g1.kind_at(q) is Flagged);
        assert(!(g1.kind_at(q) is Flagged)) by {
            let r = q.row as int;
            let c = q.col as int;
            assert(g1.cell_spec(r, c).cell_type == g0.cell_spec(r, c).cell_type || (g0.cell_spec(
                r,
                c,
            ).cell_type is Hidden && g1.cell_spec(r, c).cell_type is Revealed));
        }
    }
}

/// Toggling the flag of a hidden cell twice returns the grid to exactly
/// the state it started in: the cell is hidden again and no other cell
/// changed at all.
pub proof fn lemma_flag_toggle_restores(g0: Grid, g1: Grid, g2: Grid, loc: GridLoc)
    requires
        g0.loc_in_bounds(loc),
        g0.kind_at(loc) is Hidden,
        flag_toggled(g0, g1, loc),
        flag_toggled(g1, g2, loc),
    ensures
        g2.same_state(&g0),
{
    let r = loc.row as int;
    let c = loc.col as int;
    assert(g1.cell_spec(r, c).cell_type is Flagged);
    assert(g2.cell_spec(r, c) == g0.cell_spec(r, c));
    assert forall|rr: int, cc: int| g0.in_bounds(rr, cc) implies #[trigger] g0.cell_spec(rr, cc)
        == g2.cell_spec(rr, cc) by {
        if rr != r || cc != c {
            assert(g1.cell_spec(rr, cc) == g0.cell_spec(rr, cc));
            assert(g2.cell_spec(rr, cc) == g1.cell_spec(rr, cc));
        }
    }
}

} // verus!
