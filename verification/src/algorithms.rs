//! The hint solver: a single-step constraint-satisfaction scan over
//! revealed cells that deduces guaranteed-safe or guaranteed-mine hidden
//! cells from flag/mine-count parity.

use vstd::prelude::*;

use crate::cell::CellType;
use crate::grid::{adjacent, Grid, GridLoc};

verus! {

/// The locations in `ns` whose cells are hidden, in order.
pub open spec fn hidden_of(g: Grid, ns: Seq<GridLoc>) -> Seq<GridLoc>
    decreases ns.len(),
{
    if ns.len() == 0 {
        Seq::empty()
    } else {
        hidden_of(g, ns.drop_last()) + if g.kind_at(ns.last()) is Hidden {
            seq![ns.last()]
        } else {
            Seq::empty()
        }
    }
}

/// The hidden neighbors of `loc`, in row-major order.
pub open spec fn hidden_neighbors(g: Grid, loc: GridLoc) -> Seq<GridLoc> {
    hidden_of(g, g.neighbor_seq(loc))
}

/// Every entry of `hidden_of(g, ns)` is an entry of `ns` whose cell is
/// hidden.
proof fn lemma_hidden_of_elems(g: Grid, ns: Seq<GridLoc>, i: int)
    requires
        0 <= i < hidden_of(g, ns).len(),
    ensures
        ns.contains(hidden_of(g, ns)[i]),
        g.kind_at(hidden_of(g, ns)[i]) is Hidden,
    decreases ns.len(),
{
    if ns.len() > 0 {
        let rest = hidden_of(g, ns.drop_last());
        if i < rest.len() {
            lemma_hidden_of_elems(g, ns.drop_last(), i);
            let x = rest[i];
            let k = choose|k: int| 0 <= k < ns.drop_last().len() && ns.drop_last()[k] == x;
            assert(ns[k] == x);
        } else {
            assert(hidden_of(g, ns)[i] == ns.last());
        }
    }
}

/// Whether the deduction rules fire at the revealed cell `(r, c)`: either
/// its flags already account for all its neighboring mines and hidden
/// neighbors remain (all of them safe), or the hidden neighbors are exactly
/// as many as the unflagged mines that remain (all of them mines).
pub open spec fn hint_fires(g: Grid, r: int, c: int) -> bool {
    let loc = GridLoc { row: r as usize, col: c as usize };
    let h = hidden_neighbors(g, loc);
    let nm = g.neighboring_mines(loc);
    let nf = g.neighboring_flags(loc);
    &&& g.in_bounds(r, c)
    &&& g.kind(r, c) is Revealed
    &&& ((nf == nm && h.len() > 0) || (nm > nf && h.len() == nm - nf))
}

/// Everything the hint scan promises of its result: every hint is a hidden
/// on-grid cell; an empty result means no revealed cell yields a deduction;
/// a non-empty result is exactly the hidden neighborhood of the first
/// revealed cell, in row-major order, where a rule fires.
pub open spec fn hints_post(g: Grid, hints: Seq<GridLoc>) -> bool {
    &&& forall|i: int|
        0 <= i < hints.len() ==> g.loc_in_bounds(#[trigger] hints[i]) && g.kind_at(hints[i])
            is Hidden
    &&& (hints.len() == 0 ==> forall|r: int, c: int| !hint_fires(g, r, c))
    &&& (hints.len() > 0 ==> exists|r: int, c: int|
        {
            &&& #[trigger] hint_fires(g, r, c)
            &&& hints == hidden_neighbors(g, GridLoc { row: r as usize, col: c as usize })
            &&& forall|r2: int, c2: int|
                g.in_bounds(r2, c2) && (r2 < r || (r2 == r && c2 < c)) ==> !hint_fires(g, r2, c2)
        })
}

/// Scans revealed cells in row-major order and returns the hidden
/// neighbors of the first one where a deduction rule fires: either all its
/// neighboring mines are already flagged, so its remaining hidden neighbors
/// are certainly safe, or its hidden neighbors are exactly as many as its
/// unflagged mines, so they are certainly all mines. Returns an empty list
/// when no revealed cell yields a deduction.
///
/// The scan stops at the first cell that yields a non-empty result: the
/// hint is a single actionable deduction, not an exhaustive solve.
pub fn generate_brute_force_hints(grid: &Grid) -> (hints: Vec<GridLoc>)
    requires
        grid.wf(),
    ensures
        hints_post(*grid, hints@),
{
    let rows = grid.rows();
    let cols = grid.cols();
    let mut r: usize = 0;
    while r < rows
        invariant
            grid.wf(),
            rows == grid.rows_spec(),
            cols == grid.cols_spec(),
            r <= rows,
            forall|r2: int, c2: int| r2 < r ==> !hint_fires(*grid, r2, c2),
        decreases rows - r,
    {
        let mut c: usize = 0;
        while c < cols
            invariant
                grid.wf(),
                rows == grid.rows_spec(),
                cols == grid.cols_spec(),
                r < rows,
                c <= cols,
                forall|r2: int, c2: int| r2 < r ==> !hint_fires(*grid, r2, c2),
                forall|c2: int| c2 < c ==> !hint_fires(*grid, r as int, c2),
            decreases cols - c,
        {
            let loc = GridLoc { row: r, col: c };
            let cell = grid.get(r, c).unwrap();
            if matches!(cell.cell_type, CellType::Revealed) {
                let nbrs = grid.neighbors(loc);
                let mut hidden: Vec<GridLoc> = Vec::new();
                let mut k: usize = 0;
                while k < nbrs.len()
                    invariant
                        grid.wf(),
                        nbrs@ == grid.neighbor_seq(loc),
                        grid.loc_in_bounds(loc),
                        k <= nbrs@.len(),
                        hidden@ == hidden_of(*grid, nbrs@.subrange(0, k as int)),
                    decreases nbrs@.len() - k,
                {
                    let n = nbrs[k];
                    proof {
                        grid.lemma_neighbor_seq_at(loc, k as int);
                        assert(nbrs@.subrange(0, k + 1).drop_last() =~= nbrs@.subrange(
                            0,
                            k as int,
                        ));
                        assert(nbrs@.subrange(0, k + 1).last() == n);
                    }
                    if matches!(grid.get(n.row, n.col).unwrap().cell_type, CellType::Hidden) {
                        hidden.push(n);
                    }
                    k = k + 1;
                }
                proof {
                    assert(nbrs@.subrange(0, nbrs@.len() as int) =~= nbrs@);
                    assert(hidden@ == hidden_neighbors(*grid, loc));
                }
                let nm = grid.count_neighboring_mines(loc);
                let nf = grid.count_neighboring_flags(loc);
                let safe_rule = nf == nm && hidden.len() > 0;
                let mine_rule = nm > nf && hidden.len() == (nm - nf) as usize;
                if safe_rule || mine_rule {
                    proof {
                        assert(hint_fires(*grid, r as int, c as int));
                        assert forall|i: int| 0 <= i < hidden@.len() implies grid.loc_in_bounds(
                            #[trigger] hidden@[i],
                        ) && grid.kind_at(hidden@[i]) is Hidden by {
                            lemma_hidden_of_elems(*grid, nbrs@, i);
                            let x = hidden@[i];
                            let k2 = choose|k2: int| 0 <= k2 < nbrs@.len() && nbrs@[k2] == x;
                            grid.lemma_neighbor_seq_at(loc, k2);
                        }
                        assert(hidden@.len() > 0);
                    }
                    return hidden;
                }
                proof {
                    assert(!hint_fires(*grid, r as int, c as int));
                }
            } else {
                proof {
                    assert(!hint_fires(*grid, r as int, c as int));
                }
            }
            c = c + 1;
        }
        proof {
            assert forall|r2: int, c2: int| r2 < r + 1 implies !hint_fires(*grid, r2, c2) by {
                if r2 == r as int {
                    if grid.in_bounds(r2, c2) {
                        assert(!hint_fires(*grid, r as int, c2));
                    }
                }
            }
        }
        r = r + 1;
    }
    proof {
        assert forall|r2: int, c2: int| !hint_fires(*grid, r2, c2) by {
            if grid.in_bounds(r2, c2) {
                assert(r2 < rows);
            }
        }
    }
    Vec::new()
}


/// Filtering for hidden cells distributes over concatenation.
proof fn lemma_hidden_of_concat(g: Grid, a: Seq<GridLoc>, b: Seq<GridLoc>)
    ensures
        hidden_of(g, a + b) == hidden_of(g, a) + hidden_of(g, b),
    decreases b.len(),
{
    if b.len() == 0 {
        assert(a + b =~= a);
        assert(hidden_of(g, a) + b =~= hidden_of(g, a));
    } else {
        lemma_hidden_of_concat(g, a, b.drop_last());
        assert((a + b).drop_last() =~= a + b.drop_last());
        assert((a + b).last() == b.last());
        if g.kind_at(b.last()) is Hidden {
            assert(hidden_of(g, a) + hidden_of(g, b) =~= hidden_of(g, a) + hidden_of(
                g,
                b.drop_last(),
            ) + seq![b.last()]);
        } else {
            assert(hidden_of(g, a) + hidden_of(g, b) =~= hidden_of(g, a) + hidden_of(
                g,
                b.drop_last(),
            ));
        }
    }
}

/// The hidden cells among a one-slot neighbor candidate: one when the slot
/// is on the grid and hidden, none otherwise.
proof fn lemma_hidden_of_slot(g: Grid, r: int, c: int)
    requires
        g.wf(),
    ensures
        hidden_of(g, g.opt_nbr(r, c)).len() == g.hidden_ind(r, c),
{
    g.lemma_dims_bounded();
    if g.in_bounds(r, c) {
        let x = GridLoc { row: r as usize, col: c as usize };
        assert(x.row as int == r && x.col as int == c);
        assert(g.opt_nbr(r, c) =~= seq![x]);
        assert(g.opt_nbr(r, c).drop_last() =~= Seq::<GridLoc>::empty());
        assert(hidden_of(g, Seq::<GridLoc>::empty()).len() == 0);
        assert(hidden_of(g, g.opt_nbr(r, c)) == hidden_of(g, Seq::<GridLoc>::empty()) + (
        if g.kind_at(x) is Hidden {
            seq![x]
        } else {
            Seq::<GridLoc>::empty()
        }));
    } else {
        assert(g.opt_nbr(r, c).len() == 0);
    }
}

/// A cell has as many hidden neighbors in the list as in the count.
pub proof fn lemma_hidden_neighbors_len(g: Grid, loc: GridLoc)
    requires
        g.wf(),
        g.loc_in_bounds(loc),
    ensures
        hidden_neighbors(g, loc).len() == g.neighboring_hidden(loc),
{
    let r = loc.row as int;
    let c = loc.col as int;
    let s1 = g.opt_nbr(r - 1, c - 1);
    let s2 = g.opt_nbr(r - 1, c);
    let s3 = g.opt_nbr(r - 1, c + 1);
    let s4 = g.opt_nbr(r, c - 1);
    let s5 = g.opt_nbr(r, c + 1);
    let s6 = g.opt_nbr(r + 1, c - 1);
    let s7 = g.opt_nbr(r + 1, c);
    let s8 = g.opt_nbr(r + 1, c + 1);
    lemma_hidden_of_concat(g, s1, s2);
    lemma_hidden_of_concat(g, s1 + s2, s3);
    lemma_hidden_of_concat(g, s1 + s2 + s3, s4);
    lemma_hidden_of_concat(g, s1 + s2 + s3 + s4, s5);
    lemma_hidden_of_concat(g, s1 + s2 + s3 + s4 + s5, s6);
    lemma_hidden_of_concat(g, s1 + s2 + s3 + s4 + s5 + s6, s7);
    lemma_hidden_of_concat(g, s1 + s2 + s3 + s4 + s5 + s6 + s7, s8);
    lemma_hidden_of_slot(g, r - 1, c - 1);
    lemma_hidden_of_slot(g, r - 1, c);
    lemma_hidden_of_slot(g, r - 1, c + 1);
    lemma_hidden_of_slot(g, r, c - 1);
    lemma_hidden_of_slot(g, r, c + 1);
    lemma_hidden_of_slot(g, r + 1, c - 1);
    lemma_hidden_of_slot(g, r + 1, c);
    lemma_hidden_of_slot(g, r + 1, c + 1);
}

/// Whether every flag on the grid sits on a mine: the player has flagged
/// correctly so far.
pub open spec fn flags_correct(g: Grid) -> bool {
    forall|r: int, c: int|
        g.in_bounds(r, c) && #[trigger] g.kind(r, c) is Flagged ==> g.mine(r, c)
}

/// Whether no revealed cell holds a mine: true of every board until the
/// game is lost.
pub open spec fn no_revealed_mine(g: Grid) -> bool {
    forall|r: int, c: int|
        g.in_bounds(r, c) && #[trigger] g.kind(r, c) is Revealed ==> !g.mine(r, c)
}

/// Soundness of the safe-cells rule: around a cell whose flags already
/// account for all its neighboring mines, if every flag on the grid sits on
/// a mine, then every hidden neighbor is free of mines.
pub proof fn lemma_safe_rule_sound(g: Grid, loc: GridLoc, q: GridLoc)
    requires
        g.wf(),
        flags_correct(g),
        g.loc_in_bounds(loc),
        g.neighboring_flags(loc) == g.neighboring_mines(loc),
        g.loc_in_bounds(q),
        adjacent(loc, q),
        g.kind_at(q) is Hidden,
    ensures
        !g.loc_mine(q),
{
    let r = loc.row as int;
    let c = loc.col as int;
    assert(g.flag_ind(r - 1, c - 1) <= g.mine_ind(r - 1, c - 1));
    assert(g.flag_ind(r - 1, c) <= g.mine_ind(r - 1, c));
    assert(g.flag_ind(r - 1, c + 1) <= g.mine_ind(r - 1, c + 1));
    assert(g.flag_ind(r, c - 1) <= g.mine_ind(r, c - 1));
    assert(g.flag_ind(r, c + 1) <= g.mine_ind(r, c + 1));
    assert(g.flag_ind(r + 1, c - 1) <= g.mine_ind(r + 1, c - 1));
    assert(g.flag_ind(r + 1, c) <= g.mine_ind(r + 1, c));
    assert(g.flag_ind(r + 1, c + 1) <= g.mine_ind(r + 1, c + 1));
    let qr = q.row as int;
    let qc = q.col as int;
    assert(g.flag_ind(qr, qc) == 0);
    assert(g.mine_ind(qr, qc) == g.flag_ind(qr, qc));
}

/// Soundness of the mine-cells rule: around a cell whose hidden neighbors
/// are exactly as many as its unflagged mines, if every flag on the grid
/// sits on a mine and no revealed cell holds one, then every hidden
/// neighbor holds a mine.
pub proof fn lemma_mine_rule_sound(g: Grid, loc: GridLoc, q: GridLoc)
    requires
        g.wf(),
        flags_correct(g),
        no_revealed_mine(g),
        g.loc_in_bounds(loc),
        g.neighboring_mines(loc) > g.neighboring_flags(loc),
        hidden_neighbors(g, loc).len() == g.neighboring_mines(loc) - g.neighboring_flags(loc),
        g.loc_in_bounds(q),
        adjacent(loc, q),
        g.kind_at(q) is Hidden,
    ensures
        g.loc_mine(q),
{
    lemma_hidden_neighbors_len(g, loc);
    let r = loc.row as int;
    let c = loc.col as int;
    assert(g.flag_ind(r - 1, c - 1) <= g.mine_ind(r - 1, c - 1));
    assert(g.flag_ind(r - 1, c) <= g.mine_ind(r - 1, c));
    assert(g.flag_ind(r - 1, c + 1) <= g.mine_ind(r - 1, c + 1));
    assert(g.flag_ind(r, c - 1) <= g.mine_ind(r, c - 1));
    assert(g.flag_ind(r, c + 1) <= g.mine_ind(r, c + 1));
    assert(g.flag_ind(r + 1, c - 1) <= g.mine_ind(r + 1, c - 1));
    assert(g.flag_ind(r + 1, c) <= g.mine_ind(r + 1, c));
    assert(g.flag_ind(r + 1, c + 1) <= g.mine_ind(r + 1, c + 1));
    assert(g.mine_ind(r - 1, c - 1) <= g.flag_ind(r - 1, c - 1) + g.hidden_ind(r - 1, c - 1));
    assert(g.mine_ind(r - 1, c) <= g.flag_ind(r - 1, c) + g.hidden_ind(r - 1, c));
    assert(g.mine_ind(r - 1, c + 1) <= g.flag_ind(r - 1, c + 1) + g.hidden_ind(r - 1, c + 1));
    assert(g.mine_ind(r, c - 1) <= g.flag_ind(r, c - 1) + g.hidden_ind(r, c - 1));
    assert(g.mine_ind(r, c + 1) <= g.flag_ind(r, c + 1) + g.hidden_ind(r, c + 1));
    assert(g.mine_ind(r + 1, c - 1) <= g.flag_ind(r + 1, c - 1) + g.hidden_ind(r + 1, c - 1));
    assert(g.mine_ind(r + 1, c) <= g.flag_ind(r + 1, c) + g.hidden_ind(r + 1, c));
    assert(g.mine_ind(r + 1, c + 1) <= g.flag_ind(r + 1, c + 1) + g.hidden_ind(r + 1, c + 1));
    let qr = q.row as int;
    let qc = q.col as int;
    assert(g.hidden_ind(qr, qc) == 1);
    assert(g.flag_ind(qr, qc) == 0);
    assert(g.mine_ind(qr, qc) == g.flag_ind(qr, qc) + g.hidden_ind(qr, qc));
}


/// Soundness of the returned hints as a whole: when the player's flags are
/// correct and no mine has been revealed, a non-empty hint list is
/// homogeneous and true to the layout — the safe-cells rule produced only
/// mine-free cells, the mine-cells rule produced only mines.
pub proof fn lemma_hints_sound(g: Grid, hints: Seq<GridLoc>)
    requires
        g.wf(),
        hints_post(g, hints),
        hints.len() > 0,
        flags_correct(g),
        no_revealed_mine(g),
    ensures
        exists|r: int, c: int|
            {
                let lc = GridLoc { row: r as usize, col: c as usize };
                &&& #[trigger] hint_fires(g, r, c)
                &&& (g.neighboring_flags(lc) == g.neighboring_mines(lc) ==> forall|i: int|
                    0 <= i < hints.len() ==> !g.loc_mine(#[trigger] hints[i]))
                &&& (g.neighboring_mines(lc) > g.neighboring_flags(lc) ==> forall|i: int|
                    0 <= i < hints.len() ==> g.loc_mine(#[trigger] hints[i]))
            },
{
    let (r, c) = choose|r: int, c: int|
        {
            &&& #[trigger] hint_fires(g, r, c)
            &&& hints == hidden_neighbors(g, GridLoc { row: r as usize, col: c as usize })
            &&& forall|r2: int, c2: int|
                g.in_bounds(r2, c2) && (r2 < r || (r2 == r && c2 < c)) ==> !hint_fires(g, r2, c2)
        };
    let lc = GridLoc { row: r as usize, col: c as usize };
    g.lemma_dims_bounded();
    assert(g.loc_in_bounds(lc));
    let ns = g.neighbor_seq(lc);
    assert forall|i: int| 0 <= i < hints.len() implies g.loc_in_bounds(#[trigger] hints[i])
        && adjacent(lc, hints[i]) && g.kind_at(hints[i]) is Hidden by {
        lemma_hidden_of_elems(g, ns, i);
        let k = choose|k: int| 0 <= k < ns.len() && ns[k] == hints[i];
        g.lemma_neighbor_seq_at(lc, k);
    }
    if g.neighboring_flags(lc) == g.neighboring_mines(lc) {
        assert forall|i: int| 0 <= i < hints.len() implies !g.loc_mine(#[trigger] hints[i]) by {
            lemma_safe_rule_sound(g, lc, hints[i]);
        }
    } else {
        assert(g.neighboring_mines(lc) > g.neighboring_flags(lc));
        assert(hidden_neighbors(g, lc).len() == g.neighboring_mines(lc) - g.neighboring_flags(
            lc,
        ));
        assert forall|i: int| 0 <= i < hints.len() implies g.loc_mine(#[trigger] hints[i]) by {
            lemma_mine_rule_sound(g, lc, hints[i]);
        }
    }
}

} // verus!


