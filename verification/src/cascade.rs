//! Cascade (flood-fill) reveal and chord reveal.
//!
//! Cascade reveal is implemented with an explicit work queue rather than
//! recursion, so a single user action completes in time proportional to the
//! grid size and never overflows the call stack on large empty regions.

use vstd::prelude::*;

use crate::cell::CellType;
use crate::grid::{adjacent, CellChordResult, CellRevealResult, Grid, GridLoc};

verus! {

/// The cell at `p` was hidden before the operation and is revealed after it.
pub open spec fn newly_revealed(pre: Grid, post: Grid, p: GridLoc) -> bool {
    pre.kind_at(p) is Hidden && post.kind_at(p) is Revealed
}

/// Frame of a reveal operation: dimensions, population flag, mines, and
/// highlight marks are kept; flags stay in place; the only state change a
/// cell can make is from hidden to revealed.
pub open spec fn reveal_frame(pre: Grid, post: Grid) -> bool {
    &&& post.same_size(&pre)
    &&& post.is_populated() == pre.is_populated()
    &&& forall|r: int, c: int|
        pre.in_bounds(r, c) ==> {
            let a = pre.cell_spec(r, c);
            let b = #[trigger] post.cell_spec(r, c);
            &&& b.is_mine == a.is_mine
            &&& b.highlight == a.highlight
            &&& (b.cell_type == a.cell_type || (a.cell_type is Hidden
                && b.cell_type is Revealed))
        }
}

/// Completeness of a cascade: around every newly revealed cell with no
/// neighboring mines, the whole neighborhood ends up revealed or flagged.
pub open spec fn cascade_expanded(pre: Grid, post: Grid) -> bool {
    forall|p: GridLoc, q: GridLoc|
        #![trigger newly_revealed(pre, post, p), adjacent(p, q)]
        pre.loc_in_bounds(p) && newly_revealed(pre, post, p) && pre.neighboring_mines(p) == 0
            && pre.loc_in_bounds(q) && adjacent(p, q) ==> (post.kind_at(q) is Revealed
            || post.kind_at(q) is Flagged)
}

/// No mine cell other than possibly `loc` changes its interaction state.
pub open spec fn mines_unrevealed_except(pre: Grid, post: Grid, loc: GridLoc) -> bool {
    forall|q: GridLoc|
        pre.loc_in_bounds(q) && pre.loc_mine(q) && q != loc ==> #[trigger] post.kind_at(q)
            == pre.kind_at(q)
}

/// Whether `path` is a chain of expansion steps from `loc` to `q`: every
/// entry of `path` is a cell that is hidden, mine-free, and has no
/// neighboring mines, each entry is adjacent to the next, and the last is
/// adjacent to `q`. These are exactly the cells a cascade reveal expands
/// through.
pub open spec fn expansion_path(g: Grid, loc: GridLoc, path: Seq<GridLoc>, q: GridLoc) -> bool
    decreases path.len(),
{
    if path.len() == 0 {
        q == loc
    } else {
        let w = path.last();
        &&& g.loc_in_bounds(w)
        &&& g.kind_at(w) is Hidden
        &&& !g.loc_mine(w)
        &&& g.neighboring_mines(w) == 0
        &&& adjacent(w, q)
        &&& expansion_path(g, loc, path.drop_last(), w)
    }
}

/// Whether a cascade reveal starting at `loc` can expand to `q`.
pub open spec fn reachable(g: Grid, loc: GridLoc, q: GridLoc) -> bool {
    exists|path: Seq<GridLoc>| #[trigger] expansion_path(g, loc, path, q)
}

/// Soundness of a cascade: every cell that the operation revealed can be
/// reached from the starting cell along expansion steps.
pub open spec fn cascade_within_reach(pre: Grid, post: Grid, loc: GridLoc) -> bool {
    forall|q: GridLoc|
        pre.loc_in_bounds(q) && #[trigger] newly_revealed(pre, post, q) ==> reachable(
            pre,
            loc,
            q,
        )
}

/// One more expansion step out of a reachable expansion cell stays
/// reachable.
proof fn lemma_reach_step(g: Grid, loc: GridLoc, p: GridLoc, q: GridLoc)
    requires
        reachable(g, loc, p),
        g.loc_in_bounds(p),
        g.kind_at(p) is Hidden,
        !g.loc_mine(p),
        g.neighboring_mines(p) == 0,
        adjacent(p, q),
    ensures
        reachable(g, loc, q),
{
    let path = choose|path: Seq<GridLoc>| #[trigger] expansion_path(g, loc, path, p);
    let longer = path.push(p);
    assert(longer.drop_last() =~= path);
    assert(expansion_path(g, loc, longer, q));
}

/// What holds of the work queue and the partly revealed grid between any
/// two iterations of the flood fill: every queued location is an on-grid,
/// reachable non-mine, everything revealed so far is reachable, and the
/// neighborhood of every newly revealed mine-free cell is accounted for.
pub open spec fn flood_inv(g0: Grid, cur: Grid, stack: Seq<GridLoc>, loc: GridLoc) -> bool {
    &&& cur.wf()
    &&& g0.wf()
    &&& g0.loc_in_bounds(loc)
    &&& g0.kind_at(loc) is Hidden
    &&& !g0.loc_mine(loc)
    &&& reveal_frame(g0, cur)
    &&& newly_revealed(g0, cur, loc)
    &&& mines_unrevealed_except(g0, cur, loc)
    &&& forall|i: int|
        0 <= i < stack.len() ==> g0.loc_in_bounds(#[trigger] stack[i]) && !g0.loc_mine(stack[i])
    &&& forall|i: int| 0 <= i < stack.len() ==> reachable(g0, loc, #[trigger] stack[i])
    &&& cascade_within_reach(g0, cur, loc)
    &&& forall|p: GridLoc, q: GridLoc|
        #![trigger newly_revealed(g0, cur, p), adjacent(p, q)]
        g0.loc_in_bounds(p) && newly_revealed(g0, cur, p) && g0.neighboring_mines(p) == 0
            && g0.loc_in_bounds(q) && adjacent(p, q) ==> (cur.kind_at(q) is Revealed
            || cur.kind_at(q) is Flagged || stack.contains(q))
}

/// The cell at `cur`'s position `p` is `prev`'s cell revealed; everything
/// else is untouched.
pub open spec fn one_cell_revealed(prev: Grid, cur: Grid, p: GridLoc) -> bool {
    &&& cur.same_size(&prev)
    &&& cur.is_populated() == prev.is_populated()
    &&& cur.cell_spec(p.row as int, p.col as int) == (crate::cell::Cell {
        cell_type: CellType::Revealed,
        ..prev.cell_spec(p.row as int, p.col as int)
    })
    &&& forall|rr: int, cc: int|
        prev.in_bounds(rr, cc) && (rr != p.row as int || cc != p.col as int)
            ==> #[trigger] cur.cell_spec(rr, cc) == prev.cell_spec(rr, cc)
}

/// Popping a cell that is already revealed or flagged keeps the flood-fill
/// invariant.
proof fn lemma_flood_skip(g0: Grid, cur: Grid, stack: Seq<GridLoc>, loc: GridLoc)
    requires
        flood_inv(g0, cur, stack, loc),
        stack.len() > 0,
        cur.kind_at(stack.last()) is Revealed || cur.kind_at(stack.last()) is Flagged,
    ensures
        flood_inv(g0, cur, stack.drop_last(), loc),
{
    let rest = stack.drop_last();
    assert forall|i: int| 0 <= i < rest.len() implies g0.loc_in_bounds(#[trigger] rest[i])
        && !g0.loc_mine(rest[i]) by {
        assert(rest[i] == stack[i]);
    }
    assert forall|i: int| 0 <= i < rest.len() implies reachable(g0, loc, #[trigger] rest[i]) by {
        assert(rest[i] == stack[i]);
    }
    assert forall|p: GridLoc, q: GridLoc|
        #![trigger newly_revealed(g0, cur, p), adjacent(p, q)]
        g0.loc_in_bounds(p) && newly_revealed(g0, cur, p) && g0.neighboring_mines(p) == 0
            && g0.loc_in_bounds(q) && adjacent(p, q) implies (cur.kind_at(q) is Revealed
        || cur.kind_at(q) is Flagged || rest.contains(q)) by {
        if !(cur.kind_at(q) is Revealed) && !(cur.kind_at(q) is Flagged) {
            assert(stack.contains(q));
            let j = choose|j: int| 0 <= j < stack.len() && stack[j] == q;
            if j < stack.len() - 1 {
                assert(rest[j] == q);
            } else {
                assert(q == stack.last());
            }
        }
    }
}

/// After the starting cell itself is revealed and, when it is free of
/// neighboring mines, its neighbors are queued, the flood-fill invariant
/// holds.
proof fn lemma_flood_init(g0: Grid, cur: Grid, stack: Seq<GridLoc>, loc: GridLoc)
    requires
        g0.wf(),
        cur.wf(),
        g0.loc_in_bounds(loc),
        g0.kind_at(loc) is Hidden,
        !g0.loc_mine(loc),
        one_cell_revealed(g0, cur, loc),
        g0.neighboring_mines(loc) == 0 ==> stack == g0.neighbor_seq(loc),
        g0.neighboring_mines(loc) != 0 ==> stack == Seq::<GridLoc>::empty(),
    ensures
        flood_inv(g0, cur, stack, loc),
{
    g0.lemma_neighbor_seq(loc);
    assert(newly_revealed(g0, cur, loc));
    assert(expansion_path(g0, loc, Seq::<GridLoc>::empty(), loc));
    assert(reachable(g0, loc, loc));
    assert(reveal_frame(g0, cur)) by {
        assert forall|r: int, c: int| g0.in_bounds(r, c) implies {
            let a = g0.cell_spec(r, c);
            let b = #[trigger] cur.cell_spec(r, c);
            &&& b.is_mine == a.is_mine
            &&& b.highlight == a.highlight
            &&& (b.cell_type == a.cell_type || (a.cell_type is Hidden
                && b.cell_type is Revealed))
        } by {
            if r != loc.row as int || c != loc.col as int {
                assert(cur.cell_spec(r, c) == g0.cell_spec(r, c));
            } else {
                assert(cur.cell_spec(r, c).cell_type is Revealed);
                assert(cur.cell_spec(r, c).is_mine == g0.cell_spec(r, c).is_mine);
                assert(cur.cell_spec(r, c).highlight == g0.cell_spec(r, c).highlight);
            }
        }
    }
    assert(mines_unrevealed_except(g0, cur, loc)) by {
        assert forall|q: GridLoc|
            g0.loc_in_bounds(q) && g0.loc_mine(q) && q != loc implies #[trigger] cur.kind_at(q)
            == g0.kind_at(q) by {
            assert(cur.cell_spec(q.row as int, q.col as int) == g0.cell_spec(
                q.row as int,
                q.col as int,
            ));
        }
    }
    assert forall|i: int| 0 <= i < stack.len() implies g0.loc_in_bounds(#[trigger] stack[i])
        && !g0.loc_mine(stack[i]) by {
        g0.lemma_neighbor_seq_at(loc, i);
        g0.lemma_zero_neighboring_mines(loc, stack[i]);
    }
    assert forall|i: int| 0 <= i < stack.len() implies reachable(g0, loc, #[trigger] stack[i]) by {
        g0.lemma_neighbor_seq_at(loc, i);
        lemma_reach_step(g0, loc, loc, stack[i]);
    }
    assert forall|q: GridLoc|
        g0.loc_in_bounds(q) && #[trigger] newly_revealed(g0, cur, q) implies reachable(
        g0,
        loc,
        q,
    ) by {
        if q != loc {
            assert(cur.cell_spec(q.row as int, q.col as int) == g0.cell_spec(
                q.row as int,
                q.col as int,
            ));
        }
    }
    assert forall|pp: GridLoc, q: GridLoc|
        #![trigger newly_revealed(g0, cur, pp), adjacent(pp, q)]
        g0.loc_in_bounds(pp) && newly_revealed(g0, cur, pp) && g0.neighboring_mines(pp) == 0
            && g0.loc_in_bounds(q) && adjacent(pp, q) implies (cur.kind_at(q) is Revealed
        || cur.kind_at(q) is Flagged || stack.contains(q)) by {
        if pp == loc {
            assert(g0.neighbor_seq(loc).contains(q));
        } else {
            assert(cur.cell_spec(pp.row as int, pp.col as int) == g0.cell_spec(
                pp.row as int,
                pp.col as int,
            ));
        }
    }
}

/// Revealing the popped hidden cell keeps the flood-fill invariant, with
/// its neighbors appended to the queue when its neighboring-mine count is
/// zero and the queue unchanged otherwise.
#[verifier::rlimit(100)]
proof fn lemma_flood_reveal(
    g0: Grid,
    prev: Grid,
    cur: Grid,
    stack: Seq<GridLoc>,
    new_stack: Seq<GridLoc>,
    loc: GridLoc,
)
    requires
        cur.wf(),
        flood_inv(g0, prev, stack, loc),
        stack.len() > 0,
        prev.kind_at(stack.last()) is Hidden,
        one_cell_revealed(prev, cur, stack.last()),
        g0.neighboring_mines(stack.last()) == 0 ==> new_stack == stack.drop_last()
            + g0.neighbor_seq(stack.last()),
        g0.neighboring_mines(stack.last()) != 0 ==> new_stack == stack.drop_last(),
    ensures
        flood_inv(g0, cur, new_stack, loc),
{
    let p = stack.last();
    let rest = stack.drop_last();
    assert(g0.loc_in_bounds(p) && !g0.loc_mine(p));
    assert(g0.kind_at(p) is Hidden) by {
        assert(prev.cell_spec(p.row as int, p.col as int).cell_type is Hidden);
    }
    assert(newly_revealed(g0, cur, p));
    assert(reachable(g0, loc, p)) by {
        let i = stack.len() - 1;
        assert(reachable(g0, loc, stack[i]));
    }
    assert(reveal_frame(g0, cur)) by {
        assert forall|r: int, c: int| g0.in_bounds(r, c) implies {
            let a = g0.cell_spec(r, c);
            let b = #[trigger] cur.cell_spec(r, c);
            &&& b.is_mine == a.is_mine
            &&& b.highlight == a.highlight
            &&& (b.cell_type == a.cell_type || (a.cell_type is Hidden
                && b.cell_type is Revealed))
        } by {
            assert(prev.in_bounds(r, c));
            let mid = prev.cell_spec(r, c);
            if r != p.row as int || c != p.col as int {
                assert(cur.cell_spec(r, c) == mid);
            } else {
                assert(cur.cell_spec(r, c).cell_type is Revealed);
                assert(cur.cell_spec(r, c).is_mine == mid.is_mine);
                assert(cur.cell_spec(r, c).highlight == mid.highlight);
            }
        }
    }
    assert(newly_revealed(g0, cur, loc)) by {
        if loc != p {
            assert(cur.cell_spec(loc.row as int, loc.col as int) == prev.cell_spec(
                loc.row as int,
                loc.col as int,
            ));
        }
    }
    assert(mines_unrevealed_except(g0, cur, loc)) by {
        assert forall|q: GridLoc|
            g0.loc_in_bounds(q) && g0.loc_mine(q) && q != loc implies #[trigger] cur.kind_at(q)
            == g0.kind_at(q) by {
            assert(q != p);
            assert(cur.cell_spec(q.row as int, q.col as int) == prev.cell_spec(
                q.row as int,
                q.col as int,
            ));
            assert(prev.kind_at(q) == g0.kind_at(q));
        }
    }
    assert forall|q: GridLoc|
        g0.loc_in_bounds(q) && #[trigger] newly_revealed(g0, cur, q) implies reachable(
        g0,
        loc,
        q,
    ) by {
        if q != p {
            assert(cur.cell_spec(q.row as int, q.col as int) == prev.cell_spec(
                q.row as int,
                q.col as int,
            ));
            assert(newly_revealed(g0, prev, q));
        }
    }
    if g0.neighboring_mines(p) == 0 {
        g0.lemma_neighbor_seq(p);
        let ns = g0.neighbor_seq(p);
        assert forall|i: int| 0 <= i < new_stack.len() implies g0.loc_in_bounds(
            #[trigger] new_stack[i],
        ) && !g0.loc_mine(new_stack[i]) by {
            if i < rest.len() {
                assert(new_stack[i] == stack[i]);
            } else {
                let q = new_stack[i];
                assert(q == ns[i - rest.len()]);
                g0.lemma_zero_neighboring_mines(p, q);
            }
        }
        assert forall|i: int| 0 <= i < new_stack.len() implies reachable(
            g0,
            loc,
            #[trigger] new_stack[i],
        ) by {
            if i < rest.len() {
                assert(new_stack[i] == stack[i]);
                assert(reachable(g0, loc, stack[i]));
            } else {
                assert(new_stack[i] == ns[i - rest.len()]);
                assert(adjacent(p, new_stack[i]));
                lemma_reach_step(g0, loc, p, new_stack[i]);
            }
        }
        assert forall|w: GridLoc, q: GridLoc|
            #![trigger newly_revealed(g0, cur, w), adjacent(w, q)]
            g0.loc_in_bounds(w) && newly_revealed(g0, cur, w) && g0.neighboring_mines(w) == 0
                && g0.loc_in_bounds(q) && adjacent(w, q) implies (cur.kind_at(q) is Revealed
            || cur.kind_at(q) is Flagged || new_stack.contains(q)) by {
            if w == p {
                assert(ns.contains(q));
                let j = choose|j: int| 0 <= j < ns.len() && ns[j] == q;
                assert(new_stack[rest.len() + j] == q);
            } else {
                assert(cur.cell_spec(w.row as int, w.col as int) == prev.cell_spec(
                    w.row as int,
                    w.col as int,
                ));
                assert(newly_revealed(g0, prev, w));
                if prev.kind_at(q) is Revealed || prev.kind_at(q) is Flagged {
                    if q != p {
                        assert(cur.cell_spec(q.row as int, q.col as int) == prev.cell_spec(
                            q.row as int,
                            q.col as int,
                        ));
                    }
                } else {
                    assert(stack.contains(q));
                    let j = choose|j: int| 0 <= j < stack.len() && stack[j] == q;
                    if j < stack.len() - 1 {
                        assert(new_stack[j] == q);
                    } else {
                        assert(q == p);
                    }
                }
            }
        }
    } else {
        assert forall|i: int| 0 <= i < new_stack.len() implies g0.loc_in_bounds(
            #[trigger] new_stack[i],
        ) && !g0.loc_mine(new_stack[i]) by {
            assert(new_stack[i] == stack[i]);
        }
        assert forall|i: int| 0 <= i < new_stack.len() implies reachable(
            g0,
            loc,
            #[trigger] new_stack[i],
        ) by {
            assert(new_stack[i] == stack[i]);
            assert(reachable(g0, loc, stack[i]));
        }
        assert forall|w: GridLoc, q: GridLoc|
            #![trigger newly_revealed(g0, cur, w), adjacent(w, q)]
            g0.loc_in_bounds(w) && newly_revealed(g0, cur, w) && g0.neighboring_mines(w) == 0
                && g0.loc_in_bounds(q) && adjacent(w, q) implies (cur.kind_at(q) is Revealed
            || cur.kind_at(q) is Flagged || new_stack.contains(q)) by {
            assert(w != p);
            assert(cur.cell_spec(w.row as int, w.col as int) == prev.cell_spec(
                w.row as int,
                w.col as int,
            ));
            assert(newly_revealed(g0, prev, w));
            if prev.kind_at(q) is Revealed || prev.kind_at(q) is Flagged {
                if q != p {
                    assert(cur.cell_spec(q.row as int, q.col as int) == prev.cell_spec(
                        q.row as int,
                        q.col as int,
                    ));
                }
            } else {
                assert(stack.contains(q));
                let j = choose|j: int| 0 <= j < stack.len() && stack[j] == q;
                if j < stack.len() - 1 {
                    assert(new_stack[j] == q);
                } else {
                    assert(q == p);
                }
            }
        }
    }
}

impl Grid {
    /// Reveals a cell and, when it has no neighboring mines, keeps revealing
    /// outward until the revealed region is bordered by numbered cells.
    ///
    /// This implements the classic minesweeper "flood fill" behavior where
    /// clicking on an empty cell (zero neighboring mines) automatically
    /// reveals all connected empty cells and their borders. A flag protects
    /// its cell from being revealed, and a revealed mine stops the operation
    /// at that single cell.
    ///
    /// Returns `Mine` if a mine was revealed, otherwise `Success` (or the
    /// reason nothing was revealed).
    pub fn cascade_reveal(&mut self, loc: GridLoc) -> (res: CellRevealResult)
        requires
            old(self).wf(),
        ensures
            final (self).wf(),
            reveal_frame(*old(self), *final (self)),
            mines_unrevealed_except(*old(self), *final (self), loc),
            (res == CellRevealResult::OutOfBounds <==> !old(self).loc_in_bounds(loc)),
            !old(self).loc_in_bounds(loc) ==> final (self).same_state(old(self)),
            old(self).loc_in_bounds(loc) && old(self).kind_at(loc) is Flagged ==> res
                == CellRevealResult::Flagged && final (self).same_state(old(self)),
            old(self).loc_in_bounds(loc) && old(self).kind_at(loc) is Revealed ==> res
                == CellRevealResult::AlreadyRevealed && final (self).same_state(old(self)),
            old(self).loc_in_bounds(loc) && old(self).kind_at(loc) is Hidden && old(
                self,
            ).loc_mine(loc) ==> {
                &&& res == CellRevealResult::Mine
                &&& final (self).kind_at(loc) is Revealed
                &&& forall|q: GridLoc|
                    old(self).loc_in_bounds(q) && q != loc ==> #[trigger] final (self).kind_at(q)
                        == old(self).kind_at(q)
            },
            old(self).loc_in_bounds(loc) && old(self).kind_at(loc) is Hidden && !old(
                self,
            ).loc_mine(loc) ==> {
                &&& res == CellRevealResult::Success
                &&& newly_revealed(*old(self), *final (self), loc)
                &&& cascade_expanded(*old(self), *final (self))
                &&& cascade_within_reach(*old(self), *final (self), loc)
            },
    {
        let ghost g0 = *old(self);
        let rows = self.rows();
        let cols = self.cols();
        if loc.row >= rows || loc.col >= cols {
            return CellRevealResult::OutOfBounds;
        }
        let cell = self.cell_at(loc.row, loc.col);
        match cell.cell_type {
            CellType::Revealed => {
                return CellRevealResult::AlreadyRevealed;
            },
            CellType::Flagged => {
                return CellRevealResult::Flagged;
            },
            CellType::Hidden => {},
        }
        self.set_kind(loc.row, loc.col, CellType::Revealed);
        if cell.is_mine {
            return CellRevealResult::Mine;
        }

        let mut stack: Vec<GridLoc> = Vec::new();
        let nm = self.count_neighboring_mines(loc);
        proof {
            self.lemma_neighboring_mines_congruent(&g0, loc);
        }
        if nm == 0 {
            stack = self.neighbors(loc);
            proof {
                assert(self.neighbor_seq(loc) == g0.neighbor_seq(loc));
            }
        }
        proof {
            if g0.neighboring_mines(loc) != 0 {
                assert(stack@ =~= Seq::<GridLoc>::empty());
            }
            lemma_flood_init(g0, *self, stack@, loc);
        }
        while stack.len() > 0
            invariant
                flood_inv(g0, *self, stack@, loc),
            decreases self.count_hidden_spec() * 9 + stack@.len(),
        {
            let ghost prev = *self;
            let ghost prev_stack = stack@;
            let p = stack.pop().unwrap();
            proof {
                assert(p == prev_stack.last());
                self.lemma_hidden_nonneg();
            }
            let cellp = self.cell_at(p.row, p.col);
            if matches!(cellp.cell_type, CellType::Hidden) {
                self.set_kind(p.row, p.col, CellType::Revealed);
                proof {
                    self.lemma_hidden_decrease(&prev, p);
                    self.lemma_hidden_nonneg();
                }
                let nm = self.count_neighboring_mines(p);
                proof {
                    self.lemma_neighboring_mines_congruent(&g0, p);
                }
                if nm == 0 {
                    let nbrs = self.neighbors(p);
                    proof {
                        assert(self.neighbor_seq(p) == g0.neighbor_seq(p));
                    }
                    let ghost base = stack@;
                    let mut k: usize = 0;
                    while k < nbrs.len()
                        invariant
                            k <= nbrs@.len(),
                            stack@ == base + nbrs@.subrange(0, k as int),
                        decreases nbrs@.len() - k,
                    {
                        stack.push(nbrs[k]);
                        proof {
                            assert(stack@ =~= base + nbrs@.subrange(0, k + 1));
                        }
                        k = k + 1;
                    }
                    proof {
                        assert(nbrs@.subrange(0, nbrs@.len() as int) =~= nbrs@);
                        assert(stack@ == prev_stack.drop_last() + g0.neighbor_seq(p));
                        assert(g0.neighbor_seq(p).len() <= 8);
                        lemma_flood_reveal(g0, prev, *self, prev_stack, stack@, loc);
                    }
                } else {
                    proof {
                        lemma_flood_reveal(g0, prev, *self, prev_stack, stack@, loc);
                    }
                }
            } else {
                proof {
                    lemma_flood_skip(g0, *self, prev_stack, loc);
                }
            }
        }
        CellRevealResult::Success
    }
}

/// The neighbors in `ns` that a chord reveal hits: those that hold a mine
/// and are still hidden (an unflagged, unrevealed mine), in order.
pub open spec fn chord_hits(g: Grid, ns: Seq<GridLoc>) -> Seq<GridLoc>
    decreases ns.len(),
{
    if ns.len() == 0 {
        Seq::empty()
    } else {
        chord_hits(g, ns.drop_last()) + if g.kind_at(ns.last()) is Hidden && g.loc_mine(
            ns.last(),
        ) {
            seq![ns.last()]
        } else {
            Seq::empty()
        }
    }
}

/// Every chord hit is one of the neighbors it was computed from.
proof fn lemma_chord_hits_subset(g: Grid, ns: Seq<GridLoc>, x: GridLoc)
    requires
        chord_hits(g, ns).contains(x),
    ensures
        ns.contains(x),
    decreases ns.len(),
{
    if ns.len() > 0 {
        let hs = chord_hits(g, ns);
        let prev = chord_hits(g, ns.drop_last());
        let j = choose|j: int| 0 <= j < hs.len() && hs[j] == x;
        if j < prev.len() {
            lemma_chord_hits_subset(g, ns.drop_last(), x);
            let k = choose|k: int| 0 <= k < ns.drop_last().len() && ns.drop_last()[k] == x;
            assert(ns[k] == x);
        } else {
            assert(x == ns.last());
        }
    }
}

/// The frame of a reveal operation composes.
proof fn lemma_reveal_frame_trans(a: Grid, b: Grid, c: Grid)
    requires
        reveal_frame(a, b),
        reveal_frame(b, c),
    ensures
        reveal_frame(a, c),
{
    assert forall|r: int, cc: int| a.in_bounds(r, cc) implies {
        let x = a.cell_spec(r, cc);
        let z = #[trigger] c.cell_spec(r, cc);
        &&& z.is_mine == x.is_mine
        &&& z.highlight == x.highlight
        &&& (z.cell_type == x.cell_type || (x.cell_type is Hidden && z.cell_type is Revealed))
    } by {
        assert(b.in_bounds(r, cc));
        let y = b.cell_spec(r, cc);
        assert(y.is_mine == a.cell_spec(r, cc).is_mine);
    }
}

impl Grid {
    /// Performs a chord reveal (middle-click behavior) on a revealed cell.
    ///
    /// If the number of adjacent flags matches the cell's neighboring-mine
    /// count, cascade-reveals every neighbor. This is a common speed-play
    /// shortcut. Returns `Mines(locs)` if any mines were hit (game over),
    /// naming exactly the neighbors that were unflagged, unrevealed mines.
    #[verifier::rlimit(100)]
    pub fn chord_reveal(&mut self, loc: GridLoc) -> (res: CellChordResult)
        requires
            old(self).wf(),
        ensures
            final (self).wf(),
            !old(self).loc_in_bounds(loc) ==> res is OutOfBounds && final (self).same_state(
                old(self),
            ),
            old(self).loc_in_bounds(loc) && old(self).kind_at(loc) is Hidden ==> res is Hidden
                && final (self).same_state(old(self)),
            old(self).loc_in_bounds(loc) && old(self).kind_at(loc) is Flagged ==> res is Flagged
                && final (self).same_state(old(self)),
            old(self).loc_in_bounds(loc) && old(self).kind_at(loc) is Revealed && old(
                self,
            ).neighboring_flags(loc) != old(self).neighboring_mines(loc) ==> res
                is InvalidFlagCount && final (self).same_state(old(self)),
            old(self).loc_in_bounds(loc) && old(self).kind_at(loc) is Revealed && old(
                self,
            ).neighboring_flags(loc) == old(self).neighboring_mines(loc) ==> {
                let hits = chord_hits(*old(self), old(self).neighbor_seq(loc));
                &&& reveal_frame(*old(self), *final (self))
                &&& (hits.len() == 0 ==> res is Success)
                &&& (hits.len() > 0 ==> (res matches CellChordResult::Mines(l) && l@ == hits))
                &&& forall|q: GridLoc|
                    old(self).loc_in_bounds(q) && old(self).loc_mine(q) ==> if hits.contains(q) {
                        newly_revealed(*old(self), *final (self), q)
                    } else {
                        #[trigger] final (self).kind_at(q) == old(self).kind_at(q)
                    }
                &&& forall|q: GridLoc|
                    old(self).loc_in_bounds(q) && adjacent(loc, q) && old(self).kind_at(q)
                        is Hidden ==> #[trigger] final (self).kind_at(q) is Revealed
            },
    {
        let ghost g0 = *old(self);
        let rows = self.rows();
        let cols = self.cols();
        if loc.row >= rows || loc.col >= cols {
            return CellChordResult::OutOfBounds;
        }
        let cell = self.cell_at(loc.row, loc.col);
        match cell.cell_type {
            CellType::Hidden => {
                return CellChordResult::Hidden;
            },
            CellType::Flagged => {
                return CellChordResult::Flagged;
            },
            CellType::Revealed => {},
        }
        let nm = self.count_neighboring_mines(loc);
        let nf = self.count_neighboring_flags(loc);
        if nf != nm {
            return CellChordResult::InvalidFlagCount;
        }
        let nbrs = self.neighbors(loc);
        proof {
            self.lemma_neighbor_seq(loc);
            assert forall|a: int, b: int|
                0 <= a < b < nbrs@.len() implies nbrs@[a] != nbrs@[b] by {
                self.lemma_neighbor_seq_distinct(loc, a, b);
            }
        }
        let mut hits: Vec<GridLoc> = Vec::new();
        let mut i: usize = 0;
        while i < nbrs.len()
            invariant
                self.wf(),
                g0.wf(),
                i <= nbrs@.len(),
                g0.loc_in_bounds(loc),
                nbrs@ == g0.neighbor_seq(loc),
                forall|k: int| 0 <= k < nbrs@.len() ==> g0.loc_in_bounds(#[trigger] nbrs@[k]),
                forall|a: int, b: int| 0 <= a < b < nbrs@.len() ==> nbrs@[a] != nbrs@[b],
                reveal_frame(g0, *self),
                forall|k: int|
                    0 <= k < i && g0.kind_at(#[trigger] nbrs@[k]) is Hidden ==> self.kind_at(
                        nbrs@[k],
                    ) is Revealed,
                hits@ == chord_hits(g0, nbrs@.subrange(0, i as int)),
                forall|q: GridLoc|
                    g0.loc_in_bounds(q) && g0.loc_mine(q) ==> if hits@.contains(q) {
                        newly_revealed(g0, *self, q)
                    } else {
                        #[trigger] self.kind_at(q) == g0.kind_at(q)
                    },
            decreases nbrs@.len() - i,
        {
            let ghost prev = *self;
            let ghost prev_hits = hits@;
            let n = nbrs[i];
            proof {
                assert(g0.loc_in_bounds(n));
                assert(self.loc_mine(n) == g0.loc_mine(n)) by {
                    assert(self.cell_spec(n.row as int, n.col as int).is_mine == g0.cell_spec(
                        n.row as int,
                        n.col as int,
                    ).is_mine);
                }
                if g0.loc_mine(n) {
                    assert(!prev_hits.contains(n)) by {
                        if prev_hits.contains(n) {
                            lemma_chord_hits_subset(g0, nbrs@.subrange(0, i as int), n);
                            let k = choose|k: int|
                                0 <= k < i && (#[trigger] nbrs@.subrange(0, i as int)[k]) == n;
                            assert(nbrs@[k] == n);
                        }
                    }
                    assert(self.kind_at(n) == g0.kind_at(n));
                }
            }
            let r = self.cascade_reveal(n);
            if matches!(r, CellRevealResult::Mine) {
                hits.push(n);
            }
            proof {
                lemma_reveal_frame_trans(g0, prev, *self);
                assert(nbrs@.subrange(0, i + 1).drop_last() =~= nbrs@.subrange(0, i as int));
                assert(nbrs@.subrange(0, i + 1).last() == nbrs@[i as int]);
                if g0.kind_at(n) is Hidden && g0.loc_mine(n) {
                    assert(r is Mine);
                    assert(hits@ =~= prev_hits.push(n));
                    assert(hits@ =~= chord_hits(g0, nbrs@.subrange(0, i + 1)));
                } else {
                    assert(!(r is Mine)) by {
                        if g0.loc_mine(n) {
                            assert(prev.kind_at(n) == g0.kind_at(n));
                        } else {
                            assert(!prev.loc_mine(n)) by {
                                assert(prev.cell_spec(n.row as int, n.col as int).is_mine
                                    == g0.cell_spec(n.row as int, n.col as int).is_mine);
                            }
                        }
                    }
                    assert(hits@ =~= chord_hits(g0, nbrs@.subrange(0, i + 1)));
                }
                assert forall|k: int|
                    0 <= k < i + 1 && g0.kind_at(#[trigger] nbrs@[k]) is Hidden
                    implies self.kind_at(nbrs@[k]) is Revealed by {
                    let q = nbrs@[k];
                    if k < i {
                        assert(prev.kind_at(q) is Revealed);
                        assert(self.cell_spec(q.row as int, q.col as int).cell_type
                            == prev.cell_spec(q.row as int, q.col as int).cell_type
                            || prev.cell_spec(q.row as int, q.col as int).cell_type is Hidden);
                    } else {
                        assert(q == n);
                        assert(prev.cell_spec(n.row as int, n.col as int).cell_type
                            == g0.cell_spec(n.row as int, n.col as int).cell_type
                            || g0.cell_spec(n.row as int, n.col as int).cell_type is Hidden);
                        if prev.kind_at(n) is Hidden {
                            assert(self.kind_at(n) is Revealed);
                        } else {
                            assert(prev.kind_at(n) is Revealed);
                            assert(self.cell_spec(n.row as int, n.col as int).cell_type
                                == prev.cell_spec(n.row as int, n.col as int).cell_type
                                || prev.cell_spec(n.row as int, n.col as int).cell_type
                                is Hidden);
                        }
                    }
                }
                assert forall|q: GridLoc|
                    g0.loc_in_bounds(q) && g0.loc_mine(q) implies (if hits@.contains(q) {
                    newly_revealed(g0, *self, q)
                } else {
                    #[trigger] self.kind_at(q) == g0.kind_at(q)
                }) by {
                    assert(prev.loc_mine(q) == g0.loc_mine(q)) by {
                        assert(prev.cell_spec(q.row as int, q.col as int).is_mine == g0.cell_spec(
                            q.row as int,
                            q.col as int,
                        ).is_mine);
                    }
                    if hits@.contains(q) {
                        if prev_hits.contains(q) {
                            assert(newly_revealed(g0, prev, q));
                            assert(self.kind_at(q) is Revealed) by {
                                assert(self.cell_spec(q.row as int, q.col as int).cell_type
                                    == prev.cell_spec(q.row as int, q.col as int).cell_type
                                    || prev.cell_spec(q.row as int, q.col as int).cell_type
                                    is Hidden);
                            }
                        } else {
                            assert(q == n);
                            assert(self.kind_at(n) is Revealed);
                        }
                    } else {
                        assert(!prev_hits.contains(q)) by {
                            if prev_hits.contains(q) {
                                let k = choose|k: int|
                                    0 <= k < prev_hits.len() && prev_hits[k] == q;
                                assert(hits@[k] == q);
                            }
                        }
                        assert(prev.kind_at(q) == g0.kind_at(q));
                        if q == n {
                            if g0.kind_at(n) is Hidden && g0.loc_mine(n) {
                                assert(hits@[prev_hits.len() as int] == n);
                                assert(hits@.contains(n));
                            }
                            assert(!(g0.kind_at(n) is Hidden && g0.loc_mine(n)));
                            assert(self.kind_at(q) == prev.kind_at(q));
                        } else {
                            assert(self.kind_at(q) == prev.kind_at(q));
                        }
                    }
                }
            }
            i = i + 1;
        }
        proof {
            assert(nbrs@.subrange(0, nbrs@.len() as int) =~= nbrs@);
            g0.lemma_neighbor_seq(loc);
            assert forall|q: GridLoc|
                g0.loc_in_bounds(q) && adjacent(loc, q) && g0.kind_at(q) is Hidden
                implies #[trigger] self.kind_at(q) is Revealed by {
                assert(nbrs@.contains(q));
                let k = choose|k: int| 0 <= k < nbrs@.len() && nbrs@[k] == q;
                assert(g0.kind_at(nbrs@[k]) is Hidden);
            }
        }
        if hits.len() == 0 {
            CellChordResult::Success
        } else {
            CellChordResult::Mines(hits)
        }
    }
}

} // verus!
