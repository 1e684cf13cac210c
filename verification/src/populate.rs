//! Mine population: one-time random placement of mines, excluding the
//! first-clicked cell, followed by the opening cascade reveal.
//!
//! Placement is rejection sampling over a uniform source: locations are
//! drawn until one is found that is neither the first click nor already a
//! mine. The randomness is injected (a seeded generator or one drawn from
//! the operating system), so behavior is reproducible under test.

use vstd::prelude::*;

use rand::Rng;
use rand::SeedableRng;
use rand_chacha::ChaCha20Rng;

use crate::grid::{Grid, GridLoc, MinesAmt};

verus! {

broadcast use vstd::set::group_set_axioms;

/// Declares rand_chacha's `ChaCha20Rng` so verified code can carry a
/// generator through; the generator itself stays opaque.
#[verifier::external_type_specification]
#[verifier::external_body]
pub struct ExChaCha20Rng(ChaCha20Rng);

/// Relies on rand's `SeedableRng::seed_from_u64` for `ChaCha20Rng`: builds a
/// generator from a 64-bit seed.
#[verifier::external_body]
fn rng_from_seed(seed: u64) -> ChaCha20Rng {
    ChaCha20Rng::seed_from_u64(seed)
}

/// Relies on rand's `random`: draws a seed from the thread-local generator.
#[verifier::external_body]
fn entropy_seed() -> u64 {
    rand::random()
}

/// Relies on rand's `Rng::random_range`: a value drawn uniformly from
/// `0..n`; the call panics on an empty range, so `n` must be positive.
#[verifier::external_body]
fn draw_index(rng: &mut ChaCha20Rng, n: usize) -> (r: usize)
    requires
        n > 0,
    ensures
        r < n,
{
    rng.random_range(0..n)
}

/// The set of cells that rejection sampling has accepted after working
/// through `draws` in order, placing at most `mines` mines: a draw is
/// accepted when it is on the grid, is not the first-clicked cell, and was
/// not accepted before.
pub open spec fn placed_after(g: Grid, loc: GridLoc, mines: int, draws: Seq<GridLoc>) -> Set<
    GridLoc,
>
    decreases draws.len(),
{
    if draws.len() == 0 {
        Set::empty()
    } else {
        let s = placed_after(g, loc, mines, draws.drop_last());
        let d = draws.last();
        if s.len() < mines && g.loc_in_bounds(d) && d != loc && !s.contains(d) {
            s.insert(d)
        } else {
            s
        }
    }
}

/// The accepted set is finite and never larger than the requested mine
/// count.
pub proof fn lemma_placed_after_bounds(g: Grid, loc: GridLoc, mines: int, draws: Seq<GridLoc>)
    requires
        0 <= mines,
    ensures
        placed_after(g, loc, mines, draws).finite(),
        placed_after(g, loc, mines, draws).len() <= mines,
    decreases draws.len(),
{
    if draws.len() > 0 {
        lemma_placed_after_bounds(g, loc, mines, draws.drop_last());
    }
}

impl Grid {
    /// Places a mine at `d` if the draw is acceptable: on the grid, not the
    /// first-clicked cell, and not already a mine. Reports whether a mine
    /// was placed.
    fn try_place_mine(&mut self, first: GridLoc, d: GridLoc) -> (placed: bool)
        requires
            old(self).wf(),
            old(self).is_populated(),
        ensures
            final (self).wf(),
            final (self).same_size(old(self)),
            final (self).is_populated(),
            placed == (old(self).loc_in_bounds(d) && d != first && !old(self).loc_mine(d)),
            !placed ==> final (self).same_state(old(self)),
            placed ==> {
                &&& final (self).cell_spec(d.row as int, d.col as int) == (crate::cell::Cell {
                    is_mine: true,
                    ..old(self).cell_spec(d.row as int, d.col as int)
                })
                &&& forall|rr: int, cc: int|
                    old(self).in_bounds(rr, cc) && (rr != d.row as int || cc != d.col as int)
                        ==> #[trigger] final (self).cell_spec(rr, cc) == old(self).cell_spec(
                        rr,
                        cc,
                    )
                &&& final (self).count_mines_spec() == old(self).count_mines_spec() + 1
            },
    {
        let rows = self.rows();
        let cols = self.cols();
        if d.row < rows && d.col < cols && !(d.row == first.row && d.col == first.col)
            && !self.cell_at(d.row, d.col).is_mine {
            let ghost pre = *self;
            self.place_mine(d.row, d.col);
            proof {
                self.lemma_mines_count_update(&pre, d.row as int, d.col as int);
            }
            true
        } else {
            false
        }
    }
}


/// A draw set that is already full absorbs every later draw.
pub proof fn lemma_placed_after_saturated(
    g: Grid,
    loc: GridLoc,
    mines: int,
    draws: Seq<GridLoc>,
    i: int,
)
    requires
        0 <= i <= draws.len(),
        placed_after(g, loc, mines, draws.subrange(0, i)).len() >= mines,
    ensures
        placed_after(g, loc, mines, draws) == placed_after(g, loc, mines, draws.subrange(0, i)),
    decreases draws.len() - i,
{
    if i < draws.len() {
        assert(draws.subrange(0, i + 1).drop_last() =~= draws.subrange(0, i));
        assert(placed_after(g, loc, mines, draws.subrange(0, i + 1)) == placed_after(
            g,
            loc,
            mines,
            draws.subrange(0, i),
        ));
        lemma_placed_after_saturated(g, loc, mines, draws, i + 1);
        assert(draws.subrange(0, draws.len() as int) =~= draws);
    } else {
        assert(draws.subrange(0, draws.len() as int) =~= draws);
    }
}

/// Every accepted cell is on the grid and is not the first-clicked cell.
pub proof fn lemma_placed_after_members(
    g: Grid,
    loc: GridLoc,
    mines: int,
    draws: Seq<GridLoc>,
    q: GridLoc,
)
    requires
        placed_after(g, loc, mines, draws).contains(q),
    ensures
        g.loc_in_bounds(q),
        q != loc,
    decreases draws.len(),
{
    if draws.len() > 0 {
        let s = placed_after(g, loc, mines, draws.drop_last());
        if s.contains(q) {
            lemma_placed_after_members(g, loc, mines, draws.drop_last(), q);
        }
    }
}

impl Grid {
    /// Populates the grid from an explicit sequence of drawn locations,
    /// then performs the opening cascade from `loc` when every requested
    /// mine found a place. Draws are worked through in order and rejected
    /// exactly as rejection sampling over a random source would reject
    /// them, so a caller can lay out a known board for a test fixture.
    ///
    /// Reports whether all `mines` mines were placed; when the draws run
    /// out first, the grid keeps the mines placed so far and no cell is
    /// revealed.
    pub fn populate_mines_from_draws(
        &mut self,
        loc: GridLoc,
        mines: MinesAmt,
        draws: &Vec<GridLoc>,
    ) -> (done: bool)
        requires
            old(self).wf(),
            !old(self).is_populated(),
            old(self).loc_in_bounds(loc),
        ensures
            final (self).wf(),
            final (self).same_size(old(self)),
            final (self).is_populated(),
            !final (self).loc_mine(loc),
            forall|q: GridLoc|
                old(self).loc_in_bounds(q) ==> #[trigger] final (self).loc_mine(q)
                    == placed_after(*old(self), loc, mines as int, draws@).contains(q),
            final (self).count_mines_spec() == placed_after(
                *old(self),
                loc,
                mines as int,
                draws@,
            ).len(),
            done == (placed_after(*old(self), loc, mines as int, draws@).len() == mines),
            forall|r: int, c: int|
                old(self).in_bounds(r, c) ==> {
                    let a = old(self).cell_spec(r, c);
                    let b = #[trigger] final (self).cell_spec(r, c);
                    &&& b.highlight == a.highlight
                    &&& (b.cell_type == a.cell_type || (a.cell_type is Hidden
                        && b.cell_type is Revealed))
                },
            done && old(self).kind_at(loc) is Hidden ==> final (self).kind_at(loc) is Revealed,
            !done ==> forall|r: int, c: int|
                old(self).in_bounds(r, c) ==> #[trigger] final (self).cell_spec(
                    r,
                    c,
                ).cell_type == old(self).cell_spec(r, c).cell_type,
    {
        let ghost g0 = *old(self);
        self.mark_populated();
        let ghost gp = *self;
        let mut placed: usize = 0;
        let mut i: usize = 0;
        proof {
            lemma_placed_after_bounds(g0, loc, mines as int, draws@.subrange(0, 0));
            assert(draws@.subrange(0, 0) =~= Seq::<GridLoc>::empty());
            g0.lemma_unpopulated_mine_free();
            assert forall|r: int, c: int| self.in_bounds(r, c) implies #[trigger] self.mine(r, c)
                == g0.mine(r, c) by {
                assert(self.cell_spec(r, c) == g0.cell_spec(r, c));
            }
            self.lemma_mines_count_congruent(&g0);
            assert forall|q: GridLoc| g0.loc_in_bounds(q) implies #[trigger] self.loc_mine(q)
                == placed_after(g0, loc, mines as int, draws@.subrange(0, 0)).contains(q) by {
                assert(!g0.loc_mine(q));
                assert(self.mine(q.row as int, q.col as int) == g0.mine(q.row as int, q.col as int));
            }
        }
        while i < draws.len() && placed < mines
            invariant
                self.wf(),
                g0.wf(),
                self.same_size(&g0),
                self.is_populated(),
                g0.loc_in_bounds(loc),
                i <= draws@.len(),
                placed <= mines,
                placed == placed_after(g0, loc, mines as int, draws@.subrange(0, i as int)).len(),
                placed_after(g0, loc, mines as int, draws@.subrange(0, i as int)).finite(),
                self.count_mines_spec() == placed,
                forall|q: GridLoc|
                    g0.loc_in_bounds(q) ==> #[trigger] self.loc_mine(q) == placed_after(
                        g0,
                        loc,
                        mines as int,
                        draws@.subrange(0, i as int),
                    ).contains(q),
                forall|r: int, c: int|
                    g0.in_bounds(r, c) ==> #[trigger] self.cell_spec(r, c).cell_type
                        == g0.cell_spec(r, c).cell_type,
                forall|r: int, c: int|
                    g0.in_bounds(r, c) ==> #[trigger] self.cell_spec(r, c).highlight
                        == g0.cell_spec(r, c).highlight,
            decreases draws@.len() - i,
        {
            let ghost prev = *self;
            let ghost s_prev = placed_after(g0, loc, mines as int, draws@.subrange(0, i as int));
            let d = draws[i];
            let placed_one = self.try_place_mine(loc, d);
            proof {
                assert(draws@.subrange(0, i + 1).drop_last() =~= draws@.subrange(0, i as int));
                assert(draws@.subrange(0, i + 1).last() == d);
                let s_next = placed_after(g0, loc, mines as int, draws@.subrange(0, i + 1));
                assert(prev.loc_mine(d) == s_prev.contains(d) || !g0.loc_in_bounds(d));
                if placed_one {
                    assert(s_next == s_prev.insert(d));
                    assert(s_next.len() == s_prev.len() + 1);
                } else {
                    assert(s_next == s_prev);
                    assert forall|r: int, c: int| self.in_bounds(r, c) implies
                        #[trigger] self.mine(r, c) == prev.mine(r, c) by {
                        assert(self.cell_spec(r, c) == prev.cell_spec(r, c));
                    }
                    self.lemma_mines_count_congruent(&prev);
                }
                assert forall|q: GridLoc| g0.loc_in_bounds(q) implies #[trigger] self.loc_mine(q)
                    == s_next.contains(q) by {
                    assert(prev.loc_mine(q) == s_prev.contains(q));
                    if placed_one {
                        if q == d {
                            assert(self.loc_mine(d));
                        } else {
                            assert(self.cell_spec(q.row as int, q.col as int) == prev.cell_spec(
                                q.row as int,
                                q.col as int,
                            ));
                        }
                    } else {
                        assert(self.cell_spec(q.row as int, q.col as int) == prev.cell_spec(
                            q.row as int,
                            q.col as int,
                        ));
                    }
                }
            }
            if placed_one {
                placed = placed + 1;
            }
            i = i + 1;
        }
        proof {
            let s_i = placed_after(g0, loc, mines as int, draws@.subrange(0, i as int));
            if placed == mines {
                lemma_placed_after_saturated(g0, loc, mines as int, draws@, i as int);
            } else {
                assert(i == draws@.len());
                assert(draws@.subrange(0, i as int) =~= draws@);
            }
            assert(s_i == placed_after(g0, loc, mines as int, draws@));
            if self.loc_mine(loc) {
                lemma_placed_after_members(g0, loc, mines as int, draws@, loc);
            }
        }
        if placed == mines {
            let ghost mid = *self;
            self.cascade_reveal(loc);
            proof {
                assert(self.same_size(&mid));
                assert forall|q: GridLoc| g0.loc_in_bounds(q) implies #[trigger] self.loc_mine(q)
                    == placed_after(g0, loc, mines as int, draws@).contains(q) by {
                    assert(self.cell_spec(q.row as int, q.col as int).is_mine == mid.cell_spec(
                        q.row as int,
                        q.col as int,
                    ).is_mine);
                    assert(mid.loc_mine(q) == placed_after(g0, loc, mines as int, draws@).contains(
                        q,
                    ));
                }
                assert forall|r: int, c: int| mid.in_bounds(r, c) implies #[trigger] self.mine(
                    r,
                    c,
                ) == mid.mine(r, c) by {
                    assert(self.cell_spec(r, c).is_mine == mid.cell_spec(r, c).is_mine);
                }
                self.lemma_mines_count_congruent(&mid);
            }
            true
        } else {
            false
        }
    }
}


impl Grid {
    /// Populates the grid with mines using a caller-supplied generator, so
    /// a seeded run is reproducible, then performs the opening cascade from
    /// `loc` once every mine found a place.
    ///
    /// Placement is rejection sampling: locations are drawn uniformly until
    /// one is acceptable. A mine count of `rows * cols - 1` or more can
    /// never be satisfied; the attempt budget, though astronomically beyond
    /// any satisfiable request, is finite, and the report says whether
    /// every requested mine was placed.
    pub fn populate_mines_with_rng(
        &mut self,
        loc: GridLoc,
        mines: MinesAmt,
        rng: &mut ChaCha20Rng,
    ) -> (done: bool)
        requires
            old(self).wf(),
            !old(self).is_populated(),
            old(self).loc_in_bounds(loc),
        ensures
            final (self).wf(),
            final (self).same_size(old(self)),
            final (self).is_populated(),
            !final (self).loc_mine(loc),
            done == (final (self).count_mines_spec() == mines),
            mines == 0 ==> done,
            final (self).count_mines_spec() <= mines,
            forall|r: int, c: int|
                old(self).in_bounds(r, c) ==> {
                    let a = old(self).cell_spec(r, c);
                    let b = #[trigger] final (self).cell_spec(r, c);
                    &&& b.highlight == a.highlight
                    &&& (b.cell_type == a.cell_type || (a.cell_type is Hidden
                        && b.cell_type is Revealed))
                },
            done && old(self).kind_at(loc) is Hidden ==> final (self).kind_at(loc) is Revealed,
    {
        let ghost g0 = *old(self);
        self.mark_populated();
        proof {
            g0.lemma_unpopulated_mine_free();
            assert forall|r: int, c: int| self.in_bounds(r, c) implies #[trigger] self.mine(r, c)
                == g0.mine(r, c) by {
                assert(self.cell_spec(r, c) == g0.cell_spec(r, c));
            }
            self.lemma_mines_count_congruent(&g0);
        }
        let rows = self.rows();
        let cols = self.cols();
        let mut placed: usize = 0;
        let mut budget: usize = usize::MAX;
        while placed < mines && budget > 0
            invariant
                self.wf(),
                g0.wf(),
                self.same_size(&g0),
                self.is_populated(),
                g0.loc_in_bounds(loc),
                rows == self.rows_spec(),
                cols == self.cols_spec(),
                placed <= mines,
                self.count_mines_spec() == placed,
                !self.loc_mine(loc),
                forall|r: int, c: int|
                    g0.in_bounds(r, c) ==> #[trigger] self.cell_spec(r, c).cell_type
                        == g0.cell_spec(r, c).cell_type,
                forall|r: int, c: int|
                    g0.in_bounds(r, c) ==> #[trigger] self.cell_spec(r, c).highlight
                        == g0.cell_spec(r, c).highlight,
            decreases budget,
        {
            let ghost prev = *self;
            let dr = draw_index(rng, rows);
            let dc = draw_index(rng, cols);
            let d = GridLoc { row: dr, col: dc };
            let placed_one = self.try_place_mine(loc, d);
            proof {
                if placed_one {
                    assert(!self.loc_mine(loc)) by {
                        assert(d != loc);
                        assert(self.cell_spec(loc.row as int, loc.col as int) == prev.cell_spec(
                            loc.row as int,
                            loc.col as int,
                        ));
                    }
                } else {
                    assert forall|r: int, c: int| self.in_bounds(r, c) implies #[trigger] self.mine(
                        r,
                        c,
                    ) == prev.mine(r, c) by {
                        assert(self.cell_spec(r, c) == prev.cell_spec(r, c));
                    }
                    self.lemma_mines_count_congruent(&prev);
                }
            }
            if placed_one {
                placed = placed + 1;
            }
            budget = budget - 1;
        }
        if placed == mines {
            let ghost mid = *self;
            self.cascade_reveal(loc);
            proof {
                assert(!self.loc_mine(loc)) by {
                    assert(self.cell_spec(loc.row as int, loc.col as int).is_mine == mid.cell_spec(
                        loc.row as int,
                        loc.col as int,
                    ).is_mine);
                }
                assert forall|r: int, c: int| mid.in_bounds(r, c) implies #[trigger] self.mine(
                    r,
                    c,
                ) == mid.mine(r, c) by {
                    assert(self.cell_spec(r, c).is_mine == mid.cell_spec(r, c).is_mine);
                }
                self.lemma_mines_count_congruent(&mid);
            }
            true
        } else {
            false
        }
    }

    /// Populates the grid with mines drawn from an entropy-seeded
    /// generator, avoiding the specified location, then performs the
    /// opening cascade from it.
    ///
    /// This ensures the first click is never a mine. Reports whether every
    /// requested mine was placed, as `populate_mines_with_rng` does.
    pub fn populate_mines(&mut self, loc: GridLoc, mines: MinesAmt) -> (done: bool)
        requires
            old(self).wf(),
            !old(self).is_populated(),
            old(self).loc_in_bounds(loc),
        ensures
            final (self).wf(),
            final (self).same_size(old(self)),
            final (self).is_populated(),
            !final (self).loc_mine(loc),
            done == (final (self).count_mines_spec() == mines),
            mines == 0 ==> done,
            final (self).count_mines_spec() <= mines,
            forall|r: int, c: int|
                old(self).in_bounds(r, c) ==> {
                    let a = old(self).cell_spec(r, c);
                    let b = #[trigger] final (self).cell_spec(r, c);
                    &&& b.highlight == a.highlight
                    &&& (b.cell_type == a.cell_type || (a.cell_type is Hidden
                        && b.cell_type is Revealed))
                },
            done && old(self).kind_at(loc) is Hidden ==> final (self).kind_at(loc) is Revealed,
    {
        let mut rng = rng_from_seed(entropy_seed());
        self.populate_mines_with_rng(loc, mines, &mut rng)
    }
}

} // verus!


