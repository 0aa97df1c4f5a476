//! The evaluation of a whole grid, one observation at a time.
//!
//! An evaluation walks the grid with a sweep and follows the orbit of the
//! cell under the cursor with a probe. The caller computes the orbit: it
//! starts a new one whenever the evaluation is at the start of a cell, moves
//! it on by one update otherwise, and reports whether the point it reached is
//! beyond the escape radius. The evaluation decides when an orbit is done,
//! which count its cell gets, and which cell comes next.

use vstd::prelude::*;
use crate::escape::{
    escape_time, exceeds_at, is_settled, lemma_escape_time_is_cap, lemma_escape_time_monotone,
    lemma_escaped_orbit_ignores_cap, lemma_settled_escape_time_stays, EscapeProbe,
};
use crate::field::{bounded_by, partial_after, rows_after, EscapeField};
use crate::sweep::FieldSweep;

verus! {

/// A row of `width` zeros.
pub open spec fn zero_row(width: nat) -> Seq<usize> {
    Seq::new(width, |c: int| 0usize)
}

/// A grid of `height` rows of `width` zeros.
pub open spec fn zero_grid(width: nat, height: nat) -> Seq<Seq<usize>> {
    Seq::new(height, |r: int| zero_row(width))
}

/// A row of `width` orbits of which nothing was observed.
pub open spec fn unobserved_row(width: nat) -> Seq<Seq<bool>> {
    Seq::new(width, |c: int| Seq::<bool>::empty())
}

/// A grid of `height` rows of `width` orbits of which nothing was observed.
pub open spec fn unobserved_grid(width: nat, height: nat) -> Seq<Seq<Seq<bool>>> {
    Seq::new(height, |r: int| unobserved_row(width))
}

/// Each count of `counts` is the escape time under `cap` that the
/// observations at the same place of `orbits` settle.
pub open spec fn row_counts_orbits(counts: Seq<usize>, orbits: Seq<Seq<bool>>, cap: nat) -> bool {
    &&& orbits.len() == counts.len()
    &&& forall|c: int|
        0 <= c < counts.len() ==> is_settled(#[trigger] orbits[c], cap) && counts[c]
            == escape_time(orbits[c], cap)
}

/// Each count of `grid` is the escape time under `cap` that the observations
/// at the same place of `orbits` settle.
pub open spec fn grid_counts_orbits(
    grid: Seq<Seq<usize>>,
    orbits: Seq<Seq<Seq<bool>>>,
    cap: nat,
) -> bool {
    &&& orbits.len() == grid.len()
    &&& forall|r: int|
        0 <= r < grid.len() ==> row_counts_orbits(grid[r], #[trigger] orbits[r], cap)
}

/// Two grids of counts over the same orbits, the second under a cap at least
/// as high: no cell of the second holds less than the same cell of the first,
/// and a cell whose orbit escaped under the lower cap holds the same in both.
pub proof fn lemma_higher_cap_reveals_more_of_grid(
    low: Seq<Seq<usize>>,
    low_seen: Seq<Seq<Seq<bool>>>,
    low_cap: nat,
    high: Seq<Seq<usize>>,
    high_seen: Seq<Seq<Seq<bool>>>,
    high_cap: nat,
    orbits: Seq<Seq<Seq<bool>>>,
    r: int,
    c: int,
)
    requires
        grid_counts_orbits(low, low_seen, low_cap),
        grid_counts_orbits(high, high_seen, high_cap),
        low_cap <= high_cap,
        0 <= r < low.len(),
        0 <= r < high.len(),
        0 <= c < low[r].len(),
        0 <= c < high[r].len(),
        low_seen[r][c].is_prefix_of(orbits[r][c]),
        high_seen[r][c].is_prefix_of(orbits[r][c]),
    ensures
        low[r][c] <= high[r][c],
        low[r][c] < low_cap ==> high[r][c] == low[r][c],
{
    let orbit = orbits[r][c];
    assert(row_counts_orbits(low[r], low_seen[r], low_cap));
    assert(row_counts_orbits(high[r], high_seen[r], high_cap));
    assert(is_settled(low_seen[r][c], low_cap));
    assert(is_settled(high_seen[r][c], high_cap));
    lemma_settled_escape_time_stays(low_seen[r][c], orbit, low_cap);
    lemma_settled_escape_time_stays(high_seen[r][c], orbit, high_cap);
    lemma_escape_time_monotone(orbit, low_cap, high_cap);
    if escape_time(orbit, low_cap) < low_cap {
        lemma_escaped_orbit_ignores_cap(orbit, low_cap, high_cap);
    }
}

/// In a grid of counts, a cell holds the cap exactly when no observation of
/// its orbit exceeded.
pub proof fn lemma_cell_at_cap_never_escaped(
    grid: Seq<Seq<usize>>,
    seen: Seq<Seq<Seq<bool>>>,
    cap: nat,
    r: int,
    c: int,
)
    requires
        grid_counts_orbits(grid, seen, cap),
        0 <= r < grid.len(),
        0 <= c < grid[r].len(),
    ensures
        grid[r][c] == cap <==> forall|i: int| 0 <= i < cap ==> !exceeds_at(seen[r][c], i),
{
    assert(row_counts_orbits(grid[r], seen[r], cap));
    assert(is_settled(seen[r][c], cap));
    lemma_escape_time_is_cap(seen[r][c], cap);
}

/// An escape field in the making, together with the orbit of the cell that
/// is being probed.
pub struct Evaluation {
    cap: usize,
    sweep: FieldSweep,
    probe: EscapeProbe,
    seen_rows: Ghost<Seq<Seq<Seq<bool>>>>,
    seen_partial: Ghost<Seq<Seq<bool>>>,
}

impl Evaluation {
    /// The cap on the observations of each orbit, and so on each count.
    pub closed spec fn cap(&self) -> nat {
        self.cap as nat
    }

    /// The number of cells in each row of the field.
    pub closed spec fn width(&self) -> nat {
        self.sweep.width()
    }

    /// The number of rows of the field.
    pub closed spec fn height(&self) -> nat {
        self.sweep.height()
    }

    /// The rows that are complete, from the top.
    pub closed spec fn filled(&self) -> Seq<Seq<usize>> {
        self.sweep.filled()
    }

    /// The counts recorded so far of the row in progress, from the left.
    pub closed spec fn partial(&self) -> Seq<usize> {
        self.sweep.partial()
    }

    /// The observations taken so far of the orbit of the cell under the
    /// cursor.
    pub closed spec fn observations(&self) -> Seq<bool> {
        self.probe.observations()
    }

    /// For each cell of the complete rows, the observations that were taken
    /// of its orbit.
    pub closed spec fn filled_orbits(&self) -> Seq<Seq<Seq<bool>>> {
        self.seen_rows@
    }

    /// For each cell recorded so far of the row in progress, the observations
    /// that were taken of its orbit.
    pub closed spec fn partial_orbits(&self) -> Seq<Seq<bool>> {
        self.seen_partial@
    }

    /// The evaluation's invariant: that of its sweep; an orbit in progress
    /// is one that still waits for an observation; and every count is the
    /// escape time that the observations of its cell settled.
    pub closed spec fn wf(&self) -> bool {
        &&& self.sweep.wf()
        &&& self.probe.wf()
        &&& self.sweep.cap() == self.cap
        &&& self.probe.cap() == self.cap
        &&& self.sweep.cursor() is Some ==> self.probe.pending()
        &&& self.sweep.cursor() is None ==> self.probe.observations() == Seq::<bool>::empty()
        &&& grid_counts_orbits(self.sweep.filled(), self.seen_rows@, self.sweep.cap())
        &&& row_counts_orbits(self.sweep.partial(), self.seen_partial@, self.sweep.cap())
    }

    /// The cell whose orbit waits for an observation, as row and column, or
    /// `None` once every cell has its count.
    pub open spec fn cursor(&self) -> Option<(usize, usize)> {
        if self.filled().len() < self.height() {
            Some((self.filled().len() as usize, self.partial().len() as usize))
        } else {
            None
        }
    }

    /// Whether the observation `exceeds`, taken after `self.observations()`,
    /// ends the orbit in progress: it does where it exceeds or uses up the
    /// cap.
    pub open spec fn ends_orbit(&self, exceeds: bool) -> bool {
        exceeds || self.observations().len() + 1 == self.cap()
    }

    /// The count that the cell under the cursor gets where the observation
    /// `exceeds` ends its orbit.
    pub open spec fn count_with(&self, exceeds: bool) -> usize {
        escape_time(self.observations().push(exceeds), self.cap()) as usize
    }

    /// An evaluation of `height` rows of `width` cells under `cap`, at the
    /// start of the orbit of the first cell. Under a cap of zero no orbit is
    /// ever observed: every cell has the count zero from the start.
    pub fn begin(cap: usize, width: usize, height: usize) -> (evaluation: Self)
        ensures
            evaluation.wf(),
            evaluation.cap() == cap,
            evaluation.width() == width,
            evaluation.height() == height,
            evaluation.observations() == Seq::<bool>::empty(),
            evaluation.partial() == Seq::<usize>::empty(),
            evaluation.partial_orbits() == Seq::<Seq<bool>>::empty(),
            cap == 0 || width == 0 ==> evaluation.filled() == zero_grid(
                width as nat,
                height as nat,
            ) && evaluation.filled_orbits() == unobserved_grid(width as nat, height as nat),
            cap > 0 && width > 0 ==> evaluation.filled() == Seq::<Seq<usize>>::empty()
                && evaluation.filled_orbits() == Seq::<Seq<Seq<bool>>>::empty(),
    {
        let mut sweep = FieldSweep::new(cap, width, height);
        let probe = EscapeProbe::new(cap);
        if cap == 0 && width > 0 {
            while sweep.next_cell().is_some()
                invariant
                    sweep.wf(),
                    sweep.cap() == 0,
                    sweep.width() == width,
                    sweep.height() == height,
                    width > 0,
                    sweep.filled() == zero_grid(width as nat, sweep.filled().len()),
                    sweep.partial() == zero_row(sweep.partial().len()),
                decreases height * width - sweep.visited(),
            {
                let ghost before = sweep;
                proof {
                    sweep.lemma_done_when_all_visited();
                }
                let accepted = sweep.record(0);
                proof {
                    assert(accepted);
                    sweep.lemma_done_when_all_visited();
                    let row = before.partial().push(0usize);
                    assert(row =~= zero_row(row.len()));
                    if before.partial().len() + 1 == width {
                        assert(sweep.filled() =~= zero_grid(width as nat, sweep.filled().len()));
                        assert(sweep.partial() =~= zero_row(0));
                    }
                }
            }
            proof {
                assert(sweep.partial() =~= Seq::<usize>::empty());
            }
        } else {
            proof {
                if width == 0 {
                    assert(sweep.filled() =~~= zero_grid(width as nat, height as nat));
                }
            }
        }
        let ghost rows = sweep.filled().len();
        let evaluation = Evaluation {
            cap,
            sweep,
            probe,
            seen_rows: Ghost(unobserved_grid(width as nat, rows)),
            seen_partial: Ghost(Seq::empty()),
        };
        proof {
            assert(escape_time(Seq::<bool>::empty(), 0) == 0);
            if cap > 0 && width > 0 {
                assert(evaluation.filled_orbits() =~= Seq::<Seq<Seq<bool>>>::empty());
            }
        }
        evaluation
    }

    /// The cell whose orbit waits for an observation, or `None` once the
    /// field is full.
    pub fn current_cell(&self) -> (cell: Option<(usize, usize)>)
        requires
            self.wf(),
        ensures
            cell == self.cursor(),
    {
        self.sweep.next_cell()
    }

    /// Whether the next observation is the first of its orbit: the caller is
    /// to start the orbit of the cell under the cursor, where there is one,
    /// and not to move an orbit on.
    pub fn at_orbit_start(&self) -> (start: bool)
        requires
            self.wf(),
        ensures
            start == (self.observations().len() == 0),
    {
        self.probe.is_fresh()
    }

    /// Takes the next observation of the orbit in progress. Where it ends
    /// the orbit, the cell under the cursor gets its count and the cursor
    /// moves on to the start of the next orbit. Once the field is full an
    /// observation changes nothing.
    pub fn observe(&mut self, exceeds: bool)
        requires
            old(self).wf(),
        ensures
            final(self).wf(),
            final(self).cap() == old(self).cap(),
            final(self).width() == old(self).width(),
            final(self).height() == old(self).height(),
            old(self).cursor() is None ==> {
                &&& final(self).observations() == old(self).observations()
                &&& final(self).filled() == old(self).filled()
                &&& final(self).partial() == old(self).partial()
                &&& final(self).filled_orbits() == old(self).filled_orbits()
                &&& final(self).partial_orbits() == old(self).partial_orbits()
            },
            old(self).cursor() is Some && !old(self).ends_orbit(exceeds) ==> {
                &&& final(self).observations() == old(self).observations().push(exceeds)
                &&& final(self).filled() == old(self).filled()
                &&& final(self).partial() == old(self).partial()
                &&& final(self).filled_orbits() == old(self).filled_orbits()
                &&& final(self).partial_orbits() == old(self).partial_orbits()
            },
            old(self).cursor() is Some && old(self).ends_orbit(exceeds) ==> {
                &&& final(self).observations() == Seq::<bool>::empty()
                &&& final(self).filled() == rows_after(
                    old(self).filled(),
                    old(self).partial(),
                    old(self).width(),
                    old(self).count_with(exceeds),
                )
                &&& final(self).partial() == partial_after(
                    old(self).partial(),
                    old(self).width(),
                    old(self).count_with(exceeds),
                )
                &&& final(self).filled_orbits() == rows_after(
                    old(self).filled_orbits(),
                    old(self).partial_orbits(),
                    old(self).width(),
                    old(self).observations().push(exceeds),
                )
                &&& final(self).partial_orbits() == partial_after(
                    old(self).partial_orbits(),
                    old(self).width(),
                    old(self).observations().push(exceeds),
                )
            },
    {
        if self.sweep.next_cell().is_none() {
            return ;
        }
        self.probe.observe(exceeds);
        let ghost seen = old(self).observations().push(exceeds);
        proof {
            let earlier = old(self).observations();
            assert(self.probe.observations() == seen);
            if exceeds {
                assert(exceeds_at(seen, earlier.len() as int));
            } else {
                assert forall|i: int| !exceeds_at(seen, i) by {
                    assert(!exceeds_at(earlier, i));
                }
            }
        }
        if let Some(count) = self.probe.outcome() {
            let accepted = self.sweep.record(count);
            assert(accepted);
            self.probe = EscapeProbe::new(self.cap);
            proof {
                let width = self.sweep.width();
                let row = old(self).seen_partial@.push(seen);
                self.seen_rows@ = rows_after(
                    old(self).seen_rows@,
                    old(self).seen_partial@,
                    width,
                    seen,
                );
                self.seen_partial@ = partial_after(old(self).seen_partial@, width, seen);
                let counts = old(self).sweep.partial().push(count);
                let cap = self.sweep.cap();
                assert forall|c: int| 0 <= c < counts.len() implies is_settled(
                    #[trigger] row[c],
                    cap,
                ) && counts[c] == escape_time(row[c], cap) by {
                    if c < old(self).seen_partial@.len() {
                        assert(row[c] == old(self).seen_partial@[c]);
                    }
                }
                assert(row_counts_orbits(counts, row, cap));
            }
        }
    }

    /// The finished field, once every cell has its count: each cell holds the
    /// escape time that the observations of its orbit settled.
    pub fn finish(self) -> (field: Option<EscapeField>)
        requires
            self.wf(),
        ensures
            field is Some <==> self.cursor() is None,
            field matches Some(f) ==> {
                &&& f.wf()
                &&& f.spec_width() == self.width()
                &&& f.spec_height() == self.height()
                &&& f@ == self.filled()
                &&& bounded_by(f@, self.cap())
                &&& grid_counts_orbits(f@, self.filled_orbits(), self.cap())
            },
    {
        self.sweep.finish()
    }
}

} // verus!
