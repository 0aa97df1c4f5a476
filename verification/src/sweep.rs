//! The sweep over a grid that fills an escape field.
//!
//! The sweep decides which cell is probed next and where its count goes. The
//! caller probes that cell and hands the count back, until the sweep names no
//! further cell.

use vstd::prelude::*;
use crate::field::{
    bounded_by, is_rectangular, partial_after, row_bounded_by, rows_after, rows_view, EscapeField,
};

verus! {

/// An escape field in the making: the rows that are complete, and the cells
/// of the row in progress. Cells are visited row by row from the top, and
/// from left to right within a row.
pub struct FieldSweep {
    cap: usize,
    width: usize,
    height: usize,
    done: Vec<Vec<usize>>,
    row: Vec<usize>,
}

impl FieldSweep {
    /// The highest count that a cell may hold.
    pub closed spec fn cap(&self) -> nat {
        self.cap as nat
    }

    /// The number of cells in each row of the field.
    pub closed spec fn width(&self) -> nat {
        self.width as nat
    }

    /// The number of rows of the field.
    pub closed spec fn height(&self) -> nat {
        self.height as nat
    }

    /// The rows that are complete, from the top.
    pub closed spec fn filled(&self) -> Seq<Seq<usize>> {
        rows_view(self.done@)
    }

    /// The cells recorded so far of the row in progress, from the left.
    pub closed spec fn partial(&self) -> Seq<usize> {
        self.row@
    }

    /// The sweep's invariant: the complete rows are rows of the field, the
    /// row in progress is short of one, and no count is above the cap.
    pub open spec fn wf(&self) -> bool {
        &&& self.filled().len() <= self.height()
        &&& is_rectangular(self.filled(), self.width())
        &&& bounded_by(self.filled(), self.cap())
        &&& row_bounded_by(self.partial(), self.cap())
        &&& if self.filled().len() < self.height() {
            self.partial().len() < self.width()
        } else {
            self.partial().len() == 0
        }
    }

    /// The cell that is to be probed next, as row and column, or `None` once
    /// every cell has its count.
    pub open spec fn cursor(&self) -> Option<(usize, usize)> {
        if self.filled().len() < self.height() {
            Some((self.filled().len() as usize, self.partial().len() as usize))
        } else {
            None
        }
    }

    /// The number of cells that have their count.
    pub open spec fn visited(&self) -> nat {
        self.filled().len() * self.width() + self.partial().len()
    }

    /// A sweep over `height` rows of `width` cells with no count recorded.
    /// A grid without columns has nothing to probe: its rows are complete
    /// from the start.
    pub fn new(cap: usize, width: usize, height: usize) -> (sweep: Self)
        ensures
            sweep.wf(),
            sweep.cap() == cap,
            sweep.width() == width,
            sweep.height() == height,
            sweep.partial() == Seq::<usize>::empty(),
            width > 0 ==> sweep.filled() == Seq::<Seq<usize>>::empty(),
            width == 0 ==> sweep.filled() == Seq::new(
                height as nat,
                |r: int| Seq::<usize>::empty(),
            ),
    {
        let mut done: Vec<Vec<usize>> = Vec::new();
        if width == 0 {
            while done.len() < height
                invariant
                    done.len() <= height,
                    forall|r: int| 0 <= r < done.len() ==> (#[trigger] done@[r])@ == Seq::<
                        usize,
                    >::empty(),
                decreases height - done.len(),
            {
                done.push(Vec::new());
            }
        }
        let sweep = FieldSweep { cap, width, height, done, row: Vec::new() };
        proof {
            if width == 0 {
                assert(sweep.filled() =~= Seq::new(height as nat, |r: int| Seq::<usize>::empty()));
            } else {
                assert(sweep.filled() =~= Seq::<Seq<usize>>::empty());
            }
        }
        sweep
    }

    /// The cell that is to be probed next, or `None` once the field is full.
    pub fn next_cell(&self) -> (cell: Option<(usize, usize)>)
        requires
            self.wf(),
        ensures
            cell == self.cursor(),
    {
        if self.done.len() < self.height {
            Some((self.done.len(), self.row.len()))
        } else {
            None
        }
    }

    /// Records `count` for the cell under the cursor and moves the cursor on.
    /// The count is refused, and nothing changes, where the field is full
    /// already or the count is above the cap.
    pub fn record(&mut self, count: usize) -> (accepted: bool)
        requires
            old(self).wf(),
        ensures
            final(self).wf(),
            final(self).cap() == old(self).cap(),
            final(self).width() == old(self).width(),
            final(self).height() == old(self).height(),
            accepted <==> old(self).cursor() is Some && count <= old(self).cap(),
            !accepted ==> final(self).filled() == old(self).filled(),
            !accepted ==> final(self).partial() == old(self).partial(),
            accepted ==> final(self).filled() == rows_after(
                old(self).filled(),
                old(self).partial(),
                old(self).width(),
                count,
            ),
            accepted ==> final(self).partial() == partial_after(
                old(self).partial(),
                old(self).width(),
                count,
            ),
            accepted ==> final(self).visited() == old(self).visited() + 1,
    {
        if self.done.len() >= self.height || count > self.cap {
            return false;
        }
        self.row.push(count);
        if self.row.len() == self.width {
            let mut full: Vec<usize> = Vec::new();
            core::mem::swap(&mut self.row, &mut full);
            self.done.push(full);
            proof {
                assert(self.filled() =~= old(self).filled().push(
                    old(self).partial().push(count),
                ));
                let rows = old(self).filled().len();
                let w = self.width();
                assert((rows + 1) * w == rows * w + w) by (nonlinear_arith);
            }
        }
        true
    }

    /// A sweep has visited every cell of its grid exactly when it names no
    /// further cell.
    pub proof fn lemma_done_when_all_visited(&self)
        requires
            self.wf(),
        ensures
            self.visited() <= self.height() * self.width(),
            self.cursor() is None <==> self.visited() == self.height() * self.width(),
    {
        let rows = self.filled().len();
        let w = self.width();
        let h = self.height();
        if rows < h {
            assert(rows * w + w <= h * w) by (nonlinear_arith)
                requires
                    rows < h,
            ;
        }
    }

    /// The finished field, once every cell has its count.
    pub fn finish(self) -> (field: Option<EscapeField>)
        requires
            self.wf(),
        ensures
            field is Some <==> self.cursor() is None,
            field matches Some(f) ==> {
                &&& f.wf()
                &&& f.spec_width() == self.width()
                &&& f.spec_height() == self.height()
                &&& f@ == self.filled()
                &&& bounded_by(f@, self.cap())
            },
    {
        if self.done.len() < self.height {
            None
        } else {
            Some(EscapeField::from_rectangle(self.width, self.done))
        }
    }
}

} // verus!
