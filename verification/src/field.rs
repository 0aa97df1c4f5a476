//! The escape field: a grid of escape times, one row after another.

use vstd::prelude::*;

verus! {

/// Every row of `grid` has `width` cells.
pub open spec fn is_rectangular<A>(grid: Seq<Seq<A>>, width: nat) -> bool {
    forall|r: int| 0 <= r < grid.len() ==> (#[trigger] grid[r]).len() == width
}

/// No cell of `row` is above `cap`.
pub open spec fn row_bounded_by(row: Seq<usize>, cap: nat) -> bool {
    forall|c: int| 0 <= c < row.len() ==> #[trigger] row[c] <= cap
}

/// No cell of `grid` is above `cap`.
pub open spec fn bounded_by(grid: Seq<Seq<usize>>, cap: nat) -> bool {
    forall|r: int| 0 <= r < grid.len() ==> row_bounded_by(#[trigger] grid[r], cap)
}

/// The rows of `rows`, each as the sequence of its cells.
pub open spec fn rows_view(rows: Seq<Vec<usize>>) -> Seq<Seq<usize>> {
    Seq::new(rows.len(), |r: int| rows[r]@)
}

/// The complete rows of a grid in the making after `item` has gone to the
/// next free cell: one row more where the item completes the row in progress.
pub open spec fn rows_after<A>(rows: Seq<Seq<A>>, partial: Seq<A>, width: nat, item: A) -> Seq<
    Seq<A>,
> {
    if partial.len() + 1 == width {
        rows.push(partial.push(item))
    } else {
        rows
    }
}

/// The row in progress of a grid in the making after `item` has gone to the
/// next free cell: empty again where the item completes the row.
pub open spec fn partial_after<A>(partial: Seq<A>, width: nat, item: A) -> Seq<A> {
    if partial.len() + 1 == width {
        Seq::empty()
    } else {
        partial.push(item)
    }
}

/// The place of the cell in row `r` and column `c` where a grid of `width`
/// columns is laid out row after row.
pub open spec fn row_major_place(width: nat, r: int, c: int) -> int {
    r * width + c
}

/// Laid out row after row, a rectangle of `width` columns has `width` cells
/// for each of its rows.
pub proof fn lemma_row_major_len<A>(grid: Seq<Seq<A>>, width: nat)
    requires
        is_rectangular(grid, width),
    ensures
        grid.flatten().len() == grid.len() * width,
    decreases grid.len(),
{
    if grid.len() == 0 {
        assert(grid.flatten() =~= Seq::<A>::empty());
        assert(0 * width == 0) by (nonlinear_arith);
    } else {
        let above = grid.drop_last();
        lemma_row_major_len(above, width);
        above.lemma_flatten_push(grid.last());
        assert(above.push(grid.last()) =~= grid);
        assert((grid.len() - 1) * width + width == grid.len() * width) by (nonlinear_arith);
    }
}

/// Laid out row after row, a rectangle of `width` columns has the cell of
/// row `r` and column `c` at its `row_major_place`.
pub proof fn lemma_row_major_index<A>(grid: Seq<Seq<A>>, width: nat, r: int, c: int)
    requires
        is_rectangular(grid, width),
        0 <= r < grid.len(),
        0 <= c < width,
    ensures
        0 <= row_major_place(width, r, c) < grid.flatten().len(),
        grid.flatten()[row_major_place(width, r, c)] == grid[r][c],
    decreases grid.len(),
{
    let above = grid.drop_last();
    lemma_row_major_len(above, width);
    lemma_row_major_len(grid, width);
    above.lemma_flatten_push(grid.last());
    assert(above.push(grid.last()) =~= grid);
    assert(0 <= r * width) by (nonlinear_arith)
        requires
            0 <= r,
    ;
    if r == grid.len() - 1 {
        assert((grid.len() - 1) * width + width == grid.len() * width) by (nonlinear_arith);
    } else {
        assert(r * width + c < (grid.len() - 1) * width) by (nonlinear_arith)
            requires
                0 <= r < grid.len() - 1,
                0 <= c < width,
        ;
        assert((grid.len() - 1) * width <= grid.len() * width) by (nonlinear_arith);
        lemma_row_major_index(above, width, r, c);
    }
}

/// Every place of a rectangle laid out row after row is the place of one
/// cell: that of row `i / width` and column `i % width`.
pub proof fn lemma_row_major_cell<A>(grid: Seq<Seq<A>>, width: nat, i: int)
    requires
        is_rectangular(grid, width),
        0 <= i < grid.flatten().len(),
    ensures
        width > 0,
        0 <= i / (width as int) < grid.len(),
        0 <= i % (width as int) < width,
        grid.flatten()[i] == grid[i / (width as int)][i % (width as int)],
{
    lemma_row_major_len(grid, width);
    if width == 0 {
        assert(grid.len() * 0 == 0) by (nonlinear_arith);
    }
    let w = width as int;
    let r = i / w;
    let c = i % w;
    assert(i == r * w + c && 0 <= c < w && 0 <= r) by (nonlinear_arith)
        requires
            w > 0,
            0 <= i,
            r == i / w,
            c == i % w,
    ;
    assert(r < grid.len()) by (nonlinear_arith)
        requires
            i == r * w + c,
            0 <= c,
            w > 0,
            i < grid.len() * w,
    ;
    lemma_row_major_index(grid, width, r, c);
}

/// A grid of escape times with `height()` rows of `width()` cells each.
pub struct EscapeField {
    width: usize,
    rows: Vec<Vec<usize>>,
}

impl View for EscapeField {
    type V = Seq<Seq<usize>>;

    /// The rows from the top, each from the left.
    closed spec fn view(&self) -> Seq<Seq<usize>> {
        rows_view(self.rows@)
    }
}

impl EscapeField {
    /// The number of cells in each row.
    pub closed spec fn spec_width(&self) -> nat {
        self.width as nat
    }

    /// The number of rows.
    pub open spec fn spec_height(&self) -> nat {
        self@.len()
    }

    /// The field's invariant: it is a rectangle.
    pub open spec fn wf(&self) -> bool {
        is_rectangular(self@, self.spec_width())
    }

    /// The field with the given rows, if each of them has `width` cells.
    pub fn from_rows(width: usize, rows: Vec<Vec<usize>>) -> (field: Option<Self>)
        ensures
            field is Some <==> is_rectangular(rows_view(rows@), width as nat),
            field matches Some(f) ==> f.wf() && f.spec_width() == width && f@ == rows_view(rows@),
    {
        let mut r: usize = 0;
        while r < rows.len()
            invariant
                r <= rows.len(),
                forall|k: int| 0 <= k < r ==> (#[trigger] rows_view(rows@)[k]).len() == width,
            decreases rows.len() - r,
        {
            if rows[r].len() != width {
                assert(rows_view(rows@)[r as int].len() != width);
                return None;
            }
            r = r + 1;
        }
        Some(EscapeField { width, rows })
    }

    /// The field with the given rows, each of which has `width` cells.
    pub(crate) fn from_rectangle(width: usize, rows: Vec<Vec<usize>>) -> (field: Self)
        requires
            is_rectangular(rows_view(rows@), width as nat),
        ensures
            field.wf(),
            field.spec_width() == width,
            field@ == rows_view(rows@),
    {
        EscapeField { width, rows }
    }

    /// The number of cells in each row.
    pub fn width(&self) -> (w: usize)
        ensures
            w == self.spec_width(),
    {
        self.width
    }

    /// The number of rows.
    pub fn height(&self) -> (h: usize)
        ensures
            h == self.spec_height(),
    {
        self.rows.len()
    }

    /// The escape time at row `row`, column `col`, if there is such a cell.
    pub fn get(&self, row: usize, col: usize) -> (count: Option<usize>)
        ensures
            count == if row < self@.len() && col < self@[row as int].len() {
                Some(self@[row as int][col as int])
            } else {
                None
            },
    {
        if row < self.rows.len() {
            if col < self.rows[row].len() {
                return Some(self.rows[row][col]);
            }
        }
        None
    }

    /// The number of cells in row `row`.
    pub(crate) fn row_len(&self, row: usize) -> (len: usize)
        requires
            row < self@.len(),
        ensures
            len == self@[row as int].len(),
    {
        self.rows[row].len()
    }

    /// The escape time at row `row`, column `col`.
    pub fn cell(&self, row: usize, col: usize) -> (count: usize)
        requires
            row < self@.len(),
            col < self@[row as int].len(),
        ensures
            count == self@[row as int][col as int],
    {
        self.rows[row][col]
    }

    /// Whether no cell is above `cap`.
    pub fn is_bounded_by(&self, cap: usize) -> (within: bool)
        ensures
            within == bounded_by(self@, cap as nat),
    {
        let mut r: usize = 0;
        while r < self.rows.len()
            invariant
                r <= self.rows.len(),
                forall|k: int| 0 <= k < r ==> row_bounded_by(#[trigger] self@[k], cap as nat),
            decreases self.rows.len() - r,
        {
            let row = &self.rows[r];
            let mut c: usize = 0;
            while c < row.len()
                invariant
                    c <= row.len(),
                    r < self.rows.len(),
                    row@ == self@[r as int],
                    forall|k: int| 0 <= k < c ==> #[trigger] row@[k] <= cap,
                decreases row.len() - c,
            {
                if row[c] > cap {
                    assert(!row_bounded_by(self@[r as int], cap as nat));
                    return false;
                }
                c = c + 1;
            }
            r = r + 1;
        }
        true
    }
}

} // verus!
