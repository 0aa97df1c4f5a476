//! Grey levels: an escape field as one byte per cell.

use vstd::prelude::*;
use crate::field::{
    bounded_by, is_rectangular, lemma_row_major_cell, lemma_row_major_index, lemma_row_major_len,
    row_bounded_by, row_major_place, EscapeField,
};

verus! {

/// The grey level of a cell that holds `count` under the cap `cap`: the count
/// scaled from `0..=cap` to `0..=255`, rounded down.
pub open spec fn intensity(count: nat, cap: nat) -> nat
    recommends
        cap > 0,
{
    count * 255 / cap
}

/// The grey levels of one row, from the left.
pub open spec fn intensity_row(row: Seq<usize>, cap: nat) -> Seq<u8> {
    Seq::new(row.len(), |c: int| intensity(row[c] as nat, cap) as u8)
}

/// The grey levels of a grid, row after row from the top.
pub open spec fn intensity_rows(grid: Seq<Seq<usize>>, cap: nat) -> Seq<Seq<u8>> {
    Seq::new(grid.len(), |r: int| intensity_row(grid[r], cap))
}

/// The grey levels of a grid as one buffer: row after row from the top, each
/// row from the left.
pub open spec fn intensity_image(grid: Seq<Seq<usize>>, cap: nat) -> Seq<u8> {
    intensity_rows(grid, cap).flatten()
}

/// A count within the cap has a grey level within a byte: 0 for the count
/// zero, 255 for the cap itself.
pub proof fn lemma_intensity_bounds(count: nat, cap: nat)
    requires
        cap > 0,
        count <= cap,
    ensures
        intensity(count, cap) <= 255,
        count == 0 ==> intensity(count, cap) == 0,
        count == cap ==> intensity(count, cap) == 255,
{
    assert(count * 255 / cap <= 255) by (nonlinear_arith)
        requires
            cap > 0,
            count <= cap,
    ;
    assert(cap * 255 / cap == 255) by (nonlinear_arith)
        requires
            cap > 0,
    ;
    assert(0 * 255 / cap == 0) by (nonlinear_arith)
        requires
            cap > 0,
    ;
}

/// A higher count is never darker.
pub proof fn lemma_intensity_monotone(low: nat, high: nat, cap: nat)
    requires
        cap > 0,
        low <= high,
    ensures
        intensity(low, cap) <= intensity(high, cap),
{
    assert(low * 255 / cap <= high * 255 / cap) by (nonlinear_arith)
        requires
            cap > 0,
            low <= high,
    ;
}

/// The grey level of one cell.
pub fn intensity_of(count: usize, iteration_cap: usize) -> (byte: u8)
    requires
        iteration_cap >= 1,
        count <= iteration_cap,
    ensures
        byte == intensity(count as nat, iteration_cap as nat),
{
    proof {
        lemma_intensity_bounds(count as nat, iteration_cap as nat);
    }
    let scaled: u128 = count as u128 * 255;
    (scaled / iteration_cap as u128) as u8
}

/// The buffer of a rectangle has one byte for each cell, and the byte of the
/// cell in row `r` and column `c` stands at that cell's `row_major_place`.
pub proof fn lemma_intensity_image_layout(grid: Seq<Seq<usize>>, width: nat, cap: nat)
    requires
        is_rectangular(grid, width),
        cap > 0,
        bounded_by(grid, cap),
    ensures
        intensity_image(grid, cap).len() == grid.len() * width,
        forall|r: int, c: int|
            0 <= r < grid.len() && 0 <= c < width ==> {
                &&& 0 <= #[trigger] row_major_place(width, r, c) < intensity_image(grid, cap).len()
                &&& intensity_image(grid, cap)[row_major_place(width, r, c)] == intensity(
                    grid[r][c] as nat,
                    cap,
                )
            },
{
    let levels = intensity_rows(grid, cap);
    lemma_row_major_len(levels, width);
    assert forall|r: int, c: int| 0 <= r < grid.len() && 0 <= c < width implies {
        &&& 0 <= #[trigger] row_major_place(width, r, c) < intensity_image(grid, cap).len()
        &&& intensity_image(grid, cap)[row_major_place(width, r, c)] == intensity(
            grid[r][c] as nat,
            cap,
        )
    } by {
        lemma_row_major_index(levels, width, r, c);
        assert(row_bounded_by(grid[r], cap));
        lemma_intensity_bounds(grid[r][c] as nat, cap);
    }
}

/// Where every cell holds `count`, every byte of the buffer is the grey level
/// of `count`. So a field in which no orbit escaped is all 255, and one of
/// zeros is all 0.
pub proof fn lemma_uniform_field_is_uniform_image(
    grid: Seq<Seq<usize>>,
    width: nat,
    cap: nat,
    count: nat,
)
    requires
        is_rectangular(grid, width),
        cap > 0,
        count <= cap,
        forall|r: int, c: int| 0 <= r < grid.len() && 0 <= c < width ==> grid[r][c] == count,
    ensures
        forall|i: int|
            0 <= i < intensity_image(grid, cap).len() ==> #[trigger] intensity_image(
                grid,
                cap,
            )[i] == intensity(count, cap),
        count == cap ==> intensity(count, cap) == 255,
        count == 0 ==> intensity(count, cap) == 0,
{
    lemma_intensity_bounds(count, cap);
    let levels = intensity_rows(grid, cap);
    assert forall|i: int| 0 <= i < intensity_image(grid, cap).len() implies #[trigger] intensity_image(
        grid,
        cap,
    )[i] == intensity(count, cap) by {
        lemma_row_major_cell(levels, width, i);
        let r = i / (width as int);
        let c = i % (width as int);
        assert(grid[r][c] == count);
        assert(levels[r][c] == intensity(count, cap) as u8);
    }
}

/// The field as a buffer of grey levels for an image of `field.width()` by
/// `field.height()` pixels: one byte per cell, row after row from the top.
pub fn render_to_intensity(field: &EscapeField, iteration_cap: usize) -> (bytes: Vec<u8>)
    requires
        field.wf(),
        iteration_cap >= 1,
        bounded_by(field@, iteration_cap as nat),
    ensures
        bytes@ == intensity_image(field@, iteration_cap as nat),
        bytes@.len() == field.spec_height() * field.spec_width(),
        forall|r: int, c: int|
            0 <= r < field.spec_height() && 0 <= c < field.spec_width() ==> {
                &&& 0 <= #[trigger] row_major_place(field.spec_width(), r, c) < bytes@.len()
                &&& bytes@[row_major_place(field.spec_width(), r, c)] == intensity(
                    field@[r][c] as nat,
                    iteration_cap as nat,
                )
            },
        (forall|r: int, c: int|
            0 <= r < field.spec_height() && 0 <= c < field.spec_width() ==> field@[r][c]
                == iteration_cap) ==> forall|i: int|
            0 <= i < bytes@.len() ==> #[trigger] bytes@[i] == 255,
        (forall|r: int, c: int|
            0 <= r < field.spec_height() && 0 <= c < field.spec_width() ==> field@[r][c] == 0)
            ==> forall|i: int| 0 <= i < bytes@.len() ==> #[trigger] bytes@[i] == 0,
{
    let ghost cap = iteration_cap as nat;
    let ghost levels = intensity_rows(field@, cap);
    let mut bytes: Vec<u8> = Vec::new();
    let height = field.height();
    let width = field.width();
    let mut r: usize = 0;
    while r < height
        invariant
            field.wf(),
            iteration_cap >= 1,
            cap == iteration_cap,
            bounded_by(field@, cap),
            levels == intensity_rows(field@, cap),
            height == field.spec_height(),
            width == field.spec_width(),
            r <= height,
            bytes@ == levels.take(r as int).flatten(),
        decreases height - r,
    {
        let ghost above = bytes@;
        let mut c: usize = 0;
        assert(field@[r as int].len() == width);
        assert(row_bounded_by(field@[r as int], cap));
        while c < width
            invariant
                iteration_cap >= 1,
                cap == iteration_cap,
                r < height,
                height == field.spec_height(),
                width == field.spec_width(),
                field@[r as int].len() == width,
                row_bounded_by(field@[r as int], cap),
                c <= width,
                bytes@ == above + intensity_row(field@[r as int], cap).take(c as int),
            decreases width - c,
        {
            let count = field.cell(r, c);
            proof {
                lemma_intensity_bounds(count as nat, cap);
            }
            bytes.push(intensity_of(count, iteration_cap));
            proof {
                let row = intensity_row(field@[r as int], cap);
                assert(row.take(c as int + 1) =~= row.take(c as int).push(row[c as int]));
                assert(bytes@ =~= above + row.take(c as int + 1));
            }
            c = c + 1;
        }
        proof {
            let row = intensity_row(field@[r as int], cap);
            assert(row.take(width as int) =~= row);
            assert(levels.take(r as int + 1) =~= levels.take(r as int).push(row));
            levels.take(r as int).lemma_flatten_push(row);
        }
        r = r + 1;
    }
    proof {
        assert(levels.take(height as int) =~= levels);
        lemma_intensity_image_layout(field@, field.spec_width(), cap);
        if forall|r: int, c: int|
            0 <= r < field.spec_height() && 0 <= c < field.spec_width() ==> field@[r][c]
                == iteration_cap {
            lemma_uniform_field_is_uniform_image(field@, field.spec_width(), cap, cap);
        }
        if forall|r: int, c: int|
            0 <= r < field.spec_height() && 0 <= c < field.spec_width() ==> field@[r][c] == 0 {
            lemma_uniform_field_is_uniform_image(field@, field.spec_width(), cap, 0);
        }
    }
    bytes
}

} // verus!
