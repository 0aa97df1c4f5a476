//! Lines of text: an escape field with one glyph per cell.
//!
//! A glyph table is a list of bands, each an upper bound with a glyph, and a
//! fallback glyph. A count gets the glyph of the first band whose upper bound
//! it does not exceed, and the fallback where it exceeds them all.

use vstd::prelude::*;
use crate::field::{is_rectangular, EscapeField};

verus! {

/// One band of a glyph table: the counts up to `upper`, as far as no earlier
/// band has claimed them, are shown as `glyph`.
#[derive(Clone, Copy, Debug)]
pub struct GlyphBand {
    pub upper: usize,
    pub glyph: char,
}

/// An ordered table of bands with a glyph for the counts above all of them.
pub struct GlyphTable {
    pub bands: Vec<GlyphBand>,
    pub fallback: char,
}

/// The glyph of `count`: that of the first band whose upper bound is at least
/// `count`, or `fallback` if there is no such band.
pub open spec fn glyph_of(bands: Seq<GlyphBand>, fallback: char, count: nat) -> char
    decreases bands.len(),
{
    if bands.len() == 0 {
        fallback
    } else if count <= bands[0].upper {
        bands[0].glyph
    } else {
        glyph_of(bands.drop_first(), fallback, count)
    }
}

/// The upper bounds of `bands` grow strictly from band to band.
pub open spec fn is_ascending(bands: Seq<GlyphBand>) -> bool {
    forall|i: int, j: int| 0 <= i < j < bands.len() ==> bands[i].upper < bands[j].upper
}

/// A count gets the glyph of band `k` where `k` is the first band that it
/// does not exceed.
pub proof fn lemma_glyph_of_first_match(
    bands: Seq<GlyphBand>,
    fallback: char,
    count: nat,
    k: int,
)
    requires
        0 <= k < bands.len(),
        count <= bands[k].upper,
        forall|j: int| 0 <= j < k ==> bands[j].upper < count,
    ensures
        glyph_of(bands, fallback, count) == bands[k].glyph,
    decreases bands.len(),
{
    if k > 0 {
        assert(bands[0].upper < count);
        let rest = bands.drop_first();
        assert forall|j: int| 0 <= j < k - 1 implies rest[j].upper < count by {
            assert(rest[j] == bands[j + 1]);
        }
        lemma_glyph_of_first_match(rest, fallback, count, k - 1);
    }
}

/// A count that exceeds every band gets the fallback glyph.
pub proof fn lemma_glyph_of_fallback(bands: Seq<GlyphBand>, fallback: char, count: nat)
    requires
        forall|j: int| 0 <= j < bands.len() ==> bands[j].upper < count,
    ensures
        glyph_of(bands, fallback, count) == fallback,
    decreases bands.len(),
{
    if bands.len() > 0 {
        assert(bands[0].upper < count);
        let rest = bands.drop_first();
        assert forall|j: int| 0 <= j < rest.len() implies rest[j].upper < count by {
            assert(rest[j] == bands[j + 1]);
        }
        lemma_glyph_of_fallback(rest, fallback, count);
    }
}

/// In a table with ascending bounds each band stands for an inclusive range:
/// band `k` shows the counts above the bound of band `k - 1` up to its own.
pub proof fn lemma_band_is_range(bands: Seq<GlyphBand>, fallback: char, count: nat, k: int)
    requires
        is_ascending(bands),
        0 <= k < bands.len(),
        count <= bands[k].upper,
        k > 0 ==> bands[k - 1].upper < count,
    ensures
        glyph_of(bands, fallback, count) == bands[k].glyph,
{
    assert forall|j: int| 0 <= j < k implies bands[j].upper < count by {
        if j < k - 1 {
            assert(bands[j].upper < bands[k - 1].upper);
        }
    }
    lemma_glyph_of_first_match(bands, fallback, count, k);
}

/// The bands of the standard table, from blank for the lowest counts to the
/// densest glyph below the fallback.
pub open spec fn standard_bands() -> Seq<GlyphBand> {
    seq![
        (GlyphBand { upper: 2, glyph: ' ' }),
        (GlyphBand { upper: 5, glyph: '.' }),
        (GlyphBand { upper: 10, glyph: '\u{2022}' }),
        (GlyphBand { upper: 20, glyph: '\u{25e6}' }),
        (GlyphBand { upper: 50, glyph: '+' }),
        (GlyphBand { upper: 100, glyph: 'x' }),
        (GlyphBand { upper: 150, glyph: '$' }),
        (GlyphBand { upper: 200, glyph: '#' }),
    ]
}

/// The glyph of the standard table for each count.
pub open spec fn standard_glyph(count: nat) -> char {
    if count <= 2 {
        ' '
    } else if count <= 5 {
        '.'
    } else if count <= 10 {
        '\u{2022}'
    } else if count <= 20 {
        '\u{25e6}'
    } else if count <= 50 {
        '+'
    } else if count <= 100 {
        'x'
    } else if count <= 150 {
        '$'
    } else if count <= 200 {
        '#'
    } else {
        '%'
    }
}

/// The standard bands with the fallback `%` give each count its standard
/// glyph.
pub proof fn lemma_standard_glyphs(count: nat)
    ensures
        is_ascending(standard_bands()),
        glyph_of(standard_bands(), '%', count) == standard_glyph(count),
{
    let bands = standard_bands();
    if count <= 2 {
        lemma_band_is_range(bands, '%', count, 0);
    } else if count <= 5 {
        lemma_band_is_range(bands, '%', count, 1);
    } else if count <= 10 {
        lemma_band_is_range(bands, '%', count, 2);
    } else if count <= 20 {
        lemma_band_is_range(bands, '%', count, 3);
    } else if count <= 50 {
        lemma_band_is_range(bands, '%', count, 4);
    } else if count <= 100 {
        lemma_band_is_range(bands, '%', count, 5);
    } else if count <= 150 {
        lemma_band_is_range(bands, '%', count, 6);
    } else if count <= 200 {
        lemma_band_is_range(bands, '%', count, 7);
    } else {
        lemma_glyph_of_fallback(bands, '%', count);
    }
}

impl GlyphTable {
    /// The glyph that this table gives to `count`.
    pub open spec fn glyph(&self, count: nat) -> char {
        glyph_of(self.bands@, self.fallback, count)
    }

    /// The table with the given bands and fallback.
    pub fn new(bands: Vec<GlyphBand>, fallback: char) -> (table: Self)
        ensures
            table.bands@ == bands@,
            table.fallback == fallback,
    {
        GlyphTable { bands, fallback }
    }

    /// The standard table: blank up to 2, `.` up to 5, a bullet up to 10, a
    /// hollow circle up to 20, `+` up to 50, `x` up to 100, `$` up to 150,
    /// `#` up to 200, and `%` above.
    pub fn standard() -> (table: Self)
        ensures
            table.bands@ == standard_bands(),
            table.fallback == '%',
            forall|count: nat| #[trigger] table.glyph(count) == standard_glyph(count),
    {
        let mut bands: Vec<GlyphBand> = Vec::new();
        bands.push(GlyphBand { upper: 2, glyph: ' ' });
        bands.push(GlyphBand { upper: 5, glyph: '.' });
        bands.push(GlyphBand { upper: 10, glyph: '\u{2022}' });
        bands.push(GlyphBand { upper: 20, glyph: '\u{25e6}' });
        bands.push(GlyphBand { upper: 50, glyph: '+' });
        bands.push(GlyphBand { upper: 100, glyph: 'x' });
        bands.push(GlyphBand { upper: 150, glyph: '$' });
        bands.push(GlyphBand { upper: 200, glyph: '#' });
        let table = GlyphTable { bands, fallback: '%' };
        proof {
            assert(table.bands@ =~= standard_bands());
            assert forall|count: nat| #[trigger] table.glyph(count) == standard_glyph(count) by {
                lemma_standard_glyphs(count);
            }
        }
        table
    }

    /// The glyph that this table gives to `count`.
    pub fn glyph_for(&self, count: usize) -> (glyph: char)
        ensures
            glyph == self.glyph(count as nat),
    {
        let mut k: usize = 0;
        while k < self.bands.len()
            invariant
                k <= self.bands.len(),
                forall|j: int| 0 <= j < k ==> self.bands@[j].upper < count,
            decreases self.bands.len() - k,
        {
            if count <= self.bands[k].upper {
                proof {
                    lemma_glyph_of_first_match(
                        self.bands@,
                        self.fallback,
                        count as nat,
                        k as int,
                    );
                }
                return self.bands[k].glyph;
            }
            k = k + 1;
        }
        proof {
            lemma_glyph_of_fallback(self.bands@, self.fallback, count as nat);
        }
        self.fallback
    }
}

/// The line of text for one row: the glyph of each cell, from the left.
pub open spec fn text_line(row: Seq<usize>, table: GlyphTable) -> Seq<char> {
    Seq::new(row.len(), |c: int| table.glyph(row[c] as nat))
}

/// The lines of text for a grid: one line for each row, from the top, and an
/// empty line after the last.
pub open spec fn text_lines(grid: Seq<Seq<usize>>, table: GlyphTable) -> Seq<Seq<char>> {
    Seq::new(
        grid.len() + 1,
        |r: int|
            if r < grid.len() {
                text_line(grid[r], table)
            } else {
                Seq::empty()
            },
    )
}

/// The content of each of `lines`.
pub open spec fn lines_view(lines: Seq<String>) -> Seq<Seq<char>> {
    Seq::new(lines.len(), |r: int| lines[r]@)
}

/// Where every cell of a rectangle holds `count`, every line of its text but
/// the empty one at the end is as long as the rectangle is wide and made of
/// the glyph of `count` alone. With the standard table a field of zeros is
/// shown as lines of blanks.
pub proof fn lemma_uniform_field_is_uniform_text(
    grid: Seq<Seq<usize>>,
    width: nat,
    table: GlyphTable,
    count: nat,
)
    requires
        is_rectangular(grid, width),
        forall|r: int, c: int| 0 <= r < grid.len() && 0 <= c < width ==> grid[r][c] == count,
    ensures
        text_lines(grid, table).len() == grid.len() + 1,
        text_lines(grid, table).last() == Seq::<char>::empty(),
        forall|r: int|
            0 <= r < grid.len() ==> #[trigger] text_lines(grid, table)[r] == Seq::new(
                width,
                |c: int| table.glyph(count),
            ),
        table.bands@ == standard_bands() && table.fallback == '%' && count <= 2 ==> table.glyph(
            count,
        ) == ' ',
{
    lemma_standard_glyphs(count);
    assert forall|r: int| 0 <= r < grid.len() implies #[trigger] text_lines(grid, table)[r]
        == Seq::new(width, |c: int| table.glyph(count)) by {
        assert(grid[r].len() == width);
        assert(text_line(grid[r], table) =~= Seq::new(width, |c: int| table.glyph(count)));
    }
}

/// `String::push` of the standard library appends the character to the end
/// of the string and leaves what was there as it was.
pub assume_specification[ String::push ](line: &mut String, glyph: char)
    ensures
        final(line)@ == old(line)@.push(glyph),
;

/// The line of text for row `row` of the field.
pub fn render_line(field: &EscapeField, table: &GlyphTable, row: usize) -> (line: String)
    requires
        row < field.spec_height(),
    ensures
        line@ == text_line(field@[row as int], *table),
{
    let mut line = String::new();
    let mut c: usize = 0;
    let cells = field.row_len(row);
    while c < cells
        invariant
            row < field.spec_height(),
            cells == field@[row as int].len(),
            c <= cells,
            line@ == text_line(field@[row as int], *table).take(c as int),
        decreases cells - c,
    {
        let glyph = table.glyph_for(field.cell(row, c));
        line.push(glyph);
        proof {
            let whole = text_line(field@[row as int], *table);
            assert(whole.take(c as int + 1) =~= whole.take(c as int).push(whole[c as int]));
        }
        c = c + 1;
    }
    proof {
        let whole = text_line(field@[row as int], *table);
        assert(whole.take(cells as int) =~= whole);
    }
    line
}

/// The field as lines of text: one line for each row, from the top, with one
/// glyph for each cell, and an empty line after the last row.
pub fn render_to_text(field: &EscapeField, table: &GlyphTable) -> (lines: Vec<String>)
    ensures
        lines_view(lines@) == text_lines(field@, *table),
        lines@.len() == field.spec_height() + 1,
        lines@.last()@ == Seq::<char>::empty(),
{
    let mut lines: Vec<String> = Vec::new();
    let height = field.height();
    let mut r: usize = 0;
    while r < height
        invariant
            height == field.spec_height(),
            r <= height,
            lines@.len() == r,
            forall|k: int| 0 <= k < r ==> (#[trigger] lines@[k])@ == text_line(field@[k], *table),
        decreases height - r,
    {
        lines.push(render_line(field, table, r));
        r = r + 1;
    }
    lines.push(String::new());
    proof {
        assert(lines_view(lines@) =~= text_lines(field@, *table));
    }
    lines
}

} // verus!
