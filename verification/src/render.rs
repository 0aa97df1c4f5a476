//! The choice between the two renderings of an escape field.

use vstd::prelude::*;
use crate::field::{bounded_by, EscapeField};
use crate::intensity::{intensity_image, render_to_intensity};
use crate::text::{lines_view, render_to_text, text_lines, GlyphTable};

verus! {

/// A way to render an escape field, chosen by the caller.
pub enum Renderer {
    /// Grey levels, scaled by the cap that the field was evaluated under.
    Intensity { iteration_cap: usize },
    /// Lines of glyphs from a table.
    Text { table: GlyphTable },
}

/// A rendered escape field.
pub enum Rendering {
    /// One byte per cell, row after row from the top.
    Intensity(Vec<u8>),
    /// One line per row, and an empty line after the last.
    Text(Vec<String>),
}

impl Renderer {
    /// Whether this renderer can render `field`: grey levels need a cap of
    /// at least one that no cell exceeds, text takes any field.
    pub open spec fn fits(&self, field: &EscapeField) -> bool {
        match *self {
            Renderer::Intensity { iteration_cap } => {
                &&& field.wf()
                &&& iteration_cap >= 1
                &&& bounded_by(field@, iteration_cap as nat)
            },
            Renderer::Text { table } => true,
        }
    }

    /// What this renderer makes of a grid of counts.
    pub open spec fn rendered(&self, grid: Seq<Seq<usize>>, out: Rendering) -> bool {
        match *self {
            Renderer::Intensity { iteration_cap } => {
                out matches Rendering::Intensity(bytes) && bytes@ == intensity_image(
                    grid,
                    iteration_cap as nat,
                )
            },
            Renderer::Text { table } => {
                out matches Rendering::Text(lines) && lines_view(lines@) == text_lines(grid, table)
            },
        }
    }

    /// Whether this renderer can render `field`.
    pub fn accepts(&self, field: &EscapeField) -> (fit: bool)
        requires
            field.wf(),
        ensures
            fit == self.fits(field),
    {
        match self {
            Renderer::Intensity { iteration_cap } => {
                *iteration_cap >= 1 && field.is_bounded_by(*iteration_cap)
            },
            Renderer::Text { .. } => true,
        }
    }

    /// Renders `field` in the chosen way.
    pub fn render(&self, field: &EscapeField) -> (out: Rendering)
        requires
            self.fits(field),
        ensures
            self.rendered(field@, out),
    {
        match self {
            Renderer::Intensity { iteration_cap } => {
                Rendering::Intensity(render_to_intensity(field, *iteration_cap))
            },
            Renderer::Text { table } => Rendering::Text(render_to_text(field, table)),
        }
    }
}

} // verus!
