//! Escape-time fields of the Mandelbrot set and their rendering.
//!
//! The library holds everything that is decided in integers: when a probe of
//! one orbit ends and with which count, in which order the cells of a grid are
//! visited and how the counts are laid out, and how a finished grid becomes
//! grey levels or lines of text. The complex arithmetic itself is done by the
//! caller, who reports to the library, step by step, whether an orbit has left
//! the escape radius.

pub mod escape;
pub mod evaluate;
pub mod field;
pub mod sweep;
pub mod intensity;
pub mod render;
pub mod text;

pub use escape::EscapeProbe;
pub use evaluate::Evaluation;
pub use field::EscapeField;
pub use intensity::{intensity_of, render_to_intensity};
pub use render::{Renderer, Rendering};
pub use sweep::FieldSweep;
pub use text::{render_line, render_to_text, GlyphBand, GlyphTable};
