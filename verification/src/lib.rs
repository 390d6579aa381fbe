//! Side-by-side comparison of two texts: changed lines are aligned into row
//! pairs, each pair is refined into character-level segments, long rows are
//! reflowed to a column budget, and the result is rendered as markup or as
//! colourised terminal text.

pub mod align;
pub mod console;
pub mod error;
pub mod gutter;
pub mod lines;
pub mod markup;
pub mod parts;
pub mod reflow;
pub mod reflow_laws;
pub mod render;
pub mod script;
pub mod subline;
pub mod text;
