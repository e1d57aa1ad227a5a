//! Line-oriented classifier for textual assembly listings.
//!
//! Each line of a listing becomes one [`statements::Statement`]: a label, a directive,
//! an instruction, a blank line, or an unrecognised line kept verbatim.
//! Every value borrows its text from the input buffer. [`model`] states the grammar as
//! spec functions, and [`laws`] proves that the text of a statement reads back as it.

pub mod text;
pub mod model;
pub mod statements;
pub mod render;
pub mod laws;


