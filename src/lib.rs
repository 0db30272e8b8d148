//! Guessing the column layout of space-aligned tables, such as the output
//! of `ps` or `df`, and splitting their lines into fields.
//!
//! A header line and a sample of the lines below it give a histogram of
//! blank display columns; the columns that stay blank across the sample
//! become separator positions, and every line is then cut at those
//! positions, with some slack for values that overflow their column.
pub mod width;
pub mod text;
pub mod estimate;
pub mod split;
pub mod guess_width;

pub use guess_width::{to_table, to_table_n, GuessWidth, Phase};
pub use estimate::positions;
pub use split::split;
pub use text::{is_whitespace, trim, trim_end};
pub use width::column_width;
