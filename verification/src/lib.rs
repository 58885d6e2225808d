//! Column alignment of delimiter-separated text: rows are split into cells,
//! measured by their display width, and padded so that columns line up.

pub mod alignment;
pub mod columns;
pub mod error;
pub mod list;
pub mod number;
pub mod output;
pub mod render;
pub mod rows;
pub mod split;
pub mod stable;
pub mod table;
pub mod text;
pub mod width;
pub mod widths;
