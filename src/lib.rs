//! Tables of named numeric columns read from comma-separated text, with
//! pairwise measures over their columns and a markup rendering.
//!
//! Cells are generic: the reader keeps each cell as its validated number
//! text, and callers turn the texts into numbers with `DataFrame::map_cells`.
use vstd::prelude::*;

pub mod csv;
pub mod frame;
pub mod html;
pub mod matrix;
pub mod number;
pub mod text;

pub use csv::{parse_csv, CsvError};
pub use frame::DataFrame;
pub use html::dataframe_to_html_table;
pub use matrix::matrix_coefficient;
pub use number::{is_float_text, NumberError};

verus! {

} // verus!
