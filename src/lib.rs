//! Reading a rectangular grid of integers from text, and finding the largest
//! product of four cells that stand in line in it.
pub mod grid;
pub mod parser;
pub mod scanner;
pub mod text;

pub use grid::Grid;
pub use parser::{parse_matrix, MatrixParseError};
pub use scanner::{diagonal_max, horizontal_max, max_four_product, vertical_max};
pub mod render;
