//! Constraint propagation over a 9x9 Sudoku grid.
//!
//! Starting from a partially filled puzzle, the library repeatedly narrows,
//! for every empty cell, the set of digits still consistent with the digits
//! already fixed in its row, column, and 3x3 box. There is no search or
//! backtracking and no guarantee of a complete or unique solution: this is a
//! bounded-iteration elimination pass, useful as a pre-solving reduction step.

pub mod candidate;
pub mod grid;
pub mod peers;
