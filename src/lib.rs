//! Two small games with verified rules: a backtracking sudoku solver and a
//! tic-tac-toe board that detects wins and draws.
pub mod sudoku;
pub mod tic_tac_toe;
