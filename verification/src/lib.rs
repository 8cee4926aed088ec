//! Items of an interactive line filter: the text of one input line in the
//! forms that matching and output need, the rank by which results are
//! ordered, and the pool through which new lines reach the matcher.

pub mod ansi;
pub mod field;
pub mod item;
pub mod pool;
pub mod rank;
