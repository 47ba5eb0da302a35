//! What calls of the library's functions come to, stated of their inputs and results.
pub mod attempt;
pub mod machines;
pub mod painting;
pub mod popup;
pub mod process;
pub mod words;
