//! Decoding of Forsyth-Edwards Notation (FEN) chess positions and a plain
//! text report of the decoded position.
pub mod chess;
pub mod fields;
pub mod report;
pub mod text;
