//! Verified core of a chess engine's search loop: the staged move picker,
//! the integer half of the NNUE forward pass, ray and counter bit tricks,
//! and the protocol of the one-slot broadcast channel that drives the
//! worker threads.

pub mod board;
pub mod movepick;
pub mod nnue;
pub mod prehistory;
pub mod table;
pub mod threadpool;
pub mod types;
