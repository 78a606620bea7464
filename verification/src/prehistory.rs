//! The record kept of a move that was played on the way to a node.

use vstd::prelude::*;
use crate::board::Board;
use crate::types::{Move, Piece};

verus! {

/// A move played earlier on the search path, with what the history
/// heuristics want to know of the position it was played in.
#[derive(Clone, Copy, Debug)]
pub struct Prehistory {
    pub mv: Move,
    pub in_check: bool,
    pub moved_piece: Piece,
}

impl Prehistory {
    /// The record of `mv` about to be played on `board`.
    pub fn new<B: Board>(board: &B, mv: Move) -> (r: Prehistory)
        ensures
            r.mv == mv,
            r.in_check == board.checked(),
            r.moved_piece == board.mover(mv),
    {
        Prehistory { mv, in_check: board.in_check(), moved_piece: board.moved_piece(mv) }
    }
}

} // verus!
