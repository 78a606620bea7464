//! What the picker asks of the position it orders moves for, and of the
//! history tables it scores them with.

use vstd::prelude::*;
use crate::types::{moves_of, Color, Move, MoveList, Piece, PieceType, MAX_MOVES};

verus! {

/// Largest magnitude a history table may report for the picker's scores to
/// stay inside `i32`.
pub const MAX_HISTORY: i32 = 262144;

/// A position as the picker sees it. Each query is a function of the
/// position alone; the spec function beside it names the answer.
pub trait Board {
    spec fn pseudo_legal(&self, mv: Move) -> bool;

    /// The noisy pseudo-legal moves, in generation order.
    spec fn noisy_moves(&self) -> Seq<Move>;

    /// The quiet pseudo-legal moves, in generation order.
    spec fn quiet_moves(&self) -> Seq<Move>;

    /// Whether the static exchange evaluation of `mv` reaches `threshold`.
    spec fn see_at_least(&self, mv: Move, threshold: i32) -> bool;

    spec fn piece_at(&self, square: u8) -> Piece;

    spec fn mover(&self, mv: Move) -> Piece;

    spec fn threat_key(&self) -> u64;

    spec fn turn(&self) -> Color;

    spec fn checked(&self) -> bool;

    fn is_pseudo_legal(&self, mv: Move) -> (r: bool)
        ensures
            r == self.pseudo_legal(mv),
    ;

    /// Appends the noisy moves to `list`, which keeps what it held.
    fn append_noisy_moves(&self, list: &mut MoveList)
        requires
            old(list)@.len() + self.noisy_moves().len() <= MAX_MOVES,
        ensures
            final(list)@.len() == old(list)@.len() + self.noisy_moves().len(),
            final(list)@.take(old(list)@.len() as int) == old(list)@,
            moves_of(final(list)@) == moves_of(old(list)@) + self.noisy_moves(),
    ;

    /// Appends the quiet moves to `list`, which keeps what it held.
    fn append_quiet_moves(&self, list: &mut MoveList)
        requires
            old(list)@.len() + self.quiet_moves().len() <= MAX_MOVES,
        ensures
            final(list)@.len() == old(list)@.len() + self.quiet_moves().len(),
            final(list)@.take(old(list)@.len() as int) == old(list)@,
            moves_of(final(list)@) == moves_of(old(list)@) + self.quiet_moves(),
    ;

    fn see(&self, mv: Move, threshold: i32) -> (r: bool)
        ensures
            r == self.see_at_least(mv, threshold),
    ;

    fn piece_on(&self, square: u8) -> (r: Piece)
        ensures
            r == self.piece_at(square),
    ;

    fn moved_piece(&self, mv: Move) -> (r: Piece)
        ensures
            r == self.mover(mv),
    ;

    fn threats(&self) -> (r: u64)
        ensures
            r == self.threat_key(),
    ;

    fn side_to_move(&self) -> (r: Color)
        ensures
            r == self.turn(),
    ;

    fn in_check(&self) -> (r: bool)
        ensures
            r == self.checked(),
    ;
}

/// The history tables as the picker sees them: three lookups, each a
/// function of the tables and its arguments.
pub trait History {
    spec fn noisy_value(&self, threats: u64, piece: Piece, to: u8, captured: PieceType) -> i32;

    spec fn quiet_value(&self, threats: u64, side: Color, mv: Move) -> i32;

    spec fn continuation_value(&self, ply: isize, offset: isize, mv: Move) -> i32;

    fn noisy_history(&self, threats: u64, piece: Piece, to: u8, captured: PieceType) -> (r: i32)
        ensures
            r == self.noisy_value(threats, piece, to, captured),
    ;

    fn quiet_history(&self, threats: u64, side: Color, mv: Move) -> (r: i32)
        ensures
            r == self.quiet_value(threats, side, mv),
    ;

    fn conthist(&self, ply: isize, offset: isize, mv: Move) -> (r: i32)
        ensures
            r == self.continuation_value(ply, offset, mv),
    ;
}

/// What a search thread hands the picker: its board and its history tables.
pub struct ThreadData<B: Board, H: History> {
    pub board: B,
    pub history: H,
}

/// Every value the tables can report lies within `MAX_HISTORY` of zero.
pub open spec fn history_bounded<H: History>(h: &H) -> bool {
    &&& forall|threats: u64, piece: Piece, to: u8, captured: PieceType|
        -MAX_HISTORY <= #[trigger] h.noisy_value(threats, piece, to, captured) <= MAX_HISTORY
    &&& forall|threats: u64, side: Color, mv: Move|
        -MAX_HISTORY <= #[trigger] h.quiet_value(threats, side, mv) <= MAX_HISTORY
    &&& forall|ply: isize, offset: isize, mv: Move|
        -MAX_HISTORY <= #[trigger] h.continuation_value(ply, offset, mv) <= MAX_HISTORY
}

/// Each of the two generated lists fits in a move list.
pub open spec fn generation_fits<B: Board>(b: &B) -> bool {
    &&& b.noisy_moves().len() <= MAX_MOVES
    &&& b.quiet_moves().len() <= MAX_MOVES
}

/// The generators and the legality test describe the same set of moves:
/// the noisy list holds exactly the noisy pseudo-legal moves, the quiet list
/// exactly the quiet ones.
pub open spec fn generation_complete<B: Board>(b: &B) -> bool {
    &&& forall|m: Move| #[trigger]
        b.noisy_moves().contains(m) <==> b.pseudo_legal(m) && m.is_noisy_spec()
    &&& forall|m: Move| #[trigger]
        b.quiet_moves().contains(m) <==> b.pseudo_legal(m) && !m.is_noisy_spec()
}

} // verus!
