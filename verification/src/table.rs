//! A position and history tables given by explicit listings: the plainest
//! things a picker can run against.

use vstd::prelude::*;
use crate::board::{
    generation_complete, generation_fits, history_bounded, Board, History, MAX_HISTORY,
};
use crate::types::{moves_of, Color, Move, MoveList, Piece, PieceType, MAX_MOVES};

verus! {

/// A move with a number attached: an exchange value or a history value.
#[derive(Clone, Copy, Debug, PartialEq, Eq, Structural)]
pub struct Rated {
    pub mv: Move,
    pub value: i32,
}

/// The number attached to the first listing of `mv`, 0 if there is none.
pub open spec fn rating(list: Seq<Rated>, mv: Move) -> i32
    decreases list.len(),
{
    if list.len() == 0 {
        0
    } else if list[0].mv == mv {
        list[0].value
    } else {
        rating(list.skip(1), mv)
    }
}

/// Looks `mv` up in `list`.
pub fn rate(list: &Vec<Rated>, mv: Move) -> (r: i32)
    ensures
        r == rating(list@, mv),
{
    let mut i: usize = 0;
    assert(list@.skip(0) == list@);
    while i < list.len()
        invariant
            i <= list.len(),
            rating(list@, mv) == rating(list@.skip(i as int), mv),
        decreases list.len() - i,
    {
        if list[i].mv == mv {
            assert(list@.skip(i as int)[0] == list@[i as int]);
            return list[i].value;
        }
        assert(list@.skip(i as int)[0] == list@[i as int]);
        assert(list@.skip(i as int).skip(1) == list@.skip(i as int + 1));
        i += 1;
    }
    0
}

/// `v` brought into the range the picker accepts from a history table.
pub open spec fn limited(v: i32) -> i32 {
    if v > MAX_HISTORY {
        MAX_HISTORY
    } else if v < -MAX_HISTORY {
        (-MAX_HISTORY) as i32
    } else {
        v
    }
}

pub fn limit(v: i32) -> (r: i32)
    ensures
        r == limited(v),
{
    if v > MAX_HISTORY {
        MAX_HISTORY
    } else if v < -MAX_HISTORY {
        -MAX_HISTORY
    } else {
        v
    }
}

/// A position described by its listings: what stands where, who is to move,
/// which moves each generator hands out, and what each move is worth in a
/// static exchange.
pub struct TableBoard {
    /// The piece on each square, from square 0 up; squares past the end are
    /// empty.
    pub pieces: Vec<Piece>,
    pub side: Color,
    pub in_check: bool,
    pub threats: u64,
    pub noisy: Vec<Move>,
    pub quiet: Vec<Move>,
    /// Static exchange values; a move not listed is worth 0.
    pub exchange: Vec<Rated>,
}

/// Whether `mv` occurs in `moves`.
pub fn contains_move(moves: &Vec<Move>, mv: Move) -> (r: bool)
    ensures
        r == moves@.contains(mv),
{
    let mut i: usize = 0;
    while i < moves.len()
        invariant
            i <= moves.len(),
            forall|j: int| 0 <= j < i ==> moves@[j] != mv,
        decreases moves.len() - i,
    {
        if moves[i] == mv {
            return true;
        }
        i += 1;
    }
    false
}

/// Appends `moves` to `list`.
pub fn append_moves(list: &mut MoveList, moves: &Vec<Move>)
    requires
        old(list)@.len() + moves@.len() <= MAX_MOVES,
    ensures
        final(list)@.len() == old(list)@.len() + moves@.len(),
        final(list)@.take(old(list)@.len() as int) == old(list)@,
        moves_of(final(list)@) == moves_of(old(list)@) + moves@,
{
    let ghost before = list@;
    let mut i: usize = 0;
    while i < moves.len()
        invariant
            i <= moves.len(),
            before.len() + moves@.len() <= MAX_MOVES,
            list@.len() == before.len() + i,
            list@.take(before.len() as int) == before,
            moves_of(list@) == moves_of(before) + moves@.take(i as int),
        decreases moves.len() - i,
    {
        let ghost prev = list@;
        list.push(moves[i]);
        proof {
            assert(list@.take(before.len() as int) =~= prev.take(before.len() as int));
            assert(moves_of(list@) =~= moves_of(prev).push(moves@[i as int]));
            assert(moves@.take(i as int + 1) =~= moves@.take(i as int).push(moves@[i as int]));
            assert(moves_of(before) + moves@.take(i as int + 1) =~= (moves_of(before)
                + moves@.take(i as int)).push(moves@[i as int]));
        }
        i += 1;
    }
    assert(moves@.take(i as int) == moves@);
}

impl Board for TableBoard {
    open spec fn pseudo_legal(&self, mv: Move) -> bool {
        self.noisy@.contains(mv) || self.quiet@.contains(mv)
    }

    open spec fn noisy_moves(&self) -> Seq<Move> {
        self.noisy@
    }

    open spec fn quiet_moves(&self) -> Seq<Move> {
        self.quiet@
    }

    open spec fn see_at_least(&self, mv: Move, threshold: i32) -> bool {
        rating(self.exchange@, mv) >= threshold
    }

    open spec fn piece_at(&self, square: u8) -> Piece {
        if square < self.pieces@.len() {
            self.pieces@[square as int]
        } else {
            Piece::none_spec()
        }
    }

    open spec fn mover(&self, mv: Move) -> Piece {
        self.piece_at(mv.from)
    }

    open spec fn threat_key(&self) -> u64 {
        self.threats
    }

    open spec fn turn(&self) -> Color {
        self.side
    }

    open spec fn checked(&self) -> bool {
        self.in_check
    }

    fn is_pseudo_legal(&self, mv: Move) -> (r: bool) {
        contains_move(&self.noisy, mv) || contains_move(&self.quiet, mv)
    }

    fn append_noisy_moves(&self, list: &mut MoveList) {
        append_moves(list, &self.noisy);
    }

    fn append_quiet_moves(&self, list: &mut MoveList) {
        append_moves(list, &self.quiet);
    }

    fn see(&self, mv: Move, threshold: i32) -> (r: bool) {
        rate(&self.exchange, mv) >= threshold
    }

    fn piece_on(&self, square: u8) -> (r: Piece) {
        if (square as usize) < self.pieces.len() {
            self.pieces[square as usize]
        } else {
            Piece::none()
        }
    }

    fn moved_piece(&self, mv: Move) -> (r: Piece) {
        self.piece_on(mv.from())
    }

    fn threats(&self) -> (r: u64) {
        self.threats
    }

    fn side_to_move(&self) -> (r: Color) {
        self.side
    }

    fn in_check(&self) -> (r: bool) {
        self.in_check
    }
}

impl TableBoard {
    /// Whether the listings agree with the moves' own kinds: the noisy list
    /// holds noisy moves only and the quiet list quiet moves only. Then, and
    /// only then, the generators are complete.
    pub fn consistent(&self) -> (r: bool)
        ensures
            r == generation_complete(self),
    {
        let mut i: usize = 0;
        while i < self.noisy.len()
            invariant
                i <= self.noisy.len(),
                forall|k: int| 0 <= k < i ==> (#[trigger] self.noisy@[k]).is_noisy_spec(),
            decreases self.noisy.len() - i,
        {
            if !self.noisy[i].is_noisy() {
                assert(self.noisy_moves().contains(self.noisy@[i as int]));
                return false;
            }
            i += 1;
        }
        let mut j: usize = 0;
        while j < self.quiet.len()
            invariant
                j <= self.quiet.len(),
                forall|k: int| 0 <= k < self.noisy@.len() ==> (#[trigger] self.noisy@[k]).is_noisy_spec(),
                forall|k: int| 0 <= k < j ==> !(#[trigger] self.quiet@[k]).is_noisy_spec(),
            decreases self.quiet.len() - j,
        {
            if self.quiet[j].is_noisy() {
                assert(self.quiet_moves().contains(self.quiet@[j as int]));
                return false;
            }
            j += 1;
        }
        proof {
            assert forall|m: Move| #[trigger]
                self.noisy_moves().contains(m) <==> self.pseudo_legal(m) && m.is_noisy_spec() by {
                if self.noisy@.contains(m) {
                    let k = choose|k: int| 0 <= k < self.noisy@.len() && self.noisy@[k] == m;
                }
                if self.quiet@.contains(m) {
                    let k = choose|k: int| 0 <= k < self.quiet@.len() && self.quiet@[k] == m;
                }
            }
            assert forall|m: Move| #[trigger]
                self.quiet_moves().contains(m) <==> self.pseudo_legal(m) && !m.is_noisy_spec() by {
                if self.noisy@.contains(m) {
                    let k = choose|k: int| 0 <= k < self.noisy@.len() && self.noisy@[k] == m;
                }
                if self.quiet@.contains(m) {
                    let k = choose|k: int| 0 <= k < self.quiet@.len() && self.quiet@[k] == m;
                }
            }
        }
        true
    }

    /// Whether both generated lists fit in a move list, which the picker
    /// asks of a board.
    pub fn fits(&self) -> (r: bool)
        ensures
            r == generation_fits(self),
    {
        self.noisy.len() <= MAX_MOVES && self.quiet.len() <= MAX_MOVES
    }
}

/// A continuation-history listing: the value of `mv` at a ply offset.
#[derive(Clone, Copy, Debug, PartialEq, Eq, Structural)]
pub struct Continuation {
    pub offset: isize,
    pub mv: Move,
    pub value: i32,
}

/// The value of the first listing of `mv` at `offset`, 0 if there is none.
pub open spec fn continuation_rating(list: Seq<Continuation>, offset: isize, mv: Move) -> i32
    decreases list.len(),
{
    if list.len() == 0 {
        0
    } else if list[0].offset == offset && list[0].mv == mv {
        list[0].value
    } else {
        continuation_rating(list.skip(1), offset, mv)
    }
}

/// History tables described by listings. The capture history goes by the
/// move's target square, the other two by the move; what is not listed is 0,
/// and every value is brought into the accepted range.
pub struct TableHistory {
    /// Capture history; only the target square of `mv` counts.
    pub capture: Vec<Rated>,
    pub butterfly: Vec<Rated>,
    pub continuation: Vec<Continuation>,
}

/// The capture history of target square `to`: the value of the first listing
/// whose move goes there, 0 if there is none.
pub open spec fn target_rating(list: Seq<Rated>, to: u8) -> i32
    decreases list.len(),
{
    if list.len() == 0 {
        0
    } else if list[0].mv.to == to {
        list[0].value
    } else {
        target_rating(list.skip(1), to)
    }
}

/// Looks target square `to` up in a capture-history listing.
pub fn rate_target(list: &Vec<Rated>, to: u8) -> (r: i32)
    ensures
        r == target_rating(list@, to),
{
    let mut i: usize = 0;
    assert(list@.skip(0) == list@);
    while i < list.len()
        invariant
            i <= list.len(),
            target_rating(list@, to) == target_rating(list@.skip(i as int), to),
        decreases list.len() - i,
    {
        assert(list@.skip(i as int)[0] == list@[i as int]);
        if list[i].mv.to == to {
            return list[i].value;
        }
        assert(list@.skip(i as int).skip(1) == list@.skip(i as int + 1));
        i += 1;
    }
    0
}

/// Looks `mv` at `offset` up in a continuation-history listing.
pub fn rate_continuation(list: &Vec<Continuation>, offset: isize, mv: Move) -> (r: i32)
    ensures
        r == continuation_rating(list@, offset, mv),
{
    let mut i: usize = 0;
    assert(list@.skip(0) == list@);
    while i < list.len()
        invariant
            i <= list.len(),
            continuation_rating(list@, offset, mv) == continuation_rating(
                list@.skip(i as int),
                offset,
                mv,
            ),
        decreases list.len() - i,
    {
        assert(list@.skip(i as int)[0] == list@[i as int]);
        if list[i].offset == offset && list[i].mv == mv {
            return list[i].value;
        }
        assert(list@.skip(i as int).skip(1) == list@.skip(i as int + 1));
        i += 1;
    }
    0
}

impl History for TableHistory {
    open spec fn noisy_value(&self, threats: u64, piece: Piece, to: u8, captured: PieceType) -> i32 {
        limited(target_rating(self.capture@, to))
    }

    open spec fn quiet_value(&self, threats: u64, side: Color, mv: Move) -> i32 {
        limited(rating(self.butterfly@, mv))
    }

    open spec fn continuation_value(&self, ply: isize, offset: isize, mv: Move) -> i32 {
        limited(continuation_rating(self.continuation@, offset, mv))
    }

    fn noisy_history(&self, threats: u64, piece: Piece, to: u8, captured: PieceType) -> (r: i32) {
        limit(rate_target(&self.capture, to))
    }

    fn quiet_history(&self, threats: u64, side: Color, mv: Move) -> (r: i32) {
        limit(rate(&self.butterfly, mv))
    }

    fn conthist(&self, ply: isize, offset: isize, mv: Move) -> (r: i32) {
        limit(rate_continuation(&self.continuation, offset, mv))
    }
}

/// Listed history tables never leave the accepted range.
pub proof fn lemma_table_history_bounded(h: &TableHistory)
    ensures
        history_bounded(h),
{
}

} // verus!
