//! Plain value types shared by the picker, the evaluator and the boards
//! they are run against.

use vstd::prelude::*;

pub mod bitboard_counter;

verus! {

/// Upper bound on the number of entries a [`MoveList`] holds.
pub const MAX_MOVES: usize = 256;

#[derive(Clone, Copy, Debug, PartialEq, Eq, Structural)]
pub enum Color {
    White,
    Black,
}

impl Color {
    pub open spec fn index_spec(self) -> int {
        match self {
            Color::White => 0,
            Color::Black => 1,
        }
    }

    /// 0 for white, 1 for black.
    pub fn index(self) -> (r: usize)
        ensures
            r == self.index_spec(),
    {
        match self {
            Color::White => 0,
            Color::Black => 1,
        }
    }

    pub open spec fn flipped(self) -> Color {
        match self {
            Color::White => Color::Black,
            Color::Black => Color::White,
        }
    }

    /// The other side.
    pub fn flip(self) -> (r: Color)
        ensures
            r == self.flipped(),
    {
        match self {
            Color::White => Color::Black,
            Color::Black => Color::White,
        }
    }
}

#[derive(Clone, Copy, Debug, PartialEq, Eq, Structural)]
pub enum PieceType {
    Pawn,
    Knight,
    Bishop,
    Rook,
    Queen,
    King,
    Empty,
}

impl PieceType {
    pub open spec fn index_spec(self) -> int {
        match self {
            PieceType::Pawn => 0,
            PieceType::Knight => 1,
            PieceType::Bishop => 2,
            PieceType::Rook => 3,
            PieceType::Queen => 4,
            PieceType::King => 5,
            PieceType::Empty => 6,
        }
    }

    /// Position of the type in the order pawn, knight, bishop, rook, queen,
    /// king, empty.
    pub fn index(self) -> (r: usize)
        ensures
            r == self.index_spec(),
    {
        match self {
            PieceType::Pawn => 0,
            PieceType::Knight => 1,
            PieceType::Bishop => 2,
            PieceType::Rook => 3,
            PieceType::Queen => 4,
            PieceType::King => 5,
            PieceType::Empty => 6,
        }
    }

    pub open spec fn value_spec(self) -> int {
        match self {
            PieceType::Pawn => 100,
            PieceType::Knight => 375,
            PieceType::Bishop => 400,
            PieceType::Rook => 625,
            PieceType::Queen => 1200,
            PieceType::King => 0,
            PieceType::Empty => 0,
        }
    }

    /// Material value used to order captures.
    pub fn value(self) -> (r: i32)
        ensures
            r == self.value_spec(),
            0 <= r <= 1200,
    {
        match self {
            PieceType::Pawn => 100,
            PieceType::Knight => 375,
            PieceType::Bishop => 400,
            PieceType::Rook => 625,
            PieceType::Queen => 1200,
            PieceType::King => 0,
            PieceType::Empty => 0,
        }
    }
}

/// A coloured piece, or the empty square when `piece_type` is `Empty`.
#[derive(Clone, Copy, Debug, PartialEq, Eq, Structural)]
pub struct Piece {
    pub color: Color,
    pub piece_type: PieceType,
}

impl Piece {
    pub open spec fn none_spec() -> Piece {
        Piece { color: Color::White, piece_type: PieceType::Empty }
    }

    /// The empty square.
    pub fn none() -> (r: Piece)
        ensures
            r == Piece::none_spec(),
    {
        Piece { color: Color::White, piece_type: PieceType::Empty }
    }

    pub fn new(color: Color, piece_type: PieceType) -> (r: Piece)
        ensures
            r == (Piece { color, piece_type }),
    {
        Piece { color, piece_type }
    }

    pub fn piece_type(self) -> (r: PieceType)
        ensures
            r == self.piece_type,
    {
        self.piece_type
    }

    pub open spec fn index_spec(self) -> int {
        2 * self.piece_type.index_spec() + self.color.index_spec()
    }

    /// Position in the order white pawn, black pawn, white knight, ...,
    /// black king; 12 and 13 stand for the empty square.
    pub fn index(self) -> (r: usize)
        ensures
            r == self.index_spec(),
            r < 14,
    {
        2 * self.piece_type.index() + self.color.index()
    }
}

#[derive(Clone, Copy, Debug, PartialEq, Eq, Structural)]
pub enum MoveFlag {
    Quiet,
    Capture,
    EnPassant,
    Castling,
}

/// A move: origin and target square (0..64), the piece promoted to
/// (`PieceType::Empty` when the move does not promote) and what kind of move
/// it is.
#[derive(Clone, Copy, Debug, PartialEq, Eq, Structural)]
pub struct Move {
    pub from: u8,
    pub to: u8,
    pub promotion: PieceType,
    pub flag: MoveFlag,
}

impl Move {
    pub open spec fn null_spec() -> Move {
        Move { from: 0, to: 0, promotion: PieceType::Empty, flag: MoveFlag::Quiet }
    }

    /// The sentinel that stands for "no move".
    pub fn null() -> (r: Move)
        ensures
            r == Move::null_spec(),
    {
        Move { from: 0, to: 0, promotion: PieceType::Empty, flag: MoveFlag::Quiet }
    }

    pub fn new(from: u8, to: u8, promotion: PieceType, flag: MoveFlag) -> (r: Move)
        ensures
            r == (Move { from, to, promotion, flag }),
    {
        Move { from, to, promotion, flag }
    }

    /// A move without promotion.
    pub fn plain(from: u8, to: u8, flag: MoveFlag) -> (r: Move)
        ensures
            r == (Move { from, to, promotion: PieceType::Empty, flag }),
    {
        Move { from, to, promotion: PieceType::Empty, flag }
    }

    pub open spec fn is_some_spec(self) -> bool {
        self != Move::null_spec()
    }

    /// Whether this is a move rather than the sentinel.
    pub fn is_some(self) -> (r: bool)
        ensures
            r == self.is_some_spec(),
    {
        self != Move::null()
    }

    pub fn from(self) -> (r: u8)
        ensures
            r == self.from,
    {
        self.from
    }

    pub fn to(self) -> (r: u8)
        ensures
            r == self.to,
    {
        self.to
    }

    pub open spec fn is_en_passant_spec(self) -> bool {
        self.flag == MoveFlag::EnPassant
    }

    pub fn is_en_passant(self) -> (r: bool)
        ensures
            r == self.is_en_passant_spec(),
    {
        self.flag == MoveFlag::EnPassant
    }

    /// Captures, en-passant captures and promotions are noisy; every other
    /// move is quiet.
    pub open spec fn is_noisy_spec(self) -> bool {
        self.flag == MoveFlag::Capture || self.flag == MoveFlag::EnPassant || self.promotion
            != PieceType::Empty
    }

    pub fn is_noisy(self) -> (r: bool)
        ensures
            r == self.is_noisy_spec(),
    {
        self.flag == MoveFlag::Capture || self.flag == MoveFlag::EnPassant || self.promotion
            != PieceType::Empty
    }
}

/// A move with the score it is ordered by.
#[derive(Clone, Copy, Debug, PartialEq, Eq, Structural)]
pub struct ScoredMove {
    pub mv: Move,
    pub score: i32,
}

/// The moves of a sequence of scored moves, scores dropped.
pub open spec fn moves_of(s: Seq<ScoredMove>) -> Seq<Move> {
    s.map_values(|e: ScoredMove| e.mv)
}

/// What is left of `s` after the entry at `index` is taken out and the last
/// entry moved into its place.
pub open spec fn swap_removed<T>(s: Seq<T>, index: int) -> Seq<T> {
    s.update(index, s.last()).drop_last()
}

/// A sequence of scored moves of at most `MAX_MOVES` entries.
pub struct MoveList {
    entries: Vec<ScoredMove>,
}

impl View for MoveList {
    type V = Seq<ScoredMove>;

    closed spec fn view(&self) -> Seq<ScoredMove> {
        self.entries@
    }
}

impl MoveList {
    /// The capacity bound.
    pub open spec fn wf(&self) -> bool {
        self@.len() <= MAX_MOVES
    }

    pub fn new() -> (r: MoveList)
        ensures
            r@ == Seq::<ScoredMove>::empty(),
            r.wf(),
    {
        MoveList { entries: Vec::new() }
    }

    pub fn len(&self) -> (r: usize)
        ensures
            r == self@.len(),
    {
        self.entries.len()
    }

    pub fn is_empty(&self) -> (r: bool)
        ensures
            r == (self@.len() == 0),
    {
        self.entries.len() == 0
    }

    /// Appends `mv` with score 0.
    pub fn push(&mut self, mv: Move)
        requires
            old(self)@.len() < MAX_MOVES,
        ensures
            final(self)@ == old(self)@.push(ScoredMove { mv, score: 0 }),
            final(self).wf(),
    {
        self.entries.push(ScoredMove { mv, score: 0 });
    }

    pub fn get(&self, index: usize) -> (r: ScoredMove)
        requires
            index < self@.len(),
        ensures
            r == self@[index as int],
    {
        self.entries[index]
    }

    /// Replaces the score of the entry at `index`.
    pub fn set_score(&mut self, index: usize, score: i32)
        requires
            index < old(self)@.len(),
        ensures
            final(self)@ == old(self)@.update(
                index as int,
                ScoredMove { mv: old(self)@[index as int].mv, score },
            ),
    {
        let mv = self.entries[index].mv;
        self.entries.set(index, ScoredMove { mv, score });
    }

    /// Takes the entry at `index` out; the last entry moves into its place.
    pub fn remove(&mut self, index: usize) -> (r: ScoredMove)
        requires
            index < old(self)@.len(),
        ensures
            r == old(self)@[index as int],
            final(self)@ == swap_removed(old(self)@, index as int),
    {
        self.entries.swap_remove(index)
    }

    /// The moves in list order.
    pub fn moves(&self) -> (r: Vec<Move>)
        ensures
            r@ == moves_of(self@),
    {
        let mut out: Vec<Move> = Vec::new();
        let mut i: usize = 0;
        while i < self.entries.len()
            invariant
                i <= self.entries.len(),
                out@ == moves_of(self@.take(i as int)),
            decreases self.entries.len() - i,
        {
            out.push(self.entries[i].mv);
            assert(self@.take(i + 1) == self@.take(i as int).push(self@[i as int]));
            i += 1;
        }
        assert(self@.take(i as int) == self@);
        out
    }
}

} // verus!
