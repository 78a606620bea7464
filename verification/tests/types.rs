use search_core::board::{Board, History};
use search_core::prehistory::Prehistory;
use search_core::table::{Continuation, Rated, TableBoard, TableHistory};
use search_core::types::{Color, Move, MoveFlag, MoveList, Piece, PieceType, ScoredMove};

#[test]
fn moves_know_what_they_are() {
    assert!(!Move::null().is_some());
    assert!(Move::plain(0, 1, MoveFlag::Quiet).is_some());
    assert!(Move::plain(0, 0, MoveFlag::Capture).is_some());
    let capture = Move::plain(12, 21, MoveFlag::Capture);
    assert_eq!((capture.from(), capture.to()), (12, 21));
    assert!(capture.is_noisy() && !capture.is_en_passant());
    let passing = Move::plain(32, 41, MoveFlag::EnPassant);
    assert!(passing.is_noisy() && passing.is_en_passant());
    assert!(Move::new(48, 56, PieceType::Knight, MoveFlag::Quiet).is_noisy());
    assert!(!Move::plain(4, 6, MoveFlag::Castling).is_noisy());
    assert!(!Move::plain(8, 24, MoveFlag::Quiet).is_noisy());
}

#[test]
fn pieces_have_values_and_indices() {
    let values: Vec<i32> = [
        PieceType::Pawn,
        PieceType::Knight,
        PieceType::Bishop,
        PieceType::Rook,
        PieceType::Queen,
        PieceType::King,
        PieceType::Empty,
    ]
    .iter()
    .map(|t| t.value())
    .collect();
    assert_eq!(values, vec![100, 375, 400, 625, 1200, 0, 0]);
    assert_eq!(Piece::new(Color::White, PieceType::Pawn).index(), 0);
    assert_eq!(Piece::new(Color::Black, PieceType::Pawn).index(), 1);
    assert_eq!(Piece::new(Color::Black, PieceType::King).index(), 11);
    assert_eq!(Piece::none().index(), 12);
    assert_eq!(Piece::none().piece_type(), PieceType::Empty);
    assert_eq!(Color::White.flip(), Color::Black);
    assert_eq!(Color::Black.flip().index(), 0);
}

#[test]
fn move_lists_remove_by_swapping_in_the_last_entry() {
    let mut list = MoveList::new();
    assert!(list.is_empty());
    let moves: Vec<Move> = (0..5).map(|i| Move::plain(i, i + 8, MoveFlag::Quiet)).collect();
    for &mv in &moves {
        list.push(mv);
    }
    assert_eq!(list.len(), 5);
    assert_eq!(list.moves(), moves);
    list.set_score(1, -7);
    assert_eq!(list.get(1), ScoredMove { mv: moves[1], score: -7 });
    assert_eq!(list.get(2), ScoredMove { mv: moves[2], score: 0 });
    assert_eq!(list.remove(1), ScoredMove { mv: moves[1], score: -7 });
    assert_eq!(list.moves(), vec![moves[0], moves[4], moves[2], moves[3]]);
    assert_eq!(list.remove(3).mv, moves[3]);
    assert_eq!(list.moves(), vec![moves[0], moves[4], moves[2]]);
    assert_eq!(list.len(), 3);
}

fn sample_board() -> TableBoard {
    let mut pieces = vec![Piece::none(); 64];
    pieces[12] = Piece::new(Color::White, PieceType::Bishop);
    pieces[21] = Piece::new(Color::Black, PieceType::Rook);
    TableBoard {
        pieces,
        side: Color::Black,
        in_check: true,
        threats: 77,
        noisy: vec![Move::plain(12, 21, MoveFlag::Capture)],
        quiet: vec![Move::plain(12, 19, MoveFlag::Quiet)],
        exchange: vec![
            Rated { mv: Move::plain(12, 21, MoveFlag::Capture), value: 225 },
            Rated { mv: Move::plain(12, 21, MoveFlag::Capture), value: -9 },
        ],
    }
}

#[test]
fn table_boards_answer_from_their_listings() {
    let board = sample_board();
    let capture = Move::plain(12, 21, MoveFlag::Capture);
    assert!(board.is_pseudo_legal(capture));
    assert!(board.is_pseudo_legal(Move::plain(12, 19, MoveFlag::Quiet)));
    assert!(!board.is_pseudo_legal(Move::plain(12, 19, MoveFlag::Capture)));
    assert!(board.see(capture, 225));
    assert!(!board.see(capture, 226));
    assert!(board.see(Move::plain(1, 2, MoveFlag::Quiet), 0));
    assert!(!board.see(Move::plain(1, 2, MoveFlag::Quiet), 1));
    assert_eq!(board.piece_on(21), Piece::new(Color::Black, PieceType::Rook));
    assert_eq!(board.piece_on(200), Piece::none());
    assert_eq!(board.moved_piece(capture), Piece::new(Color::White, PieceType::Bishop));
    assert_eq!(board.threats(), 77);
    assert_eq!(board.side_to_move(), Color::Black);
    assert!(board.in_check());
    assert!(board.fits());

    let mut list = MoveList::new();
    list.push(Move::plain(1, 2, MoveFlag::Quiet));
    board.append_noisy_moves(&mut list);
    board.append_quiet_moves(&mut list);
    assert_eq!(
        list.moves(),
        vec![Move::plain(1, 2, MoveFlag::Quiet), capture, Move::plain(12, 19, MoveFlag::Quiet)]
    );

    assert!(board.consistent());
    let mut mislabelled = sample_board();
    mislabelled.quiet.push(Move::plain(3, 4, MoveFlag::EnPassant));
    assert!(!mislabelled.consistent());
    let mut mislabelled = sample_board();
    mislabelled.noisy.insert(0, Move::plain(3, 4, MoveFlag::Castling));
    assert!(!mislabelled.consistent());

    let mut crowded = sample_board();
    crowded.quiet = vec![Move::plain(1, 2, MoveFlag::Quiet); 257];
    assert!(!crowded.fits());
}

#[test]
fn table_histories_answer_from_their_listings() {
    let a = Move::plain(1, 10, MoveFlag::Quiet);
    let b = Move::plain(2, 10, MoveFlag::Capture);
    let history = TableHistory {
        capture: vec![Rated { mv: a, value: 300 }, Rated { mv: b, value: 5 }],
        butterfly: vec![Rated { mv: a, value: -400_000 }, Rated { mv: b, value: 400_000 }],
        continuation: vec![
            Continuation { offset: 1, mv: a, value: 11 },
            Continuation { offset: 2, mv: a, value: 22 },
            Continuation { offset: 2, mv: a, value: 33 },
        ],
    };
    let piece = Piece::new(Color::White, PieceType::Knight);
    // The capture history goes by the target square: the first listing wins.
    assert_eq!(history.noisy_history(0, piece, 10, PieceType::Pawn), 300);
    assert_eq!(history.noisy_history(0, piece, 11, PieceType::Pawn), 0);
    // Values are brought into the accepted range.
    assert_eq!(history.quiet_history(0, Color::White, a), -262144);
    assert_eq!(history.quiet_history(0, Color::White, b), 262144);
    assert_eq!(history.quiet_history(0, Color::White, Move::null()), 0);
    assert_eq!(history.conthist(0, 1, a), 11);
    assert_eq!(history.conthist(5, 2, a), 22);
    assert_eq!(history.conthist(0, 4, a), 0);
    assert_eq!(history.conthist(0, 1, b), 0);
}

#[test]
fn prehistory_records_the_move_and_its_position() {
    let board = sample_board();
    let capture = Move::plain(12, 21, MoveFlag::Capture);
    let record = Prehistory::new(&board, capture);
    assert_eq!(record.mv, capture);
    assert!(record.in_check);
    assert_eq!(record.moved_piece, Piece::new(Color::White, PieceType::Bishop));
    let mut calm = sample_board();
    calm.in_check = false;
    let record = Prehistory::new(&calm, Move::plain(21, 12, MoveFlag::Capture));
    assert!(!record.in_check);
    assert_eq!(record.moved_piece, Piece::new(Color::Black, PieceType::Rook));
}
