use search_core::board::ThreadData;
use search_core::movepick::{MovePicker, Stage};
use search_core::table::{Continuation, Rated, TableBoard, TableHistory};
use search_core::board::Board;
use search_core::types::{Color, Move, MoveFlag, Piece, PieceType, ScoredMove};

fn capture(from: u8, to: u8) -> Move {
    Move::plain(from, to, MoveFlag::Capture)
}

fn quiet(from: u8, to: u8) -> Move {
    Move::plain(from, to, MoveFlag::Quiet)
}

fn empty_history() -> TableHistory {
    TableHistory { capture: vec![], butterfly: vec![], continuation: vec![] }
}

/// A board with white pieces on the origin squares, a black piece of the
/// given type on each capture's target square, and the given exchange values.
fn board(noisy: Vec<(Move, PieceType, i32)>, quiets: Vec<Move>) -> TableBoard {
    let mut pieces = vec![Piece::none(); 64];
    let mut exchange = Vec::new();
    let mut moves = Vec::new();
    for (mv, victim, value) in &noisy {
        pieces[mv.from as usize] = Piece::new(Color::White, PieceType::Knight);
        pieces[mv.to as usize] = Piece::new(Color::Black, *victim);
        exchange.push(Rated { mv: *mv, value: *value });
        moves.push(*mv);
    }
    for mv in &quiets {
        pieces[mv.from as usize] = Piece::new(Color::White, PieceType::Knight);
    }
    TableBoard {
        pieces,
        side: Color::White,
        in_check: false,
        threats: 0,
        noisy: moves,
        quiet: quiets,
        exchange,
    }
}

fn drain<const ROOT: bool>(
    picker: &mut MovePicker,
    td: &ThreadData<TableBoard, TableHistory>,
    skip_quiets: bool,
) -> Vec<Move> {
    assert!(td.board.fits());
    let mut out = Vec::new();
    while let Some(mv) = picker.next::<ROOT, _, _>(td, skip_quiets, 0) {
        out.push(mv);
        assert!(out.len() <= 600);
    }
    out
}

#[test]
fn hash_move_comes_first_and_only_once() {
    let tt = capture(1, 10);
    let other = capture(2, 11);
    let td = ThreadData {
        board: board(
            vec![(other, PieceType::Pawn, 100), (tt, PieceType::Queen, 1200)],
            vec![quiet(3, 12)],
        ),
        history: empty_history(),
    };
    let mut picker = MovePicker::new(tt);
    assert!(picker.stage() == Stage::HashMove);
    assert_eq!(picker.next::<false, _, _>(&td, false, 0), Some(tt));
    assert!(picker.stage() == Stage::GenerateNoisy);
    assert_eq!(picker.next::<false, _, _>(&td, false, 0), Some(other));
    assert!(picker.stage() == Stage::GoodNoisy);
    let rest = drain::<false>(&mut picker, &td, false);
    assert_eq!(rest, vec![quiet(3, 12)]);
    assert!(!rest.contains(&tt));
    assert_eq!(picker.next::<false, _, _>(&td, false, 0), None);
}

#[test]
fn hash_move_that_is_not_pseudo_legal_is_not_yielded() {
    let tt = capture(7, 8);
    let td = ThreadData {
        board: board(vec![(capture(2, 11), PieceType::Pawn, 100)], vec![]),
        history: empty_history(),
    };
    let mut picker = MovePicker::new(tt);
    assert_eq!(drain::<false>(&mut picker, &td, false), vec![capture(2, 11)]);
}

#[test]
fn null_hash_move_starts_with_generation() {
    let picker = MovePicker::new(Move::null());
    assert!(picker.stage() == Stage::GenerateNoisy);
    assert!(MovePicker::new_qsearch().stage() == Stage::GenerateNoisy);
    assert!(MovePicker::new_probcut(5).stage() == Stage::GenerateNoisy);
}

#[test]
fn probcut_yields_only_captures_that_reach_the_threshold() {
    // The first capture scores 16 * 100 + 7491 = 9091, for which the picker's
    // own threshold would be -9091 / 46 + 109 = -88.
    let weak = capture(1, 10);
    let strong = capture(2, 11);
    let exact = capture(3, 12);
    let td = ThreadData {
        board: board(
            vec![
                (weak, PieceType::Pawn, 199),
                (strong, PieceType::Rook, 500),
                (exact, PieceType::Knight, 200),
            ],
            vec![quiet(4, 13)],
        ),
        history: TableHistory {
            capture: vec![Rated { mv: weak, value: 7491 }],
            butterfly: vec![],
            continuation: vec![],
        },
    };
    let mut picker = MovePicker::new_probcut(200);
    assert_eq!(picker.next::<false, _, _>(&td, true, 0), Some(strong));
    assert_eq!(picker.next::<false, _, _>(&td, true, 0), Some(exact));
    // The capture that fell short comes back as a bad capture.
    assert_eq!(picker.next::<false, _, _>(&td, true, 0), Some(weak));
    assert_eq!(picker.next::<false, _, _>(&td, true, 0), None);

    // Left to itself the picker asks -88 of the weak capture and lets it pass.
    let mut plain = MovePicker::new_qsearch();
    assert_eq!(drain::<false>(&mut plain, &td, true), vec![strong, weak, exact]);
}

#[test]
fn losing_captures_come_after_the_quiets() {
    let a = capture(1, 10);
    let b = capture(2, 11);
    let c = capture(3, 12);
    let q1 = quiet(4, 20);
    let q2 = quiet(5, 21);
    let q3 = quiet(6, 22);
    let td = ThreadData {
        board: board(
            vec![
                (a, PieceType::Queen, -1000),
                (b, PieceType::Rook, -1000),
                (c, PieceType::Pawn, -1000),
            ],
            vec![q1, q2, q3],
        ),
        history: TableHistory {
            capture: vec![],
            butterfly: vec![
                Rated { mv: q1, value: 10240 },
                Rated { mv: q2, value: 30720 },
                Rated { mv: q3, value: 20480 },
            ],
            continuation: vec![],
        },
    };
    let mut picker = MovePicker::new(Move::null());
    assert_eq!(drain::<false>(&mut picker, &td, false), vec![q2, q3, q1, a, b, c]);
    assert!(picker.stage() == Stage::BadNoisy);
}

#[test]
fn skipping_quiets_yields_captures_only() {
    let a = capture(1, 10);
    let b = capture(2, 11);
    let td = ThreadData {
        board: board(
            vec![(a, PieceType::Pawn, -1000), (b, PieceType::Rook, 0)],
            vec![quiet(4, 20), quiet(5, 21)],
        ),
        history: empty_history(),
    };
    let mut picker = MovePicker::new_qsearch();
    let yielded = drain::<false>(&mut picker, &td, true);
    assert_eq!(yielded, vec![b, a]);
    assert!(yielded.iter().all(|mv| mv.is_noisy()));
}

#[test]
fn two_runs_yield_the_same_sequence() {
    let tt = quiet(5, 21);
    let make = || ThreadData {
        board: board(
            vec![
                (capture(1, 10), PieceType::Pawn, 0),
                (capture(2, 11), PieceType::Rook, -500),
                (capture(3, 12), PieceType::Pawn, 0),
            ],
            vec![quiet(4, 20), tt, quiet(6, 22)],
        ),
        history: TableHistory {
            capture: vec![Rated { mv: capture(3, 12), value: 50 }],
            butterfly: vec![Rated { mv: quiet(6, 22), value: 4000 }],
            continuation: vec![Continuation { offset: 2, mv: quiet(4, 20), value: -3000 }],
        },
    };
    let first = drain::<true>(&mut MovePicker::new(tt), &make(), false);
    let second = drain::<true>(&mut MovePicker::new(tt), &make(), false);
    assert_eq!(first, second);
    // Every capture falls short of its threshold (75, -108 and 74), so the
    // quiets come first and the captures after them, best score first.
    assert_eq!(
        first,
        vec![
            tt,
            quiet(6, 22),
            quiet(4, 20),
            capture(2, 11),
            capture(3, 12),
            capture(1, 10),
        ]
    );
}

#[test]
fn a_run_yields_every_pseudo_legal_move_once() {
    let noisy = vec![
        (capture(1, 10), PieceType::Pawn, 10),
        (capture(2, 11), PieceType::Rook, -500),
        (capture(3, 12), PieceType::Queen, -3),
        (Move::plain(8, 16, MoveFlag::EnPassant), PieceType::Empty, 0),
        (Move::new(48, 56, PieceType::Queen, MoveFlag::Quiet), PieceType::Empty, 0),
    ];
    let quiets = vec![quiet(4, 20), quiet(5, 21), Move::plain(6, 22, MoveFlag::Castling)];
    let td = ThreadData { board: board(noisy.clone(), quiets.clone()), history: empty_history() };
    let mut picker = MovePicker::new(capture(2, 11));
    let mut yielded = drain::<false>(&mut picker, &td, false);
    assert_eq!(yielded.len(), 8);
    for (mv, _, _) in &noisy {
        assert_eq!(yielded.iter().filter(|m| *m == mv).count(), 1);
    }
    for mv in &quiets {
        assert_eq!(yielded.iter().filter(|m| *m == mv).count(), 1);
    }
    yielded.retain(|mv| !td.board.noisy.contains(mv) && !td.board.quiet.contains(mv));
    assert!(yielded.is_empty());
}

#[test]
fn noisy_scores_add_sixteen_times_the_victim_to_the_history() {
    let pawn = capture(1, 10);
    let passing = Move::plain(2, 11, MoveFlag::EnPassant);
    let tt = capture(3, 12);
    let td = ThreadData {
        board: board(
            vec![
                (pawn, PieceType::Queen, 0),
                (passing, PieceType::Empty, 0),
                (tt, PieceType::Rook, 0),
            ],
            vec![],
        ),
        history: TableHistory {
            capture: vec![Rated { mv: pawn, value: -7 }, Rated { mv: passing, value: 300000 }],
            butterfly: vec![],
            continuation: vec![],
        },
    };
    let mut picker = MovePicker::new(tt);
    assert_eq!(picker.next::<false, _, _>(&td, false, 0), Some(tt));
    // en passant: 16 * 100 + 262144 (the table's cap); queen: 16 * 1200 - 7.
    assert_eq!(picker.next::<false, _, _>(&td, false, 0), Some(passing));
    assert_eq!(picker.next::<false, _, _>(&td, false, 0), Some(pawn));
    assert_eq!(picker.next::<false, _, _>(&td, false, 0), None);
}

#[test]
fn equal_scores_go_to_the_later_entry() {
    let a = quiet(1, 10);
    let b = quiet(2, 11);
    let c = quiet(3, 12);
    let td = ThreadData { board: board(vec![], vec![a, b, c]), history: empty_history() };
    let mut picker = MovePicker::new(Move::null());
    assert_eq!(drain::<false>(&mut picker, &td, false), vec![c, b, a]);
}

#[test]
fn quiet_scores_weigh_five_tables() {
    let a = quiet(1, 10);
    let b = quiet(2, 11);
    // a: (994 * 1000 + 1049 * 8) / 1024 = 978; b: (990 * 1000) / 1024 = 966.
    let td = ThreadData {
        board: board(vec![], vec![b, a]),
        history: TableHistory {
            capture: vec![],
            butterfly: vec![Rated { mv: a, value: 1000 }],
            continuation: vec![
                Continuation { offset: 1, mv: a, value: 8 },
                Continuation { offset: 2, mv: b, value: 1000 },
                Continuation { offset: 3, mv: b, value: 100000 },
            ],
        },
    };
    let mut picker = MovePicker::new(Move::null());
    assert_eq!(drain::<false>(&mut picker, &td, false), vec![a, b]);
}

#[test]
fn both_searches_for_the_best_entry_agree() {
    let noisy: Vec<(Move, PieceType, i32)> = (0..40u8)
        .map(|i| {
            let victim = [PieceType::Pawn, PieceType::Rook, PieceType::Knight][i as usize % 3];
            (capture(i, 63 - i), victim, 1000)
        })
        .collect();
    let td = ThreadData {
        board: board(noisy, vec![]),
        history: TableHistory {
            capture: (0..40u8)
                .map(|i| Rated { mv: capture(i, 63 - i), value: (i as i32 * 37) % 11 - 5 })
                .collect(),
            butterfly: vec![],
            continuation: vec![],
        },
    };
    let mut picker = MovePicker::new_qsearch();
    assert_eq!(picker.find_best_score_index(), 0);
    assert_eq!(picker.find_best_score_index_packed(), 0);
    let mut yielded = 0;
    while picker.next::<false, _, _>(&td, true, 0).is_some() {
        yielded += 1;
        assert_eq!(picker.find_best_score_index(), picker.find_best_score_index_packed());
    }
    assert_eq!(yielded, 40);
}

#[test]
fn noisy_entries_carry_their_scores() {
    let queen = capture(1, 10);
    let passing = Move::plain(2, 11, MoveFlag::EnPassant);
    let promotion = Move::new(48, 56, PieceType::Queen, MoveFlag::Quiet);
    let tt = capture(3, 12);
    let first = capture(4, 13);
    let td = ThreadData {
        board: board(
            vec![
                (first, PieceType::King, 0),
                (queen, PieceType::Queen, 0),
                (passing, PieceType::Empty, 0),
                (promotion, PieceType::Empty, 0),
                (tt, PieceType::Rook, 0),
            ],
            vec![],
        ),
        history: TableHistory {
            capture: vec![
                Rated { mv: queen, value: -7 },
                Rated { mv: passing, value: 41 },
                Rated { mv: first, value: 30000 },
            ],
            butterfly: vec![],
            continuation: vec![],
        },
    };
    let mut picker = MovePicker::new(tt);
    assert_eq!(picker.next::<false, _, _>(&td, false, 0), Some(tt));
    assert!(picker.entries().is_empty());
    assert_eq!(picker.next::<false, _, _>(&td, false, 0), Some(first));
    // The last entry has moved into the place of the one that was taken.
    assert_eq!(
        picker.entries(),
        vec![
            ScoredMove { mv: tt, score: i32::MIN },
            ScoredMove { mv: queen, score: 16 * 1200 - 7 },
            ScoredMove { mv: passing, score: 16 * 100 + 41 },
            ScoredMove { mv: promotion, score: 0 },
        ]
    );
}

#[test]
fn quiet_entries_carry_their_scores() {
    let a = quiet(1, 10);
    let b = quiet(2, 11);
    let c = quiet(3, 12);
    let first = quiet(4, 13);
    let td = ThreadData {
        board: board(vec![], vec![first, a, b, c]),
        history: TableHistory {
            capture: vec![],
            butterfly: vec![
                Rated { mv: first, value: 100_000 },
                Rated { mv: a, value: 1000 },
                Rated { mv: b, value: -1 },
                Rated { mv: c, value: 262144 },
            ],
            continuation: vec![
                Continuation { offset: 1, mv: a, value: 100 },
                Continuation { offset: 2, mv: a, value: 10 },
                Continuation { offset: 4, mv: a, value: -1000 },
                Continuation { offset: 6, mv: a, value: 1 },
                Continuation { offset: 6, mv: b, value: -1 },
                Continuation { offset: 1, mv: c, value: 262144 },
                Continuation { offset: 2, mv: c, value: 262144 },
                Continuation { offset: 4, mv: c, value: 262144 },
                Continuation { offset: 6, mv: c, value: 262144 },
            ],
        },
    };
    let mut picker = MovePicker::new(c);
    picker.score_quiet(&td, 0);
    assert!(picker.entries().is_empty());

    let mut picker = MovePicker::new(Move::null());
    assert_eq!(picker.next::<false, _, _>(&td, false, 0), Some(c));
    assert_eq!(
        picker.entries(),
        vec![
            ScoredMove { mv: first, score: 994 * 100_000 / 1024 },
            // (994000 + 104900 + 9900 - 969000 + 1088) / 1024
            ScoredMove { mv: a, score: 137 },
            // (-994 - 1088) / 1024 rounds toward zero
            ScoredMove { mv: b, score: -2 },
        ]
    );
    let mut hashed = MovePicker::new(first);
    assert_eq!(hashed.next::<false, _, _>(&td, false, 0), Some(first));
    assert_eq!(hashed.next::<false, _, _>(&td, false, 0), Some(c));
    // 5090 * 262144 / 1024 was the score of the move just taken.
    assert_eq!(
        hashed.entries(),
        vec![
            ScoredMove { mv: first, score: i32::MIN },
            ScoredMove { mv: a, score: 137 },
            ScoredMove { mv: b, score: -2 },
        ]
    );
}

#[test]
fn the_threshold_falls_as_the_score_rises() {
    // A pawn capture scores 1600 and must reach -1600 / 46 + 109 = 75.
    for (value, passes) in [(75, true), (74, false), (1000, true), (-1, false)] {
        let mv = capture(1, 10);
        let td = ThreadData {
            board: board(vec![(mv, PieceType::Pawn, value)], vec![quiet(2, 11)]),
            history: empty_history(),
        };
        let mut picker = MovePicker::new_qsearch();
        let yielded = drain::<false>(&mut picker, &td, false);
        if passes {
            assert_eq!(yielded, vec![mv, quiet(2, 11)]);
            assert!(picker.set_aside().is_empty());
        } else {
            assert_eq!(yielded, vec![quiet(2, 11), mv]);
            assert_eq!(picker.set_aside(), vec![mv]);
        }
    }
    // A negative score raises the threshold: -(-262144) / 46 + 109 = 5807.
    for (value, passes) in [(5807, true), (5806, false)] {
        let mv = Move::new(48, 56, PieceType::Queen, MoveFlag::Quiet);
        let td = ThreadData {
            board: board(vec![(mv, PieceType::Empty, value)], vec![]),
            history: TableHistory {
                capture: vec![Rated { mv, value: -300_000 }],
                butterfly: vec![],
                continuation: vec![],
            },
        };
        let mut picker = MovePicker::new_qsearch();
        assert_eq!(picker.next::<false, _, _>(&td, false, 0), Some(mv));
        assert_eq!(picker.set_aside().is_empty(), passes);
    }
}

#[test]
fn what_is_set_aside_failed_its_exchange() {
    let noisy: Vec<(Move, PieceType, i32)> = (0..30u8)
        .map(|i| {
            let victim = [PieceType::Pawn, PieceType::Queen, PieceType::Bishop][i as usize % 3];
            (capture(i, 63 - i), victim, (i as i32 * 53) % 400 - 200)
        })
        .collect();
    let td = ThreadData { board: board(noisy.clone(), vec![]), history: empty_history() };
    let mut picker = MovePicker::new_qsearch();
    let yielded = drain::<false>(&mut picker, &td, false);
    let set_aside = picker.set_aside();
    assert_eq!(yielded.len(), 30);
    assert!(!set_aside.is_empty() && set_aside.len() < 30);
    for (mv, victim, _) in &noisy {
        let threshold = -(16 * victim.value()) / 46 + 109;
        assert_eq!(set_aside.contains(mv), !td.board.see(*mv, threshold));
    }
    // The captures that passed come first, the others last and in the order
    // they were set aside.
    assert_eq!(&yielded[30 - set_aside.len()..], &set_aside[..]);

    let mut probcut = MovePicker::new_probcut(100);
    let yielded = drain::<false>(&mut probcut, &td, true);
    assert_eq!(yielded.len(), 30);
    for (mv, _, value) in &noisy {
        assert_eq!(probcut.set_aside().contains(mv), *value < 100);
    }
}

#[test]
fn at_the_root_the_list_is_scored_again_after_each_yield() {
    let a = quiet(1, 10);
    let b = quiet(2, 11);
    let c = quiet(3, 12);
    let d = quiet(4, 13);
    let with = |ratings: Vec<(Move, i32)>| ThreadData {
        board: board(vec![], vec![a, b, c, d]),
        history: TableHistory {
            capture: vec![],
            butterfly: ratings.into_iter().map(|(mv, value)| Rated { mv, value }).collect(),
            continuation: vec![],
        },
    };
    let before = with(vec![(a, 4000), (b, 3000), (c, 2000), (d, 1000)]);
    let after = with(vec![(a, 4000), (b, 3000), (c, 2000), (d, 9000)]);

    let mut root = MovePicker::new(Move::null());
    assert_eq!(root.next::<true, _, _>(&before, false, 0), Some(a));
    // Picked by the scores of the last scoring, then scored with the new tables.
    assert_eq!(root.next::<true, _, _>(&after, false, 0), Some(b));
    assert_eq!(root.next::<true, _, _>(&after, false, 0), Some(d));
    assert_eq!(root.next::<true, _, _>(&after, false, 0), Some(c));
    assert_eq!(root.next::<true, _, _>(&after, false, 0), None);

    let mut inner = MovePicker::new(Move::null());
    assert_eq!(inner.next::<false, _, _>(&before, false, 0), Some(a));
    assert_eq!(drain::<false>(&mut inner, &after, false), vec![b, c, d]);
}

#[test]
fn quiets_can_be_skipped_in_the_middle_of_a_run() {
    let td = ThreadData {
        board: board(
            vec![(capture(1, 10), PieceType::Pawn, -1000), (capture(2, 11), PieceType::Rook, 0)],
            vec![quiet(4, 20), quiet(5, 21), quiet(6, 22)],
        ),
        history: empty_history(),
    };
    let mut picker = MovePicker::new_qsearch();
    assert_eq!(picker.next::<false, _, _>(&td, false, 0), Some(capture(2, 11)));
    assert_eq!(picker.next::<false, _, _>(&td, false, 0), Some(quiet(6, 22)));
    assert!(picker.stage() == Stage::Quiet);
    // From here on no quiet move comes any more.
    assert_eq!(drain::<false>(&mut picker, &td, true), vec![capture(1, 10)]);
    assert!(picker.stage() == Stage::BadNoisy);
    assert_eq!(picker.entries().len(), 2);
}

#[test]
fn an_exhausted_picker_stays_exhausted() {
    let td = ThreadData { board: board(vec![], vec![]), history: empty_history() };
    for mut picker in [MovePicker::new(capture(1, 2)), MovePicker::new_qsearch()] {
        for _ in 0..3 {
            assert_eq!(picker.next::<true, _, _>(&td, false, 0), None);
            assert!(picker.stage() == Stage::BadNoisy);
        }
    }
    assert!(Stage::HashMove < Stage::GenerateNoisy && Stage::Quiet < Stage::BadNoisy);
}

#[test]
fn full_move_lists_are_handled() {
    let noisy: Vec<(Move, PieceType, i32)> = (0..256u32)
        .map(|i| {
            let mv = Move::new((i % 64) as u8, (i / 64) as u8, PieceType::Queen, MoveFlag::Capture);
            (mv, PieceType::Pawn, if i % 2 == 0 { 1000 } else { -1000 })
        })
        .collect();
    let quiets: Vec<Move> =
        (0..256u32).map(|i| Move::plain((i % 64) as u8, 32 + (i / 64) as u8, MoveFlag::Quiet)).collect();
    let td = ThreadData { board: board(noisy, quiets), history: empty_history() };
    let mut picker = MovePicker::new(Move::null());
    let yielded = drain::<true>(&mut picker, &td, false);
    assert_eq!(yielded.len(), 512);
    assert!(yielded[..128].iter().all(|mv| mv.is_noisy()));
    assert!(yielded[128..384].iter().all(|mv| !mv.is_noisy()));
    assert!(yielded[384..].iter().all(|mv| mv.is_noisy()));
    assert_eq!(picker.set_aside().len(), 128);
    let mut sorted = yielded.clone();
    sorted.sort_by_key(|mv| (mv.is_noisy(), mv.from, mv.to));
    sorted.dedup();
    assert_eq!(sorted.len(), 512);
}
