//! The staged move picker: hash move, winning captures, quiet moves by
//! history, then the captures that lost their exchange.

use vstd::prelude::*;

pub mod order;
pub mod progress;
pub mod run;

use crate::board::{generation_fits, history_bounded, Board, History, ThreadData, MAX_HISTORY};
use crate::types::{moves_of, swap_removed, Move, MoveList, PieceType, ScoredMove, MAX_MOVES};

verus! {

/// The stages of a picker, in the order it goes through them.
#[derive(Copy, Clone, Debug, Eq, PartialEq, PartialOrd, Structural)]
pub enum Stage {
    HashMove,
    GenerateNoisy,
    GoodNoisy,
    GenerateQuiet,
    Quiet,
    BadNoisy,
}

/// The picker as a mathematical value.
pub struct PickerState {
    pub list: Seq<ScoredMove>,
    pub tt_move: Move,
    pub threshold: Option<i32>,
    pub stage: Stage,
    pub bad_noisy: Seq<Move>,
    pub bad_noisy_idx: nat,
}

impl PickerState {
    /// What every picker satisfies between calls.
    pub open spec fn wf(self) -> bool {
        &&& self.list.len() <= MAX_MOVES
        &&& self.bad_noisy.len() <= MAX_MOVES
        &&& self.bad_noisy_idx <= self.bad_noisy.len()
        &&& forall|i: int|
            0 <= i < self.list.len() && self.list[i].mv != self.tt_move
                ==> #[trigger] self.list[i].score > i32::MIN
        &&& (self.stage == Stage::HashMove || self.stage == Stage::GenerateNoisy
            || self.stage == Stage::GenerateQuiet) ==> self.list.len() == 0
        &&& (self.stage == Stage::HashMove || self.stage == Stage::GenerateNoisy)
            ==> self.bad_noisy.len() == 0
        &&& self.stage == Stage::GoodNoisy ==> self.list.len() + self.bad_noisy.len()
            <= MAX_MOVES
    }
}

/// Quotient rounded toward zero, for a positive divisor.
pub open spec fn trunc_div(a: int, b: int) -> int {
    if a >= 0 {
        a / b
    } else {
        -((-a) / b)
    }
}

/// The piece type a noisy move takes off the board.
pub open spec fn captured_type<B: Board>(board: &B, mv: Move) -> PieceType {
    if mv.is_en_passant_spec() {
        PieceType::Pawn
    } else {
        board.piece_at(mv.to).piece_type
    }
}

/// Score of a noisy move: the hash move sinks to the bottom, any other
/// scores sixteen times the captured piece's value plus its capture history.
pub open spec fn noisy_score<B: Board, H: History>(
    td: &ThreadData<B, H>,
    tt_move: Move,
    mv: Move,
) -> int {
    if mv == tt_move {
        i32::MIN as int
    } else {
        let captured = captured_type(&td.board, mv);
        16 * captured.value_spec() + td.history.noisy_value(
            td.board.threat_key(),
            td.board.mover(mv),
            mv.to,
            captured,
        )
    }
}

/// Score of a quiet move: the hash move sinks to the bottom, any other
/// scores a weighted sum of its butterfly history and four continuation
/// histories, over 1024.
pub open spec fn quiet_score<B: Board, H: History>(
    td: &ThreadData<B, H>,
    tt_move: Move,
    ply: isize,
    mv: Move,
) -> int {
    if mv == tt_move {
        i32::MIN as int
    } else {
        trunc_div(
            994 * td.history.quiet_value(td.board.threat_key(), td.board.turn(), mv) + 1049
                * td.history.continuation_value(ply, 1, mv) + 990 * td.history.continuation_value(
                ply,
                2,
                mv,
            ) + 969 * td.history.continuation_value(ply, 4, mv) + 1088
                * td.history.continuation_value(ply, 6, mv),
            1024,
        )
    }
}

/// The entries of `list`, each with its noisy score.
pub open spec fn rescored_noisy<B: Board, H: History>(
    td: &ThreadData<B, H>,
    tt_move: Move,
    list: Seq<ScoredMove>,
) -> Seq<ScoredMove> {
    list.map_values(
        |e: ScoredMove| ScoredMove { mv: e.mv, score: noisy_score(td, tt_move, e.mv) as i32 },
    )
}

/// The entries of `list`, each with its quiet score.
pub open spec fn rescored_quiet<B: Board, H: History>(
    td: &ThreadData<B, H>,
    tt_move: Move,
    ply: isize,
    list: Seq<ScoredMove>,
) -> Seq<ScoredMove> {
    list.map_values(
        |e: ScoredMove| ScoredMove { mv: e.mv, score: quiet_score(td, tt_move, ply, e.mv) as i32 },
    )
}

/// `moves` as list entries; the scores are placeholders.
pub open spec fn unscored(moves: Seq<Move>) -> Seq<ScoredMove> {
    moves.map_values(|m: Move| ScoredMove { mv: m, score: 0 })
}

/// The exchange threshold a capture with `score` must reach: the caller's
/// in ProbCut mode, otherwise one that rises as the score falls.
pub open spec fn see_threshold(threshold: Option<i32>, score: i32) -> i32 {
    match threshold {
        Some(t) => t,
        None => (trunc_div(-(score as int), 46) + 109) as i32,
    }
}

/// Index of the entry picked next: the last one among those of highest
/// score (0 for the empty list).
pub open spec fn best_index(list: Seq<ScoredMove>) -> int
    decreases list.len(),
{
    if list.len() <= 1 {
        0
    } else {
        let b = best_index(list.drop_last());
        if list.last().score >= list[b].score {
            list.len() - 1
        } else {
            b
        }
    }
}

/// `i` names the last entry among those of highest score.
pub open spec fn is_best(list: Seq<ScoredMove>, i: int) -> bool {
    &&& 0 <= i < list.len()
    &&& forall|j: int| 0 <= j < list.len() ==> (#[trigger] list[j]).score <= list[i].score
    &&& forall|j: int| i < j < list.len() ==> (#[trigger] list[j]).score < list[i].score
}

/// On a list that is not empty, `best_index` names the last entry among
/// those of highest score.
pub proof fn lemma_best_index(list: Seq<ScoredMove>)
    requires
        list.len() > 0,
    ensures
        is_best(list, best_index(list)),
    decreases list.len(),
{
    if list.len() > 1 {
        let front = list.drop_last();
        lemma_best_index(front);
        let b = best_index(front);
        assert(front[b] == list[b]);
        let best = best_index(list);
        assert forall|j: int| 0 <= j < list.len() implies (#[trigger] list[j]).score
            <= list[best].score by {
            if j < list.len() - 1 {
                assert(front[j] == list[j]);
            }
        }
        assert forall|j: int| best < j < list.len() implies (#[trigger] list[j]).score
            < list[best].score by {
            if j < list.len() - 1 {
                assert(front[j] == list[j]);
            }
        }
    }
}

/// Only one index is best.
pub proof fn lemma_best_index_unique(list: Seq<ScoredMove>, i: int)
    requires
        is_best(list, i),
    ensures
        i == best_index(list),
{
    lemma_best_index(list);
    let b = best_index(list);
    if i < b {
        assert(list[b].score < list[i].score);
        assert(list[b].score <= list[i].score);
    } else if b < i {
        assert(list[i].score < list[b].score);
        assert(list[i].score <= list[b].score);
    }
}

/// A score and an index below 2^32 as one number, the score in the high
/// half.
pub open spec fn packed_key(score: i32, index: int) -> int {
    score * 0x1_0000_0000 + index
}

/// Keys order entries by score first and by index among equal scores.
pub proof fn lemma_packed_key_order(s1: i32, i1: int, s2: i32, i2: int)
    requires
        0 <= i1 < 0x1_0000_0000,
        0 <= i2 < 0x1_0000_0000,
    ensures
        packed_key(s1, i1) > packed_key(s2, i2) <==> s1 > s2 || (s1 == s2 && i1 > i2),
        i64::MIN <= packed_key(s1, i1) <= i64::MAX,
{
}

proof fn lemma_key_index(key: i64)
    by (bit_vector)
    ensures
        key == -0x8000_0000_0000_0000i64 ==> key & 0xFF == 0,
{
}

proof fn lemma_key_of(score: i32, index: i64)
    by (bit_vector)
    requires
        0 <= index < 256,
    ensures
        (((score as i64) * 0x1_0000_0000 + index) as i64) & 0xFF == index,
{
}

/// The last stage: hands out the set-aside captures in the order they were
/// set aside, passing over the hash move.
pub open spec fn bad_noisy_stage(s: PickerState) -> (PickerState, Option<Move>)
    decreases s.bad_noisy.len() - s.bad_noisy_idx,
{
    if s.bad_noisy_idx < s.bad_noisy.len() {
        let mv = s.bad_noisy[s.bad_noisy_idx as int];
        let s1 = PickerState { bad_noisy_idx: s.bad_noisy_idx + 1, ..s };
        if mv == s.tt_move {
            bad_noisy_stage(s1)
        } else {
            (s1, Some(mv))
        }
    } else {
        (s, None)
    }
}

/// The quiet stage: takes the best-scored entry out of the list until one
/// is not the hash move; at the root the rest is scored again.
pub open spec fn quiet_stage<B: Board, H: History>(
    s: PickerState,
    td: &ThreadData<B, H>,
    root: bool,
    skip_quiets: bool,
    ply: isize,
) -> (PickerState, Option<Move>)
    decreases s.list.len(),
{
    if s.stage == Stage::Quiet {
        if !skip_quiets && s.list.len() > 0 {
            proof {
                lemma_best_index(s.list);
            }
            let i = best_index(s.list);
            let e = s.list[i];
            let rest = swap_removed(s.list, i);
            if e.mv == s.tt_move {
                quiet_stage(PickerState { list: rest, ..s }, td, root, skip_quiets, ply)
            } else {
                (
                    PickerState {
                        list: if root {
                            rescored_quiet(td, s.tt_move, ply, rest)
                        } else {
                            rest
                        },
                        ..s
                    },
                    Some(e.mv),
                )
            }
        } else {
            bad_noisy_stage(PickerState { stage: Stage::BadNoisy, ..s })
        }
    } else {
        bad_noisy_stage(s)
    }
}

/// Quiet generation: unless quiets are skipped, the quiet moves join the
/// list and the whole list takes quiet scores.
pub open spec fn generate_quiet_stage<B: Board, H: History>(
    s: PickerState,
    td: &ThreadData<B, H>,
    root: bool,
    skip_quiets: bool,
    ply: isize,
) -> (PickerState, Option<Move>) {
    if s.stage == Stage::GenerateQuiet {
        if !skip_quiets {
            quiet_stage(
                PickerState {
                    stage: Stage::Quiet,
                    list: rescored_quiet(
                        td,
                        s.tt_move,
                        ply,
                        s.list + unscored(td.board.quiet_moves()),
                    ),
                    ..s
                },
                td,
                root,
                skip_quiets,
                ply,
            )
        } else {
            quiet_stage(PickerState { stage: Stage::BadNoisy, ..s }, td, root, skip_quiets, ply)
        }
    } else {
        quiet_stage(s, td, root, skip_quiets, ply)
    }
}

/// The capture stage: takes the best-scored entry out of the list until one
/// is neither the hash move nor short of its exchange threshold; the ones
/// that fall short are set aside. At the root the rest is scored again
/// after a yield.
pub open spec fn good_noisy_stage<B: Board, H: History>(
    s: PickerState,
    td: &ThreadData<B, H>,
    root: bool,
    skip_quiets: bool,
    ply: isize,
) -> (PickerState, Option<Move>)
    decreases s.list.len(),
{
    if s.stage == Stage::GoodNoisy {
        if s.list.len() > 0 {
            proof {
                lemma_best_index(s.list);
            }
            let i = best_index(s.list);
            let e = s.list[i];
            let rest = swap_removed(s.list, i);
            if e.mv == s.tt_move {
                good_noisy_stage(PickerState { list: rest, ..s }, td, root, skip_quiets, ply)
            } else if !td.board.see_at_least(e.mv, see_threshold(s.threshold, e.score)) {
                good_noisy_stage(
                    PickerState { list: rest, bad_noisy: s.bad_noisy.push(e.mv), ..s },
                    td,
                    root,
                    skip_quiets,
                    ply,
                )
            } else {
                (
                    PickerState {
                        list: if root {
                            rescored_noisy(td, s.tt_move, rest)
                        } else {
                            rest
                        },
                        ..s
                    },
                    Some(e.mv),
                )
            }
        } else {
            generate_quiet_stage(
                PickerState { stage: Stage::GenerateQuiet, ..s },
                td,
                root,
                skip_quiets,
                ply,
            )
        }
    } else {
        generate_quiet_stage(s, td, root, skip_quiets, ply)
    }
}

/// Noisy generation: the noisy moves join the list and the whole list takes
/// noisy scores.
pub open spec fn generate_noisy_stage<B: Board, H: History>(
    s: PickerState,
    td: &ThreadData<B, H>,
    root: bool,
    skip_quiets: bool,
    ply: isize,
) -> (PickerState, Option<Move>) {
    if s.stage == Stage::GenerateNoisy {
        good_noisy_stage(
            PickerState {
                stage: Stage::GoodNoisy,
                list: rescored_noisy(td, s.tt_move, s.list + unscored(td.board.noisy_moves())),
                ..s
            },
            td,
            root,
            skip_quiets,
            ply,
        )
    } else {
        good_noisy_stage(s, td, root, skip_quiets, ply)
    }
}

/// One call of the picker: the state it leaves and the move it yields,
/// `None` once it is exhausted. The hash move is yielded first if the board
/// finds it pseudo-legal; after that the stages follow one another.
pub open spec fn pick<B: Board, H: History>(
    s: PickerState,
    td: &ThreadData<B, H>,
    root: bool,
    skip_quiets: bool,
    ply: isize,
) -> (PickerState, Option<Move>) {
    if s.stage == Stage::HashMove {
        let s1 = PickerState { stage: Stage::GenerateNoisy, ..s };
        if td.board.pseudo_legal(s.tt_move) {
            (s1, Some(s.tt_move))
        } else {
            generate_noisy_stage(s1, td, root, skip_quiets, ply)
        }
    } else {
        generate_noisy_stage(s, td, root, skip_quiets, ply)
    }
}

/// The noisy scores fit in `i32` and stay above its minimum.
pub proof fn lemma_noisy_score_range<B: Board, H: History>(
    td: &ThreadData<B, H>,
    tt_move: Move,
    mv: Move,
)
    requires
        history_bounded(&td.history),
    ensures
        i32::MIN <= noisy_score(td, tt_move, mv) <= i32::MAX,
        mv != tt_move ==> -MAX_HISTORY <= noisy_score(td, tt_move, mv) <= 19200 + MAX_HISTORY,
{
}

/// The quiet scores fit in `i32` and stay above its minimum.
pub proof fn lemma_quiet_score_range<B: Board, H: History>(
    td: &ThreadData<B, H>,
    tt_move: Move,
    ply: isize,
    mv: Move,
)
    requires
        history_bounded(&td.history),
    ensures
        i32::MIN <= quiet_score(td, tt_move, ply, mv) <= i32::MAX,
        mv != tt_move ==> -5 * MAX_HISTORY <= quiet_score(td, tt_move, ply, mv) <= 5
            * MAX_HISTORY,
{
}

/// Scoring looks at the moves of a list only: two lists with the same
/// moves score alike.
pub proof fn lemma_rescored_by_moves<B: Board, H: History>(
    td: &ThreadData<B, H>,
    tt_move: Move,
    ply: isize,
    a: Seq<ScoredMove>,
    b: Seq<ScoredMove>,
)
    requires
        moves_of(a) == moves_of(b),
    ensures
        rescored_noisy(td, tt_move, a) == rescored_noisy(td, tt_move, b),
        rescored_quiet(td, tt_move, ply, a) == rescored_quiet(td, tt_move, ply, b),
{
    assert(a.len() == moves_of(a).len());
    assert(b.len() == moves_of(b).len());
    assert forall|k: int| 0 <= k < a.len() implies a[k].mv == b[k].mv by {
        assert(moves_of(a)[k] == a[k].mv);
        assert(moves_of(b)[k] == b[k].mv);
    }
    assert(rescored_noisy(td, tt_move, a) =~= rescored_noisy(td, tt_move, b));
    assert(rescored_quiet(td, tt_move, ply, a) =~= rescored_quiet(td, tt_move, ply, b));
}

/// Staged producer of the moves of one search node.
pub struct MovePicker {
    list: MoveList,
    tt_move: Move,
    threshold: Option<i32>,
    stage: Stage,
    bad_noisy: Vec<Move>,
    bad_noisy_idx: usize,
}

impl View for MovePicker {
    type V = PickerState;

    closed spec fn view(&self) -> PickerState {
        PickerState {
            list: self.list@,
            tt_move: self.tt_move,
            threshold: self.threshold,
            stage: self.stage,
            bad_noisy: self.bad_noisy@,
            bad_noisy_idx: self.bad_noisy_idx as nat,
        }
    }
}

impl MovePicker {
    /// A picker for the main search. It starts with the hash move when
    /// there is one.
    pub fn new(tt_move: Move) -> (r: MovePicker)
        ensures
            r@ == (PickerState {
                list: Seq::empty(),
                tt_move,
                threshold: None,
                stage: if tt_move.is_some_spec() {
                    Stage::HashMove
                } else {
                    Stage::GenerateNoisy
                },
                bad_noisy: Seq::empty(),
                bad_noisy_idx: 0,
            }),
            r@.wf(),
    {
        MovePicker {
            list: MoveList::new(),
            tt_move,
            threshold: None,
            stage: if tt_move.is_some() {
                Stage::HashMove
            } else {
                Stage::GenerateNoisy
            },
            bad_noisy: Vec::new(),
            bad_noisy_idx: 0,
        }
    }

    /// A picker for ProbCut: no hash move, and every capture must reach
    /// `threshold` in its exchange.
    pub fn new_probcut(threshold: i32) -> (r: MovePicker)
        ensures
            r@ == (PickerState {
                list: Seq::empty(),
                tt_move: Move::null_spec(),
                threshold: Some(threshold),
                stage: Stage::GenerateNoisy,
                bad_noisy: Seq::empty(),
                bad_noisy_idx: 0,
            }),
            r@.wf(),
    {
        MovePicker {
            list: MoveList::new(),
            tt_move: Move::null(),
            threshold: Some(threshold),
            stage: Stage::GenerateNoisy,
            bad_noisy: Vec::new(),
            bad_noisy_idx: 0,
        }
    }

    /// A picker for quiescence search: no hash move.
    pub fn new_qsearch() -> (r: MovePicker)
        ensures
            r@ == (PickerState {
                list: Seq::empty(),
                tt_move: Move::null_spec(),
                threshold: None,
                stage: Stage::GenerateNoisy,
                bad_noisy: Seq::empty(),
                bad_noisy_idx: 0,
            }),
            r@.wf(),
    {
        MovePicker {
            list: MoveList::new(),
            tt_move: Move::null(),
            threshold: None,
            stage: Stage::GenerateNoisy,
            bad_noisy: Vec::new(),
            bad_noisy_idx: 0,
        }
    }

    pub fn stage(&self) -> (r: Stage)
        ensures
            r == self@.stage,
    {
        self.stage
    }

    /// The entries now in the list, in list order.
    pub fn entries(&self) -> (r: Vec<ScoredMove>)
        ensures
            r@ == self@.list,
    {
        let mut out: Vec<ScoredMove> = Vec::new();
        let n = self.list.len();
        let mut i: usize = 0;
        while i < n
            invariant
                n == self.list@.len(),
                i <= n,
                out@ == self.list@.take(i as int),
            decreases n - i,
        {
            out.push(self.list.get(i));
            assert(self.list@.take(i + 1) == self.list@.take(i as int).push(self.list@[i as int]));
            i += 1;
        }
        assert(self.list@.take(n as int) == self.list@);
        out
    }

    /// The captures set aside so far, in the order they were set aside,
    /// those already handed out included.
    pub fn set_aside(&self) -> (r: Vec<Move>)
        ensures
            r@ == self@.bad_noisy,
    {
        self.bad_noisy.clone()
    }

    /// Index of the entry that the picker takes next.
    pub fn find_best_score_index(&self) -> (r: usize)
        ensures
            r == best_index(self@.list),
            self@.list.len() > 0 ==> is_best(self@.list, r as int),
    {
        let mut best_index: usize = 0;
        let mut best_score: i32 = i32::MIN;
        let n = self.list.len();
        let mut index: usize = 0;
        while index < n
            invariant
                n == self.list@.len(),
                index <= n,
                best_index as int == crate::movepick::best_index(self.list@.take(index as int)),
                index == 0 ==> best_score == i32::MIN,
                index > 0 ==> best_index < index && best_score
                    == self.list@[best_index as int].score,
            decreases n - index,
        {
            let entry = self.list.get(index);
            proof {
                let cur = self.list@.take(index as int + 1);
                assert(cur.drop_last() == self.list@.take(index as int));
                assert(cur.last() == self.list@[index as int]);
                if index > 0 {
                    assert(cur[best_index as int] == self.list@[best_index as int]);
                }
            }
            if entry.score >= best_score {
                best_index = index;
                best_score = entry.score;
            }
            index += 1;
        }
        proof {
            assert(self.list@.take(n as int) == self.list@);
            if n > 0 {
                lemma_best_index(self.list@);
            }
        }
        best_index
    }

    /// Index of the entry that the picker takes next, found the way a
    /// vector unit finds it: every entry becomes one 64-bit key, its score in
    /// the high half and its index below, and the largest key wins. A higher
    /// score makes a larger key whatever the indices, and of two equal scores
    /// the later entry has the larger key.
    pub fn find_best_score_index_packed(&self) -> (r: usize)
        requires
            self@.list.len() <= MAX_MOVES,
        ensures
            r == best_index(self@.list),
    {
        let n = self.list.len();
        let mut best: i64 = i64::MIN;
        let mut index: usize = 0;
        while index < n
            invariant
                n == self.list@.len(),
                n <= MAX_MOVES,
                index <= n,
                index == 0 ==> best == i64::MIN,
                index > 0 ==> best == packed_key(
                    self.list@[crate::movepick::best_index(self.list@.take(index as int))].score,
                    crate::movepick::best_index(self.list@.take(index as int)),
                ),
                0 <= crate::movepick::best_index(self.list@.take(index as int)) < MAX_MOVES,
            decreases n - index,
        {
            let entry = self.list.get(index);
            proof {
                let cur = self.list@.take(index as int + 1);
                assert(cur.drop_last() == self.list@.take(index as int));
                assert(cur.last() == self.list@[index as int]);
                if index > 0 {
                    lemma_best_index(self.list@.take(index as int));
                    let b = crate::movepick::best_index(self.list@.take(index as int));
                    assert(cur[b] == self.list@[b]);
                    assert(self.list@.take(index as int)[b] == self.list@[b]);
                }
            }
            let key = (entry.score as i64) * 0x1_0000_0000 + index as i64;
            if key > best {
                best = key;
            }
            index += 1;
        }
        proof {
            assert(self.list@.take(n as int) == self.list@);
            lemma_key_index(best);
            if n > 0 {
                let b = crate::movepick::best_index(self.list@);
                lemma_key_of(self.list@[b].score, b as i64);
            }
        }
        (best & 0xFF) as usize
    }

    /// Gives every entry of the list its noisy score.
    pub fn score_noisy<B: Board, H: History>(&mut self, td: &ThreadData<B, H>)
        requires
            history_bounded(&td.history),
        ensures
            final(self)@ == (PickerState {
                list: rescored_noisy(td, old(self)@.tt_move, old(self)@.list),
                ..old(self)@
            }),
    {
        let ghost before = self@;
        let threats = td.board.threats();
        let n = self.list.len();
        let mut i: usize = 0;
        while i < n
            invariant
                history_bounded(&td.history),
                threats == td.board.threat_key(),
                i <= n,
                n == before.list.len(),
                self@ == (PickerState { list: self@.list, ..before }),
                self@.list.len() == n,
                forall|k: int|
                    0 <= k < i ==> #[trigger] self@.list[k] == rescored_noisy(
                        td,
                        before.tt_move,
                        before.list,
                    )[k],
                forall|k: int| i <= k < n ==> #[trigger] self@.list[k] == before.list[k],
            decreases n - i,
        {
            let mv = self.list.get(i).mv;
            proof {
                lemma_noisy_score_range(td, before.tt_move, mv);
            }
            if mv == self.tt_move {
                self.list.set_score(i, i32::MIN);
            } else {
                let captured = if mv.is_en_passant() {
                    PieceType::Pawn
                } else {
                    td.board.piece_on(mv.to()).piece_type()
                };
                let score = 16 * captured.value() + td.history.noisy_history(
                    threats,
                    td.board.moved_piece(mv),
                    mv.to(),
                    captured,
                );
                self.list.set_score(i, score);
            }
            i += 1;
        }
        assert(self@.list =~= rescored_noisy(td, before.tt_move, before.list));
    }

    /// Gives every entry of the list its quiet score.
    pub fn score_quiet<B: Board, H: History>(&mut self, td: &ThreadData<B, H>, ply: isize)
        requires
            history_bounded(&td.history),
        ensures
            final(self)@ == (PickerState {
                list: rescored_quiet(td, old(self)@.tt_move, ply, old(self)@.list),
                ..old(self)@
            }),
    {
        let ghost before = self@;
        let threats = td.board.threats();
        let side = td.board.side_to_move();
        let n = self.list.len();
        let mut i: usize = 0;
        while i < n
            invariant
                history_bounded(&td.history),
                threats == td.board.threat_key(),
                side == td.board.turn(),
                i <= n,
                n == before.list.len(),
                self@ == (PickerState { list: self@.list, ..before }),
                self@.list.len() == n,
                forall|k: int|
                    0 <= k < i ==> #[trigger] self@.list[k] == rescored_quiet(
                        td,
                        before.tt_move,
                        ply,
                        before.list,
                    )[k],
                forall|k: int| i <= k < n ==> #[trigger] self@.list[k] == before.list[k],
            decreases n - i,
        {
            let mv = self.list.get(i).mv;
            proof {
                lemma_quiet_score_range(td, before.tt_move, ply, mv);
            }
            if mv == self.tt_move {
                self.list.set_score(i, i32::MIN);
            } else {
                let score = (994 * td.history.quiet_history(threats, side, mv) + 1049
                    * td.history.conthist(ply, 1, mv) + 990 * td.history.conthist(ply, 2, mv) + 969
                    * td.history.conthist(ply, 4, mv) + 1088 * td.history.conthist(ply, 6, mv))
                    / 1024;
                self.list.set_score(i, score);
            }
            i += 1;
        }
        assert(self@.list =~= rescored_quiet(td, before.tt_move, ply, before.list));
    }

    /// Yields the next move of the node, or `None` when there is none left.
    /// `ROOT` says whether the node is the root, where the list is scored
    /// again after each yield.
    pub fn next<const ROOT: bool, B: Board, H: History>(
        &mut self,
        td: &ThreadData<B, H>,
        skip_quiets: bool,
        ply: isize,
    ) -> (r: Option<Move>)
        requires
            old(self)@.wf(),
            generation_fits(&td.board),
            history_bounded(&td.history),
        ensures
            (final(self)@, r) == pick(old(self)@, td, ROOT, skip_quiets, ply),
            final(self)@.wf(),
    {
        let ghost goal = pick(self@, td, ROOT, skip_quiets, ply);
        if self.stage == Stage::HashMove {
            self.stage = Stage::GenerateNoisy;
            if td.board.is_pseudo_legal(self.tt_move) {
                return Some(self.tt_move);
            }
        }
        assert(generate_noisy_stage(self@, td, ROOT, skip_quiets, ply) == goal);

        if self.stage == Stage::GenerateNoisy {
            let ghost held = self@;
            self.stage = Stage::GoodNoisy;
            td.board.append_noisy_moves(&mut self.list);
            let ghost appended = self@.list;
            self.score_noisy(td);
            proof {
                assert(moves_of(appended) =~= moves_of(
                    held.list + unscored(td.board.noisy_moves()),
                ));
                lemma_rescored_by_moves(
                    td,
                    held.tt_move,
                    ply,
                    appended,
                    held.list + unscored(td.board.noisy_moves()),
                );
                assert forall|i: int|
                    0 <= i < self@.list.len() && self@.list[i].mv
                        != self@.tt_move implies #[trigger] self@.list[i].score > i32::MIN by {
                    lemma_noisy_score_range(td, held.tt_move, appended[i].mv);
                }
            }
        }
        assert(good_noisy_stage(self@, td, ROOT, skip_quiets, ply) == goal);

        if self.stage == Stage::GoodNoisy {
            while !self.list.is_empty()
                invariant
                    generation_fits(&td.board),
                    history_bounded(&td.history),
                    self@.wf(),
                    self@.stage == Stage::GoodNoisy,
                    good_noisy_stage(self@, td, ROOT, skip_quiets, ply) == goal,
                goal == pick(old(self)@, td, ROOT, skip_quiets, ply),
                decreases self@.list.len(),
            {
                let ghost cur = self@;
                let index = self.find_best_score_index();
                let entry = self.list.remove(index);
                proof {
                    assert forall|i: int|
                        0 <= i < self@.list.len() && self@.list[i].mv
                            != self@.tt_move implies #[trigger] self@.list[i].score > i32::MIN by {
                        if i == index {
                            assert(self@.list[i] == cur.list[cur.list.len() - 1]);
                        } else {
                            assert(self@.list[i] == cur.list[i]);
                        }
                    }
                }
                if entry.mv != self.tt_move {
                    let threshold = match self.threshold {
                        Some(t) => t,
                        None => -entry.score / 46 + 109,
                    };
                    assert(threshold == see_threshold(cur.threshold, entry.score));
                    if td.board.see(entry.mv, threshold) {
                        if ROOT {
                            let ghost rest = self@.list;
                            self.score_noisy(td);
                            proof {
                                assert forall|i: int|
                                    0 <= i < self@.list.len() && self@.list[i].mv
                                        != self@.tt_move implies #[trigger] self@.list[i].score
                                    > i32::MIN by {
                                    lemma_noisy_score_range(td, cur.tt_move, rest[i].mv);
                                }
                            }
                        }
                        return Some(entry.mv);
                    }
                    self.bad_noisy.push(entry.mv);
                }
            }
            self.stage = Stage::GenerateQuiet;
        }
        assert(generate_quiet_stage(self@, td, ROOT, skip_quiets, ply) == goal);

        if self.stage == Stage::GenerateQuiet {
            if !skip_quiets {
                let ghost held = self@;
                self.stage = Stage::Quiet;
                td.board.append_quiet_moves(&mut self.list);
                let ghost appended = self@.list;
                self.score_quiet(td, ply);
                proof {
                    assert(moves_of(appended) =~= moves_of(
                        held.list + unscored(td.board.quiet_moves()),
                    ));
                    lemma_rescored_by_moves(
                        td,
                        held.tt_move,
                        ply,
                        appended,
                        held.list + unscored(td.board.quiet_moves()),
                    );
                    assert forall|i: int|
                        0 <= i < self@.list.len() && self@.list[i].mv
                            != self@.tt_move implies #[trigger] self@.list[i].score > i32::MIN by {
                        lemma_quiet_score_range(td, held.tt_move, ply, appended[i].mv);
                    }
                }
            } else {
                self.stage = Stage::BadNoisy;
            }
        }
        assert(quiet_stage(self@, td, ROOT, skip_quiets, ply) == goal);

        if self.stage == Stage::Quiet {
            if !skip_quiets {
                while !self.list.is_empty()
                    invariant
                        generation_fits(&td.board),
                        history_bounded(&td.history),
                        !skip_quiets,
                        self@.wf(),
                        self@.stage == Stage::Quiet,
                        quiet_stage(self@, td, ROOT, skip_quiets, ply) == goal,
                    goal == pick(old(self)@, td, ROOT, skip_quiets, ply),
                    decreases self@.list.len(),
                {
                    let ghost cur = self@;
                    let index = self.find_best_score_index();
                    let entry = self.list.remove(index);
                    proof {
                        assert forall|i: int|
                            0 <= i < self@.list.len() && self@.list[i].mv
                                != self@.tt_move implies #[trigger] self@.list[i].score > i32::MIN by {
                            if i == index {
                                assert(self@.list[i] == cur.list[cur.list.len() - 1]);
                            } else {
                                assert(self@.list[i] == cur.list[i]);
                            }
                        }
                    }
                    if entry.mv != self.tt_move {
                        if ROOT {
                            let ghost rest = self@.list;
                            self.score_quiet(td, ply);
                            proof {
                                assert forall|i: int|
                                    0 <= i < self@.list.len() && self@.list[i].mv
                                        != self@.tt_move implies #[trigger] self@.list[i].score
                                    > i32::MIN by {
                                    lemma_quiet_score_range(td, cur.tt_move, ply, rest[i].mv);
                                }
                            }
                        }
                        return Some(entry.mv);
                    }
                }
            }
            self.stage = Stage::BadNoisy;
        }
        assert(bad_noisy_stage(self@) == goal);

        while self.bad_noisy_idx < self.bad_noisy.len()
            invariant
                self@.wf(),
                bad_noisy_stage(self@) == goal,
            goal == pick(old(self)@, td, ROOT, skip_quiets, ply),
            decreases self@.bad_noisy.len() - self@.bad_noisy_idx,
        {
            let mv = self.bad_noisy[self.bad_noisy_idx];
            self.bad_noisy_idx += 1;
            if mv != self.tt_move {
                return Some(mv);
            }
        }
        None
    }
}

} // verus!
