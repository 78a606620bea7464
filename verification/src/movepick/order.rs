//! What a call keeps in order: the captures it sets aside failed their
//! exchange, noisy moves stay among themselves, and the moves of one stage
//! come in falling order of score.

use vstd::prelude::*;
use crate::board::{generation_complete, Board, History, ThreadData};
use crate::movepick::progress::{in_list, lemma_generate_quiet_advances, rank};
use crate::movepick::{
    bad_noisy_stage, best_index, generate_noisy_stage, generate_quiet_stage, good_noisy_stage,
    lemma_best_index, noisy_score, pick, quiet_stage, rescored_noisy, rescored_quiet,
    see_threshold, unscored, PickerState, Stage,
};
use crate::types::{swap_removed, Move, ScoredMove};

verus! {

/// Outside the quiet stages the picker holds noisy moves only.
pub open spec fn holds_noisy_only(s: PickerState) -> bool {
    &&& rank(s.stage) >= 3 ==> forall|i: int|
        0 <= i < s.list.len() ==> (#[trigger] s.list[i]).mv.is_noisy_spec()
    &&& forall|k: int| 0 <= k < s.bad_noisy.len() ==> (#[trigger] s.bad_noisy[k]).is_noisy_spec()
}

/// The noisy generator hands out noisy moves only.
pub open spec fn generates_noisy<B: Board>(board: &B) -> bool {
    forall|i: int|
        0 <= i < board.noisy_moves().len() ==> (#[trigger] board.noisy_moves()[i]).is_noisy_spec()
}

/// `m` fell short of the exchange threshold that the picker in state `s`
/// computes for it: from the caller's threshold in ProbCut mode, otherwise
/// from the score `m` has in the list, or takes on generation.
pub open spec fn failed_exchange<B: Board, H: History>(
    s: PickerState,
    td: &ThreadData<B, H>,
    m: Move,
) -> bool {
    if rank(s.stage) >= 4 {
        in_list(s.list + unscored(td.board.noisy_moves()), m) && !td.board.see_at_least(
            m,
            see_threshold(s.threshold, noisy_score(td, s.tt_move, m) as i32),
        )
    } else {
        exists|i: int|
            0 <= i < s.list.len() && (#[trigger] s.list[i]).mv == m && !td.board.see_at_least(
                m,
                see_threshold(s.threshold, s.list[i].score),
            )
    }
}

/// What a call that starts in `s`, ends in `s2` and returns `r` keeps in
/// order: the set-aside captures grow at the end only, each new one failed
/// its exchange, noisy moves stay among themselves, and with quiets skipped
/// nothing quiet is yielded but, in the first stage, the hash move.
pub open spec fn orderly<B: Board, H: History>(
    s: PickerState,
    s2: PickerState,
    r: Option<Move>,
    td: &ThreadData<B, H>,
    skip_quiets: bool,
) -> bool {
    &&& s.bad_noisy.len() <= s2.bad_noisy.len()
    &&& forall|k: int| 0 <= k < s.bad_noisy.len() ==> #[trigger] s2.bad_noisy[k] == s.bad_noisy[k]
    &&& forall|k: int|
        s.bad_noisy.len() <= k < s2.bad_noisy.len() ==> failed_exchange(
            s,
            td,
            #[trigger] s2.bad_noisy[k],
        )
    &&& holds_noisy_only(s) && generates_noisy(&td.board) ==> {
        &&& holds_noisy_only(s2)
        &&& skip_quiets ==> match r {
            Some(x) => x.is_noisy_spec() || (s.stage == Stage::HashMove && x == s.tt_move),
            None => true,
        }
    }
}

/// The last stage keeps the picker in order.
pub(crate) proof fn lemma_bad_noisy_orderly<B: Board, H: History>(
    s: PickerState,
    td: &ThreadData<B, H>,
    skip_quiets: bool,
)
    requires
        s.bad_noisy_idx <= s.bad_noisy.len(),
    ensures
        orderly(s, bad_noisy_stage(s).0, bad_noisy_stage(s).1, td, skip_quiets),
        bad_noisy_stage(s).0.list == s.list,
        bad_noisy_stage(s).0.bad_noisy == s.bad_noisy,
        bad_noisy_stage(s).0.stage == s.stage,
    decreases s.bad_noisy.len() - s.bad_noisy_idx,
{
    if s.bad_noisy_idx < s.bad_noisy.len() {
        let s1 = PickerState { bad_noisy_idx: s.bad_noisy_idx + 1, ..s };
        if s.bad_noisy[s.bad_noisy_idx as int] == s.tt_move {
            lemma_bad_noisy_orderly(s1, td, skip_quiets);
        }
    }
}

/// The quiet stage and what follows it keep the picker in order.
pub(crate) proof fn lemma_quiet_orderly<B: Board, H: History>(
    s: PickerState,
    td: &ThreadData<B, H>,
    root: bool,
    skip_quiets: bool,
    ply: isize,
)
    requires
        s.bad_noisy_idx <= s.bad_noisy.len(),
        rank(s.stage) <= 1,
    ensures
        orderly(
            s,
            quiet_stage(s, td, root, skip_quiets, ply).0,
            quiet_stage(s, td, root, skip_quiets, ply).1,
            td,
            skip_quiets,
        ),
        quiet_stage(s, td, root, skip_quiets, ply).0.bad_noisy == s.bad_noisy,
    decreases s.list.len(),
{
    if s.stage == Stage::Quiet {
        if !skip_quiets && s.list.len() > 0 {
            lemma_best_index(s.list);
            let i = best_index(s.list);
            let rest = swap_removed(s.list, i);
            if s.list[i].mv == s.tt_move {
                lemma_quiet_orderly(PickerState { list: rest, ..s }, td, root, skip_quiets, ply);
            }
        } else {
            lemma_bad_noisy_orderly(PickerState { stage: Stage::BadNoisy, ..s }, td, skip_quiets);
        }
    } else {
        lemma_bad_noisy_orderly(s, td, skip_quiets);
    }
}

/// Quiet generation and what follows it keep the picker in order.
pub(crate) proof fn lemma_generate_quiet_orderly<B: Board, H: History>(
    s: PickerState,
    td: &ThreadData<B, H>,
    root: bool,
    skip_quiets: bool,
    ply: isize,
)
    requires
        s.bad_noisy_idx <= s.bad_noisy.len(),
        rank(s.stage) <= 2,
    ensures
        orderly(
            s,
            generate_quiet_stage(s, td, root, skip_quiets, ply).0,
            generate_quiet_stage(s, td, root, skip_quiets, ply).1,
            td,
            skip_quiets,
        ),
        generate_quiet_stage(s, td, root, skip_quiets, ply).0.bad_noisy == s.bad_noisy,
{
    if s.stage == Stage::GenerateQuiet {
        if !skip_quiets {
            let s1 = PickerState {
                stage: Stage::Quiet,
                list: rescored_quiet(
                    td,
                    s.tt_move,
                    ply,
                    s.list + unscored(td.board.quiet_moves()),
                ),
                ..s
            };
            lemma_quiet_orderly(s1, td, root, skip_quiets, ply);
        } else {
            lemma_quiet_orderly(
                PickerState { stage: Stage::BadNoisy, ..s },
                td,
                root,
                skip_quiets,
                ply,
            );
        }
    } else {
        lemma_quiet_orderly(s, td, root, skip_quiets, ply);
    }
}

/// `e` is an entry of `list`.
pub open spec fn has_entry(list: Seq<ScoredMove>, e: ScoredMove) -> bool {
    exists|q: int| 0 <= q < list.len() && #[trigger] list[q] == e
}

/// Every entry of `part` is an entry of `list`.
pub open spec fn entries_within(part: Seq<ScoredMove>, list: Seq<ScoredMove>) -> bool {
    forall|j: int| 0 <= j < part.len() ==> has_entry(list, #[trigger] part[j])
}

/// The entries left after one is taken out were all there before.
pub(crate) proof fn lemma_swap_removed_entries(list: Seq<ScoredMove>, i: int, j: int)
    requires
        0 <= i < list.len(),
        0 <= j < list.len() - 1,
    ensures
        swap_removed(list, i)[j] == (if j == i {
            list[list.len() - 1]
        } else {
            list[j]
        }),
{
}

/// The capture stage and what follows it keep the picker in order.
pub(crate) proof fn lemma_good_noisy_orderly<B: Board, H: History>(
    s: PickerState,
    td: &ThreadData<B, H>,
    root: bool,
    skip_quiets: bool,
    ply: isize,
)
    requires
        s.bad_noisy_idx <= s.bad_noisy.len(),
        rank(s.stage) <= 3,
    ensures
        orderly(
            s,
            good_noisy_stage(s, td, root, skip_quiets, ply).0,
            good_noisy_stage(s, td, root, skip_quiets, ply).1,
            td,
            skip_quiets,
        ),
    decreases s.list.len(),
{
    let (s2, r) = good_noisy_stage(s, td, root, skip_quiets, ply);
    if s.stage == Stage::GoodNoisy {
        if s.list.len() > 0 {
            lemma_best_index(s.list);
            let i = best_index(s.list);
            let e = s.list[i];
            let rest = swap_removed(s.list, i);
            assert forall|j: int| 0 <= j < rest.len() implies has_entry(
                s.list,
                #[trigger] rest[j],
            ) by {
                lemma_swap_removed_entries(s.list, i, j);
                if j == i {
                    assert(s.list[s.list.len() - 1] == rest[j]);
                } else {
                    assert(s.list[j] == rest[j]);
                }
            }
            if e.mv == s.tt_move {
                let s1 = PickerState { list: rest, ..s };
                lemma_good_noisy_orderly(s1, td, root, skip_quiets, ply);
                lemma_orderly_from(s, s1, s2, r, td, skip_quiets);
            } else if !td.board.see_at_least(e.mv, see_threshold(s.threshold, e.score)) {
                let s1 = PickerState { list: rest, bad_noisy: s.bad_noisy.push(e.mv), ..s };
                lemma_good_noisy_orderly(s1, td, root, skip_quiets, ply);
                assert(s1.bad_noisy[s.bad_noisy.len() as int] == e.mv);
                assert(failed_exchange(s, td, e.mv));
                lemma_orderly_from(s, s1, s2, r, td, skip_quiets);
            } else {
                assert(s2.bad_noisy == s.bad_noisy);
                if holds_noisy_only(s) {
                    assert forall|j: int|
                        0 <= j < s2.list.len() implies
                        (#[trigger] s2.list[j]).mv.is_noisy_spec() by {
                        assert(has_entry(s.list, rest[j]));
                        let q = choose|q: int| 0 <= q < s.list.len() && #[trigger] s.list[q] == rest[j];
                    }
                }
            }
        } else {
            let s1 = PickerState { stage: Stage::GenerateQuiet, ..s };
            lemma_generate_quiet_orderly(s1, td, root, skip_quiets, ply);
        }
    } else {
        lemma_generate_quiet_orderly(s, td, root, skip_quiets, ply);
    }
}

/// A call that keeps the picker in order from `s1`, a state reached from `s`
/// inside the capture stage, keeps it in order from `s`.
pub(crate) proof fn lemma_orderly_from<B: Board, H: History>(
    s: PickerState,
    s1: PickerState,
    s2: PickerState,
    r: Option<Move>,
    td: &ThreadData<B, H>,
    skip_quiets: bool,
)
    requires
        s.stage == Stage::GoodNoisy,
        s1.stage == Stage::GoodNoisy,
        s1.tt_move == s.tt_move,
        s1.threshold == s.threshold,
        entries_within(s1.list, s.list),
        s1.bad_noisy == s.bad_noisy || (exists|x: Move|
            s1.bad_noisy == s.bad_noisy.push(x) && failed_exchange(s, td, x) && in_list(s.list, x)),
        orderly(s1, s2, r, td, skip_quiets),
    ensures
        orderly(s, s2, r, td, skip_quiets),
{
    assert forall|m: Move| failed_exchange(s1, td, m) implies failed_exchange(s, td, m) by {
        let j = choose|j: int|
            0 <= j < s1.list.len() && (#[trigger] s1.list[j]).mv == m && !td.board.see_at_least(
                m,
                see_threshold(s1.threshold, s1.list[j].score),
            );
        assert(has_entry(s.list, s1.list[j]));
        let q = choose|q: int| 0 <= q < s.list.len() && #[trigger] s.list[q] == s1.list[j];
        assert(s.list[q].mv == m);
    }
    assert forall|k: int| s.bad_noisy.len() <= k < s2.bad_noisy.len() implies failed_exchange(
        s,
        td,
        #[trigger] s2.bad_noisy[k],
    ) by {
        if k < s1.bad_noisy.len() {
            assert(s2.bad_noisy[k] == s1.bad_noisy[k]);
        } else {
            assert(failed_exchange(s1, td, s2.bad_noisy[k]));
        }
    }
    assert forall|k: int| 0 <= k < s.bad_noisy.len() implies #[trigger] s2.bad_noisy[k]
        == s.bad_noisy[k] by {
        assert(s2.bad_noisy[k] == s1.bad_noisy[k]);
    }
    if holds_noisy_only(s) && generates_noisy(&td.board) {
        assert forall|j: int|
            0 <= j < s1.list.len() implies (#[trigger] s1.list[j]).mv.is_noisy_spec() by {
            assert(has_entry(s.list, s1.list[j]));
            let q = choose|q: int| 0 <= q < s.list.len() && #[trigger] s.list[q] == s1.list[j];
        }
        assert forall|k: int|
            0 <= k < s1.bad_noisy.len() implies (#[trigger] s1.bad_noisy[k]).is_noisy_spec() by {
            if k < s.bad_noisy.len() {
                assert(s1.bad_noisy[k] == s.bad_noisy[k]);
            } else {
                let x = s1.bad_noisy[k];
                let q = choose|q: int| 0 <= q < s.list.len() && (#[trigger] s.list[q]).mv == x;
            }
        }
        assert(holds_noisy_only(s1));
    }
}

/// Noisy generation and what follows it keep the picker in order.
pub(crate) proof fn lemma_generate_noisy_orderly<B: Board, H: History>(
    s: PickerState,
    td: &ThreadData<B, H>,
    root: bool,
    skip_quiets: bool,
    ply: isize,
)
    requires
        s.bad_noisy_idx <= s.bad_noisy.len(),
        rank(s.stage) <= 4,
    ensures
        orderly(
            s,
            generate_noisy_stage(s, td, root, skip_quiets, ply).0,
            generate_noisy_stage(s, td, root, skip_quiets, ply).1,
            td,
            skip_quiets,
        ),
{
    let (s2, r) = generate_noisy_stage(s, td, root, skip_quiets, ply);
    if s.stage == Stage::GenerateNoisy {
        let joined = s.list + unscored(td.board.noisy_moves());
        let s1 = PickerState {
            stage: Stage::GoodNoisy,
            list: rescored_noisy(td, s.tt_move, joined),
            ..s
        };
        lemma_good_noisy_orderly(s1, td, root, skip_quiets, ply);
        assert forall|m: Move| failed_exchange(s1, td, m) implies failed_exchange(s, td, m) by {
            let i = choose|i: int|
                0 <= i < s1.list.len() && (#[trigger] s1.list[i]).mv == m
                    && !td.board.see_at_least(m, see_threshold(s1.threshold, s1.list[i].score));
            assert(joined[i].mv == m);
        }
        assert forall|k: int| s.bad_noisy.len() <= k < s2.bad_noisy.len() implies failed_exchange(
            s,
            td,
            #[trigger] s2.bad_noisy[k],
        ) by {
            assert(failed_exchange(s1, td, s2.bad_noisy[k]));
        }
        if holds_noisy_only(s) && generates_noisy(&td.board) {
            assert forall|i: int|
                0 <= i < s1.list.len() implies (#[trigger] s1.list[i]).mv.is_noisy_spec() by {
                if i < s.list.len() {
                    assert(s.list[i].mv == s1.list[i].mv);
                } else {
                    assert(td.board.noisy_moves()[i - s.list.len()] == s1.list[i].mv);
                }
            }
            assert(holds_noisy_only(s1));
        }
    } else {
        lemma_good_noisy_orderly(s, td, root, skip_quiets, ply);
    }
}

/// Every call keeps the picker in order.
pub proof fn lemma_pick_orderly<B: Board, H: History>(
    s: PickerState,
    td: &ThreadData<B, H>,
    root: bool,
    skip_quiets: bool,
    ply: isize,
)
    requires
        s.bad_noisy_idx <= s.bad_noisy.len(),
    ensures
        orderly(
            s,
            pick(s, td, root, skip_quiets, ply).0,
            pick(s, td, root, skip_quiets, ply).1,
            td,
            skip_quiets,
        ),
{
    let (s2, r) = pick(s, td, root, skip_quiets, ply);
    if s.stage == Stage::HashMove {
        let s1 = PickerState { stage: Stage::GenerateNoisy, ..s };
        if !td.board.pseudo_legal(s.tt_move) {
            lemma_generate_noisy_orderly(s1, td, root, skip_quiets, ply);
            assert forall|k: int|
                s.bad_noisy.len() <= k < s2.bad_noisy.len() implies failed_exchange(
                s,
                td,
                #[trigger] s2.bad_noisy[k],
            ) by {
                assert(failed_exchange(s1, td, s2.bad_noisy[k]));
            }
            if holds_noisy_only(s) {
                assert(holds_noisy_only(s1));
            }
        }
    } else {
        lemma_generate_noisy_orderly(s, td, root, skip_quiets, ply);
    }
}

/// Every capture that a call sets aside fell short of the exchange
/// threshold computed for it; in ProbCut mode that is the caller's.
pub proof fn lemma_set_aside_failed_exchange<B: Board, H: History>(
    s: PickerState,
    td: &ThreadData<B, H>,
    root: bool,
    skip_quiets: bool,
    ply: isize,
    k: int,
)
    requires
        s.wf(),
        s.bad_noisy.len() <= k < pick(s, td, root, skip_quiets, ply).0.bad_noisy.len(),
    ensures
        failed_exchange(s, td, pick(s, td, root, skip_quiets, ply).0.bad_noisy[k]),
        s.threshold is Some ==> !td.board.see_at_least(
            pick(s, td, root, skip_quiets, ply).0.bad_noisy[k],
            s.threshold->0,
        ),
{
    lemma_pick_orderly(s, td, root, skip_quiets, ply);
    let m = pick(s, td, root, skip_quiets, ply).0.bad_noisy[k];
    assert(failed_exchange(s, td, m));
}

/// With quiets skipped a call yields a noisy move or, in the first stage,
/// the hash move; and whatever the flag, the picker goes on holding noisy
/// moves only outside the quiet stages.
pub proof fn lemma_skipped_quiets_stay_out<B: Board, H: History>(
    s: PickerState,
    td: &ThreadData<B, H>,
    root: bool,
    skip_quiets: bool,
    ply: isize,
)
    requires
        s.wf(),
        holds_noisy_only(s),
        generates_noisy(&td.board),
    ensures
        holds_noisy_only(pick(s, td, root, skip_quiets, ply).0),
        skip_quiets ==> match pick(s, td, root, skip_quiets, ply).1 {
            Some(x) => x.is_noisy_spec() || (s.stage == Stage::HashMove && x == s.tt_move),
            None => true,
        },
{
    lemma_pick_orderly(s, td, root, skip_quiets, ply);
}

/// A board whose generators are complete hands out noisy moves only from
/// the noisy one.
pub proof fn lemma_complete_generates_noisy<B: Board>(board: &B)
    requires
        generation_complete(board),
    ensures
        generates_noisy(board),
{
    assert forall|i: int|
        0 <= i < board.noisy_moves().len() implies
        (#[trigger] board.noisy_moves()[i]).is_noisy_spec() by {
        assert(board.noisy_moves().contains(board.noisy_moves()[i]));
    }
}

/// `m` was yielded as the best of what the list held: the list had an
/// entry with this move, and no entry that is left scores higher than it.
pub open spec fn tops(before: Seq<ScoredMove>, left: Seq<ScoredMove>, m: Move) -> bool {
    exists|i: int|
        0 <= i < before.len() && (#[trigger] before[i]).mv == m && forall|j: int|
            0 <= j < left.len() ==> (#[trigger] left[j]).score <= before[i].score
}

/// What is left of a list after its best entry is taken out scores no
/// higher than that entry, and all of it was in the list.
pub(crate) proof fn lemma_rest_is_below(list: Seq<ScoredMove>)
    requires
        list.len() > 0,
    ensures
        0 <= best_index(list) < list.len(),
        swap_removed(list, best_index(list)).len() == list.len() - 1,
        entries_within(swap_removed(list, best_index(list)), list),
        forall|j: int|
            0 <= j < list.len() - 1 ==> (#[trigger] swap_removed(list, best_index(list))[j]).score
                <= list[best_index(list)].score,
{
    lemma_best_index(list);
    let i = best_index(list);
    let rest = swap_removed(list, i);
    assert forall|j: int| 0 <= j < rest.len() implies has_entry(list, #[trigger] rest[j])
        && rest[j].score <= list[i].score by {
        lemma_swap_removed_entries(list, i, j);
        if j == i {
            assert(list[list.len() - 1] == rest[j]);
        } else {
            assert(list[j] == rest[j]);
        }
    }
}

/// Away from the root, a move that the quiet stage yields is the best of
/// what the list held, the hash move left out.
pub(crate) proof fn lemma_quiet_yields_best<B: Board, H: History>(
    s: PickerState,
    td: &ThreadData<B, H>,
    skip_quiets: bool,
    ply: isize,
)
    requires
        s.stage == Stage::Quiet,
        s.bad_noisy_idx <= s.bad_noisy.len(),
    ensures
        ({
            let (s2, r) = quiet_stage(s, td, false, skip_quiets, ply);
            r is Some && s2.stage == Stage::Quiet ==> tops(s.list, s2.list, r->0)
                && entries_within(s2.list, s.list)
        }),
    decreases s.list.len(),
{
    let (s2, r) = quiet_stage(s, td, false, skip_quiets, ply);
    if !skip_quiets && s.list.len() > 0 {
        lemma_rest_is_below(s.list);
        let i = best_index(s.list);
        let rest = swap_removed(s.list, i);
        if s.list[i].mv == s.tt_move {
            let s1 = PickerState { list: rest, ..s };
            lemma_quiet_yields_best(s1, td, skip_quiets, ply);
            if r is Some && s2.stage == Stage::Quiet {
                lemma_tops_within(rest, s.list, s2.list, r->0);
            }
        } else {
            assert(s2.list == rest);
            assert(s.list[i].mv == r->0);
        }
    } else {
        lemma_bad_noisy_orderly(PickerState { stage: Stage::BadNoisy, ..s }, td, skip_quiets);
    }
}

/// Away from the root, a move that the capture stage yields is the best of
/// what the list held, the hash move and what fell short of its exchange
/// left out.
pub(crate) proof fn lemma_good_noisy_yields_best<B: Board, H: History>(
    s: PickerState,
    td: &ThreadData<B, H>,
    skip_quiets: bool,
    ply: isize,
)
    requires
        s.stage == Stage::GoodNoisy,
        s.bad_noisy_idx <= s.bad_noisy.len(),
    ensures
        ({
            let (s2, r) = good_noisy_stage(s, td, false, skip_quiets, ply);
            r is Some && s2.stage == Stage::GoodNoisy ==> tops(s.list, s2.list, r->0)
                && entries_within(s2.list, s.list)
        }),
    decreases s.list.len(),
{
    let (s2, r) = good_noisy_stage(s, td, false, skip_quiets, ply);
    if s.list.len() > 0 {
        lemma_rest_is_below(s.list);
        let i = best_index(s.list);
        let e = s.list[i];
        let rest = swap_removed(s.list, i);
        if e.mv == s.tt_move {
            let s1 = PickerState { list: rest, ..s };
            lemma_good_noisy_yields_best(s1, td, skip_quiets, ply);
            if r is Some && s2.stage == Stage::GoodNoisy {
                lemma_tops_within(rest, s.list, s2.list, r->0);
            }
        } else if !td.board.see_at_least(e.mv, see_threshold(s.threshold, e.score)) {
            let s1 = PickerState { list: rest, bad_noisy: s.bad_noisy.push(e.mv), ..s };
            lemma_good_noisy_yields_best(s1, td, skip_quiets, ply);
            if r is Some && s2.stage == Stage::GoodNoisy {
                lemma_tops_within(rest, s.list, s2.list, r->0);
            }
        } else {
            assert(s2.list == rest);
            assert(s.list[i].mv == r->0);
        }
    } else {
        let s1 = PickerState { stage: Stage::GenerateQuiet, ..s };
        lemma_generate_quiet_advances(s1, td, false, skip_quiets, ply);
    }
}

/// What tops a part of a list tops the list, as far as the entries left are
/// concerned.
pub(crate) proof fn lemma_tops_within(
    part: Seq<ScoredMove>,
    list: Seq<ScoredMove>,
    left: Seq<ScoredMove>,
    m: Move,
)
    requires
        entries_within(part, list),
        tops(part, left, m),
        entries_within(left, part),
    ensures
        tops(list, left, m),
        entries_within(left, list),
{
    let i = choose|i: int|
        0 <= i < part.len() && (#[trigger] part[i]).mv == m && forall|j: int|
            0 <= j < left.len() ==> (#[trigger] left[j]).score <= part[i].score;
    assert(has_entry(list, part[i]));
    let q = choose|q: int| 0 <= q < list.len() && #[trigger] list[q] == part[i];
    assert(list[q].mv == m);
    assert forall|j: int| 0 <= j < left.len() implies has_entry(list, #[trigger] left[j]) by {
        assert(has_entry(part, left[j]));
        let p = choose|p: int| 0 <= p < part.len() && #[trigger] part[p] == left[j];
        assert(has_entry(list, part[p]));
    }
}

/// Away from the root, the moves that one stage yields from the list come
/// in falling order of score: a call that yields from the list of the
/// capture stage or of the quiet stage yields the move of an entry that no
/// entry left in the list outscores.
pub proof fn lemma_yields_fall<B: Board, H: History>(
    s: PickerState,
    td: &ThreadData<B, H>,
    skip_quiets: bool,
    ply: isize,
)
    requires
        s.wf(),
        s.stage == Stage::GoodNoisy || s.stage == Stage::Quiet,
    ensures
        ({
            let (s2, r) = pick(s, td, false, skip_quiets, ply);
            r is Some && s2.stage == s.stage ==> tops(s.list, s2.list, r->0) && entries_within(
                s2.list,
                s.list,
            )
        }),
{
    if s.stage == Stage::GoodNoisy {
        lemma_good_noisy_yields_best(s, td, skip_quiets, ply);
    } else {
        lemma_quiet_yields_best(s, td, skip_quiets, ply);
    }
}

} // verus!
