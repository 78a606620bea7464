//! How a call moves the picker along: which moves are still to come in a
//! state, and that every call takes exactly the yielded move out of them.

use vstd::prelude::*;
use crate::board::{Board, History, ThreadData};
use crate::movepick::{
    bad_noisy_stage, best_index, generate_noisy_stage, generate_quiet_stage, good_noisy_stage,
    lemma_best_index, pick, quiet_stage, rescored_noisy, rescored_quiet, see_threshold, unscored,
    PickerState, Stage,
};
use crate::types::{swap_removed, Move, ScoredMove};

verus! {

/// How many stages lie behind `stage`.
pub open spec fn rank(stage: Stage) -> nat {
    match stage {
        Stage::HashMove => 5,
        Stage::GenerateNoisy => 4,
        Stage::GoodNoisy => 3,
        Stage::GenerateQuiet => 2,
        Stage::Quiet => 1,
        Stage::BadNoisy => 0,
    }
}

/// `m` is the move of some entry of `list`.
pub open spec fn in_list(list: Seq<ScoredMove>, m: Move) -> bool {
    exists|i: int| 0 <= i < list.len() && (#[trigger] list[i]).mv == m
}

/// `m` is among the set-aside captures not yet handed out.
pub open spec fn in_bad(s: PickerState, m: Move) -> bool {
    exists|k: int| s.bad_noisy_idx <= k < s.bad_noisy.len() && #[trigger] s.bad_noisy[k] == m
}

/// Whether the entries of the list will still be looked at.
pub open spec fn list_live(stage: Stage, skip_quiets: bool) -> bool {
    rank(stage) >= 3 || (!skip_quiets && rank(stage) >= 1)
}

/// `m` is still to come: it is the hash move waiting in the first stage, or
/// another move that sits in the list, in a generator not yet run, or among
/// the set-aside captures.
pub open spec fn pending<B: Board, H: History>(
    s: PickerState,
    td: &ThreadData<B, H>,
    skip_quiets: bool,
    m: Move,
) -> bool {
    ||| s.stage == Stage::HashMove && m == s.tt_move && td.board.pseudo_legal(m)
    ||| m != s.tt_move && {
        ||| list_live(s.stage, skip_quiets) && in_list(s.list, m)
        ||| rank(s.stage) >= 4 && td.board.noisy_moves().contains(m)
        ||| rank(s.stage) >= 2 && !skip_quiets && td.board.quiet_moves().contains(m)
        ||| in_bad(s, m)
    }
}

/// An upper bound on the number of moves still to come.
pub open spec fn weight<B: Board, H: History>(
    s: PickerState,
    td: &ThreadData<B, H>,
    skip_quiets: bool,
) -> int {
    (if s.stage == Stage::HashMove {
        1int
    } else {
        0
    }) + (if list_live(s.stage, skip_quiets) {
        s.list.len() as int
    } else {
        0
    }) + (if rank(s.stage) >= 4 {
        td.board.noisy_moves().len() as int
    } else {
        0
    }) + (if rank(s.stage) >= 2 && !skip_quiets {
        td.board.quiet_moves().len() as int
    } else {
        0
    }) + (s.bad_noisy.len() - s.bad_noisy_idx)
}

/// How a call that starts in `s`, ends in `s2` and returns `r` moves the
/// picker along: the hash move and the threshold stay, no stage comes back,
/// a yielded move leaves the pending ones and nothing else does, and `None`
/// comes only when nothing is pending.
pub open spec fn advances<B: Board, H: History>(
    s: PickerState,
    s2: PickerState,
    r: Option<Move>,
    td: &ThreadData<B, H>,
    skip_quiets: bool,
) -> bool {
    &&& s2.tt_move == s.tt_move
    &&& s2.threshold == s.threshold
    &&& rank(s2.stage) <= rank(s.stage)
    &&& s2.bad_noisy_idx <= s2.bad_noisy.len()
    &&& match r {
        Some(x) => {
            &&& weight(s2, td, skip_quiets) < weight(s, td, skip_quiets)
            &&& s.stage != Stage::HashMove ==> x != s.tt_move
            &&& forall|m: Move|
                #![trigger pending(s, td, skip_quiets, m)]
                #![trigger pending(s2, td, skip_quiets, m)]
                pending(s, td, skip_quiets, m) <==> (m == x || pending(s2, td, skip_quiets, m))
        },
        None => {
            &&& forall|m: Move| !#[trigger] pending(s, td, skip_quiets, m)
            &&& forall|m: Move| !#[trigger] pending(s2, td, skip_quiets, m)
        },
    }
}

/// Taking an entry out of a list takes its move out of the list's moves, and
/// no other, unless an equal move stays behind.
pub(crate) proof fn lemma_in_list_swap_removed(list: Seq<ScoredMove>, i: int, m: Move)
    requires
        0 <= i < list.len(),
    ensures
        in_list(list, m) <==> (list[i].mv == m || in_list(swap_removed(list, i), m)),
{
    let rest = swap_removed(list, i);
    if in_list(list, m) && list[i].mv != m {
        let j = choose|j: int| 0 <= j < list.len() && (#[trigger] list[j]).mv == m;
        if j == list.len() - 1 {
            assert(rest[i].mv == m);
        } else {
            assert(rest[j].mv == m);
        }
    }
    if in_list(rest, m) {
        let j = choose|j: int| 0 <= j < rest.len() && (#[trigger] rest[j]).mv == m;
        if j == i {
            assert(list[list.len() - 1].mv == m);
        } else {
            assert(list[j].mv == m);
        }
    }
}

/// Scoring keeps the moves of a list.
pub(crate) proof fn lemma_in_list_rescored<B: Board, H: History>(
    td: &ThreadData<B, H>,
    tt_move: Move,
    ply: isize,
    list: Seq<ScoredMove>,
    m: Move,
)
    ensures
        in_list(rescored_noisy(td, tt_move, list), m) <==> in_list(list, m),
        in_list(rescored_quiet(td, tt_move, ply, list), m) <==> in_list(list, m),
{
    let a = rescored_noisy(td, tt_move, list);
    let b = rescored_quiet(td, tt_move, ply, list);
    if in_list(list, m) {
        let j = choose|j: int| 0 <= j < list.len() && (#[trigger] list[j]).mv == m;
        assert(a[j].mv == m);
        assert(b[j].mv == m);
    }
    if in_list(a, m) {
        let j = choose|j: int| 0 <= j < a.len() && (#[trigger] a[j]).mv == m;
        assert(list[j].mv == m);
    }
    if in_list(b, m) {
        let j = choose|j: int| 0 <= j < b.len() && (#[trigger] b[j]).mv == m;
        assert(list[j].mv == m);
    }
}

/// The moves of a list after a generator has run are the ones it held and
/// the generated ones.
pub(crate) proof fn lemma_in_list_appended(list: Seq<ScoredMove>, moves: Seq<Move>, m: Move)
    ensures
        in_list(list + unscored(moves), m) <==> (in_list(list, m) || moves.contains(m)),
{
    let all = list + unscored(moves);
    if in_list(list, m) {
        let j = choose|j: int| 0 <= j < list.len() && (#[trigger] list[j]).mv == m;
        assert(all[j].mv == m);
    }
    if moves.contains(m) {
        let j = choose|j: int| 0 <= j < moves.len() && moves[j] == m;
        assert(all[list.len() + j].mv == m);
    }
    if in_list(all, m) {
        let j = choose|j: int| 0 <= j < all.len() && (#[trigger] all[j]).mv == m;
        if j < list.len() {
            assert(list[j].mv == m);
        } else {
            assert(moves[j - list.len()] == m);
        }
    }
}

/// The captures still to be handed out depend on the set-aside buffer and
/// its cursor alone.
pub(crate) proof fn lemma_in_bad_same(s: PickerState, s1: PickerState, m: Move)
    requires
        s1.bad_noisy == s.bad_noisy,
        s1.bad_noisy_idx == s.bad_noisy_idx,
    ensures
        in_bad(s1, m) <==> in_bad(s, m),
{
    if in_bad(s, m) {
        let k = choose|k: int|
            s.bad_noisy_idx <= k < s.bad_noisy.len() && #[trigger] s.bad_noisy[k] == m;
        assert(s1.bad_noisy[k] == m);
    }
    if in_bad(s1, m) {
        let k = choose|k: int|
            s1.bad_noisy_idx <= k < s1.bad_noisy.len() && #[trigger] s1.bad_noisy[k] == m;
        assert(s.bad_noisy[k] == m);
    }
}

/// The last stage moves the picker along.
pub(crate) proof fn lemma_bad_noisy_advances<B: Board, H: History>(
    s: PickerState,
    td: &ThreadData<B, H>,
    skip_quiets: bool,
)
    requires
        s.bad_noisy_idx <= s.bad_noisy.len(),
        s.stage == Stage::BadNoisy,
    ensures
        advances(s, bad_noisy_stage(s).0, bad_noisy_stage(s).1, td, skip_quiets),
    decreases s.bad_noisy.len() - s.bad_noisy_idx,
{
    if s.bad_noisy_idx < s.bad_noisy.len() {
        let mv = s.bad_noisy[s.bad_noisy_idx as int];
        let s1 = PickerState { bad_noisy_idx: s.bad_noisy_idx + 1, ..s };
        assert forall|m: Move| in_bad(s, m) <==> (m == mv || in_bad(s1, m)) by {
            if in_bad(s, m) && m != mv {
                let k = choose|k: int|
                    s.bad_noisy_idx <= k < s.bad_noisy.len() && #[trigger] s.bad_noisy[k] == m;
                assert(s1.bad_noisy[k] == m);
            }
            if in_bad(s1, m) {
                let k = choose|k: int|
                    s1.bad_noisy_idx <= k < s1.bad_noisy.len() && #[trigger] s1.bad_noisy[k] == m;
                assert(s.bad_noisy[k] == m);
            }
            if m == mv {
                assert(s.bad_noisy[s.bad_noisy_idx as int] == m);
            }
        }
        if mv == s.tt_move {
            lemma_bad_noisy_advances(s1, td, skip_quiets);
            let (s2, r) = bad_noisy_stage(s1);
            assert forall|m: Move|
                pending(s, td, skip_quiets, m) <==> pending(s1, td, skip_quiets, m) by {}
        } else {
            assert forall|m: Move|
                pending(s, td, skip_quiets, m) <==> (m == mv || pending(s1, td, skip_quiets, m)) by {}
        }
    } else {
        assert forall|m: Move| !in_bad(s, m) by {}
    }
}

/// Two states have the same moves pending and the same weight, or the
/// second a smaller one.
pub open spec fn same_pending<B: Board, H: History>(
    s: PickerState,
    s1: PickerState,
    td: &ThreadData<B, H>,
    skip_quiets: bool,
) -> bool {
    &&& s1.tt_move == s.tt_move
    &&& s1.threshold == s.threshold
    &&& rank(s1.stage) <= rank(s.stage)
    &&& s.stage == Stage::HashMove ==> s1.stage == Stage::HashMove
    &&& weight(s1, td, skip_quiets) <= weight(s, td, skip_quiets)
    &&& forall|m: Move|
        #![trigger pending(s, td, skip_quiets, m)]
        #![trigger pending(s1, td, skip_quiets, m)]
        pending(s, td, skip_quiets, m) <==> pending(s1, td, skip_quiets, m)
}

/// A call that moves the picker along from `s1` does so from any state with
/// the same moves pending.
pub(crate) proof fn lemma_advances_from<B: Board, H: History>(
    s: PickerState,
    s1: PickerState,
    td: &ThreadData<B, H>,
    root: bool,
    skip_quiets: bool,
    ply: isize,
    out: (PickerState, Option<Move>),
)
    requires
        same_pending(s, s1, td, skip_quiets),
        advances(s1, out.0, out.1, td, skip_quiets),
    ensures
        advances(s, out.0, out.1, td, skip_quiets),
{
    match out.1 {
        Some(x) => {
            assert forall|m: Move|
                #![trigger pending(s, td, skip_quiets, m)]
                #![trigger pending(out.0, td, skip_quiets, m)]
                pending(s, td, skip_quiets, m) <==> (m == x || pending(
                    out.0,
                    td,
                    skip_quiets,
                    m,
                )) by {
                assert(pending(s, td, skip_quiets, m) <==> pending(s1, td, skip_quiets, m));
            }
        },
        None => {
            assert forall|m: Move| !#[trigger] pending(s, td, skip_quiets, m) by {
                assert(pending(s, td, skip_quiets, m) <==> pending(s1, td, skip_quiets, m));
            }
        },
    }
}

/// Taking the hash move out of the list changes nothing that is pending.
pub(crate) proof fn lemma_hash_move_dropped<B: Board, H: History>(
    s: PickerState,
    s1: PickerState,
    rest: Seq<ScoredMove>,
    td: &ThreadData<B, H>,
    skip_quiets: bool,
)
    requires
        s.list.len() > 0,
        s.stage != Stage::HashMove,
        rest == swap_removed(s.list, best_index(s.list)),
        s.list[best_index(s.list)].mv == s.tt_move,
        s1 == (PickerState { list: rest, ..s }),
    ensures
        same_pending(s, s1, td, skip_quiets),
{
    lemma_best_index(s.list);
    assert forall|m: Move|
        #![trigger pending(s, td, skip_quiets, m)]
        #![trigger pending(s1, td, skip_quiets, m)]
        pending(s, td, skip_quiets, m) <==> pending(s1, td, skip_quiets, m) by {
        lemma_in_list_swap_removed(s.list, best_index(s.list), m);
        lemma_in_bad_same(s, s1, m);
    }
}

/// Setting the picked capture aside changes nothing that is pending.
pub(crate) proof fn lemma_set_aside<B: Board, H: History>(
    s: PickerState,
    s1: PickerState,
    rest: Seq<ScoredMove>,
    x: Move,
    td: &ThreadData<B, H>,
    skip_quiets: bool,
)
    requires
        s.list.len() > 0,
        s.stage == Stage::GoodNoisy,
        s.bad_noisy_idx <= s.bad_noisy.len(),
        rest == swap_removed(s.list, best_index(s.list)),
        s.list[best_index(s.list)].mv == x,
        x != s.tt_move,
        s1 == (PickerState { list: rest, bad_noisy: s.bad_noisy.push(x), ..s }),
    ensures
        same_pending(s, s1, td, skip_quiets),
{
    lemma_best_index(s.list);
    assert forall|m: Move|
        #![trigger pending(s, td, skip_quiets, m)]
        #![trigger pending(s1, td, skip_quiets, m)]
        pending(s, td, skip_quiets, m) <==> pending(s1, td, skip_quiets, m) by {
        lemma_in_list_swap_removed(s.list, best_index(s.list), m);
        lemma_in_bad_pushed(s, x, m);
        lemma_in_bad_same(PickerState { bad_noisy: s.bad_noisy.push(x), ..s }, s1, m);
    }
}

/// Yielding the picked entry takes its move out of the pending ones.
pub(crate) proof fn lemma_yield_from_list<B: Board, H: History>(
    s: PickerState,
    s2: PickerState,
    rest: Seq<ScoredMove>,
    x: Move,
    td: &ThreadData<B, H>,
    ply: isize,
    skip_quiets: bool,
)
    requires
        s.list.len() > 0,
        s.stage == Stage::GoodNoisy || (s.stage == Stage::Quiet && !skip_quiets),
        s.bad_noisy_idx <= s.bad_noisy.len(),
        rest == swap_removed(s.list, best_index(s.list)),
        s.list[best_index(s.list)].mv == x,
        x != s.tt_move,
        s2 == (PickerState { list: s2.list, ..s }),
        s2.list == rest || s2.list == rescored_noisy(td, s.tt_move, rest) || s2.list
            == rescored_quiet(td, s.tt_move, ply, rest),
    ensures
        advances(s, s2, Some(x), td, skip_quiets),
{
    lemma_best_index(s.list);
    assert forall|m: Move|
        #![trigger pending(s, td, skip_quiets, m)]
        #![trigger pending(s2, td, skip_quiets, m)]
        pending(s, td, skip_quiets, m) <==> (m == x || pending(s2, td, skip_quiets, m)) by {
        lemma_in_list_swap_removed(s.list, best_index(s.list), m);
        lemma_in_list_rescored(td, s.tt_move, ply, rest, m);
        lemma_in_bad_same(s, s2, m);
    }
}

/// The quiet stage and what follows it move the picker along.
pub(crate) proof fn lemma_quiet_advances<B: Board, H: History>(
    s: PickerState,
    td: &ThreadData<B, H>,
    root: bool,
    skip_quiets: bool,
    ply: isize,
)
    requires
        s.bad_noisy_idx <= s.bad_noisy.len(),
        rank(s.stage) <= 1,
    ensures
        advances(
            s,
            quiet_stage(s, td, root, skip_quiets, ply).0,
            quiet_stage(s, td, root, skip_quiets, ply).1,
            td,
            skip_quiets,
        ),
    decreases s.list.len(),
{
    if s.stage == Stage::Quiet {
        if !skip_quiets && s.list.len() > 0 {
            lemma_best_index(s.list);
            let i = best_index(s.list);
            let e = s.list[i];
            let rest = swap_removed(s.list, i);
            assert forall|m: Move| in_list(s.list, m) <==> (e.mv == m || in_list(rest, m)) by {
                lemma_in_list_swap_removed(s.list, i, m);
            }
            if e.mv == s.tt_move {
                let s1 = PickerState { list: rest, ..s };
                lemma_quiet_advances(s1, td, root, skip_quiets, ply);
                lemma_hash_move_dropped(s, s1, rest, td, skip_quiets);
                lemma_advances_from(
                    s,
                    s1,
                    td,
                    root,
                    skip_quiets,
                    ply,
                    quiet_stage(s1, td, root, skip_quiets, ply),
                );
            } else {
                let s2 = PickerState {
                    list: if root {
                        rescored_quiet(td, s.tt_move, ply, rest)
                    } else {
                        rest
                    },
                    ..s
                };
                assert(quiet_stage(s, td, root, skip_quiets, ply) == (s2, Some(e.mv)));
                lemma_yield_from_list(s, s2, rest, e.mv, td, ply, skip_quiets);
            }
        } else {
            let s1 = PickerState { stage: Stage::BadNoisy, ..s };
            lemma_bad_noisy_advances(s1, td, skip_quiets);
            assert forall|m: Move|
                pending(s, td, skip_quiets, m) <==> pending(s1, td, skip_quiets, m) by {
                lemma_in_bad_same(s, s1, m);
                if !skip_quiets {
                    assert(!in_list(s.list, m));
                }
            }
        }
    } else {
        lemma_bad_noisy_advances(s, td, skip_quiets);
    }
}

/// Quiet generation and what follows it move the picker along.
pub(crate) proof fn lemma_generate_quiet_advances<B: Board, H: History>(
    s: PickerState,
    td: &ThreadData<B, H>,
    root: bool,
    skip_quiets: bool,
    ply: isize,
)
    requires
        s.bad_noisy_idx <= s.bad_noisy.len(),
        rank(s.stage) <= 2,
    ensures
        advances(
            s,
            generate_quiet_stage(s, td, root, skip_quiets, ply).0,
            generate_quiet_stage(s, td, root, skip_quiets, ply).1,
            td,
            skip_quiets,
        ),
{
    if s.stage == Stage::GenerateQuiet {
        if !skip_quiets {
            let joined = s.list + unscored(td.board.quiet_moves());
            let s1 = PickerState {
                stage: Stage::Quiet,
                list: rescored_quiet(td, s.tt_move, ply, joined),
                ..s
            };
            lemma_quiet_advances(s1, td, root, skip_quiets, ply);
            assert forall|m: Move|
                pending(s, td, skip_quiets, m) <==> pending(s1, td, skip_quiets, m) by {
                lemma_in_list_rescored(td, s.tt_move, ply, joined, m);
                lemma_in_list_appended(s.list, td.board.quiet_moves(), m);
                lemma_in_bad_same(s, s1, m);
            }
        } else {
            let s1 = PickerState { stage: Stage::BadNoisy, ..s };
            lemma_quiet_advances(s1, td, root, skip_quiets, ply);
            assert forall|m: Move|
                pending(s, td, skip_quiets, m) <==> pending(s1, td, skip_quiets, m) by {
                lemma_in_bad_same(s, s1, m);
            }
        }
    } else {
        lemma_quiet_advances(s, td, root, skip_quiets, ply);
    }
}

/// The capture stage and what follows it move the picker along.
pub(crate) proof fn lemma_good_noisy_advances<B: Board, H: History>(
    s: PickerState,
    td: &ThreadData<B, H>,
    root: bool,
    skip_quiets: bool,
    ply: isize,
)
    requires
        s.bad_noisy_idx <= s.bad_noisy.len(),
        rank(s.stage) <= 3,
    ensures
        advances(
            s,
            good_noisy_stage(s, td, root, skip_quiets, ply).0,
            good_noisy_stage(s, td, root, skip_quiets, ply).1,
            td,
            skip_quiets,
        ),
    decreases s.list.len(),
{
    if s.stage == Stage::GoodNoisy {
        if s.list.len() > 0 {
            lemma_best_index(s.list);
            let i = best_index(s.list);
            let e = s.list[i];
            let rest = swap_removed(s.list, i);
            assert forall|m: Move| in_list(s.list, m) <==> (e.mv == m || in_list(rest, m)) by {
                lemma_in_list_swap_removed(s.list, i, m);
            }
            if e.mv == s.tt_move {
                let s1 = PickerState { list: rest, ..s };
                lemma_good_noisy_advances(s1, td, root, skip_quiets, ply);
                lemma_hash_move_dropped(s, s1, rest, td, skip_quiets);
                lemma_advances_from(
                    s,
                    s1,
                    td,
                    root,
                    skip_quiets,
                    ply,
                    good_noisy_stage(s1, td, root, skip_quiets, ply),
                );
            } else if !td.board.see_at_least(e.mv, see_threshold(s.threshold, e.score)) {
                let s1 = PickerState { list: rest, bad_noisy: s.bad_noisy.push(e.mv), ..s };
                lemma_good_noisy_advances(s1, td, root, skip_quiets, ply);
                lemma_set_aside(s, s1, rest, e.mv, td, skip_quiets);
                lemma_advances_from(
                    s,
                    s1,
                    td,
                    root,
                    skip_quiets,
                    ply,
                    good_noisy_stage(s1, td, root, skip_quiets, ply),
                );
            } else {
                let s2 = PickerState {
                    list: if root {
                        rescored_noisy(td, s.tt_move, rest)
                    } else {
                        rest
                    },
                    ..s
                };
                assert(good_noisy_stage(s, td, root, skip_quiets, ply) == (s2, Some(e.mv)));
                lemma_yield_from_list(s, s2, rest, e.mv, td, ply, skip_quiets);
            }
        } else {
            let s1 = PickerState { stage: Stage::GenerateQuiet, ..s };
            lemma_generate_quiet_advances(s1, td, root, skip_quiets, ply);
            assert forall|m: Move|
                pending(s, td, skip_quiets, m) <==> pending(s1, td, skip_quiets, m) by {
                lemma_in_bad_same(s, s1, m);
                assert(!in_list(s.list, m));
            }
        }
    } else {
        lemma_generate_quiet_advances(s, td, root, skip_quiets, ply);
    }
}

/// Setting a capture aside adds it to the ones still to be handed out.
pub(crate) proof fn lemma_in_bad_pushed(s: PickerState, x: Move, m: Move)
    requires
        s.bad_noisy_idx <= s.bad_noisy.len(),
    ensures
        in_bad(PickerState { bad_noisy: s.bad_noisy.push(x), ..s }, m) <==> (m == x || in_bad(
            s,
            m,
        )),
{
    let s1 = PickerState { bad_noisy: s.bad_noisy.push(x), ..s };
    if in_bad(s, m) {
        let k = choose|k: int|
            s.bad_noisy_idx <= k < s.bad_noisy.len() && #[trigger] s.bad_noisy[k] == m;
        assert(s1.bad_noisy[k] == m);
    }
    if m == x {
        assert(s1.bad_noisy[s.bad_noisy.len() as int] == m);
    }
    if in_bad(s1, m) && m != x {
        let k = choose|k: int|
            s1.bad_noisy_idx <= k < s1.bad_noisy.len() && #[trigger] s1.bad_noisy[k] == m;
        assert(s.bad_noisy[k] == m);
    }
}

/// Noisy generation and what follows it move the picker along.
pub(crate) proof fn lemma_generate_noisy_advances<B: Board, H: History>(
    s: PickerState,
    td: &ThreadData<B, H>,
    root: bool,
    skip_quiets: bool,
    ply: isize,
)
    requires
        s.bad_noisy_idx <= s.bad_noisy.len(),
        rank(s.stage) <= 4,
    ensures
        advances(
            s,
            generate_noisy_stage(s, td, root, skip_quiets, ply).0,
            generate_noisy_stage(s, td, root, skip_quiets, ply).1,
            td,
            skip_quiets,
        ),
{
    if s.stage == Stage::GenerateNoisy {
        let joined = s.list + unscored(td.board.noisy_moves());
        let s1 = PickerState {
            stage: Stage::GoodNoisy,
            list: rescored_noisy(td, s.tt_move, joined),
            ..s
        };
        lemma_good_noisy_advances(s1, td, root, skip_quiets, ply);
        assert forall|m: Move|
            pending(s, td, skip_quiets, m) <==> pending(s1, td, skip_quiets, m) by {
            lemma_in_list_rescored(td, s.tt_move, ply, joined, m);
            lemma_in_list_appended(s.list, td.board.noisy_moves(), m);
            lemma_in_bad_same(s, s1, m);
        }
    } else {
        lemma_good_noisy_advances(s, td, root, skip_quiets, ply);
    }
}

/// Every call moves the picker along.
pub proof fn lemma_pick_advances<B: Board, H: History>(
    s: PickerState,
    td: &ThreadData<B, H>,
    root: bool,
    skip_quiets: bool,
    ply: isize,
)
    requires
        s.bad_noisy_idx <= s.bad_noisy.len(),
    ensures
        advances(
            s,
            pick(s, td, root, skip_quiets, ply).0,
            pick(s, td, root, skip_quiets, ply).1,
            td,
            skip_quiets,
        ),
        pick(s, td, root, skip_quiets, ply).0.stage != Stage::HashMove,
{
    if s.stage == Stage::HashMove {
        let s1 = PickerState { stage: Stage::GenerateNoisy, ..s };
        assert forall|m: Move| in_bad(s1, m) <==> in_bad(s, m) by {
            lemma_in_bad_same(s, s1, m);
        }
        if td.board.pseudo_legal(s.tt_move) {
            assert forall|m: Move|
                pending(s, td, skip_quiets, m) <==> (m == s.tt_move || pending(
                    s1,
                    td,
                    skip_quiets,
                    m,
                )) by {}
        } else {
            lemma_generate_noisy_advances(s1, td, root, skip_quiets, ply);
            assert forall|m: Move|
                pending(s, td, skip_quiets, m) <==> pending(s1, td, skip_quiets, m) by {}
        }
    } else {
        lemma_generate_noisy_advances(s, td, root, skip_quiets, ply);
    }
}

} // verus!
