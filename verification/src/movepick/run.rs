//! What holds of whole runs of the picker: which moves a run yields, how
//! often, and when it ends.

use vstd::prelude::*;
use crate::board::{generation_complete, Board, History, ThreadData};
use crate::movepick::order::{generates_noisy, holds_noisy_only, lemma_pick_orderly};
use crate::movepick::progress::{in_bad, in_list, lemma_pick_advances, pending, weight};
use crate::movepick::{pick, PickerState, Stage};
use crate::types::Move;

verus! {

/// The picker after `n` calls made with the same arguments.
pub open spec fn after<B: Board, H: History>(
    s: PickerState,
    td: &ThreadData<B, H>,
    root: bool,
    skip_quiets: bool,
    ply: isize,
    n: nat,
) -> PickerState
    decreases n,
{
    if n == 0 {
        s
    } else {
        pick(after(s, td, root, skip_quiets, ply, (n - 1) as nat), td, root, skip_quiets, ply).0
    }
}

/// What call number `n` of a run returns, counting from 0.
pub open spec fn yielded<B: Board, H: History>(
    s: PickerState,
    td: &ThreadData<B, H>,
    root: bool,
    skip_quiets: bool,
    ply: isize,
    n: nat,
) -> Option<Move> {
    pick(after(s, td, root, skip_quiets, ply, n), td, root, skip_quiets, ply).1
}

/// A run of `n + 1` calls is one call followed by a run of `n`.
pub(crate) proof fn lemma_after_shift<B: Board, H: History>(
    s: PickerState,
    td: &ThreadData<B, H>,
    root: bool,
    skip_quiets: bool,
    ply: isize,
    n: nat,
)
    ensures
        after(s, td, root, skip_quiets, ply, n + 1) == after(
            pick(s, td, root, skip_quiets, ply).0,
            td,
            root,
            skip_quiets,
            ply,
            n,
        ),
    decreases n,
{
    let s1 = pick(s, td, root, skip_quiets, ply).0;
    if n > 0 {
        lemma_after_shift(s, td, root, skip_quiets, ply, (n - 1) as nat);
        assert(after(s, td, root, skip_quiets, ply, n) == after(
            s1,
            td,
            root,
            skip_quiets,
            ply,
            (n - 1) as nat,
        ));
    } else {
        assert(after(s, td, root, skip_quiets, ply, 0) == s);
        assert(after(s1, td, root, skip_quiets, ply, 0) == s1);
    }
    assert(after(s, td, root, skip_quiets, ply, n + 1) == pick(
        after(s, td, root, skip_quiets, ply, n),
        td,
        root,
        skip_quiets,
        ply,
    ).0);
}

/// Along a run the hash move and the threshold stay, the cursor stays
/// inside the set-aside buffer, and the first stage is left for good.
pub(crate) proof fn lemma_after_keeps<B: Board, H: History>(
    s: PickerState,
    td: &ThreadData<B, H>,
    root: bool,
    skip_quiets: bool,
    ply: isize,
    n: nat,
)
    requires
        s.bad_noisy_idx <= s.bad_noisy.len(),
    ensures
        after(s, td, root, skip_quiets, ply, n).tt_move == s.tt_move,
        after(s, td, root, skip_quiets, ply, n).threshold == s.threshold,
        after(s, td, root, skip_quiets, ply, n).bad_noisy_idx <= after(
            s,
            td,
            root,
            skip_quiets,
            ply,
            n,
        ).bad_noisy.len(),
        n > 0 ==> after(s, td, root, skip_quiets, ply, n).stage != Stage::HashMove,
    decreases n,
{
    if n > 0 {
        lemma_after_keeps(s, td, root, skip_quiets, ply, (n - 1) as nat);
        lemma_pick_advances(
            after(s, td, root, skip_quiets, ply, (n - 1) as nat),
            td,
            root,
            skip_quiets,
            ply,
        );
    }
}

/// The hash move is yielded at most once in a run, and then by the first
/// call, made in the first stage: no later call returns it.
pub proof fn lemma_hash_move_once<B: Board, H: History>(
    s: PickerState,
    td: &ThreadData<B, H>,
    root: bool,
    skip_quiets: bool,
    ply: isize,
    n: nat,
)
    requires
        s.wf(),
        yielded(s, td, root, skip_quiets, ply, n) == Some(s.tt_move),
    ensures
        n == 0,
        s.stage == Stage::HashMove,
{
    lemma_after_keeps(s, td, root, skip_quiets, ply, n);
    lemma_pick_advances(after(s, td, root, skip_quiets, ply, n), td, root, skip_quiets, ply);
}

/// Two runs from equal pickers over the same board and tables yield the same
/// moves, call for call.
pub proof fn lemma_runs_agree<B: Board, H: History>(
    s1: PickerState,
    s2: PickerState,
    td: &ThreadData<B, H>,
    root: bool,
    skip_quiets: bool,
    ply: isize,
    n: nat,
)
    requires
        s1 == s2,
    ensures
        yielded(s1, td, root, skip_quiets, ply, n) == yielded(s2, td, root, skip_quiets, ply, n),
        after(s1, td, root, skip_quiets, ply, n) == after(s2, td, root, skip_quiets, ply, n),
{
}

/// Whatever a run yields was pending when it began.
pub proof fn lemma_yielded_was_pending<B: Board, H: History>(
    s: PickerState,
    td: &ThreadData<B, H>,
    root: bool,
    skip_quiets: bool,
    ply: isize,
    n: nat,
    m: Move,
)
    requires
        s.bad_noisy_idx <= s.bad_noisy.len(),
        yielded(s, td, root, skip_quiets, ply, n) == Some(m),
    ensures
        pending(s, td, skip_quiets, m),
    decreases n,
{
    lemma_pick_advances(s, td, root, skip_quiets, ply);
    let s1 = pick(s, td, root, skip_quiets, ply).0;
    if n > 0 {
        lemma_after_shift(s, td, root, skip_quiets, ply, (n - 1) as nat);
        lemma_yielded_was_pending(s1, td, root, skip_quiets, ply, (n - 1) as nat, m);
        assert(pending(s1, td, skip_quiets, m));
    }
}

/// Whatever is pending when a run begins is yielded by one of its calls.
pub proof fn lemma_pending_is_yielded<B: Board, H: History>(
    s: PickerState,
    td: &ThreadData<B, H>,
    root: bool,
    skip_quiets: bool,
    ply: isize,
    m: Move,
) -> (n: nat)
    requires
        s.bad_noisy_idx <= s.bad_noisy.len(),
        pending(s, td, skip_quiets, m),
    ensures
        yielded(s, td, root, skip_quiets, ply, n) == Some(m),
    decreases weight(s, td, skip_quiets),
{
    lemma_pick_advances(s, td, root, skip_quiets, ply);
    let (s1, r) = pick(s, td, root, skip_quiets, ply);
    if r == Some(m) {
        0
    } else {
        assert(pending(s1, td, skip_quiets, m));
        let k = lemma_pending_is_yielded(s1, td, root, skip_quiets, ply, m);
        lemma_after_shift(s, td, root, skip_quiets, ply, k);
        k + 1
    }
}

/// A run ends: after as many calls as the weight of its first state, the
/// picker returns `None`, and it keeps doing so.
pub proof fn lemma_run_ends<B: Board, H: History>(
    s: PickerState,
    td: &ThreadData<B, H>,
    root: bool,
    skip_quiets: bool,
    ply: isize,
    n: nat,
)
    requires
        s.bad_noisy_idx <= s.bad_noisy.len(),
        n >= weight(s, td, skip_quiets),
    ensures
        yielded(s, td, root, skip_quiets, ply, n) == None::<Move>,
    decreases n,
{
    lemma_pick_advances(s, td, root, skip_quiets, ply);
    let (s1, r) = pick(s, td, root, skip_quiets, ply);
    if n > 0 {
        lemma_after_shift(s, td, root, skip_quiets, ply, (n - 1) as nat);
        if r is None {
            lemma_nothing_pending_ends(s1, td, root, skip_quiets, ply, (n - 1) as nat);
        } else {
            lemma_run_ends(s1, td, root, skip_quiets, ply, (n - 1) as nat);
        }
    }
}

/// With nothing pending every call returns `None`.
pub(crate) proof fn lemma_nothing_pending_ends<B: Board, H: History>(
    s: PickerState,
    td: &ThreadData<B, H>,
    root: bool,
    skip_quiets: bool,
    ply: isize,
    n: nat,
)
    requires
        s.bad_noisy_idx <= s.bad_noisy.len(),
        forall|m: Move| !#[trigger] pending(s, td, skip_quiets, m),
    ensures
        yielded(s, td, root, skip_quiets, ply, n) == None::<Move>,
    decreases n,
{
    lemma_pick_advances(s, td, root, skip_quiets, ply);
    let (s1, r) = pick(s, td, root, skip_quiets, ply);
    match r {
        Some(x) => {
            assert(pending(s, td, skip_quiets, x));
        },
        None => {},
    }
    if n > 0 {
        lemma_after_shift(s, td, root, skip_quiets, ply, (n - 1) as nat);
        lemma_nothing_pending_ends(s1, td, root, skip_quiets, ply, (n - 1) as nat);
    }
}

/// A run from a picker that has not generated anything yet, with quiets not
/// skipped, yields the pseudo-legal moves and nothing else. The one
/// exception is the hash move of a picker that is past its first stage: it
/// is passed over.
pub proof fn lemma_run_is_complete<B: Board, H: History>(
    s: PickerState,
    td: &ThreadData<B, H>,
    root: bool,
    ply: isize,
    m: Move,
)
    requires
        s.wf(),
        s.stage == Stage::HashMove || s.stage == Stage::GenerateNoisy,
        generation_complete(&td.board),
    ensures
        (exists|n: nat| #[trigger] yielded(s, td, root, false, ply, n) == Some(m)) <==> (
        td.board.pseudo_legal(m) && (s.stage == Stage::HashMove || m != s.tt_move)),
{
    assert(!in_list(s.list, m));
    assert(!in_bad(s, m));
    assert(td.board.noisy_moves().contains(m) <==> td.board.pseudo_legal(m) && m.is_noisy_spec());
    assert(td.board.quiet_moves().contains(m) <==> td.board.pseudo_legal(m) && !m.is_noisy_spec());
    if pending(s, td, false, m) {
        let n = lemma_pending_is_yielded(s, td, root, false, ply, m);
    }
    if exists|n: nat| #[trigger] yielded(s, td, root, false, ply, n) == Some(m) {
        let n = choose|n: nat| #[trigger] yielded(s, td, root, false, ply, n) == Some(m);
        lemma_yielded_was_pending(s, td, root, false, ply, n, m);
    }
}

/// Along a run a picker that holds noisy moves only outside the quiet
/// stages goes on doing so.
pub(crate) proof fn lemma_after_holds_noisy_only<B: Board, H: History>(
    s: PickerState,
    td: &ThreadData<B, H>,
    root: bool,
    skip_quiets: bool,
    ply: isize,
    n: nat,
)
    requires
        s.bad_noisy_idx <= s.bad_noisy.len(),
        holds_noisy_only(s),
        generates_noisy(&td.board),
    ensures
        holds_noisy_only(after(s, td, root, skip_quiets, ply, n)),
    decreases n,
{
    if n > 0 {
        lemma_after_holds_noisy_only(s, td, root, skip_quiets, ply, (n - 1) as nat);
        lemma_after_keeps(s, td, root, skip_quiets, ply, (n - 1) as nat);
        lemma_pick_orderly(
            after(s, td, root, skip_quiets, ply, (n - 1) as nat),
            td,
            root,
            skip_quiets,
            ply,
        );
    }
}

/// A run that skips quiets, from a picker that has not generated anything
/// yet, yields noisy moves only, but for the hash move, which the first
/// call may yield whatever it is.
pub proof fn lemma_skipping_run_yields_noisy<B: Board, H: History>(
    s: PickerState,
    td: &ThreadData<B, H>,
    root: bool,
    ply: isize,
    n: nat,
    m: Move,
)
    requires
        s.wf(),
        s.stage == Stage::HashMove || s.stage == Stage::GenerateNoisy,
        generates_noisy(&td.board),
        yielded(s, td, root, true, ply, n) == Some(m),
    ensures
        m.is_noisy_spec() || (n == 0 && s.stage == Stage::HashMove && m == s.tt_move),
{
    lemma_after_holds_noisy_only(s, td, root, true, ply, n);
    lemma_after_keeps(s, td, root, true, ply, n);
    lemma_pick_orderly(after(s, td, root, true, ply, n), td, root, true, ply);
}

} // verus!
