//! The broadcast protocol as a whole: the futex word, the sender and all
//! receivers as one value, the steps that the ends of a channel take on it,
//! and what every run of those steps keeps true.

use vstd::prelude::*;
use crate::threadpool::channel::{Futex, THREADS_MASK};

verus! {

/// One receiver: the generation it last took, whether it holds a message
/// it has not released yet, and the messages its handler has run on.
/// Messages are named by their number in send order.
pub struct Receiving {
    pub generation: bool,
    pub holding: bool,
    pub handled: Seq<nat>,
}

/// A channel with its ends.
pub struct Channel {
    pub word: Futex,
    /// The sender has begun a broadcast and not yet seen it drained.
    pub sending: bool,
    /// How many messages have been sent.
    pub sent: nat,
    /// The message now published, if any.
    pub message: Option<nat>,
    pub receivers: Seq<Receiving>,
}

/// The steps of the protocol: the sender begins a broadcast, the sender
/// looks whether it has drained, a receiver looks for a message, a receiver
/// releases the message it holds.
pub enum Step {
    Send,
    Drained,
    Recv(int),
    Release(int),
}

/// A channel as `channel` makes it.
pub open spec fn fresh(receiver_count: nat) -> Channel {
    Channel {
        word: Futex { threads: 0, generation: false },
        sending: false,
        sent: 0,
        message: None,
        receivers: Seq::new(
            receiver_count,
            |i: int| Receiving { generation: false, holding: false, handled: Seq::empty() },
        ),
    }
}

/// Which steps the ends may take: the sender begins a broadcast only when
/// it is in none, and looks for the drain only when it is in one; a
/// receiver looks for a message when it holds none and releases when it
/// holds one.
pub open spec fn enabled(c: Channel, step: Step) -> bool {
    match step {
        Step::Send => !c.sending,
        Step::Drained => c.sending,
        Step::Recv(i) => 0 <= i < c.receivers.len() && !c.receivers[i].holding,
        Step::Release(i) => 0 <= i < c.receivers.len() && c.receivers[i].holding,
    }
}

/// The channel after a step.
pub open spec fn step(c: Channel, step: Step) -> Channel {
    match step {
        Step::Send => match c.word.broadcast(c.receivers.len() as u32) {
            Some(f) => Channel {
                word: f,
                sending: true,
                sent: c.sent + 1,
                message: Some(c.sent),
                ..c
            },
            None => c,
        },
        Step::Drained => if c.word.is_drained() {
            Channel { sending: false, message: None, ..c }
        } else {
            c
        },
        Step::Recv(i) => if c.word.is_fresh_for(c.receivers[i].generation) && c.message is Some {
            Channel {
                receivers: c.receivers.update(
                    i,
                    Receiving {
                        generation: c.word.generation,
                        holding: true,
                        handled: c.receivers[i].handled.push(c.message->0),
                    },
                ),
                ..c
            }
        } else {
            c
        },
        Step::Release(i) => Channel {
            word: c.word.released(),
            receivers: c.receivers.update(i, Receiving { holding: false, ..c.receivers[i] }),
            ..c
        },
    }
}

/// Whether a receiver still owes the handling of the current message.
pub open spec fn owes(r: Receiving, generation: bool) -> bool {
    r.generation != generation || r.holding
}

/// How many receivers owe the handling of the current message.
pub open spec fn owing(receivers: Seq<Receiving>, generation: bool) -> nat
    decreases receivers.len(),
{
    if receivers.len() == 0 {
        0
    } else {
        owing(receivers.drop_last(), generation) + if owes(receivers.last(), generation) {
            1nat
        } else {
            0nat
        }
    }
}

/// The first `k` messages in send order.
pub open spec fn first_messages(k: nat) -> Seq<nat> {
    Seq::new(k, |j: int| j as nat)
}

/// What the invariant says of one receiver.
pub open spec fn receiver_inv(c: Channel, r: Receiving) -> bool {
    &&& r.holding ==> r.generation == c.word.generation
    &&& r.generation != c.word.generation ==> c.sending
    &&& r.handled == first_messages(
        if r.generation == c.word.generation {
            c.sent
        } else {
            (c.sent - 1) as nat
        },
    )
}

/// What every reachable channel satisfies: the word counts the receivers
/// that owe the current message; a message is published exactly while a
/// broadcast is under way, and it is the last one sent; and every receiver
/// has handled, in send order and once each, all messages sent, but for the
/// current one while it has not taken it.
pub open spec fn inv(c: Channel) -> bool {
    &&& 1 <= c.receivers.len() <= THREADS_MASK
    &&& c.word.threads == owing(c.receivers, c.word.generation)
    &&& c.sending ==> c.sent >= 1 && c.message == Some((c.sent - 1) as nat)
    &&& !c.sending ==> c.message is None && c.word.threads == 0
    &&& forall|i: int| 0 <= i < c.receivers.len() ==> receiver_inv(c, #[trigger] c.receivers[i])
}

/// The count of owing receivers is at most the number of receivers, and it
/// is zero exactly when none owes.
pub proof fn lemma_owing_bounds(receivers: Seq<Receiving>, generation: bool)
    ensures
        owing(receivers, generation) <= receivers.len(),
        owing(receivers, generation) == 0 <==> forall|i: int|
            0 <= i < receivers.len() ==> !owes(#[trigger] receivers[i], generation),
        owing(receivers, generation) == receivers.len() <==> forall|i: int|
            0 <= i < receivers.len() ==> owes(#[trigger] receivers[i], generation),
    decreases receivers.len(),
{
    if receivers.len() > 0 {
        let front = receivers.drop_last();
        lemma_owing_bounds(front, generation);
        assert forall|i: int| 0 <= i < front.len() implies front[i] == receivers[i] by {}
        if owing(receivers, generation) == 0 {
            assert forall|i: int| 0 <= i < receivers.len() implies !owes(
                #[trigger] receivers[i],
                generation,
            ) by {
                if i < front.len() {
                    assert(front[i] == receivers[i]);
                }
            }
        }
        if forall|i: int| 0 <= i < receivers.len() ==> !owes(#[trigger] receivers[i], generation) {
            assert forall|i: int| 0 <= i < front.len() implies !owes(
                #[trigger] front[i],
                generation,
            ) by {
                assert(front[i] == receivers[i]);
            }
        }
        if owing(receivers, generation) == receivers.len() {
            assert forall|i: int| 0 <= i < receivers.len() implies owes(
                #[trigger] receivers[i],
                generation,
            ) by {
                if i < front.len() {
                    assert(front[i] == receivers[i]);
                }
            }
        }
        if forall|i: int| 0 <= i < receivers.len() ==> owes(#[trigger] receivers[i], generation) {
            assert forall|i: int| 0 <= i < front.len() implies owes(
                #[trigger] front[i],
                generation,
            ) by {
                assert(front[i] == receivers[i]);
            }
        }
    }
}

/// Changing one receiver changes the count by what that receiver owes.
pub proof fn lemma_owing_update(receivers: Seq<Receiving>, generation: bool, i: int, r: Receiving)
    requires
        0 <= i < receivers.len(),
    ensures
        owing(receivers.update(i, r), generation) + (if owes(receivers[i], generation) {
            1int
        } else {
            0int
        }) == owing(receivers, generation) + (if owes(r, generation) {
            1int
        } else {
            0int
        }),
    decreases receivers.len(),
{
    let changed = receivers.update(i, r);
    if i == receivers.len() - 1 {
        assert(changed.drop_last() == receivers.drop_last());
    } else {
        lemma_owing_update(receivers.drop_last(), generation, i, r);
        assert(changed.drop_last() == receivers.drop_last().update(i, r));
    }
}

/// A fresh channel satisfies the invariant.
pub proof fn lemma_fresh_inv(receiver_count: nat)
    requires
        1 <= receiver_count <= THREADS_MASK,
    ensures
        inv(fresh(receiver_count)),
{
    let c = fresh(receiver_count);
    lemma_owing_bounds(c.receivers, false);
    assert forall|i: int| 0 <= i < c.receivers.len() implies receiver_inv(
        c,
        #[trigger] c.receivers[i],
    ) by {
        assert(c.receivers[i].handled =~= first_messages(0));
    }
}

/// Beginning a broadcast keeps the invariant.
pub proof fn lemma_send_inv(c: Channel)
    requires
        inv(c),
        !c.sending,
    ensures
        inv(step(c, Step::Send)),
        step(c, Step::Send).sending,
        step(c, Step::Send).word.threads == c.receivers.len(),
{
    let d = step(c, Step::Send);
    lemma_owing_bounds(c.receivers, c.word.generation);
    lemma_owing_bounds(d.receivers, d.word.generation);
    assert(d.word == (Futex { threads: c.receivers.len() as u32, generation: !c.word.generation }));
    assert forall|i: int| 0 <= i < d.receivers.len() implies owes(
        #[trigger] d.receivers[i],
        d.word.generation,
    ) && receiver_inv(d, d.receivers[i]) by {
        assert(!owes(c.receivers[i], c.word.generation));
        assert(receiver_inv(c, c.receivers[i]));
    }
}

/// A receiver's look for a message keeps the invariant.
pub proof fn lemma_recv_inv(c: Channel, i: int)
    requires
        inv(c),
        enabled(c, Step::Recv(i)),
    ensures
        inv(step(c, Step::Recv(i))),
{
    let d = step(c, Step::Recv(i));
    assert(receiver_inv(c, c.receivers[i]));
    if c.word.generation != c.receivers[i].generation {
        lemma_owing_update(c.receivers, c.word.generation, i, d.receivers[i]);
        assert(c.receivers[i].handled.push((c.sent - 1) as nat) =~= first_messages(c.sent));
        assert forall|k: int| 0 <= k < d.receivers.len() implies receiver_inv(
            d,
            #[trigger] d.receivers[k],
        ) by {
            if k != i {
                assert(receiver_inv(c, c.receivers[k]));
            }
        }
    }
}

/// A receiver's release keeps the invariant.
pub proof fn lemma_release_inv(c: Channel, i: int)
    requires
        inv(c),
        enabled(c, Step::Release(i)),
    ensures
        inv(step(c, Step::Release(i))),
{
    let d = step(c, Step::Release(i));
    lemma_owing_update(c.receivers, c.word.generation, i, d.receivers[i]);
    lemma_owing_bounds(c.receivers, c.word.generation);
    c.word.lemma_pack_unpack(0);
    assert(receiver_inv(c, c.receivers[i]));
    assert(owes(c.receivers[i], c.word.generation));
    assert(c.word.threads >= 1);
    assert forall|k: int| 0 <= k < d.receivers.len() implies receiver_inv(
        d,
        #[trigger] d.receivers[k],
    ) by {
        assert(receiver_inv(c, c.receivers[k]));
    }
}

/// The sender's look for the drain keeps the invariant.
pub proof fn lemma_drained_inv(c: Channel)
    requires
        inv(c),
        c.sending,
    ensures
        inv(step(c, Step::Drained)),
{
    let d = step(c, Step::Drained);
    if c.word.threads == 0 {
        lemma_owing_bounds(c.receivers, c.word.generation);
        assert forall|k: int| 0 <= k < d.receivers.len() implies receiver_inv(
            d,
            #[trigger] d.receivers[k],
        ) by {
            assert(receiver_inv(c, c.receivers[k]));
            assert(!owes(c.receivers[k], c.word.generation));
        }
    }
}

/// Every step an end may take keeps the invariant.
pub proof fn lemma_step_inv(c: Channel, s: Step)
    requires
        inv(c),
        enabled(c, s),
    ensures
        inv(step(c, s)),
{
    match s {
        Step::Send => lemma_send_inv(c),
        Step::Drained => lemma_drained_inv(c),
        Step::Recv(i) => lemma_recv_inv(c, i),
        Step::Release(i) => lemma_release_inv(c, i),
    }
}

/// The channel after a sequence of steps, each taken only if it is enabled.
pub open spec fn run(c: Channel, steps: Seq<Step>) -> Channel
    decreases steps.len(),
{
    if steps.len() == 0 {
        c
    } else {
        let before = run(c, steps.drop_last());
        if enabled(before, steps.last()) {
            step(before, steps.last())
        } else {
            before
        }
    }
}

/// Every run keeps the invariant.
pub proof fn lemma_run_inv(c: Channel, steps: Seq<Step>)
    requires
        inv(c),
    ensures
        inv(run(c, steps)),
    decreases steps.len(),
{
    if steps.len() > 0 {
        lemma_run_inv(c, steps.drop_last());
        let before = run(c, steps.drop_last());
        if enabled(before, steps.last()) {
            lemma_step_inv(before, steps.last());
        }
    }
}

/// When the sender sees its broadcast drained, every receiver has run its
/// handler on every message sent, the last one included, once each and in
/// send order, and holds none.
pub proof fn lemma_drained_means_handled(c: Channel, i: int)
    requires
        inv(c),
        c.sending,
        !step(c, Step::Drained).sending,
        0 <= i < c.receivers.len(),
    ensures
        step(c, Step::Drained).receivers[i].handled == first_messages(c.sent),
        !step(c, Step::Drained).receivers[i].holding,
        step(c, Step::Drained).word.threads == 0,
{
    lemma_owing_bounds(c.receivers, c.word.generation);
    assert(!owes(c.receivers[i], c.word.generation));
    assert(receiver_inv(c, c.receivers[i]));
}

/// A receiver that finds a message takes the one sent last, never an
/// earlier one; and it takes a message only if it has not taken this one.
pub proof fn lemma_recv_takes_latest(c: Channel, i: int)
    requires
        inv(c),
        enabled(c, Step::Recv(i)),
    ensures
        step(c, Step::Recv(i)).receivers[i].holding ==> c.sending && step(
            c,
            Step::Recv(i),
        ).receivers[i].handled == c.receivers[i].handled.push((c.sent - 1) as nat)
            && c.receivers[i].handled == first_messages((c.sent - 1) as nat),
        step(c, Step::Recv(i)).receivers[i].holding <==> c.receivers[i].generation
            != c.word.generation,
{
    assert(receiver_inv(c, c.receivers[i]));
}

/// A receiver that finds a new generation in the word finds at least one
/// receiver outstanding, itself; and while a broadcast is under way no step
/// of a receiver changes the generation.
pub proof fn lemma_generation_is_the_senders(c: Channel, i: int)
    requires
        inv(c),
        0 <= i < c.receivers.len(),
    ensures
        c.receivers[i].generation != c.word.generation ==> c.word.threads >= 1,
        enabled(c, Step::Recv(i)) ==> step(c, Step::Recv(i)).word == c.word,
        enabled(c, Step::Release(i)) ==> step(c, Step::Release(i)).word == (Futex {
            threads: (c.word.threads - 1) as u32,
            generation: c.word.generation,
        }),
{
    lemma_owing_bounds(c.receivers, c.word.generation);
    c.word.lemma_pack_unpack(0);
    assert(receiver_inv(c, c.receivers[i]));
    if owes(c.receivers[i], c.word.generation) {
        assert(c.word.threads >= 1);
    }
}

/// Whenever the sender is in no broadcast, however the steps of the ends
/// were interleaved before, every receiver's handler has run exactly once
/// on each message sent, in send order.
pub proof fn lemma_idle_means_all_handled(receiver_count: nat, steps: Seq<Step>, i: int)
    requires
        1 <= receiver_count <= THREADS_MASK,
        !run(fresh(receiver_count), steps).sending,
        0 <= i < receiver_count,
    ensures
        run(fresh(receiver_count), steps).receivers.len() == receiver_count,
        run(fresh(receiver_count), steps).receivers[i].handled == first_messages(
            run(fresh(receiver_count), steps).sent,
        ),
        run(fresh(receiver_count), steps).word.threads == 0,
{
    lemma_fresh_inv(receiver_count);
    lemma_run_inv(fresh(receiver_count), steps);
    lemma_run_keeps_receivers(fresh(receiver_count), steps);
    let c = run(fresh(receiver_count), steps);
    lemma_owing_bounds(c.receivers, c.word.generation);
    assert(!owes(c.receivers[i], c.word.generation));
    assert(receiver_inv(c, c.receivers[i]));
}

/// No step changes the number of receivers.
pub proof fn lemma_run_keeps_receivers(c: Channel, steps: Seq<Step>)
    ensures
        run(c, steps).receivers.len() == c.receivers.len(),
    decreases steps.len(),
{
    if steps.len() > 0 {
        lemma_run_keeps_receivers(c, steps.drop_last());
    }
}

} // verus!
