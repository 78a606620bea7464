//! A broadcast channel of capacity one, from one sender to a fixed number of
//! receivers, built on one futex word. The word holds the number of
//! receivers that have not yet handled the current message and a generation
//! bit that each broadcast flips.
//!
//! The functions here never loop: each makes one step of the protocol and
//! says whether the step came through. A caller that wants to block repeats
//! the step until it does.

use vstd::prelude::*;
use std::sync::Arc;
use std::sync::atomic::{AtomicU32, Ordering};

verus! {

/// The largest receiver count: the low 31 bits of the word.
pub const THREADS_MASK: u32 = 0x7FFF_FFFF;

/// The futex word, taken apart.
#[derive(Clone, Copy, Debug, PartialEq, Eq, Structural)]
pub struct Futex {
    /// Receivers that have not yet handled the current message.
    pub threads: u32,
    pub generation: bool,
}

impl Futex {
    pub open spec fn packed(self) -> u32 {
        if self.generation {
            self.threads | 0x8000_0000
        } else {
            self.threads
        }
    }

    pub open spec fn unpacked(raw: u32) -> Futex {
        Futex { threads: raw & THREADS_MASK, generation: (raw >> 31) != 0 }
    }

    /// The word that holds `self`.
    pub fn pack(self) -> (r: u32)
        requires
            self.threads <= THREADS_MASK,
        ensures
            r == self.packed(),
    {
        if self.generation {
            self.threads | 0x8000_0000
        } else {
            self.threads
        }
    }

    /// What the word `raw` holds.
    pub fn unpack(raw: u32) -> (r: Futex)
        ensures
            r == Futex::unpacked(raw),
            r.threads <= THREADS_MASK,
    {
        assert(raw & 0x7FFF_FFFF <= 0x7FFF_FFFF) by (bit_vector);
        Futex { threads: raw & THREADS_MASK, generation: (raw >> 31) != 0 }
    }

    /// Packing and unpacking undo one another, and one receiver's decrement
    /// of the word takes one off the count and leaves the generation.
    pub proof fn lemma_pack_unpack(self, raw: u32)
        ensures
            self.threads <= THREADS_MASK ==> Futex::unpacked(self.packed()) == self,
            Futex::unpacked(raw).packed() == raw,
            1 <= self.threads <= THREADS_MASK ==> Futex::unpacked((self.packed() - 1) as u32)
                == (Futex { threads: (self.threads - 1) as u32, generation: self.generation }),
    {
        let t = self.threads;
        assert(t <= 0x7FFF_FFFF ==> (t | 0x8000_0000) & 0x7FFF_FFFF == t && (t | 0x8000_0000) >> 31
            != 0 && t & 0x7FFF_FFFF == t && t >> 31 == 0) by (bit_vector);
        assert(((raw >> 31) != 0 ==> (raw & 0x7FFF_FFFF) | 0x8000_0000 == raw) && ((raw >> 31) == 0
            ==> raw & 0x7FFF_FFFF == raw)) by (bit_vector);
        assert(1 <= t <= 0x7FFF_FFFF ==> (t | 0x8000_0000) >= 1 && (((t | 0x8000_0000) - 1) as u32)
            & 0x7FFF_FFFF == (t - 1) as u32 && (((t | 0x8000_0000) - 1) as u32) >> 31 != 0 && ((t
            - 1) as u32) & 0x7FFF_FFFF == (t - 1) as u32 && ((t - 1) as u32) >> 31 == 0)
            by (bit_vector);
    }

    /// The word a broadcast publishes over `self`: every receiver
    /// outstanding, the generation flipped. There is none while receivers of
    /// the last broadcast are outstanding.
    pub open spec fn broadcast(self, receiver_count: u32) -> Option<Futex> {
        if self.threads == 0 {
            Some(Futex { threads: receiver_count, generation: !self.generation })
        } else {
            None
        }
    }

    pub fn next_broadcast(self, receiver_count: u32) -> (r: Option<Futex>)
        ensures
            r == self.broadcast(receiver_count),
    {
        if self.threads == 0 {
            Some(Futex { threads: receiver_count, generation: !self.generation })
        } else {
            None
        }
    }

    /// No receiver owes the handling of the current message.
    pub open spec fn is_drained(self) -> bool {
        self.threads == 0
    }

    /// Whether every receiver has handled the current message.
    pub fn drained(self) -> (r: bool)
        ensures
            r == self.is_drained(),
    {
        self.threads == 0
    }

    /// The word holds a message that a receiver which last took one of
    /// `generation` has not taken.
    pub open spec fn is_fresh_for(self, generation: bool) -> bool {
        self.generation != generation
    }

    /// Whether a receiver that last saw `generation` finds a new message in
    /// this word.
    pub fn fresh_for(self, generation: bool) -> (r: bool)
        ensures
            r == self.is_fresh_for(generation),
    {
        self.generation != generation
    }

    /// The word after one receiver has taken itself off it, by taking one
    /// off the packed word.
    pub open spec fn released(self) -> Futex {
        Futex::unpacked((self.packed() - 1) as u32)
    }

    /// The word, found by a receiver's decrement, shows that receiver to be
    /// the last one outstanding.
    pub open spec fn is_last(self) -> bool {
        self.threads == 1
    }

    /// Whether the receiver whose decrement found this word was the last
    /// one outstanding, who wakes the sender.
    pub fn was_last(self) -> (r: bool)
        ensures
            r == self.is_last(),
    {
        self.threads == 1
    }
}

/// What the two ends of a channel share: the futex word and the number of
/// receivers.
struct SharedData {
    futex: AtomicU32,
    receiver_count: u32,
}

/// Wakes every thread that sleeps on `atomic`, through
/// `atomic_wait::wake_all`. Nothing is claimed of it.
#[verifier::external_body]
fn wake_all(atomic: &AtomicU32) {
    atomic_wait::wake_all(atomic);
}

/// Sleeps, through `atomic_wait::wait`, until woken if `atomic` holds
/// `value`; returns at once if it does not, and may return without a wake.
/// Nothing is claimed of it, not even that it returns: that is up to the
/// other ends of the channel, which wake whoever sleeps when they change the
/// word.
#[verifier::external_body]
fn wait(atomic: &AtomicU32, value: u32) {
    atomic_wait::wait(atomic, value);
}

impl SharedData {
    /// The word as it stands at the moment of the load.
    fn read_futex(&self, ordering: Ordering) -> (r: Futex)
        ensures
            r.threads <= THREADS_MASK,
    {
        Futex::unpack(self.futex.load(ordering))
    }

    fn write_futex(&self, f: Futex, ordering: Ordering)
        requires
            f.threads <= THREADS_MASK,
    {
        self.futex.store(f.pack(), ordering);
    }

    fn futex_wake_all(&self) {
        wake_all(&self.futex);
    }

    /// Sleeps while the word holds `f`.
    fn futex_wait(&self, f: Futex)
        requires
            f.threads <= THREADS_MASK,
    {
        wait(&self.futex, f.pack());
    }

    /// Takes one off the word and returns what it held before.
    fn decrement_futex(&self, ordering: Ordering) -> (r: Futex)
        ensures
            r.threads <= THREADS_MASK,
    {
        Futex::unpack(self.futex.fetch_sub(1, ordering))
    }
}

/// The sending end. It remembers whether it has begun a broadcast that it
/// has not yet seen drained.
pub struct Sender {
    shared: Arc<SharedData>,
    sending: bool,
}

/// A receiving end. It remembers the generation of the last message it
/// took, and whether it still holds that message.
pub struct Receiver {
    shared: Arc<SharedData>,
    generation: bool,
    holding: bool,
}

/// Creates a channel with `receiver_count` receivers, which is not to
/// change afterwards: every receiver must handle every message.
pub fn channel(receiver_count: usize) -> (r: (Sender, Vec<Receiver>))
    requires
        1 <= receiver_count <= THREADS_MASK,
    ensures
        r.0.wf(),
        r.0.receiver_count() == receiver_count,
        !r.0.sending(),
        r.1@.len() == receiver_count,
        forall|i: int|
            0 <= i < r.1@.len() ==> {
                &&& !(#[trigger] r.1@[i]).generation()
                &&& !r.1@[i].holding()
                &&& r.1@[i].receiver_count() == receiver_count
            },
{
    let shared = Arc::new(
        SharedData { futex: AtomicU32::new(0), receiver_count: receiver_count as u32 },
    );
    let tx = Sender { shared: shared.clone(), sending: false };
    let mut rxs: Vec<Receiver> = Vec::new();
    let mut i: usize = 0;
    while i < receiver_count
        invariant
            i <= receiver_count,
            shared.receiver_count == receiver_count,
            rxs@.len() == i,
            forall|k: int|
                0 <= k < rxs@.len() ==> {
                    &&& !(#[trigger] rxs@[k]).generation()
                    &&& !rxs@[k].holding()
                    &&& rxs@[k].receiver_count() == receiver_count
                },
        decreases receiver_count - i,
    {
        rxs.push(Receiver { shared: shared.clone(), generation: false, holding: false });
        i += 1;
    }
    (tx, rxs)
}

impl Sender {
    pub closed spec fn receiver_count(&self) -> u32 {
        self.shared.receiver_count
    }

    /// Whether a broadcast is under way.
    pub closed spec fn sending(&self) -> bool {
        self.sending
    }

    /// The receiver count fits the word. `channel` sees to it.
    pub open spec fn wf(&self) -> bool {
        1 <= self.receiver_count() <= THREADS_MASK
    }

    /// Whether a broadcast is under way.
    pub fn is_sending(&self) -> (r: bool)
        ensures
            r == self.sending(),
    {
        self.sending
    }

    /// Begins a broadcast: if no receiver of the last one is outstanding,
    /// publishes the next word, wakes the receivers and returns the word.
    /// Returns `None`, with nothing published, if one is outstanding. The
    /// broadcast is under way until `drained` returns `true`; what the
    /// message is and where it lies is the caller's matter, who publishes it
    /// before this call and withdraws it after the last.
    pub fn send(&mut self) -> (r: Option<Futex>)
        requires
            old(self).wf(),
            !old(self).sending(),
        ensures
            final(self).receiver_count() == old(self).receiver_count(),
            final(self).sending() == r is Some,
            exists|seen: Futex| r == #[trigger] seen.broadcast(old(self).receiver_count()),
    {
        let seen = self.shared.read_futex(Ordering::Relaxed);
        match seen.next_broadcast(self.shared.receiver_count) {
            Some(f) => {
                self.shared.write_futex(f, Ordering::Release);
                self.shared.futex_wake_all();
                self.sending = true;
                Some(f)
            },
            None => None,
        }
    }

    /// One look at the broadcast under way: `true` if every receiver has
    /// handled the message, which ends the broadcast; otherwise sleeps until
    /// the word changes, or shorter, and returns `false`.
    pub fn drained(&mut self) -> (r: bool)
        requires
            old(self).sending(),
        ensures
            final(self).receiver_count() == old(self).receiver_count(),
            final(self).sending() == !r,
    {
        let seen = self.shared.read_futex(Ordering::Acquire);
        if seen.drained() {
            self.sending = false;
            true
        } else {
            self.shared.futex_wait(seen);
            false
        }
    }
}

impl Receiver {
    pub closed spec fn generation(&self) -> bool {
        self.generation
    }

    /// Whether the receiver holds a message it has not released.
    pub closed spec fn holding(&self) -> bool {
        self.holding
    }

    pub closed spec fn receiver_count(&self) -> u32 {
        self.shared.receiver_count
    }

    /// Whether the receiver holds a message it has not released.
    pub fn is_holding(&self) -> (r: bool)
        ensures
            r == self.holding(),
    {
        self.holding
    }

    /// One look for the next message: `true` if there is one, which this
    /// receiver then holds until it calls `release`; otherwise sleeps until
    /// the word changes, or shorter, and returns `false`.
    pub fn recv(&mut self) -> (r: bool)
        requires
            !old(self).holding(),
        ensures
            final(self).receiver_count() == old(self).receiver_count(),
            final(self).holding() == r,
            final(self).generation() == (old(self).generation() != r),
    {
        let seen = self.shared.read_futex(Ordering::Acquire);
        if seen.fresh_for(self.generation) {
            self.generation = seen.generation;
            self.holding = true;
            true
        } else {
            self.shared.futex_wait(seen);
            false
        }
    }

    /// Hands the message back after handling it: takes this receiver off
    /// the outstanding ones and wakes the sender if it was the last. Returns
    /// whether it was.
    pub fn release(&mut self) -> (r: bool)
        requires
            old(self).holding(),
        ensures
            final(self).receiver_count() == old(self).receiver_count(),
            final(self).generation() == old(self).generation(),
            !final(self).holding(),
    {
        self.holding = false;
        if self.shared.decrement_futex(Ordering::Release).was_last() {
            self.shared.futex_wake_all();
            true
        } else {
            false
        }
    }
}

} // verus!
