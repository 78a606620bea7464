//! Per-square counters kept as four bit planes.

use vstd::prelude::*;

verus! {

/// Bit `square` of `plane`, as 0 or 1.
pub open spec fn plane_bit(plane: u64, square: u64) -> int {
    ((plane >> square) & 1) as int
}

/// The number that four planes hold for `square`: plane 0 is the lowest
/// binary digit, plane 3 the highest.
pub open spec fn planes_count(bb: [u64; 4], square: u64) -> int {
    digits(bb@[0], bb@[1], bb@[2], bb@[3], square)
}

/// `count` raised by `up`, but not past 15.
pub open spec fn raised(count: int, up: int) -> int {
    if count + up > 15 {
        15
    } else {
        count + up
    }
}

/// `count` lowered by `down`, but not below 0.
pub open spec fn lowered(count: int, down: int) -> int {
    if count - down < 0 {
        0
    } else {
        count - down
    }
}

/// A counter from 0 to 15 for each of the 64 squares. Counting up stops at
/// 15 and counting down at 0.
#[derive(Clone, Copy, Debug)]
pub struct BitboardCounter {
    bb: [u64; 4],
}

/// The digits of a count, put together.
pub open spec fn digits(b0: u64, b1: u64, b2: u64, b3: u64, s: u64) -> int {
    ((b0 >> s) & 1) + 2 * ((b1 >> s) & 1) + 4 * ((b2 >> s) & 1) + 8 * ((b3 >> s) & 1)
}

proof fn lemma_count_up(b0: u64, b1: u64, b2: u64, b3: u64, d: u64, n0: u64, n1: u64, n2: u64, n3: u64)
    by (bit_vector)
    requires
        n0 == (b0 ^ d) | (b3 & b2 & b1 & b0 & d),
        n1 == (b1 ^ (b0 & d)) | (b3 & b2 & b1 & b0 & d),
        n2 == (b2 ^ (b1 & b0 & d)) | (b3 & b2 & b1 & b0 & d),
        n3 == (b3 ^ (b2 & b1 & b0 & d)) | (b3 & b2 & b1 & b0 & d),
    ensures
        forall|s: u64|
            s < 64 ==> #[trigger] digits(n0, n1, n2, n3, s) == (if digits(b0, b1, b2, b3, s) + ((d
                >> s) & 1) > 15 {
                15
            } else {
                digits(b0, b1, b2, b3, s) + ((d >> s) & 1)
            }),
{
}

proof fn lemma_count_down(b0: u64, b1: u64, b2: u64, b3: u64, d: u64, n0: u64, n1: u64, n2: u64, n3: u64)
    by (bit_vector)
    requires
        n0 == (b0 ^ d) & !(!b3 & !b2 & !b1 & !b0 & d),
        n1 == (b1 ^ (!b0 & d)) & !(!b3 & !b2 & !b1 & !b0 & d),
        n2 == (b2 ^ (!b1 & !b0 & d)) & !(!b3 & !b2 & !b1 & !b0 & d),
        n3 == (b3 ^ (!b2 & !b1 & !b0 & d)) & !(!b3 & !b2 & !b1 & !b0 & d),
    ensures
        forall|s: u64|
            s < 64 ==> #[trigger] digits(n0, n1, n2, n3, s) == (if digits(b0, b1, b2, b3, s) < ((d
                >> s) & 1) {
                0
            } else {
                digits(b0, b1, b2, b3, s) - ((d >> s) & 1)
            }),
{
}

proof fn lemma_any_plane(b0: u64, b1: u64, b2: u64, b3: u64)
    by (bit_vector)
    ensures
        forall|s: u64|
            s < 64 ==> ((((b0 | b1 | b2 | b3) >> s) & 1) == 1 <==> #[trigger] digits(b0, b1, b2, b3, s)
                > 0),
        forall|s: u64| s < 64 ==> 0 <= #[trigger] digits(b0, b1, b2, b3, s) <= 15,
        forall|s: u64| s < 64 ==> #[trigger] digits(0, 0, 0, 0, s) == 0,
{
}

impl BitboardCounter {
    /// The count of `square`.
    pub closed spec fn count(&self, square: u64) -> int {
        planes_count(self.bb, square)
    }

    /// All counts at zero.
    pub fn new() -> (r: BitboardCounter)
        ensures
            forall|square: u64| square < 64 ==> #[trigger] r.count(square) == 0,
    {
        proof {
            lemma_any_plane(0, 0, 0, 0);
        }
        BitboardCounter { bb: [0, 0, 0, 0] }
    }

    fn count_up(&mut self, delta: u64)
        ensures
            forall|square: u64|
                square < 64 ==> #[trigger] final(self).count(square) == raised(
                    old(self).count(square),
                    plane_bit(delta, square),
                ),
    {
        let b0 = self.bb[0];
        let b1 = self.bb[1];
        let b2 = self.bb[2];
        let b3 = self.bb[3];
        let c0 = b0 & delta;
        let c1 = b1 & c0;
        let c2 = b2 & c1;
        let c3 = b3 & c2;
        let n0 = (b0 ^ delta) | c3;
        let n1 = (b1 ^ c0) | c3;
        let n2 = (b2 ^ c1) | c3;
        let n3 = (b3 ^ c2) | c3;
        proof {
            assert(n0 == (b0 ^ delta) | (b3 & b2 & b1 & b0 & delta) && n1 == (b1 ^ (b0 & delta)) | (b3
                & b2 & b1 & b0 & delta) && n2 == (b2 ^ (b1 & b0 & delta)) | (b3 & b2 & b1 & b0
                & delta) && n3 == (b3 ^ (b2 & b1 & b0 & delta)) | (b3 & b2 & b1 & b0 & delta))
                by (bit_vector)
                requires
                    c0 == b0 & delta,
                    c1 == b1 & c0,
                    c2 == b2 & c1,
                    c3 == b3 & c2,
                    n0 == (b0 ^ delta) | c3,
                    n1 == (b1 ^ c0) | c3,
                    n2 == (b2 ^ c1) | c3,
                    n3 == (b3 ^ c2) | c3,
            ;
            lemma_count_up(b0, b1, b2, b3, delta, n0, n1, n2, n3);
        }
        self.bb = [n0, n1, n2, n3];
    }

    fn count_down(&mut self, delta: u64)
        ensures
            forall|square: u64|
                square < 64 ==> #[trigger] final(self).count(square) == lowered(
                    old(self).count(square),
                    plane_bit(delta, square),
                ),
    {
        let b0 = self.bb[0];
        let b1 = self.bb[1];
        let b2 = self.bb[2];
        let b3 = self.bb[3];
        let c0 = !b0 & delta;
        let c1 = !b1 & c0;
        let c2 = !b2 & c1;
        let c3 = !b3 & c2;
        let n0 = (b0 ^ delta) & !c3;
        let n1 = (b1 ^ c0) & !c3;
        let n2 = (b2 ^ c1) & !c3;
        let n3 = (b3 ^ c2) & !c3;
        proof {
            assert(n0 == (b0 ^ delta) & !(!b3 & !b2 & !b1 & !b0 & delta) && n1 == (b1 ^ (!b0 & delta))
                & !(!b3 & !b2 & !b1 & !b0 & delta) && n2 == (b2 ^ (!b1 & !b0 & delta)) & !(!b3
                & !b2 & !b1 & !b0 & delta) && n3 == (b3 ^ (!b2 & !b1 & !b0 & delta)) & !(!b3 & !b2
                & !b1 & !b0 & delta)) by (bit_vector)
                requires
                    c0 == !b0 & delta,
                    c1 == !b1 & c0,
                    c2 == !b2 & c1,
                    c3 == !b3 & c2,
                    n0 == (b0 ^ delta) & !c3,
                    n1 == (b1 ^ c0) & !c3,
                    n2 == (b2 ^ c1) & !c3,
                    n3 == (b3 ^ c2) & !c3,
            ;
            lemma_count_down(b0, b1, b2, b3, delta, n0, n1, n2, n3);
        }
        self.bb = [n0, n1, n2, n3];
    }

    /// Counts one down on every square of `delta[0]`, then one up on every
    /// square of `delta[1]`.
    pub fn update(&mut self, delta: [u64; 2])
        ensures
            forall|square: u64|
                square < 64 ==> #[trigger] final(self).count(square) == raised(
                    lowered(old(self).count(square), plane_bit(delta@[0], square)),
                    plane_bit(delta@[1], square),
                ),
    {
        self.count_down(delta[0]);
        self.count_up(delta[1]);
    }

    /// Counts one up on every square of `delta`.
    pub fn add(&mut self, delta: u64)
        ensures
            forall|square: u64|
                square < 64 ==> #[trigger] final(self).count(square) == raised(
                    old(self).count(square),
                    plane_bit(delta, square),
                ),
    {
        self.count_up(delta);
    }

    /// The squares whose count is not zero.
    pub fn reduce(&self) -> (r: u64)
        ensures
            forall|square: u64|
                square < 64 ==> (#[trigger] plane_bit(r, square) == 1 <==> self.count(square) > 0),
    {
        proof {
            lemma_any_plane(self.bb@[0], self.bb@[1], self.bb@[2], self.bb@[3]);
        }
        self.bb[0] | self.bb[1] | self.bb[2] | self.bb[3]
    }

    /// Every count lies between 0 and 15.
    pub proof fn lemma_count_range(&self, square: u64)
        requires
            square < 64,
        ensures
            0 <= self.count(square) <= 15,
    {
        lemma_any_plane(self.bb@[0], self.bb@[1], self.bb@[2], self.bb@[3]);
    }
}

impl Default for BitboardCounter {
    fn default() -> (r: BitboardCounter)
        ensures
            forall|square: u64| square < 64 ==> #[trigger] r.count(square) == 0,
    {
        BitboardCounter::new()
    }
}

} // verus!
