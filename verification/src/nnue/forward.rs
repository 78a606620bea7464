//! The forward pass up to the point where it turns to floating point:
//! the activation of the feature transformer, the search for the chunks of
//! the activated layer that are not zero, and the integer sums of the first
//! layer over those chunks.

use vstd::prelude::*;
use crate::nnue::rays::{bit, lemma_mask_bits};
use crate::nnue::{PstAccumulator, ThreatAccumulator, L1_CHUNKS, L1_SIZE, L1_WEIGHTS, L2_SIZE};
use crate::types::Color;

verus! {

/// The sum of two 16-bit values as 16-bit arithmetic gives it, wrapping
/// around at the ends of the range.
pub open spec fn wrapped(a: i16, b: i16) -> int {
    if a + b > 32767 {
        a + b - 65536
    } else if a + b < -32768 {
        a + b + 65536
    } else {
        a + b
    }
}

/// One byte of the activated layer, from the four accumulator values it
/// reads: the sum of the lower pair clipped to `0..=255`, times the sum of
/// the upper pair capped at 255, over 512 and rounded down, then brought
/// into the range of a byte.
pub open spec fn activation(lower: i16, lower_threat: i16, upper: i16, upper_threat: i16) -> int {
    let l = wrapped(lower, lower_threat);
    let u = wrapped(upper, upper_threat);
    let a = if l < 0 {
        0
    } else if l > 255 {
        255
    } else {
        l
    };
    let b = if u > 255 {
        255
    } else {
        u
    };
    let product = (a * 128 * b) / 65536;
    if product < 0 {
        0
    } else if product > 255 {
        255
    } else {
        product
    }
}

/// No activation exceeds 127.
pub proof fn lemma_activation_range(lower: i16, lower_threat: i16, upper: i16, upper_threat: i16)
    ensures
        0 <= activation(lower, lower_threat, upper, upper_threat) <= 127,
{
    let l = wrapped(lower, lower_threat);
    let u = wrapped(upper, upper_threat);
    let a = if l < 0 {
        0
    } else if l > 255 {
        255
    } else {
        l
    };
    let b = if u > 255 {
        255
    } else {
        u
    };
    assert(a * 128 * b <= 255 * 128 * 255) by (nonlinear_arith)
        requires
            0 <= a <= 255,
            b <= 255,
    ;
}

fn activate(lower: i16, lower_threat: i16, upper: i16, upper_threat: i16) -> (r: u8)
    ensures
        r == activation(lower, lower_threat, upper, upper_threat),
        r <= 127,
{
    proof {
        lemma_activation_range(lower, lower_threat, upper, upper_threat);
    }
    let l = lower.wrapping_add(lower_threat);
    let u = upper.wrapping_add(upper_threat);
    let a: i32 = if l < 0 {
        0
    } else if l > 255 {
        255
    } else {
        l as i32
    };
    let b: i32 = if u > 255 {
        255
    } else {
        u as i32
    };
    if b <= 0 {
        assert(a * 128 * b <= 0) by (nonlinear_arith)
            requires
                0 <= a,
                b <= 0,
        ;
        0
    } else {
        assert(0 <= a * 128 * b <= 255 * 128 * 255) by (nonlinear_arith)
            requires
                0 <= a <= 255,
                0 < b <= 255,
        ;
        assert(a * 128 <= 255 * 128) by (nonlinear_arith)
            requires
                0 <= a <= 255,
        ;
        let product = (a * 128 * b) / 65536;
        product as u8
    }
}

/// The perspective that comes first (`flip` 0) or second (`flip` 1) in the
/// activated layer when `stm` is to move: our side first, theirs second.
pub open spec fn perspective(stm: Color, flip: int) -> int {
    if flip == 0 {
        stm.index_spec()
    } else {
        1 - stm.index_spec()
    }
}

/// Byte `i` of the layer that `activate_ft` returns.
pub open spec fn activated(
    pst: &PstAccumulator,
    threat: &ThreatAccumulator,
    stm: Color,
    i: int,
) -> int {
    let half = (L1_SIZE / 2) as int;
    let side = perspective(stm, i / half);
    let k = i % half;
    activation(
        pst.values@[side]@[k],
        threat.values@[side]@[k],
        pst.values@[side]@[k + half],
        threat.values@[side]@[k + half],
    )
}

/// Activates the feature transformer: the accumulators of the side to move
/// fill the first half of the layer, those of the other side the second.
/// Within a half, byte `k` comes from values `k` and `k + L1_SIZE / 2` of
/// both accumulators. Every byte is at most 127, so that no chunk of four
/// read as a signed number is negative.
pub fn activate_ft(pst: &PstAccumulator, threat: &ThreatAccumulator, stm: Color) -> (r: [u8; L1_SIZE])
    ensures
        forall|i: int| 0 <= i < L1_SIZE ==> #[trigger] r@[i] == activated(pst, threat, stm, i),
        forall|i: int| 0 <= i < L1_SIZE ==> #[trigger] r@[i] <= 127,
{
    let mut output = [0u8; L1_SIZE];
    let half = L1_SIZE / 2;
    let mut flip: usize = 0;
    while flip < 2
        invariant
            flip <= 2,
            half == L1_SIZE / 2,
            forall|i: int|
                0 <= i < flip * 384 ==> #[trigger] output@[i] == activated(pst, threat, stm, i),
            forall|i: int| 0 <= i < flip * 384 ==> #[trigger] output@[i] <= 127,
        decreases 2 - flip,
    {
        let side = if flip == 0 {
            stm.index()
        } else {
            1 - stm.index()
        };
        let base: usize = if flip == 0 {
            0
        } else {
            half
        };
        let mut k: usize = 0;
        while k < half
            invariant
                flip < 2,
                k <= half,
                half == L1_SIZE / 2,
                side == perspective(stm, flip as int),
                base == flip * 384,
                forall|i: int|
                    0 <= i < base + k ==> #[trigger] output@[i] == activated(pst, threat, stm, i),
                forall|i: int| 0 <= i < base + k ==> #[trigger] output@[i] <= 127,
            decreases half - k,
        {
            let value = activate(
                pst.values[side][k],
                threat.values[side][k],
                pst.values[side][k + half],
                threat.values[side][k + half],
            );
            proof {
                let i = (base + k) as int;
                assert(i / 384 == flip && i % 384 == k);
                assert(value == activated(pst, threat, stm, i));
            }
            output[base + k] = value;
            k += 1;
        }
        flip += 1;
    }
    output
}

/// Whether chunk `c` of the layer, its bytes `4c` to `4c + 3`, is not zero.
pub open spec fn chunk_set(layer: Seq<u8>, c: int) -> bool {
    layer[4 * c] != 0 || layer[4 * c + 1] != 0 || layer[4 * c + 2] != 0 || layer[4 * c + 3] != 0
}

/// The indices below `n` of the chunks that are not zero, in rising order.
pub open spec fn nnz_indices(layer: Seq<u8>, n: int) -> Seq<u8>
    decreases n,
{
    if n <= 0 {
        Seq::empty()
    } else if chunk_set(layer, n - 1) {
        nnz_indices(layer, n - 1).push((n - 1) as u8)
    } else {
        nnz_indices(layer, n - 1)
    }
}

/// Bit `p` of an eight-bit mask.
pub open spec fn mask_bit(mask: u8, p: u8) -> bool {
    (mask >> p) & 1 == 1
}

/// The positions below `n` of the set bits of `mask`, in rising order.
pub open spec fn set_positions(mask: u8, n: int) -> Seq<u8>
    decreases n,
{
    if n <= 0 {
        Seq::empty()
    } else if mask_bit(mask, (n - 1) as u8) {
        set_positions(mask, n - 1).push((n - 1) as u8)
    } else {
        set_positions(mask, n - 1)
    }
}

/// What the table of `find_nnz` holds for one mask of eight chunks: the
/// positions of the set bits, packed to the front, and their number.
#[derive(Clone, Copy, Debug)]
pub struct SparseEntry {
    pub indexes: [u8; 8],
    pub count: usize,
}

/// `e` is the entry of `mask`.
pub open spec fn is_sparse_entry(e: SparseEntry, mask: u8) -> bool {
    &&& e.count == set_positions(mask, 8).len()
    &&& e.indexes@.take(e.count as int) == set_positions(mask, 8)
}

/// `table` holds the entry of every mask.
pub open spec fn is_nnz_table(table: Seq<SparseEntry>) -> bool {
    &&& table.len() == 256
    &&& forall|m: int| 0 <= m < 256 ==> is_sparse_entry(#[trigger] table[m], m as u8)
}

proof fn lemma_mask8_bits(mask: u8, p: u8)
    by (bit_vector)
    requires
        p < 8,
    ensures
        forall|q: u8|
            q < 8 ==> #[trigger] mask_bit(mask | (1u8 << p), q) == (q == p || mask_bit(mask, q)),
        forall|q: u8| q < 8 ==> !#[trigger] mask_bit(0, q),
{
}

/// There are at most `n` set positions below `n`, each below `n`.
pub proof fn lemma_set_positions_bounds(mask: u8, n: int)
    requires
        0 <= n <= 8,
    ensures
        set_positions(mask, n).len() <= n,
        forall|k: int|
            0 <= k < set_positions(mask, n).len() ==> #[trigger] set_positions(mask, n)[k] < n,
    decreases n,
{
    if n > 0 {
        lemma_set_positions_bounds(mask, n - 1);
    }
}

/// The entry of one mask.
pub fn sparse_entry(mask: u8) -> (r: SparseEntry)
    ensures
        is_sparse_entry(r, mask),
        forall|k: int| r.count <= k < 8 ==> #[trigger] r.indexes@[k] == 0,
{
    let mut indexes = [0u8; 8];
    let mut count: usize = 0;
    let mut p: u8 = 0;
    while p < 8
        invariant
            p <= 8,
            count == set_positions(mask, p as int).len(),
            count <= p,
            indexes@.take(count as int) == set_positions(mask, p as int),
            forall|k: int| count <= k < 8 ==> #[trigger] indexes@[k] == 0,
        decreases 8 - p,
    {
        if (mask >> p) & 1 == 1 {
            let ghost before = indexes@;
            indexes[count] = p;
            assert(indexes@.take(count as int + 1) =~= before.take(count as int).push(p));
            count += 1;
        }
        p += 1;
    }
    SparseEntry { indexes, count }
}

/// The table that `find_nnz` reads: the entry of every eight-bit mask.
pub fn nnz_table() -> (r: Vec<SparseEntry>)
    ensures
        is_nnz_table(r@),
{
    let mut table: Vec<SparseEntry> = Vec::new();
    let mut m: usize = 0;
    while m < 256
        invariant
            m <= 256,
            table@.len() == m,
            forall|k: int| 0 <= k < m ==> is_sparse_entry(#[trigger] table@[k], k as u8),
        decreases 256 - m,
    {
        table.push(sparse_entry(m as u8));
        m += 1;
    }
    table
}

/// The indices of a group of eight chunks follow from the mask of the
/// group: they are the set positions, moved up by the group's first index.
pub proof fn lemma_group_indices(layer: Seq<u8>, g: int, mask: u8, n: int)
    requires
        0 <= g < 24,
        0 <= n <= 8,
        forall|q: u8| q < 8 ==> #[trigger] mask_bit(mask, q) == chunk_set(layer, 8 * g + q),
    ensures
        nnz_indices(layer, 8 * g + n) == nnz_indices(layer, 8 * g) + set_positions(mask, n).map_values(
            |p: u8| (p + 8 * g) as u8,
        ),
    decreases n,
{
    let shift = |p: u8| (p + 8 * g) as u8;
    if n > 0 {
        lemma_group_indices(layer, g, mask, n - 1);
        let q = (n - 1) as u8;
        assert(mask_bit(mask, q) == chunk_set(layer, 8 * g + q));
        if mask_bit(mask, q) {
            assert(set_positions(mask, n).map_values(shift) =~= set_positions(
                mask,
                n - 1,
            ).map_values(shift).push((8 * g + n - 1) as u8));
            assert(nnz_indices(layer, 8 * g + n) =~= nnz_indices(layer, 8 * g) + set_positions(
                mask,
                n,
            ).map_values(shift));
        }
    } else {
        assert(nnz_indices(layer, 8 * g) + set_positions(mask, 0).map_values(shift)
            =~= nnz_indices(layer, 8 * g));
    }
}

/// There are at most `n` indices below `n`.
pub proof fn lemma_nnz_indices_bounds(layer: Seq<u8>, n: int)
    requires
        0 <= n <= 256,
    ensures
        nnz_indices(layer, n).len() <= n,
        forall|k: int|
            0 <= k < nnz_indices(layer, n).len() ==> #[trigger] nnz_indices(layer, n)[k] < n,
    decreases n,
{
    if n > 0 {
        lemma_nnz_indices_bounds(layer, n - 1);
    }
}

/// `r` is what a search for the chunks that are not zero returns: the
/// count of those chunks, their indices in rising order at the front of the
/// buffer, zeros behind them.
pub open spec fn lists_nnz(layer: Seq<u8>, r: ([u8; L1_CHUNKS], usize)) -> bool {
    &&& r.1 == nnz_indices(layer, L1_CHUNKS as int).len()
    &&& r.0@.take(r.1 as int) == nnz_indices(layer, L1_CHUNKS as int)
    &&& forall|k: int| r.1 <= k < L1_CHUNKS ==> #[trigger] r.0@[k] == 0
}

/// Finds the chunks of the activated layer that are not zero. Returned are
/// a buffer and a count: the first `count` bytes of the buffer are the
/// indices of those chunks in rising order, the bytes after them are zero.
/// `nnz_table` is the table that `nnz_table()` builds.
pub fn find_nnz(ft_out: &[u8; L1_SIZE], nnz_table: &[SparseEntry]) -> (r: ([u8; L1_CHUNKS], usize))
    requires
        is_nnz_table(nnz_table@),
    ensures
        lists_nnz(ft_out@, r),
        r.1 <= L1_CHUNKS,
        forall|k: int| 0 <= k < L1_CHUNKS ==> #[trigger] r.0@[k] < L1_CHUNKS,
{
    let mut indexes = [0u8; L1_CHUNKS];
    let mut count: usize = 0;
    let mut g: usize = 0;
    while g < 24
        invariant
            g <= 24,
            is_nnz_table(nnz_table@),
            count <= 8 * g,
            count == nnz_indices(ft_out@, 8 * g as int).len(),
            indexes@.take(count as int) == nnz_indices(ft_out@, 8 * g as int),
            forall|k: int| count <= k < L1_CHUNKS ==> #[trigger] indexes@[k] == 0,
        decreases 24 - g,
    {
        let mut mask: u8 = 0;
        let mut p: u8 = 0;
        proof {
            lemma_mask8_bits(0, 0);
        }
        while p < 8
            invariant
                p <= 8,
                g < 24,
                forall|q: u8|
                    q < 8 ==> #[trigger] mask_bit(mask, q) == (q < p && chunk_set(
                        ft_out@,
                        8 * g + q,
                    )),
            decreases 8 - p,
        {
            let c = 8 * g + p as usize;
            if ft_out[4 * c] != 0 || ft_out[4 * c + 1] != 0 || ft_out[4 * c + 2] != 0 || ft_out[4
                * c + 3] != 0 {
                proof {
                    lemma_mask8_bits(mask, p);
                }
                mask = mask | (1u8 << p);
            }
            p += 1;
        }
        let entry = nnz_table[mask as usize];
        proof {
            lemma_group_indices(ft_out@, g as int, mask, 8);
            lemma_set_positions_bounds(mask, 8);
            assert(is_sparse_entry(nnz_table@[mask as int], mask));
        }
        let ghost before = indexes@;
        let ghost shift = |p: u8| (p + 8 * g) as u8;
        let mut k: usize = 0;
        while k < entry.count
            invariant
                k <= entry.count,
                g < 24,
                count <= 8 * g,
                entry.count <= 8,
                entry.indexes@.take(entry.count as int) == set_positions(mask, 8),
                forall|j: int|
                    0 <= j < set_positions(mask, 8).len() ==> #[trigger] set_positions(mask, 8)[j]
                        < 8,
                indexes@.take(count as int) == before.take(count as int),
                forall|j: int|
                    0 <= j < k ==> #[trigger] indexes@[count + j] == (entry.indexes@[j] + 8 * g) as u8,
                forall|j: int| count + k <= j < L1_CHUNKS ==> #[trigger] indexes@[j] == 0,
            decreases entry.count - k,
        {
            let position = entry.indexes[k];
            assert(position == set_positions(mask, 8)[k as int]) by {
                assert(
                    entry.indexes@.take(entry.count as int)[k as int] == entry.indexes@[k as int]
                );
            }
            let ghost prior = indexes@;
            indexes[count + k] = position + (8 * g) as u8;
            assert(indexes@.take(count as int) =~= prior.take(count as int));
            k += 1;
        }
        proof {
            let added = set_positions(mask, 8).map_values(shift);
            let wanted = nnz_indices(ft_out@, 8 * g as int) + added;
            assert(indexes@.take(count + entry.count) =~= wanted) by {
                assert forall|j: int|
                    0 <= j < count + entry.count implies indexes@[j] == wanted[j] by {
                    if j < count {
                        assert(indexes@.take(count as int)[j] == indexes@[j]);
                        assert(before.take(count as int)[j] == before[j]);
                    } else {
                        assert(
                            indexes@[count + (j - count)] == (entry.indexes@[j - count] + 8 * g) as u8
                        );
                        assert(entry.indexes@.take(entry.count as int)[j - count]
                            == entry.indexes@[j - count]);
                    }
                }
            }
        }
        count += entry.count;
        g += 1;
    }
    proof {
        lemma_nnz_indices_bounds(ft_out@, L1_CHUNKS as int);
        assert forall|k: int| 0 <= k < L1_CHUNKS implies #[trigger] indexes@[k] < L1_CHUNKS by {
            if k < count {
                assert(indexes@.take(count as int)[k] == indexes@[k]);
            }
        }
    }
    (indexes, count)
}

/// The same search, done the way a 64-lane vector unit does it: for each
/// block of 64 chunks one 64-bit mask of the chunks that are not zero, then
/// the indices of the set bits packed to the end of the list.
pub fn find_nnz_by_blocks(ft_out: &[u8; L1_SIZE]) -> (r: ([u8; L1_CHUNKS], usize))
    ensures
        lists_nnz(ft_out@, r),
        r.1 <= L1_CHUNKS,
{
    let mut indexes = [0u8; L1_CHUNKS];
    let mut count: usize = 0;
    let mut block: usize = 0;
    while block < 3
        invariant
            block <= 3,
            count <= 64 * block,
            count == nnz_indices(ft_out@, 64 * block as int).len(),
            indexes@.take(count as int) == nnz_indices(ft_out@, 64 * block as int),
            forall|k: int| count <= k < L1_CHUNKS ==> #[trigger] indexes@[k] == 0,
        decreases 3 - block,
    {
        let mut mask: u64 = 0;
        let mut p: usize = 0;
        proof {
            lemma_mask_bits(0, 0);
        }
        while p < 64
            invariant
                p <= 64,
                block < 3,
                forall|q: u64|
                    q < 64 ==> #[trigger] bit(mask, q) == (q < p && chunk_set(
                        ft_out@,
                        64 * block + q,
                    )),
            decreases 64 - p,
        {
            let c = 64 * block + p;
            if ft_out[4 * c] != 0 || ft_out[4 * c + 1] != 0 || ft_out[4 * c + 2] != 0 || ft_out[4
                * c + 3] != 0 {
                proof {
                    lemma_mask_bits(mask, p as u64);
                }
                mask = mask | (1u64 << (p as u64));
            }
            p += 1;
        }
        let mut lane: usize = 0;
        while lane < 64
            invariant
                lane <= 64,
                block < 3,
                count <= 64 * block + lane,
                forall|q: u64|
                    q < 64 ==> #[trigger] bit(mask, q) == chunk_set(ft_out@, 64 * block + q),
                count == nnz_indices(ft_out@, 64 * block + lane).len(),
                indexes@.take(count as int) == nnz_indices(ft_out@, 64 * block + lane),
                forall|k: int| count <= k < L1_CHUNKS ==> #[trigger] indexes@[k] == 0,
            decreases 64 - lane,
        {
            if (mask >> (lane as u64)) & 1 == 1 {
                assert(bit(mask, lane as u64));
                let ghost before = indexes@;
                indexes[count] = (64 * block + lane) as u8;
                assert(indexes@.take(count + 1) =~= before.take(count as int).push(
                    (64 * block + lane) as u8,
                ));
                count += 1;
            } else {
                assert(!bit(mask, lane as u64));
            }
            lane += 1;
        }
        block += 1;
    }
    (indexes, count)
}

/// Two searches of the same layer return the same bytes and the same
/// count, whichever way each went about it.
pub proof fn lemma_nnz_searches_agree(
    layer: Seq<u8>,
    a: ([u8; L1_CHUNKS], usize),
    b: ([u8; L1_CHUNKS], usize),
)
    requires
        lists_nnz(layer, a),
        lists_nnz(layer, b),
    ensures
        a.1 == b.1,
        a.0@ == b.0@,
{
    lemma_nnz_indices_bounds(layer, L1_CHUNKS as int);
    assert(a.0@.len() == L1_CHUNKS && b.0@.len() == L1_CHUNKS);
    assert forall|k: int| 0 <= k < L1_CHUNKS implies a.0@[k] == b.0@[k] by {
        if k < a.1 {
            assert(a.0@.take(a.1 as int)[k] == a.0@[k]);
            assert(b.0@.take(b.1 as int)[k] == b.0@[k]);
        }
    }
    assert(a.0@ =~= b.0@);
}

/// What chunk `index` of the layer adds to second-layer unit `unit`: its
/// four bytes, unsigned, times the unit's four signed weights for the
/// chunk.
pub open spec fn dot4(layer: Seq<u8>, weights: Seq<i8>, index: int, unit: int) -> int {
    let w = (index * L2_SIZE + unit) * 4;
    layer[4 * index] * weights[w] + layer[4 * index + 1] * weights[w + 1] + layer[4 * index + 2]
        * weights[w + 2] + layer[4 * index + 3] * weights[w + 3]
}

/// The sum that the chunks listed in `nnz` add to unit `unit`.
pub open spec fn l1_sum(layer: Seq<u8>, weights: Seq<i8>, nnz: Seq<u8>, unit: int) -> int
    decreases nnz.len(),
{
    if nnz.len() == 0 {
        0
    } else {
        l1_sum(layer, weights, nnz.drop_last(), unit) + dot4(layer, weights, nnz.last() as int, unit)
    }
}

/// One chunk moves a sum by at most 4 * 255 * 128.
pub proof fn lemma_dot4_range(layer: Seq<u8>, weights: Seq<i8>, index: int, unit: int)
    ensures
        -130560 <= dot4(layer, weights, index, unit) <= 130560,
{
    let w = (index * L2_SIZE + unit) * 4;
    lemma_byte_product(layer[4 * index], weights[w]);
    lemma_byte_product(layer[4 * index + 1], weights[w + 1]);
    lemma_byte_product(layer[4 * index + 2], weights[w + 2]);
    lemma_byte_product(layer[4 * index + 3], weights[w + 3]);
}

proof fn lemma_byte_product(a: u8, b: i8)
    by (nonlinear_arith)
    ensures
        -32640 <= a * b <= 32640,
{
}

fn dot4_of(layer: &[u8; L1_SIZE], weights: &[i8], index: usize, unit: usize) -> (r: i32)
    requires
        index < L1_CHUNKS,
        unit < L2_SIZE,
        weights@.len() == L1_WEIGHTS,
    ensures
        r == dot4(layer@, weights@, index as int, unit as int),
        -130560 <= r <= 130560,
{
    let w = (index * L2_SIZE + unit) * 4;
    proof {
        lemma_dot4_range(layer@, weights@, index as int, unit as int);
        lemma_byte_product(layer@[4 * index], weights@[w as int]);
        lemma_byte_product(layer@[4 * index + 1], weights@[w + 1]);
        lemma_byte_product(layer@[4 * index + 2], weights@[w + 2]);
        lemma_byte_product(layer@[4 * index + 3], weights@[w + 3]);
    }
    layer[4 * index] as i32 * weights[w] as i32 + layer[4 * index + 1] as i32 * weights[w + 1] as i32
        + layer[4 * index + 2] as i32 * weights[w + 2] as i32 + layer[4 * index + 3] as i32
        * weights[w + 3] as i32
}

/// The integer sums of the first layer: for every second-layer unit, what
/// the listed chunks of the activated layer add to it. `weights` holds, for
/// chunk `c` and unit `j`, four bytes from `(c * L2_SIZE + j) * 4` on. The
/// chunks are taken two at a time, with the odd one at the end by itself.
pub fn accumulate_l1(ft_out: &[u8; L1_SIZE], nnz: &[u8], weights: &[i8]) -> (r: [i32; L2_SIZE])
    requires
        nnz@.len() <= 256,
        forall|k: int| 0 <= k < nnz@.len() ==> #[trigger] nnz@[k] < L1_CHUNKS,
        weights@.len() == L1_WEIGHTS,
    ensures
        forall|j: int|
            0 <= j < L2_SIZE ==> #[trigger] r@[j] == l1_sum(ft_out@, weights@, nnz@, j),
{
    let mut sums = [0i32; L2_SIZE];
    let pairs = nnz.len() / 2;
    let mut t: usize = 0;
    assert(nnz@.take(0) =~= Seq::<u8>::empty());
    while t < pairs
        invariant
            t <= pairs,
            pairs == nnz@.len() / 2,
            nnz@.len() <= 256,
            forall|k: int| 0 <= k < nnz@.len() ==> #[trigger] nnz@[k] < L1_CHUNKS,
            weights@.len() == L1_WEIGHTS,
            forall|j: int|
                0 <= j < L2_SIZE ==> #[trigger] sums@[j] == l1_sum(
                    ft_out@,
                    weights@,
                    nnz@.take(2 * t),
                    j,
                ),
            forall|j: int|
                0 <= j < L2_SIZE ==>
                    -261120 * (t as int) <= #[trigger] sums@[j] <= 261120 * (t as int),
        decreases pairs - t,
    {
        let first = nnz[2 * t] as usize;
        let second = nnz[2 * t + 1] as usize;
        let ghost before = sums@;
        let mut unit: usize = 0;
        while unit < L2_SIZE
            invariant
                unit <= L2_SIZE,
                t < pairs,
                pairs <= 128,
                first < L1_CHUNKS,
                second < L1_CHUNKS,
                weights@.len() == L1_WEIGHTS,
                forall|j: int|
                    0 <= j < L2_SIZE ==>
                        -261120 * (t as int) <= #[trigger] before[j] <= 261120 * (t as int),
                forall|j: int|
                    0 <= j < unit ==> #[trigger] sums@[j] == before[j] + dot4(
                        ft_out@,
                        weights@,
                        first as int,
                        j,
                    ) + dot4(ft_out@, weights@, second as int, j),
                forall|j: int| unit <= j < L2_SIZE ==> #[trigger] sums@[j] == before[j],
            decreases L2_SIZE - unit,
        {
            let both = dot4_of(ft_out, weights, first, unit) + dot4_of(
                ft_out,
                weights,
                second,
                unit,
            );
            assert(sums@[unit as int] == before[unit as int]);
            assert(-261120 * (t as int) <= before[unit as int] <= 261120 * (t as int));
            sums[unit] = sums[unit] + both;
            unit += 1;
        }
        proof {
            let upto = nnz@.take(2 * t + 2);
            let mid = nnz@.take(2 * t + 1);
            assert(upto.drop_last() =~= mid);
            assert(mid.drop_last() =~= nnz@.take(2 * t as int));
            assert(upto.last() == nnz@[2 * t + 1]);
            assert(mid.last() == nnz@[2 * t as int]);
            assert forall|j: int| 0 <= j < L2_SIZE implies #[trigger] sums@[j] == l1_sum(
                ft_out@,
                weights@,
                upto,
                j,
            ) && -261120 * (t as int + 1) <= sums@[j] <= 261120 * (t as int + 1) by {
                lemma_dot4_range(ft_out@, weights@, first as int, j);
                lemma_dot4_range(ft_out@, weights@, second as int, j);
                assert(l1_sum(ft_out@, weights@, mid, j) == l1_sum(
                    ft_out@,
                    weights@,
                    mid.drop_last(),
                    j,
                ) + dot4(ft_out@, weights@, mid.last() as int, j));
                assert(l1_sum(ft_out@, weights@, upto, j) == l1_sum(
                    ft_out@,
                    weights@,
                    upto.drop_last(),
                    j,
                ) + dot4(ft_out@, weights@, upto.last() as int, j));
                assert(sums@[j] == before[j] + dot4(ft_out@, weights@, first as int, j) + dot4(
                    ft_out@,
                    weights@,
                    second as int,
                    j,
                ));
                assert(before[j] == l1_sum(ft_out@, weights@, nnz@.take(2 * t as int), j));
                assert(-261120 * (t as int) <= before[j] <= 261120 * (t as int));
            }
        }
        t += 1;
    }
    if nnz.len() % 2 == 1 {
        let last = nnz[nnz.len() - 1] as usize;
        let ghost before = sums@;
        let mut unit: usize = 0;
        while unit < L2_SIZE
            invariant
                unit <= L2_SIZE,
                last < L1_CHUNKS,
                pairs <= 128,
                weights@.len() == L1_WEIGHTS,
                forall|j: int|
                    0 <= j < L2_SIZE ==>
                        -261120 * (pairs as int) <= #[trigger] before[j] <= 261120 * (pairs as int),
                forall|j: int|
                    0 <= j < unit ==> #[trigger] sums@[j] == before[j] + dot4(
                        ft_out@,
                        weights@,
                        last as int,
                        j,
                    ),
                forall|j: int| unit <= j < L2_SIZE ==> #[trigger] sums@[j] == before[j],
            decreases L2_SIZE - unit,
        {
            let one = dot4_of(ft_out, weights, last, unit);
            assert(sums@[unit as int] == before[unit as int]);
            assert(-261120 * (pairs as int) <= before[unit as int] <= 261120 * (pairs as int));
            sums[unit] = sums[unit] + one;
            unit += 1;
        }
        proof {
            assert(nnz@.drop_last() =~= nnz@.take(2 * pairs as int));
            assert forall|j: int| 0 <= j < L2_SIZE implies #[trigger] sums@[j] == l1_sum(
                ft_out@,
                weights@,
                nnz@,
                j,
            ) by {
                assert(sums@[j] == before[j] + dot4(ft_out@, weights@, last as int, j));
                assert(before[j] == l1_sum(ft_out@, weights@, nnz@.take(2 * pairs as int), j));
            }
        }
    } else {
        assert(nnz@.take(2 * pairs as int) =~= nnz@);
    }
    sums
}

} // verus!
