use search_core::nnue::forward::{
    accumulate_l1, activate_ft, find_nnz, find_nnz_by_blocks, nnz_table, sparse_entry,
};
use search_core::nnue::{
    PstAccumulator, ThreatAccumulator, L1_CHUNKS, L1_SIZE, L1_WEIGHTS, L2_SIZE,
};
use search_core::types::Color;

struct Lcg(u64);

impl Lcg {
    fn next(&mut self) -> u64 {
        self.0 = self.0.wrapping_mul(6364136223846793005).wrapping_add(1442695040888963407);
        self.0 >> 24
    }
}

fn accumulators(fill: impl Fn(usize, usize) -> (i16, i16)) -> (PstAccumulator, ThreatAccumulator) {
    let mut pst = PstAccumulator { values: [[0; L1_SIZE]; 2] };
    let mut threat = ThreatAccumulator { values: [[0; L1_SIZE]; 2] };
    for side in 0..2 {
        for i in 0..L1_SIZE {
            let (p, t) = fill(side, i);
            pst.values[side][i] = p;
            threat.values[side][i] = t;
        }
    }
    (pst, threat)
}

#[test]
fn activation_multiplies_the_clipped_halves() {
    let half = L1_SIZE / 2;
    let (mut pst, mut threat) = accumulators(|_, _| (0, 0));
    // white, byte 0: (100 + 50) * (200 + 20) / 512 = 64
    pst.values[0][0] = 100;
    threat.values[0][0] = 50;
    pst.values[0][half] = 200;
    threat.values[0][half] = 20;
    // white, byte 1: both sums clip to 255: 255 * 255 / 512 = 127
    pst.values[0][1] = 3000;
    pst.values[0][half + 1] = 255;
    threat.values[0][half + 1] = 1;
    // white, byte 2: a negative lower sum clips to 0
    pst.values[0][2] = -5;
    pst.values[0][half + 2] = 255;
    // white, byte 3: a negative upper sum gives a negative product: 0
    pst.values[0][3] = 255;
    pst.values[0][half + 3] = -1;
    // white, byte 4: 16-bit sums wrap: 32767 + 1 is negative, -32768 - 1 is 32767
    pst.values[0][4] = 32767;
    threat.values[0][4] = 1;
    pst.values[0][half + 4] = 255;
    // white, byte 5: the upper sum wraps to 32767 and is capped
    pst.values[0][5] = 4;
    pst.values[0][half + 5] = -32768;
    threat.values[0][half + 5] = -1;
    // black, byte 0: 255 * 2 / 512 = 0; byte 7: 8 * 64 / 512 = 1
    pst.values[1][0] = 255;
    pst.values[1][half] = 2;
    pst.values[1][7] = 8;
    pst.values[1][half + 7] = 64;

    let white = activate_ft(&pst, &threat, Color::White);
    assert_eq!(&white[..8], &[64, 127, 0, 0, 0, 1, 0, 0]);
    assert_eq!(&white[half..half + 8], &[0, 0, 0, 0, 0, 0, 0, 1]);
    assert!(white[8..half].iter().all(|&b| b == 0));

    // With black to move the halves of the layer change places.
    let black = activate_ft(&pst, &threat, Color::Black);
    assert_eq!(&black[..half], &white[half..]);
    assert_eq!(&black[half..], &white[..half]);
}

#[test]
fn activation_stays_below_128_and_repeats() {
    let mut rng = Lcg(7);
    let values: Vec<(i16, i16)> =
        (0..2 * L1_SIZE).map(|_| (rng.next() as i16, rng.next() as i16)).collect();
    let (pst, threat) = accumulators(|side, i| values[side * L1_SIZE + i]);
    let first = activate_ft(&pst, &threat, Color::White);
    let second = activate_ft(&pst, &threat, Color::White);
    assert_eq!(first, second);
    assert!(first.iter().all(|&b| b <= 127));
    let half = L1_SIZE / 2;
    for i in 0..L1_SIZE {
        let (side, k) = (i / half, i % half);
        let lower = pst.values[side][k].wrapping_add(threat.values[side][k]) as i32;
        let upper = pst.values[side][k + half].wrapping_add(threat.values[side][k + half]) as i32;
        let a = lower.clamp(0, 255);
        let b = upper.min(255);
        let product = ((a << 7) * b) >> 16;
        assert_eq!(first[i] as i32, product.clamp(0, 255));
    }
}

#[test]
fn table_entries_list_the_set_bits() {
    let entry = sparse_entry(0);
    assert_eq!((entry.indexes, entry.count), ([0; 8], 0));
    let entry = sparse_entry(0b1000_0001);
    assert_eq!((entry.indexes, entry.count), ([0, 7, 0, 0, 0, 0, 0, 0], 2));
    let entry = sparse_entry(0b0110_1100);
    assert_eq!((entry.indexes, entry.count), ([2, 3, 5, 6, 0, 0, 0, 0], 4));
    let entry = sparse_entry(0xFF);
    assert_eq!((entry.indexes, entry.count), ([0, 1, 2, 3, 4, 5, 6, 7], 8));
    let table = nnz_table();
    assert_eq!(table.len(), 256);
    for (mask, entry) in table.iter().enumerate() {
        assert_eq!(entry.count, mask.count_ones() as usize);
        assert_eq!(entry.indexes, sparse_entry(mask as u8).indexes);
    }
}

fn scan(layer: &[u8; L1_SIZE]) -> Vec<u8> {
    (0..L1_CHUNKS)
        .filter(|&c| layer[4 * c..4 * c + 4].iter().any(|&b| b != 0))
        .map(|c| c as u8)
        .collect()
}

#[test]
fn nonzero_chunks_are_listed_in_order() {
    let table = nnz_table();
    let mut layer = [0u8; L1_SIZE];
    let (indexes, count) = find_nnz(&layer, &table);
    assert_eq!(count, 0);
    assert_eq!(indexes, [0u8; L1_CHUNKS]);

    layer[0] = 1; // chunk 0
    layer[7] = 9; // chunk 1
    layer[40] = 0; // chunk 10 stays empty
    layer[4 * 63 + 2] = 127; // chunk 63
    layer[4 * 64] = 1; // chunk 64
    layer[L1_SIZE - 1] = 3; // chunk 191
    let (indexes, count) = find_nnz(&layer, &table);
    assert_eq!(count, 5);
    assert_eq!(&indexes[..6], &[0, 1, 63, 64, 191, 0]);

    let (indexes, count) = find_nnz_by_blocks(&layer);
    assert_eq!(count, 5);
    assert_eq!(&indexes[..6], &[0, 1, 63, 64, 191, 0]);

    let full = [1u8; L1_SIZE];
    assert_eq!(find_nnz_by_blocks(&full), find_nnz(&full, &table));
    let (indexes, count) = find_nnz(&full, &table);
    assert_eq!(count, L1_CHUNKS);
    for (i, &index) in indexes.iter().enumerate() {
        assert_eq!(index as usize, i);
    }
}

#[test]
fn table_search_agrees_with_a_plain_scan() {
    let table = nnz_table();
    let mut rng = Lcg(1);
    for round in 0..4000 {
        let mut layer = [0u8; L1_SIZE];
        // Sparse and dense layers by turns.
        let density = 1 + round % 16;
        for byte in layer.iter_mut() {
            let r = rng.next();
            if r % 16 < density as u64 {
                *byte = (r >> 8) as u8 & 127;
            }
        }
        let expected = scan(&layer);
        assert_eq!(find_nnz(&layer, &table), find_nnz_by_blocks(&layer));
        let (indexes, count) = find_nnz(&layer, &table);
        assert_eq!(count, expected.len());
        assert_eq!(&indexes[..count], &expected[..]);
        assert!(indexes[count..].iter().all(|&b| b == 0));
    }
}

#[test]
fn first_layer_sums_the_listed_chunks() {
    let mut rng = Lcg(3);
    let mut layer = [0u8; L1_SIZE];
    for byte in layer.iter_mut() {
        *byte = (rng.next() % 128) as u8;
    }
    let weights: Vec<i8> = (0..L1_WEIGHTS).map(|_| rng.next() as i8).collect();

    assert_eq!(accumulate_l1(&layer, &[], &weights), [0i32; L2_SIZE]);

    for nnz in [vec![5u8], vec![0, 191], vec![7, 7, 100], vec![1, 2, 3, 4, 5, 6, 7]] {
        let sums = accumulate_l1(&layer, &nnz, &weights);
        for unit in 0..L2_SIZE {
            let mut expected = 0i32;
            for &index in &nnz {
                for byte in 0..4 {
                    let activation = layer[4 * index as usize + byte] as i32;
                    let weight = weights[(index as usize * L2_SIZE + unit) * 4 + byte] as i32;
                    expected += activation * weight;
                }
            }
            assert_eq!(sums[unit], expected);
        }
    }
}

#[test]
fn first_layer_holds_the_largest_sums() {
    let layer = [255u8; L1_SIZE];
    let weights = vec![-128i8; L1_WEIGHTS];
    let nnz: Vec<u8> = (0..L1_CHUNKS as u8).chain(0..64).collect();
    assert_eq!(nnz.len(), 256);
    let sums = accumulate_l1(&layer, &nnz, &weights);
    assert_eq!(sums, [-(256 * 4 * 255 * 128); L2_SIZE]);
    let one = accumulate_l1(&[1u8; L1_SIZE], &[9], &vec![1i8; L1_WEIGHTS]);
    assert_eq!(one, [4; L2_SIZE]);
}

#[test]
fn the_pass_from_accumulators_to_sums() {
    let (pst, threat) = accumulators(|side, i| {
        if side == 0 && (i == 8 || i == 8 + L1_SIZE / 2) {
            (255, 0)
        } else {
            (0, 0)
        }
    });
    let layer = activate_ft(&pst, &threat, Color::White);
    let (indexes, count) = find_nnz(&layer, &nnz_table());
    assert_eq!((count, indexes[0]), (1, 2));
    let mut weights = vec![0i8; L1_WEIGHTS];
    for unit in 0..L2_SIZE {
        weights[(2 * L2_SIZE + unit) * 4] = unit as i8 - 8;
    }
    let sums = accumulate_l1(&layer, &indexes[..count], &weights);
    for unit in 0..L2_SIZE {
        assert_eq!(sums[unit], 127 * (unit as i32 - 8));
    }
}
