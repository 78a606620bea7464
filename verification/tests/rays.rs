use search_core::nnue::rays::{
    attackers_along_rays, attacking_along_rays, board_to_rays, closest_on_rays, flip_rays,
    ray_fill, ray_permuation, sliders_along_rays,
};
use search_core::types::{Color, Piece, PieceType};

const WP: u8 = 1;
const BP: u8 = 2;
const N: u8 = 4;
const B: u8 = 8;
const R: u8 = 16;
const Q: u8 = 32;
const K: u8 = 64;

fn slot(direction: usize, step: usize) -> usize {
    8 * direction + step
}

#[test]
fn closest_keeps_the_knight_slot_and_the_nearest_piece() {
    assert_eq!(closest_on_rays(0), 0);
    // North: knight slot and pieces three and five steps away.
    assert_eq!(closest_on_rays(0b0010_1001), 0b0000_1001);
    // Every direction by itself.
    assert_eq!(closest_on_rays(0xF0_0F_80_01_FE_06_60_28), 0x10_03_80_01_02_02_20_08);
    assert_eq!(closest_on_rays(u64::MAX), 0x0303_0303_0303_0303);
}

#[test]
fn closest_agrees_with_a_ray_by_ray_scan() {
    let mut x: u64 = 0x9E37_79B9_7F4A_7C15;
    for _ in 0..20_000 {
        x = x.wrapping_mul(6364136223846793005).wrapping_add(1442695040888963407);
        let occupied = x ^ (x >> 29);
        let mut expected = 0u64;
        for ray in 0..8 {
            let byte = (occupied >> (8 * ray)) & 0xFF;
            let mut kept = byte & 1;
            for step in 1..8 {
                if byte & (1 << step) != 0 {
                    kept |= 1 << step;
                    break;
                }
            }
            expected |= kept << (8 * ray);
        }
        assert_eq!(closest_on_rays(occupied), expected);
    }
}

#[test]
fn fill_covers_the_rays_that_hold_a_piece() {
    assert_eq!(ray_fill(0), 0);
    // A lone knight slot is no piece on the ray.
    assert_eq!(ray_fill(0x01), 0);
    assert_eq!(ray_fill(0x02), 0x7F);
    assert_eq!(ray_fill(0x81), 0x7F);
    assert_eq!(ray_fill(0x80_01_00_40_03_00_81_10), 0x7F_00_00_7F_7F_00_7F_7F);
    assert_eq!(ray_fill(closest_on_rays(0xF0_0F_80_01_FE_06_60_28)), 0x7F_7F_7F_00_7F_7F_7F_7F);
}

#[test]
fn permutation_names_the_squares_around_the_focus() {
    let directions: [(i32, i32); 8] =
        [(0, 1), (1, 1), (1, 0), (1, -1), (0, -1), (-1, -1), (-1, 0), (-1, 1)];
    let jumps: [(i32, i32); 8] =
        [(-1, 2), (1, 2), (2, 1), (2, -1), (1, -2), (-1, -2), (-2, -1), (-2, 1)];
    for focus in 0u8..64 {
        let (perm, mask) = ray_permuation(focus);
        for d in 0..8 {
            for k in 0..8 {
                let (df, dr) =
                    if k == 0 { jumps[d] } else { (k as i32 * directions[d].0, k as i32 * directions[d].1) };
                let file = (focus % 8) as i32 + df;
                let rank = (focus / 8) as i32 + dr;
                let on_board = (0..8).contains(&file) && (0..8).contains(&rank);
                assert_eq!(mask >> slot(d, k) & 1 == 1, on_board);
                if on_board {
                    assert_eq!(perm[slot(d, k)] as i32, 8 * rank + file);
                }
            }
        }
    }
}

#[test]
fn permutation_from_the_corner() {
    let (perm, mask) = ray_permuation(0);
    // North and east run the whole board, north-east the long diagonal; the
    // two knight squares are b3 and c2.
    assert_eq!(mask, 0x00_00_00_00_00_FF_FF_FE);
    assert_eq!(&perm[1..8], &[8, 16, 24, 32, 40, 48, 56]);
    assert_eq!(&perm[8..16], &[17, 9, 18, 27, 36, 45, 54, 63]);
    assert_eq!(&perm[16..24], &[10, 1, 2, 3, 4, 5, 6, 7]);
}

#[test]
fn board_is_read_through_the_permutation() {
    let mut board = [12u8; 64];
    board[8] = 0; // white pawn on a2
    board[9] = 7; // black rook on b2
    board[1] = 0x8B; // a code with the top bit set
    board[17] = 3; // black knight on b3
    let (perm, valid) = ray_permuation(0);
    let (pboard, rays) = board_to_rays(&perm, valid, &board);
    assert_eq!(pboard[slot(0, 1)], 0);
    assert_eq!(rays[slot(0, 1)], WP);
    assert_eq!(pboard[slot(1, 1)], 7);
    assert_eq!(rays[slot(1, 1)], R);
    assert_eq!(pboard[slot(2, 1)], 0x8B);
    assert_eq!(rays[slot(2, 1)], 0);
    assert_eq!(rays[slot(1, 0)], N);
    assert_eq!(rays[slot(0, 2)], 0);
    // Off the board nothing is seen, whatever the permutation names.
    for i in 24..64 {
        assert_eq!(rays[i], 0);
    }
    let mut sum = 0u32;
    for r in rays {
        sum += r as u32;
    }
    assert_eq!(sum, (WP + R + N) as u32);
}

#[test]
fn piece_codes_map_to_their_bits() {
    let perm: [u8; 64] = core::array::from_fn(|i| i as u8);
    let mut board = [0u8; 64];
    for code in 0..16u8 {
        board[code as usize] = code;
    }
    board[16] = 64 + 5; // only the low four bits count: black bishop
    board[17] = 128 + 5;
    let (pboard, rays) = board_to_rays(&perm, u64::MAX, &board);
    assert_eq!(&rays[..18], &[WP, BP, N, N, B, B, R, R, Q, Q, K, K, 0, 0, 0, 0, B, 0]);
    assert_eq!(pboard, board);
    let (_, none) = board_to_rays(&perm, 0, &board);
    assert_eq!(none, [0u8; 64]);
    let (high, _) = board_to_rays(&[0xC3; 64], u64::MAX, &board);
    assert_eq!(high, [3u8; 64]);
}

#[test]
fn attackers_depend_on_slot_and_victim() {
    let mut rays = [0u8; 64];
    rays[slot(0, 0)] = N; // knight on a knight slot
    rays[slot(0, 1)] = K; // king next to the focus
    rays[slot(0, 2)] = K; // king two away: no attacker
    rays[slot(2, 4)] = R; // rook on a line
    rays[slot(1, 4)] = R; // rook on a diagonal: no attacker
    rays[slot(1, 1)] = BP; // black pawn north-east
    rays[slot(3, 1)] = BP; // black pawn south-east: no attacker
    rays[slot(3, 2)] = B;
    rays[slot(5, 1)] = WP;
    rays[slot(7, 7)] = Q;
    let pawn = Piece::new(Color::White, PieceType::Pawn);
    let expected = 1u64 << slot(0, 0)
        | 1 << slot(0, 1)
        | 1 << slot(2, 4)
        | 1 << slot(1, 1)
        | 1 << slot(3, 2)
        | 1 << slot(5, 1)
        | 1 << slot(7, 7);
    assert_eq!(attackers_along_rays(pawn, &rays), expected);
    // Against a queen only knights and queens count.
    let queen = Piece::new(Color::Black, PieceType::Queen);
    assert_eq!(attackers_along_rays(queen, &rays), 1 << slot(0, 0) | 1 << slot(7, 7));
    // Against a bishop pawns do not count, against a king neither do kings.
    let bishop = Piece::new(Color::Black, PieceType::Bishop);
    assert_eq!(
        attackers_along_rays(bishop, &rays),
        expected & !(1 << slot(1, 1)) & !(1 << slot(5, 1))
    );
    let king = Piece::new(Color::White, PieceType::King);
    assert_eq!(
        attackers_along_rays(king, &rays),
        1 << slot(0, 0) | 1 << slot(2, 4) | 1 << slot(3, 2) | 1 << slot(7, 7)
    );
    assert_eq!(attackers_along_rays(pawn, &[0; 64]), 0);
}

#[test]
fn attacked_pieces_depend_on_the_attacker() {
    let rays = [0x7Fu8; 64];
    let white_pawn = Piece::new(Color::White, PieceType::Pawn);
    let black_pawn = Piece::new(Color::Black, PieceType::Pawn);
    assert_eq!(attacking_along_rays(white_pawn, &rays), 0x02_00_00_00_00_00_02_00);
    assert_eq!(attacking_along_rays(black_pawn, &rays), 0x00_00_02_00_02_00_00_00);
    assert_eq!(
        attacking_along_rays(Piece::new(Color::Black, PieceType::Knight), &rays),
        0x0101_0101_0101_0101
    );
    assert_eq!(
        attacking_along_rays(Piece::new(Color::White, PieceType::Bishop), &rays),
        0xFE00_FE00_FE00_FE00
    );
    assert_eq!(
        attacking_along_rays(Piece::new(Color::White, PieceType::Rook), &rays),
        0x00FE_00FE_00FE_00FE
    );
    assert_eq!(
        attacking_along_rays(Piece::new(Color::White, PieceType::Queen), &rays),
        0xFEFE_FEFE_FEFE_FEFE
    );
    assert_eq!(
        attacking_along_rays(Piece::new(Color::Black, PieceType::King), &rays),
        0x0202_0202_0202_0202
    );

    // A pawn attacks pawns, knights and rooks; a rook everything but queens.
    let mut mixed = [0u8; 64];
    mixed[slot(1, 1)] = Q;
    mixed[slot(7, 1)] = R;
    mixed[slot(0, 3)] = Q;
    mixed[slot(2, 3)] = K;
    assert_eq!(attacking_along_rays(white_pawn, &mixed), 1 << slot(7, 1));
    assert_eq!(
        attacking_along_rays(Piece::new(Color::White, PieceType::Rook), &mixed),
        1 << slot(2, 3)
    );
}

#[test]
fn sliders_are_seen_on_their_own_rays_only() {
    let mut rays = [0u8; 64];
    rays[slot(0, 0)] = Q; // a knight slot never holds a slider of the ray
    rays[slot(0, 3)] = R;
    rays[slot(1, 3)] = R;
    rays[slot(2, 1)] = B;
    rays[slot(3, 7)] = B;
    rays[slot(4, 2)] = Q;
    rays[slot(5, 2)] = Q;
    rays[slot(6, 5)] = K;
    rays[slot(7, 1)] = WP;
    assert_eq!(
        sliders_along_rays(&rays),
        1 << slot(0, 3) | 1 << slot(3, 7) | 1 << slot(4, 2) | 1 << slot(5, 2)
    );
    assert_eq!(sliders_along_rays(&[0xFF; 64]), 0xFEFE_FEFE_FEFE_FEFE);
}

#[test]
fn flipping_swaps_opposite_directions() {
    let x: [u8; 64] = core::array::from_fn(|i| i as u8);
    let flipped = flip_rays(&x);
    for i in 0..64 {
        assert_eq!(flipped[i], ((i + 32) % 64) as u8);
    }
    assert_eq!(flip_rays(&flipped), x);
}
