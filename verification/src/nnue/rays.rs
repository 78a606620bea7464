//! Ray scans around a focus square. A ray vector has 64 slots, eight for
//! each of the directions N, NE, E, SE, S, SW, W, NW: slot 0 of a direction
//! is the knight square of its octant, slots 1 to 7 are the squares one to
//! seven steps along the ray. A 64-bit mask has one bit per slot, one byte
//! per direction.

use vstd::prelude::*;
use crate::types::{Color, Piece, PieceType};

verus! {

/// Bit `i` of `x`.
pub open spec fn bit(x: u64, i: u64) -> bool {
    (x >> i) & 1 == 1
}

/// Byte `ray` of `x`: the eight slots of one direction.
pub open spec fn ray_byte(x: u64, ray: u64) -> u64 {
    (x >> (8 * ray)) & 0xff
}

/// Of the slots of one direction, the knight slot and the nearest occupied
/// slot on the ray.
pub open spec fn closest_slots(b: u64) -> u64 {
    (b & 1) | (if b & 0x02 != 0 {
        0x02u64
    } else if b & 0x04 != 0 {
        0x04u64
    } else if b & 0x08 != 0 {
        0x08u64
    } else if b & 0x10 != 0 {
        0x10u64
    } else if b & 0x20 != 0 {
        0x20u64
    } else if b & 0x40 != 0 {
        0x40u64
    } else if b & 0x80 != 0 {
        0x80u64
    } else {
        0u64
    })
}

/// Keeps, in each direction, the knight slot and the occupied slot nearest
/// to the focus square.
pub fn closest_on_rays(occupied: u64) -> (r: u64)
    ensures
        forall|ray: u64|
            ray < 8 ==> #[trigger] ray_byte(r, ray) == closest_slots(ray_byte(occupied, ray)),
{
    assert((occupied | 0x8181818181818181) >= 0x0303030303030303) by (bit_vector);
    let o = occupied | 0x8181818181818181;
    let x = o ^ (o - 0x0303030303030303);
    let r = x & occupied;
    assert(forall|ray: u64| ray < 8 ==> #[trigger] ray_byte(r, ray) == closest_slots(ray_byte(occupied, ray)))
        by (bit_vector)
        requires
            o == occupied | 0x8181818181818181,
            x == o ^ ((o - 0x0303030303030303) as u64),
            r == x & occupied,
    ;
    r
}

/// Every direction of `x` holds at most its knight slot and one slot on the
/// ray, as the results of `closest_on_rays` do.
pub open spec fn one_per_ray(x: u64) -> bool {
    forall|ray: u64| ray < 8 ==> #[trigger] ray_byte(x, ray) <= 0x81
}

/// What `closest_on_rays` returns has the shape `ray_fill` reads.
pub proof fn lemma_closest_is_one_per_ray(occupied: u64, r: u64)
    requires
        forall|ray: u64|
            ray < 8 ==> #[trigger] ray_byte(r, ray) == closest_slots(ray_byte(occupied, ray)),
    ensures
        one_per_ray(r),
{
    assert forall|ray: u64| ray < 8 implies #[trigger] ray_byte(r, ray) <= 0x81 by {
        let b = ray_byte(occupied, ray);
        assert(closest_slots(b) <= 0x81) by (bit_vector);
    }
}

/// Fills the seven lower slots of every direction in which `x` has a slot
/// on the ray set, and clears the others. The sum inside must not leave
/// `u64`, which holds whenever the top direction of `x` is at most `0x81`.
pub fn ray_fill(x: u64) -> (r: u64)
    requires
        x <= 0xFFFF_FFFF_FFFF_FFFF - 0x7E7E7E7E7E7E7E7E,
    ensures
        one_per_ray(x) ==> forall|ray: u64|
            ray < 8 ==> #[trigger] ray_byte(r, ray) == (if ray_byte(x, ray) >= 2 {
                0x7Fu64
            } else {
                0u64
            }),
        r == ((x + 0x7E7E7E7E7E7E7E7E) as u64 & 0x8080808080808080) - (((x + 0x7E7E7E7E7E7E7E7E) as u64
            & 0x8080808080808080) >> 7),
{
    let t = x + 0x7E7E7E7E7E7E7E7E;
    let y = t & 0x8080808080808080;
    assert(((t & 0x8080808080808080) >> 7) <= (t & 0x8080808080808080)) by (bit_vector);
    let r = y - (y >> 7);
    proof {
        if one_per_ray(x) {
            assert forall|ray: u64| ray < 8 implies #[trigger] ray_byte(r, ray) == (if ray_byte(x, ray) >= 2 {
                0x7Fu64
            } else {
                0u64
            }) by {
                assert(ray_byte(x, 0) <= 0x81 && ray_byte(x, 1) <= 0x81 && ray_byte(x, 2) <= 0x81
                    && ray_byte(x, 3) <= 0x81 && ray_byte(x, 4) <= 0x81 && ray_byte(x, 5) <= 0x81
                    && ray_byte(x, 6) <= 0x81 && ray_byte(x, 7) <= 0x81);
                assert(ray_byte(r, ray) == (if ray_byte(x, ray) >= 2 {
                    0x7Fu64
                } else {
                    0u64
                })) by (bit_vector)
                    requires
                        ray < 8,
                        ray_byte(x, 0) <= 0x81 && ray_byte(x, 1) <= 0x81 && ray_byte(x, 2) <= 0x81
                            && ray_byte(x, 3) <= 0x81 && ray_byte(x, 4) <= 0x81 && ray_byte(x, 5)
                            <= 0x81 && ray_byte(x, 6) <= 0x81 && ray_byte(x, 7) <= 0x81,
                        y == (x + 0x7E7E7E7E7E7E7E7E) as u64 & 0x8080808080808080,
                        r == (y - (y >> 7)) as u64,
                ;
            }
        }
    }
    r
}

/// Setting bit `i` of a mask changes that bit only, and the empty mask has
/// no bit set.
pub proof fn lemma_mask_bits(mask: u64, i: u64)
    by (bit_vector)
    requires
        i < 64,
    ensures
        forall|j: u64| j < 64 ==> #[trigger] bit(mask | (1u64 << i), j) == (j == i || bit(mask, j)),
        forall|j: u64| j < 64 ==> !#[trigger] bit(0, j),
{
}

/// One step in direction `d`, as a change of file and of rank. The
/// directions count clockwise from north.
pub open spec fn direction(d: int) -> (int, int) {
    if d == 0 {
        (0, 1)
    } else if d == 1 {
        (1, 1)
    } else if d == 2 {
        (1, 0)
    } else if d == 3 {
        (1, -1)
    } else if d == 4 {
        (0, -1)
    } else if d == 5 {
        (-1, -1)
    } else if d == 6 {
        (-1, 0)
    } else {
        (-1, 1)
    }
}

/// The knight jump that belongs to direction `d`, as a change of file and
/// of rank.
pub open spec fn knight_jump(d: int) -> (int, int) {
    if d == 0 {
        (-1, 2)
    } else if d == 1 {
        (1, 2)
    } else if d == 2 {
        (2, 1)
    } else if d == 3 {
        (2, -1)
    } else if d == 4 {
        (1, -2)
    } else if d == 5 {
        (-1, -2)
    } else if d == 6 {
        (-2, -1)
    } else {
        (-2, 1)
    }
}

/// Where slot `i` lies relative to the focus square, as a change of file
/// and of rank.
pub open spec fn slot_delta(i: int) -> (int, int) {
    let d = i / 8;
    let k = i % 8;
    if k == 0 {
        knight_jump(d)
    } else {
        (k * direction(d).0, k * direction(d).1)
    }
}

/// The square slot `i` stands for when the focus is on `focus`, if it is on
/// the board. Squares count rank by rank, eight files to a rank.
pub open spec fn slot_square(focus: int, i: int) -> Option<int> {
    let file = focus % 8 + slot_delta(i).0;
    let rank = focus / 8 + slot_delta(i).1;
    if 0 <= file < 8 && 0 <= rank < 8 {
        Some(8 * rank + file)
    } else {
        None
    }
}

/// A change of file and rank as one byte to add to a square written with
/// sixteen files to the rank.
pub open spec fn wide_offset(delta: (int, int)) -> int {
    (16 * delta.1 + delta.0) % 256
}

fn slot_offset(i: usize) -> (r: u8)
    requires
        i < 64,
    ensures
        r == wide_offset(slot_delta(i as int)),
{
    let d = i / 8;
    let k = (i % 8) as u32;
    if k == 0 {
        if d == 0 {
            0x1F
        } else if d == 1 {
            0x21
        } else if d == 2 {
            0x12
        } else if d == 3 {
            0xF2
        } else if d == 4 {
            0xE1
        } else if d == 5 {
            0xDF
        } else if d == 6 {
            0xEE
        } else {
            0x0E
        }
    } else {
        let step: u32 = if d == 0 {
            0x10
        } else if d == 1 {
            0x11
        } else if d == 2 {
            0x01
        } else if d == 3 {
            0xF1
        } else if d == 4 {
            0xF0
        } else if d == 5 {
            0xEF
        } else if d == 6 {
            0xFF
        } else {
            0x0F
        };
        assert(k * step <= 7 * 255) by (nonlinear_arith)
            requires
                k <= 7,
                step <= 255,
        ;
        let wide = k * step;
        proof {
            let dir = direction(d as int);
            assert(wide == k * 256 * (if step > 0x80 { 1int } else { 0int }) + k * (16 * dir.1 + dir.0)) by (nonlinear_arith)
                requires
                    wide == k * step,
                    step == 256 * (if step > 0x80 { 1int } else { 0int }) + 16 * dir.1 + dir.0,
            ;
            assert(k * (16 * dir.1 + dir.0) == 16 * (k * dir.1) + k * dir.0) by (nonlinear_arith);
            lemma_mod_shift(
                16 * (k * dir.1) + k * dir.0,
                k * (if step > 0x80 { 1int } else { 0int }),
            );
        }
        (wide % 256) as u8
    }
}

/// Adding a multiple of 256 does not change the remainder by 256.
proof fn lemma_mod_shift(a: int, n: int)
    ensures
        (a + 256 * n) % 256 == a % 256,
{
    vstd::arithmetic::div_mod::lemma_mod_multiples_vanish(n, a, 256);
}

/// What the bits of a wide square say: it is on the board when neither its
/// file nibble nor its rank nibble reaches 8, and then folding the ranks
/// back to eight files gives the square.
proof fn lemma_wide_square(c: u8)
    by (bit_vector)
    ensures
        (c & 0x88 == 0) <==> (c % 16 < 8 && c < 128),
        c & 0x88 == 0 ==> (c & 7) | ((c >> 1) & 0x38) == (c % 16) + 8 * (c / 16),
        (c & 7) | ((c >> 1) & 0x38) < 64,
{
}

proof fn lemma_wide_focus(focus: u8)
    by (bit_vector)
    requires
        focus < 64,
    ensures
        focus & 0x38 == 8 * (focus / 8),
{
}

/// A wide square reached from the focus has both nibbles below 8 exactly
/// when the square is on the board, and then they are its file and rank.
proof fn lemma_wide_coordinate(focus: int, delta: (int, int), coord: int)
    requires
        0 <= focus < 64,
        -7 <= delta.0 <= 7,
        -7 <= delta.1 <= 7,
        0 <= coord < 256,
        coord == wide_offset(delta) + 16 * (focus / 8) + focus % 8 || coord == wide_offset(delta)
            + 16 * (focus / 8) + focus % 8 - 256,
    ensures
        (coord % 16 < 8 && coord < 128) <==> (0 <= focus % 8 + delta.0 < 8 && 0 <= focus / 8
            + delta.1 < 8),
        0 <= focus % 8 + delta.0 < 8 && 0 <= focus / 8 + delta.1 < 8 ==> coord % 16 + 8 * (coord
            / 16) == 8 * (focus / 8 + delta.1) + focus % 8 + delta.0,
{
    let file = focus % 8 + delta.0;
    let rank = focus / 8 + delta.1;
    let total = 16 * rank + file;
    let off = wide_offset(delta);
    assert(off == 16 * delta.1 + delta.0 || off == 16 * delta.1 + delta.0 + 256);
    assert(coord == total || coord == total + 256 || coord == total - 256);
    if 0 <= file {
        if 0 <= rank < 16 {
            assert(coord == total);
            assert(coord % 16 == file && coord / 16 == rank);
        } else {
            assert(coord == total + 256);
            assert(coord % 16 == file && coord / 16 == rank + 16);
        }
    } else {
        if 1 <= rank {
            assert(coord == total);
            assert(coord % 16 == file + 16 && coord / 16 == rank - 1);
        } else {
            assert(coord == total + 256);
            assert(coord % 16 == file + 16 && coord / 16 == rank + 15);
        }
    }
}

/// The squares around `focus` (a square below 64), slot by slot: for every
/// slot that lies on the board, the square it stands for and a set bit in
/// the mask; a clear bit for every slot that lies off the board.
pub fn ray_permuation(focus: u8) -> (r: ([u8; 64], u64))
    requires
        focus < 64,
    ensures
        forall|i: u64|
            i < 64 ==> #[trigger] bit(r.1, i) == (slot_square(focus as int, i as int) is Some),
        forall|i: int|
            0 <= i < 64 && slot_square(focus as int, i) is Some ==> #[trigger] r.0@[i]
                == slot_square(focus as int, i)->0,
        forall|i: int| 0 <= i < 64 ==> #[trigger] r.0@[i] < 64,
{
    proof {
        lemma_wide_focus(focus);
        lemma_mask_bits(0, 0);
    }
    let wide_focus = focus + (focus & 0x38);
    let mut perm = [0u8; 64];
    let mut mask: u64 = 0;
    let mut i: usize = 0;
    while i < 64
        invariant
            i <= 64,
            focus < 64,
            wide_focus == 16 * (focus / 8) + focus % 8,
            forall|j: u64|
                j < 64 ==> #[trigger] bit(mask, j) == (j < i && slot_square(focus as int, j as int) is Some),
            forall|k: int|
                0 <= k < i && slot_square(focus as int, k) is Some ==> #[trigger] perm@[k]
                    == slot_square(focus as int, k)->0,
            forall|k: int| 0 <= k < 64 ==> #[trigger] perm@[k] < 64,
        decreases 64 - i,
    {
        let coord = slot_offset(i).wrapping_add(wide_focus);
        proof {
            lemma_wide_square(coord);
            lemma_slot_delta_range(i as int);
            lemma_wide_coordinate(focus as int, slot_delta(i as int), coord as int);
        }
        perm[i] = (coord & 7) | ((coord >> 1) & 0x38);
        if coord & 0x88 == 0 {
            proof {
                lemma_mask_bits(mask, i as u64);
            }
            mask = mask | (1u64 << (i as u64));
        }
        i += 1;
    }
    (perm, mask)
}

/// No slot lies more than seven files or ranks from the focus square.
proof fn lemma_slot_delta_range(i: int)
    requires
        0 <= i < 64,
    ensures
        -7 <= slot_delta(i).0 <= 7,
        -7 <= slot_delta(i).1 <= 7,
{
    let d = i / 8;
    let k = i % 8;
    let dir = direction(d);
    assert(-7 <= k * dir.0 <= 7 && -7 <= k * dir.1 <= 7) by (nonlinear_arith)
        requires
            0 <= k <= 7,
            -1 <= dir.0 <= 1,
            -1 <= dir.1 <= 1,
    ;
}

/// The bit that stands for a piece code in a ray vector: white pawn 1, black
/// pawn 2, knight 4, bishop 8, rook 16, queen 32, king 64, nothing for the
/// codes past the twelve pieces. Only the low four bits of the code count.
pub open spec fn piece_bit(code: u8) -> u8 {
    let c = code & 15;
    if c == 0 {
        1
    } else if c == 1 {
        2
    } else if c < 4 {
        4
    } else if c < 6 {
        8
    } else if c < 8 {
        16
    } else if c < 10 {
        32
    } else if c < 12 {
        64
    } else {
        0
    }
}

fn piece_bit_of(code: u8) -> (r: u8)
    ensures
        r == piece_bit(code),
{
    let c = code & 15;
    if c == 0 {
        1
    } else if c == 1 {
        2
    } else if c < 4 {
        4
    } else if c < 6 {
        8
    } else if c < 8 {
        16
    } else if c < 10 {
        32
    } else if c < 12 {
        64
    } else {
        0
    }
}

/// The ray vector of a board seen from a focus square. `perm` names, for
/// each slot, the square it stands for (its low six bits count) and `valid`
/// the slots that are on the board; `board` holds a piece code per square.
/// Returned are the piece code in each slot and the ray vector: the piece
/// bit of that code in valid slots whose code has its top bit clear, zero
/// elsewhere.
pub fn board_to_rays(perm: &[u8; 64], valid: u64, board: &[u8; 64]) -> (r: ([u8; 64], [u8; 64]))
    ensures
        forall|i: int| 0 <= i < 64 ==> #[trigger] r.0@[i] == board@[(perm@[i] & 63) as int],
        forall|i: int|
            0 <= i < 64 ==> #[trigger] r.1@[i] == (if bit(valid, i as u64) && r.0@[i] & 0x80 == 0 {
                piece_bit(r.0@[i])
            } else {
                0
            }),
{
    let mut pboard = [0u8; 64];
    let mut rays = [0u8; 64];
    let mut i: usize = 0;
    while i < 64
        invariant
            i <= 64,
            forall|k: int| 0 <= k < i ==> #[trigger] pboard@[k] == board@[(perm@[k] & 63) as int],
            forall|k: int|
                0 <= k < i ==> #[trigger] rays@[k] == (if bit(valid, k as u64) && pboard@[k] & 0x80
                    == 0 {
                    piece_bit(pboard@[k])
                } else {
                    0
                }),
        decreases 64 - i,
    {
        let p = perm[i];
        assert(p & 63 < 64) by (bit_vector);
        let code = board[(p & 63) as usize];
        pboard[i] = code;
        rays[i] = if (valid >> (i as u64)) & 1 == 1 && code & 0x80 == 0 {
            piece_bit_of(code)
        } else {
            0
        };
        i += 1;
    }
    (pboard, rays)
}

/// The pieces that attack the focus square from slot `i`: the knight from a
/// knight slot; from the first step of a ray the king, the rook or bishop
/// that runs along it, the queen, and the pawn that captures in that
/// direction; from further out the sliders of the ray.
pub open spec fn attacker_mask(i: int) -> u8 {
    let d = i / 8;
    let k = i % 8;
    if k == 0 {
        0b0000_0100
    } else if d % 2 == 0 {
        if k == 1 {
            0b0111_0000
        } else {
            0b0011_0000
        }
    } else if k == 1 {
        if d == 1 || d == 7 {
            0b0110_1010
        } else {
            0b0110_1001
        }
    } else {
        0b0010_1000
    }
}

fn attacker_mask_of(i: usize) -> (r: u8)
    requires
        i < 64,
    ensures
        r == attacker_mask(i as int),
{
    let d = i / 8;
    let k = i % 8;
    if k == 0 {
        0b0000_0100
    } else if d % 2 == 0 {
        if k == 1 {
            0b0111_0000
        } else {
            0b0011_0000
        }
    } else if k == 1 {
        if d == 1 || d == 7 {
            0b0110_1010
        } else {
            0b0110_1001
        }
    } else {
        0b0010_1000
    }
}

/// The attackers that count against a victim of the given type.
pub open spec fn victim_filter(victim: PieceType) -> u8 {
    match victim {
        PieceType::Pawn => 0b0111_1111,
        PieceType::Knight => 0b0111_1111,
        PieceType::Bishop => 0b0111_1100,
        PieceType::Rook => 0b0111_1111,
        PieceType::Queen => 0b0010_0100,
        PieceType::King => 0b0011_1100,
        PieceType::Empty => 0,
    }
}

fn victim_filter_of(victim: PieceType) -> (r: u8)
    ensures
        r == victim_filter(victim),
{
    match victim {
        PieceType::Pawn => 0b0111_1111,
        PieceType::Knight => 0b0111_1111,
        PieceType::Bishop => 0b0111_1100,
        PieceType::Rook => 0b0111_1111,
        PieceType::Queen => 0b0010_0100,
        PieceType::King => 0b0011_1100,
        PieceType::Empty => 0,
    }
}

/// The slots from which a piece attacks the focus square, as far as the
/// attack counts against a victim of this type.
pub fn attackers_along_rays(victim: Piece, rays: &[u8; 64]) -> (r: u64)
    requires
        victim.piece_type != PieceType::Empty,
    ensures
        forall|i: u64|
            i < 64 ==> #[trigger] bit(r, i) == (rays@[i as int] & attacker_mask(i as int)
                & victim_filter(victim.piece_type) != 0),
{
    let filter = victim_filter_of(victim.piece_type());
    let mut mask: u64 = 0;
    let mut i: usize = 0;
    proof {
        lemma_mask_bits(0, 0);
    }
    while i < 64
        invariant
            i <= 64,
            filter == victim_filter(victim.piece_type),
            forall|j: u64|
                j < 64 ==> #[trigger] bit(mask, j) == (j < i && rays@[j as int] & attacker_mask(
                    j as int,
                ) & filter != 0),
        decreases 64 - i,
    {
        if rays[i] & attacker_mask_of(i) & filter != 0 {
            proof {
                lemma_mask_bits(mask, i as u64);
            }
            mask = mask | (1u64 << (i as u64));
        }
        i += 1;
    }
    mask
}

/// The slots a piece standing on the focus square reaches: both capture
/// steps of a pawn of its colour, the knight slots of a knight, the lines of
/// a slider, the first steps of a king.
pub open spec fn reach_of(attacker: Piece) -> u64 {
    match attacker.piece_type {
        PieceType::Pawn => match attacker.color {
            Color::White => 0x0200_0000_0000_0200,
            Color::Black => 0x0000_0200_0200_0000,
        },
        PieceType::Knight => 0x0101_0101_0101_0101,
        PieceType::Bishop => 0xFE00_FE00_FE00_FE00,
        PieceType::Rook => 0x00FE_00FE_00FE_00FE,
        PieceType::Queen => 0xFEFE_FEFE_FEFE_FEFE,
        PieceType::King => 0x0202_0202_0202_0202,
        PieceType::Empty => 0,
    }
}

fn reach(attacker: Piece) -> (r: u64)
    ensures
        r == reach_of(attacker),
{
    match attacker.piece_type {
        PieceType::Pawn => match attacker.color {
            Color::White => 0x0200_0000_0000_0200,
            Color::Black => 0x0000_0200_0200_0000,
        },
        PieceType::Knight => 0x0101_0101_0101_0101,
        PieceType::Bishop => 0xFE00_FE00_FE00_FE00,
        PieceType::Rook => 0x00FE_00FE_00FE_00FE,
        PieceType::Queen => 0xFEFE_FEFE_FEFE_FEFE,
        PieceType::King => 0x0202_0202_0202_0202,
        PieceType::Empty => 0,
    }
}

/// The pieces that count as attacked by a piece of the given type.
pub open spec fn target_filter(attacker: PieceType) -> u8 {
    match attacker {
        PieceType::Pawn => 0b0001_0111,
        PieceType::Knight => 0b0111_1111,
        PieceType::Bishop => 0b0101_1111,
        PieceType::Rook => 0b0101_1111,
        PieceType::Queen => 0b0111_1111,
        PieceType::King => 0b0001_1111,
        PieceType::Empty => 0,
    }
}

fn target_filter_of(attacker: PieceType) -> (r: u8)
    ensures
        r == target_filter(attacker),
{
    match attacker {
        PieceType::Pawn => 0b0001_0111,
        PieceType::Knight => 0b0111_1111,
        PieceType::Bishop => 0b0101_1111,
        PieceType::Rook => 0b0101_1111,
        PieceType::Queen => 0b0111_1111,
        PieceType::King => 0b0001_1111,
        PieceType::Empty => 0,
    }
}

/// The slots in which a piece stands that the attacker, placed on the focus
/// square, attacks, as far as the attack counts for an attacker of its type.
pub fn attacking_along_rays(attacker: Piece, rays: &[u8; 64]) -> (r: u64)
    requires
        attacker.piece_type != PieceType::Empty,
    ensures
        forall|i: u64|
            i < 64 ==> #[trigger] bit(r, i) == (bit(reach_of(attacker), i) && rays@[i as int]
                & target_filter(attacker.piece_type) != 0),
{
    let slots = reach(attacker);
    let filter = target_filter_of(attacker.piece_type());
    let mut mask: u64 = 0;
    let mut i: usize = 0;
    proof {
        lemma_mask_bits(0, 0);
    }
    while i < 64
        invariant
            i <= 64,
            slots == reach_of(attacker),
            filter == target_filter(attacker.piece_type),
            forall|j: u64|
                j < 64 ==> #[trigger] bit(mask, j) == (j < i && bit(slots, j) && rays@[j as int]
                    & filter != 0),
        decreases 64 - i,
    {
        if (slots >> (i as u64)) & 1 == 1 && rays[i] & filter != 0 {
            proof {
                lemma_mask_bits(mask, i as u64);
            }
            mask = mask | (1u64 << (i as u64));
        }
        i += 1;
    }
    mask
}

/// The sliders of a ray: rook and queen on the straight lines, bishop and
/// queen on the diagonals.
pub open spec fn slider_mask(i: int) -> u8 {
    if (i / 8) % 2 == 0 {
        0b0011_0000
    } else {
        0b0010_1000
    }
}

/// The slots on a ray, knight slots left out, in which a slider of that ray
/// stands.
pub fn sliders_along_rays(rays: &[u8; 64]) -> (r: u64)
    ensures
        forall|i: u64|
            i < 64 ==> #[trigger] bit(r, i) == (i % 8 != 0 && rays@[i as int] & slider_mask(
                i as int,
            ) != 0),
{
    let mut mask: u64 = 0;
    let mut i: usize = 0;
    proof {
        lemma_mask_bits(0, 0);
    }
    while i < 64
        invariant
            i <= 64,
            forall|j: u64|
                j < 64 ==> #[trigger] bit(mask, j) == (j < i && j % 8 != 0 && rays@[j as int]
                    & slider_mask(j as int) != 0),
        decreases 64 - i,
    {
        let sliders: u8 = if (i / 8) % 2 == 0 {
            0b0011_0000
        } else {
            0b0010_1000
        };
        if i % 8 != 0 && rays[i] & sliders != 0 {
            proof {
                lemma_mask_bits(mask, i as u64);
            }
            mask = mask | (1u64 << (i as u64));
        }
        i += 1;
    }
    mask
}

/// The ray vector seen from the other side of the board: every direction
/// changes places with the opposite one.
pub fn flip_rays(x: &[u8; 64]) -> (r: [u8; 64])
    ensures
        forall|i: int| 0 <= i < 64 ==> #[trigger] r@[i] == x@[(i + 32) % 64],
{
    let mut out = [0u8; 64];
    let mut i: usize = 0;
    while i < 64
        invariant
            i <= 64,
            forall|k: int| 0 <= k < i ==> #[trigger] out@[k] == x@[(k + 32) % 64],
        decreases 64 - i,
    {
        out[i] = x[(i + 32) % 64];
        i += 1;
    }
    out
}

} // verus!
