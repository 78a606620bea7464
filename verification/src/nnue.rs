//! The integer side of the network evaluation and the ray scans that feed
//! its threat features.

use vstd::prelude::*;

pub mod forward;
pub mod rays;

verus! {

/// Width of the feature transformer: the length of one perspective of an
/// accumulator.
pub const L1_SIZE: usize = 768;

/// Width of the second layer.
pub const L2_SIZE: usize = 16;

/// Width of the third layer.
pub const L3_SIZE: usize = 32;

/// Upper end of the clipped activation of the feature transformer.
pub const FT_QUANT: i32 = 255;

/// How far the product of the two halves is shifted down.
pub const FT_SHIFT: u32 = 9;

/// The number of four-byte chunks in the activated layer, which must not
/// exceed 256 for a chunk's index to fit a byte.
pub const L1_CHUNKS: usize = 192;

/// Bytes of first-layer weights per bucket: for every chunk and every
/// second-layer unit, four.
pub const L1_WEIGHTS: usize = 12288;

/// The sizes fit together and fit the vector units they are laid out for:
/// the first layer divides into blocks of eight vectors of up to thirty-two
/// 16-bit lanes, the later layers into vectors of up to sixteen 32-bit
/// lanes, a chunk index fits a byte, and a move list into whole groups of
/// eight entries.
pub proof fn lemma_configuration()
    ensures
        L1_SIZE % 256 == 0,
        L2_SIZE % 16 == 0,
        L3_SIZE % 16 == 0,
        L1_CHUNKS * 4 == L1_SIZE,
        L1_CHUNKS <= 256,
        L1_WEIGHTS == L1_CHUNKS * L2_SIZE * 4,
        0 < FT_SHIFT < 16,
        FT_QUANT * 128 <= i16::MAX,
        crate::types::MAX_MOVES % 8 == 0,
{
}

/// The piece-square accumulator: for each perspective, white's and
/// black's, `L1_SIZE` values.
pub struct PstAccumulator {
    pub values: [[i16; L1_SIZE]; 2],
}

/// The threat accumulator, of the same shape.
pub struct ThreatAccumulator {
    pub values: [[i16; L1_SIZE]; 2],
}

} // verus!
