//! Ordering of similarity scores given as IEEE-754 single-precision bit patterns.
use vstd::prelude::*;

verus! {

/// Bit mask of the sign of a single-precision value.
pub const SIGN_MASK: u32 = 0x8000_0000;

/// Bit mask of the exponent field of a single-precision value.
pub const EXPONENT_MASK: u32 = 0x7f80_0000;

/// Bit mask of the fraction field of a single-precision value.
pub const FRACTION_MASK: u32 = 0x007f_ffff;

/// Whether the bit pattern encodes a NaN: all exponent bits set, fraction non-zero.
pub open spec fn is_nan(bits: u32) -> bool {
    &&& bits & EXPONENT_MASK == EXPONENT_MASK
    &&& bits & FRACTION_MASK != 0
}

/// The rank of a score in the order that the index uses.
///
/// For every non-NaN value the rank is monotone in the real value it encodes
/// (IEEE-754 orders same-signed values by their magnitude bits), and `+0.0`
/// and `-0.0` share rank 0 as they compare equal. Every NaN gets one rank
/// below all of them, so a NaN score loses to every real score.
pub open spec fn score_rank(bits: u32) -> int {
    if is_nan(bits) {
        -0x8000_0000
    } else if bits & SIGN_MASK == 0 {
        bits as int
    } else {
        -((bits & !SIGN_MASK) as int)
    }
}

/// The rank of a score, computed.
pub fn rank_of(bits: u32) -> (r: i64)
    ensures
        r == score_rank(bits),
{
    if bits & EXPONENT_MASK == EXPONENT_MASK && bits & FRACTION_MASK != 0 {
        -0x8000_0000
    } else if bits & SIGN_MASK == 0 {
        bits as i64
    } else {
        -((bits & !SIGN_MASK) as i64)
    }
}

/// Whether `score` is at or above `floor`, as IEEE-754 `>=` decides it: false
/// whenever either side is NaN.
pub open spec fn at_or_above(score: u32, floor: u32) -> bool {
    !is_nan(score) && !is_nan(floor) && score_rank(score) >= score_rank(floor)
}

/// Tests [`at_or_above`].
pub fn is_at_or_above(score: u32, floor: u32) -> (r: bool)
    ensures
        r == at_or_above(score, floor),
{
    let s = rank_of(score);
    let f = rank_of(floor);
    let nan_rank: i64 = -0x8000_0000;
    proof {
        lemma_rank_bounds(score);
        lemma_rank_bounds(floor);
    }
    s != nan_rank && f != nan_rank && s >= f
}

/// Ranks of real values lie in `[-0x7fff_ffff, 0x7fff_ffff]`; only NaN ranks lower.
pub proof fn lemma_rank_bounds(bits: u32)
    ensures
        is_nan(bits) <==> score_rank(bits) == -0x8000_0000,
        !is_nan(bits) ==> -0x7fff_ffff <= score_rank(bits) <= 0x7fff_ffff,
{
    assert(bits & SIGN_MASK == 0 ==> bits <= 0x7fff_ffff) by (bit_vector);
    assert(bits & !SIGN_MASK <= 0x7fff_ffff) by (bit_vector);
}

/// A candidate of a top-k search: the score of the entry at `index`.
#[derive(Clone, Copy, Debug, PartialEq, Eq)]
pub struct ScoredIndex {
    /// The score, as a single-precision bit pattern.
    pub score: u32,
    /// The position of the scored entry in the store.
    pub index: usize,
}

impl ScoredIndex {
    /// Three-way comparison of the scores, with NaN below every real score and
    /// all NaNs equal to each other.
    pub fn cmp(&self, other: &Self) -> (r: core::cmp::Ordering)
        ensures
            (r == core::cmp::Ordering::Less) == (score_rank(self.score) < score_rank(other.score)),
            (r == core::cmp::Ordering::Equal) == (score_rank(self.score) == score_rank(other.score)),
            (r == core::cmp::Ordering::Greater) == (score_rank(self.score) > score_rank(other.score)),
    {
        let a = rank_of(self.score);
        let b = rank_of(other.score);
        if a < b {
            core::cmp::Ordering::Less
        } else if a > b {
            core::cmp::Ordering::Greater
        } else {
            core::cmp::Ordering::Equal
        }
    }
}

} // verus!
