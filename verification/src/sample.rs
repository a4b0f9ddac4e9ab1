//! Fixed-point samples.
//!
//! A sample is a fraction of [`ONE`], held in a `u64`. A freshly drawn sample
//! carries 53 random bits and is a multiple of four, so the mean of four
//! fresh samples (or of fresh samples and [`HALF`]) is again a whole number
//! of units.

use vstd::prelude::*;

verus! {

/// The sample that stands for 1.0: two to the power 55.
pub const ONE: u64 = 0x80_0000_0000_0000;

/// The sample that stands for 0.5. Reads outside a field yield it.
pub const HALF: u64 = 0x40_0000_0000_0000;

/// The sample that a random word stands for: its upper 53 bits, as a
/// fraction of two to the power 53.
pub open spec fn sample_of(word: u64) -> u64 {
    ((word / 2048) * 4) as u64
}

/// Whether `value` can be the result of a draw: below [`ONE`] and a multiple
/// of four units.
pub open spec fn is_fresh(value: u64) -> bool {
    value < ONE && value % 4 == 0
}

/// The mean of four samples, rounded down to a whole unit.
pub open spec fn mean4(a: u64, b: u64, c: u64, d: u64) -> u64 {
    ((a + b + c + d) / 4) as u64
}

/// The luminance of a sample before it is narrowed to a byte: the sample
/// times 255, rounded down to a whole number.
pub open spec fn luma(value: u64) -> int {
    value * 255 / (ONE as int)
}

/// The byte that a sample is quantized to: the low eight bits of its
/// luminance, which is all of it for a sample up to [`ONE`].
pub open spec fn brightness_of(value: u64) -> u8 {
    (luma(value) % 256) as u8
}

/// Turns a random word into a sample in `[0, 1)`.
pub fn sample_from_word(word: u64) -> (value: u64)
    ensures
        value == sample_of(word),
        is_fresh(value),
{
    (word / 2048) * 4
}

/// Computes the mean of four samples.
pub fn mean_of_four(a: u64, b: u64, c: u64, d: u64) -> (mean: u64)
    ensures
        mean == mean4(a, b, c, d),
{
    let sum: u128 = a as u128 + b as u128 + c as u128 + d as u128;
    (sum / 4) as u64
}

/// Quantizes a sample to eight bits of luminance.
///
/// The sample is multiplied by 255 and the fraction is cut off, never
/// rounded. A sample above [`ONE`] has no luminance of its own: the
/// conversion narrows, it does not saturate, and keeps the low eight bits.
pub fn brightness(value: u64) -> (byte: u8)
    ensures
        byte == brightness_of(value),
        value <= ONE ==> byte == luma(value),
{
    let scaled: u128 = value as u128 * 255 / (ONE as u128);
    (scaled % 256) as u8
}

} // verus!
