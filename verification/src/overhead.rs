//! Space-overhead accounting: how many bits a structure uses beyond the raw
//! bits of the vector it indexes, as a percentage of the raw bit count.

use vstd::prelude::*;

verus! {

/// An exact non-negative rational number, kept as numerator and denominator.
///
/// Latency and overhead figures are ratios of machine integers; keeping them
/// exact avoids committing the library to any rounding behaviour.
#[derive(Clone, Copy, Debug, PartialEq, Eq, Structural)]
pub struct Ratio {
    pub num: u128,
    pub den: u128,
}

impl Ratio {
    /// A ratio is well formed when its denominator is positive.
    pub open spec fn wf(self) -> bool {
        self.den >= 1
    }

    /// Two ratios denote the same number exactly when cross-multiplication agrees.
    pub open spec fn same_value(self, other: Ratio) -> bool {
        self.num * other.den == other.num * self.den
    }
}

/// Numerator of the overhead percentage: the bits used beyond the raw
/// `bit_length` bits, scaled by one hundred. The denominator is `bit_length`.
pub open spec fn overhead_num(footprint_bytes: int, bit_length: int) -> int {
    (footprint_bytes * 8 - bit_length) * 100
}

/// Space overhead of a structure of `footprint_bytes` bytes built over
/// `bit_length` raw bits: bits used beyond the raw bits, as a percentage of
/// the raw bit count.
pub fn overhead(footprint_bytes: usize, bit_length: usize) -> (r: Ratio)
    requires
        bit_length >= 1,
        footprint_bytes * 8 >= bit_length,
    ensures
        r.num == overhead_num(footprint_bytes as int, bit_length as int),
        r.den == bit_length,
        r.wf(),
{
    let bits: u128 = (footprint_bytes as u128) * 8;
    Ratio { num: (bits - (bit_length as u128)) * 100, den: bit_length as u128 }
}

/// Overhead with the caller contract checked at run time: `None` exactly when
/// the input is degenerate (an empty vector, or a footprint smaller than the
/// raw bits, which signals a measurement bug rather than a valid result).
pub fn overhead_checked(footprint_bytes: usize, bit_length: usize) -> (r: Option<Ratio>)
    ensures
        r is Some <==> (bit_length >= 1 && footprint_bytes * 8 >= bit_length),
        r is Some ==> r->Some_0 == (Ratio {
            num: overhead_num(footprint_bytes as int, bit_length as int) as u128,
            den: bit_length as u128,
        }),
        r is Some ==> r->Some_0.wf(),
{
    if bit_length >= 1 && (footprint_bytes as u128) * 8 >= bit_length as u128 {
        Some(overhead(footprint_bytes, bit_length))
    } else {
        None
    }
}

/// Overhead is never negative for a structure that stores at least the raw
/// bits of the vector it indexes.
pub proof fn lemma_overhead_nonneg(footprint_bytes: int, bit_length: int)
    requires
        bit_length >= 1,
        footprint_bytes * 8 >= bit_length,
    ensures
        overhead_num(footprint_bytes, bit_length) >= 0,
{
}

} // verus!

