//! The capability contracts for structures under test, the query-index
//! mapping, the synthetic bit-vector generator and the space-cost sweep.

use vstd::prelude::*;
use vstd::arithmetic::power2::{pow2, lemma2_to64};
use vstd::bits::lemma_u128_shr_is_div;
use crate::bits::{count_ones_spec, BitVector};
use crate::overhead::{overhead_checked, Ratio};
use crate::rng::{rng_next_u64, rng_ratio};

verus! {

/// A structure under space measurement. Any library's type takes part by
/// providing these operations through a shim; the harness never inspects the
/// concrete type.
pub trait Measure: Sized {
    /// Build the structure from packed bits and declared bit length.
    fn new(data: Vec<u64>, len: usize) -> Self;

    /// The length in bits of the underlying bit vector; must equal the
    /// length handed to `new`.
    fn len(&self) -> usize;

    /// Total bytes owned by the structure, counted through every owned
    /// buffer; used only for overhead accounting.
    fn mem_size(&self) -> usize;
}

/// A structure whose rank operation is benchmarked.
pub trait BenchRank: Measure {
    /// The rank query under benchmark.
    fn bench_rank(&self, input: usize) -> usize;
}

/// A structure whose select operation is benchmarked.
pub trait BenchSelect: Measure {
    /// The select query under benchmark.
    fn bench_select(&self, input: usize) -> usize;
}

/// What the multiply-shift range map computes: the high 64 bits of
/// `x * range`, a value below `range` whenever `range` is positive.
pub open spec fn range_map_spec(x: u64, range: u64) -> nat {
    (x as nat) * (range as nat) / pow2(64)
}

/// The result of one alternating draw: either an index into the first
/// half's ones, or one into the second half's ones offset past the first,
/// in both cases through the multiply-shift range map.
pub open spec fn alternating_draw_shape(r: u64, x: u64, first_half: u64, second_half: u64) -> bool {
    r == range_map_spec(x, first_half) || r == first_half + range_map_spec(x, second_half)
}

/// The multiply-shift range map: the high 64 bits of `x * range`. For a
/// full-width draw `x` this lands in `[0, range)` without the bias or the
/// division cost of a modulo reduction.
pub fn range_map(x: u64, range: u64) -> (r: u64)
    ensures
        r == range_map_spec(x, range),
        range > 0 ==> r < range,
        range == 0 ==> r == 0,
{
    proof {
        assert((x as u128) * (range as u128) <= u128::MAX) by (nonlinear_arith)
            requires
                x <= u64::MAX,
                range <= u64::MAX,
        ;
    }
    let p: u128 = (x as u128) * (range as u128);
    proof {
        lemma2_to64();
        lemma_u128_shr_is_div(p, 64);
        if range == 0 {
            assert(p == 0) by (nonlinear_arith)
                requires
                    p == (x as u128) * (range as u128),
                    range == 0,
            ;
            assert(0nat / pow2(64) == 0);
        } else {
            assert((x as u128) * (range as u128) < 0x10000000000000000 * (range as u128))
                by (nonlinear_arith)
                requires
                    range >= 1,
                    (x as u128) < 0x10000000000000000,
            ;
            assert(p as nat / pow2(64) < range) by (nonlinear_arith)
                requires
                    pow2(64) == 0x10000000000000000,
                    p < 0x10000000000000000 * (range as u128),
            ;
        }
    }
    (p >> 64) as u64
}

/// One draw mapped into `[0, range)` by the multiply-shift range map.
pub fn fastrange(rng: &mut rand::rngs::SmallRng, range: u64) -> (r: u64)
    ensures
        exists|x: u64| r == #[trigger] range_map_spec(x, range),
        range > 0 ==> r < range,
        range == 0 ==> r == 0,
{
    let x = rng_next_u64(rng);
    let r = range_map(x, range);
    proof {
        assert(r == range_map_spec(x, range));
    }
    r
}

/// One query index for the skewed access pattern: with even odds an index
/// into the first half's ones, otherwise one into the second half's ones
/// offset past the first. A half without any ones is never drawn from: the
/// draw falls back to the other half, so the index is valid whenever either
/// half holds a one.
pub fn fastrange_non_uniform(rng: &mut rand::rngs::SmallRng, first_half: u64, second_half: u64) -> (r:
    u64)
    requires
        first_half + second_half <= u64::MAX,
    ensures
        first_half + second_half > 0 ==> r < first_half + second_half,
        first_half + second_half == 0 ==> r == 0,
        exists|x: u64| #[trigger] alternating_draw_shape(r, x, first_half, second_half),
{
    let coin = rng_ratio(rng, 1, 2);
    let x = rng_next_u64(rng);
    if (coin || second_half == 0) && first_half > 0 {
        let r = range_map(x, first_half);
        proof {
            assert(alternating_draw_shape(r, x, first_half, second_half));
        }
        r
    } else if second_half > 0 {
        let r = first_half + range_map(x, second_half);
        proof {
            assert(alternating_draw_shape(r, x, first_half, second_half));
        }
        r
    } else {
        proof {
            lemma2_to64();
            assert((x as nat) * (first_half as nat) == 0) by (nonlinear_arith)
                requires
                    first_half == 0,
            ;
            assert(range_map_spec(x, first_half) == 0);
            assert(alternating_draw_shape(0, x, first_half, second_half));
        }
        0
    }
}

/// A label for a value of an arbitrary type. This library forgoes compiler
/// reflection, so the label is a fixed fallback rather than the type's
/// name; every benchmark entry point therefore takes an explicit structure
/// name instead of deriving one here.
pub fn type_of<T>(_v: T) -> (r: &'static str) {
    "structure-under-test"
}

/// Space overhead of one measured structure, or `None` when the reported
/// sizes are degenerate (an empty vector, or fewer bytes than raw bits).
pub fn mem_cost<M: Measure>(benched_struct: M) -> (r: Option<Ratio>)
    ensures
        r is Some ==> r->Some_0.wf(),
{
    let len = benched_struct.len();
    let bytes = benched_struct.mem_size();
    overhead_checked(bytes, len)
}

/// Bits in the first half of a vector of `len` bits: the extra bit of an odd
/// length goes to the first half.
pub open spec fn first_half_len(len: int) -> int {
    len / 2 + len % 2
}

/// How often the generator redraws a first half that came out all zero
/// before giving up.
pub const MAX_GENERATION_ATTEMPTS: usize = 1000;

/// Denominator for uniform densities: a density is given in parts per
/// million.
pub const PPM: u32 = 1_000_000;

/// Denominator for the two skewed per-half densities `d/100` and
/// `d * 99/100`.
pub const PPM_SCALED: u32 = 100_000_000;

/// Append `n` freshly drawn bits, each set with probability `num / den`,
/// and report how many of them are set.
fn extend_half(
    rng: &mut rand::rngs::SmallRng,
    bv: &mut BitVector,
    n: usize,
    num: u32,
    den: u32,
) -> (c: u64)
    requires
        old(bv).wf(),
        old(bv).len + n <= usize::MAX - 64,
        1 <= den,
        num <= den,
    ensures
        final(bv).wf(),
        final(bv).len == old(bv).len + n,
        final(bv)@.take(old(bv).len as int) == old(bv)@,
        c == count_ones_spec(final(bv)@.skip(old(bv).len as int)),
        c <= n,
        num == den ==> c == n,
{
    let ghost base = old(bv).len as int;
    let mut c: u64 = 0;
    let mut i: usize = 0;
    proof {
        assert(bv@.take(base) =~= old(bv)@);
        assert(bv@.skip(base) =~= Seq::<bool>::empty());
    }
    while i < n
        invariant
            bv.wf(),
            base == old(bv).len,
            bv.len == base + i,
            i <= n,
            base + n <= usize::MAX - 64,
            1 <= den,
            num <= den,
            bv@.take(base) == old(bv)@,
            c == count_ones_spec(bv@.skip(base)),
            c <= i,
            num == den ==> c == i,
        decreases n - i,
    {
        let ghost before = bv@;
        let b = rng_ratio(rng, num, den);
        bv.push_bit(b);
        if b {
            c = c + 1;
        }
        i = i + 1;
        proof {
            assert(bv@.take(base) =~= before.take(base));
            assert(bv@.skip(base) =~= before.skip(base).push(b));
            assert(bv@.skip(base).drop_last() =~= before.skip(base));
        }
    }
    c
}

/// A fresh vector of `n` drawn bits and its one-count.
fn generate_half(rng: &mut rand::rngs::SmallRng, n: usize, num: u32, den: u32) -> (r: (
    BitVector,
    u64,
))
    requires
        n <= usize::MAX - 64,
        1 <= den,
        num <= den,
    ensures
        r.0.wf(),
        r.0.len == n,
        r.1 == count_ones_spec(r.0@),
        r.1 <= n,
        num == den ==> r.1 == n,
{
    let mut bv = BitVector::new();
    let c = extend_half(rng, &mut bv, n, num, den);
    proof {
        assert(bv@.skip(0) =~= bv@);
    }
    (bv, c)
}

/// Generate one synthetic bit vector of `len` bits.
///
/// With `uniform` every bit is set with probability `density_ppm` parts per
/// million; otherwise the first half (the longer half, for odd lengths) gets
/// one hundredth of that density and the second half ninety-nine
/// hundredths, and the first half is redrawn until it holds at least one
/// set bit. The result carries the one-counts of the two halves beside the
/// packed vector.
///
/// `None` comes only from the redraw cap: the first half stayed all zero
/// through every attempt, which for any density this harness is meant for
/// signals a caller contract violation rather than bad luck.
pub fn create_bitvec(
    rng: &mut rand::rngs::SmallRng,
    len: u64,
    density_ppm: u32,
    uniform: bool,
) -> (r: Option<(u64, u64, BitVector)>)
    requires
        1 <= density_ppm <= PPM,
        1 <= len,
        len <= usize::MAX as u64 - 64,
    ensures
        r is Some ==> r->Some_0.2.wf(),
        r is Some ==> r->Some_0.2.len == len,
        r is Some ==> r->Some_0.0 == count_ones_spec(
            r->Some_0.2@.take(first_half_len(len as int)),
        ),
        r is Some ==> r->Some_0.1 == count_ones_spec(
            r->Some_0.2@.skip(first_half_len(len as int)),
        ),
        r is Some ==> r->Some_0.0 >= 1,
        uniform && density_ppm == PPM ==> r is Some,
{
    let len_us = len as usize;
    let len1 = len_us / 2 + len_us % 2;
    let len2 = len_us / 2;
    proof {
        assert(len1 >= 1);
    }
    let (num0, den0) = if uniform {
        (density_ppm, PPM)
    } else {
        (density_ppm, PPM_SCALED)
    };
    let (num1, den1) = if uniform {
        (density_ppm, PPM)
    } else {
        (density_ppm * 99, PPM_SCALED)
    };
    let mut first = generate_half(rng, len1, num0, den0);
    let mut attempts: usize = 0;
    while first.1 == 0 && attempts < MAX_GENERATION_ATTEMPTS
        invariant
            first.0.wf(),
            first.0.len == len1,
            first.1 == count_ones_spec(first.0@),
            len1 <= usize::MAX - 64,
            1 <= den0,
            num0 <= den0,
            num0 == den0 ==> first.1 == len1,
        decreases MAX_GENERATION_ATTEMPTS - attempts,
    {
        first = generate_half(rng, len1, num0, den0);
        attempts = attempts + 1;
    }
    if first.1 == 0 {
        proof {
            if uniform && density_ppm == PPM {
                assert(first.1 == len1);
            }
        }
        return None;
    }
    let c1 = first.1;
    let mut bv = first.0;
    let c2 = extend_half(rng, &mut bv, len2, num1, den1);
    proof {
        assert(len1 == first_half_len(len as int));
        assert(bv@.take(len1 as int) == bv@.take(first_half_len(len as int)));
    }
    Some((c1, c2, bv))
}

/// One row of the space-cost sweep.
pub struct MemCostRecord {
    pub len: u64,
    pub density_ppm: u32,
    pub overhead: Option<Ratio>,
}

/// The overhead figure of one sweep row, when present, is a well-formed
/// rational.
pub open spec fn sweep_overhead_wf(rec: MemCostRecord) -> bool {
    rec.overhead is Some ==> rec.overhead->Some_0.wf()
}

/// Row `k` of a sweep in grid-iteration order belongs to the length
/// `k / densities.len()` and the density `k % densities.len()`.
pub open spec fn grid_point_ok(len: u64, density_ppm: u32, k: int, lens: Seq<u64>, densities: Seq<
    u32,
>) -> bool {
    &&& densities.len() >= 1
    &&& 0 <= k / (densities.len() as int) < lens.len()
    &&& len == lens[k / (densities.len() as int)]
    &&& density_ppm == densities[k % (densities.len() as int)]
}

/// Space-overhead sweep over the grid `lens x densities_ppm`, one record per
/// grid point in grid-iteration order. A record's overhead is `None` when
/// generation or the structure's size reporting failed for that point.
pub fn mem_cost_grid<M: Measure>(
    rng: &mut rand::rngs::SmallRng,
    lens: &Vec<u64>,
    densities_ppm: &Vec<u32>,
    uniform: bool,
) -> (r: Vec<MemCostRecord>)
    requires
        forall|i: int| 0 <= i < lens@.len() ==> 1 <= #[trigger] lens@[i] <= usize::MAX as u64 - 64,
        forall|i: int| 0 <= i < densities_ppm@.len() ==> 1 <= #[trigger] densities_ppm@[i] <= PPM,
    ensures
        r@.len() == lens@.len() * densities_ppm@.len(),
        forall|k: int|
            0 <= k < r@.len() ==> #[trigger] grid_point_ok(
                r@[k].len,
                r@[k].density_ppm,
                k,
                lens@,
                densities_ppm@,
            ),
        forall|k: int| 0 <= k < r@.len() ==> #[trigger] sweep_overhead_wf(r@[k]),
{
    let dlen = densities_ppm.len();
    let mut r: Vec<MemCostRecord> = Vec::new();
    let mut i: usize = 0;
    while i < lens.len()
        invariant
            i <= lens@.len(),
            dlen == densities_ppm@.len(),
            r@.len() == i * dlen,
            forall|i2: int|
                0 <= i2 < lens@.len() ==> 1 <= #[trigger] lens@[i2] <= usize::MAX as u64 - 64,
            forall|i2: int|
                0 <= i2 < densities_ppm@.len() ==> 1 <= #[trigger] densities_ppm@[i2] <= PPM,
            forall|k: int|
                0 <= k < r@.len() ==> #[trigger] grid_point_ok(
                    r@[k].len,
                    r@[k].density_ppm,
                    k,
                    lens@,
                    densities_ppm@,
                ),
            forall|k: int| 0 <= k < r@.len() ==> #[trigger] sweep_overhead_wf(r@[k]),
        decreases lens@.len() - i,
    {
        let mut j: usize = 0;
        while j < dlen
            invariant
                i < lens@.len(),
                j <= dlen,
                dlen == densities_ppm@.len(),
                r@.len() == i * dlen + j,
                forall|i2: int|
                    0 <= i2 < lens@.len() ==> 1 <= #[trigger] lens@[i2] <= usize::MAX as u64 - 64,
                forall|i2: int|
                    0 <= i2 < densities_ppm@.len() ==> 1 <= #[trigger] densities_ppm@[i2] <= PPM,
                forall|k: int|
                    0 <= k < r@.len() ==> #[trigger] grid_point_ok(
                        r@[k].len,
                        r@[k].density_ppm,
                        k,
                        lens@,
                        densities_ppm@,
                    ),
                forall|k: int| 0 <= k < r@.len() ==> #[trigger] sweep_overhead_wf(r@[k]),
            decreases dlen - j,
        {
            let len = lens[i];
            let density_ppm = densities_ppm[j];
            let overhead = match create_bitvec(rng, len, density_ppm, uniform) {
                Some((_, _, bv)) => {
                    let n = bv.len;
                    let m: M = Measure::new(bv.words, n);
                    mem_cost(m)
                },
                None => None,
            };
            r.push(MemCostRecord { len, density_ppm, overhead });
            proof {
                lemma_grid_index(i as int, j as int, dlen as int);
                assert(grid_point_ok(len, density_ppm, i * dlen + j, lens@, densities_ppm@));
                assert(sweep_overhead_wf(MemCostRecord { len, density_ppm, overhead }));
            }
            j = j + 1;
        }
        i = i + 1;
        proof {
            assert((i - 1) * dlen + dlen == i * dlen) by (nonlinear_arith);
        }
    }
    r
}

/// The flat index `i * dlen + j` of a grid point decomposes back into its
/// row and column.
pub(crate) proof fn lemma_grid_index(i: int, j: int, dlen: int)
    requires
        0 <= i,
        0 <= j < dlen,
    ensures
        (i * dlen + j) / dlen == i,
        (i * dlen + j) % dlen == j,
{
    vstd::arithmetic::div_mod::lemma_fundamental_div_mod_converse(i * dlen + j, dlen, i, j);
}

} // verus!
