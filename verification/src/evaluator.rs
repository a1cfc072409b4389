//! The evaluation orchestrator: correctness validation, repeated timed
//! trials over a grid of lengths and densities, and space accounting, all
//! against one structure under test plugged in behind the [`Evaluate`]
//! capability trait.

use vstd::prelude::*;
use crate::bits::{count_ones_spec, lemma_count_le_len, lemma_count_split, lemma_stride_select, select_spec, stride_seq, BitVector};
use crate::overhead::{overhead_checked, Ratio};
use crate::stats::{aggregate, figures_from_trials, median_matches, sum_times};
use crate::timing::{clock_now, elapsed_nanos, opaque_value};
use crate::utils::{create_bitvec, fastrange, first_half_len, grid_point_ok, PPM};
use vstd::arithmetic::div_mod::lemma_fundamental_div_mod;

verus! {

/// A structure under evaluation. Any library's type takes part by providing
/// these operations through a shim; the harness never inspects the concrete
/// type.
pub trait Evaluate: Sized {
    /// Build the structure from packed bits and declared bit length.
    fn new(data: Vec<u64>, len: usize) -> Self;

    /// The single benchmarked operation (a rank or a select query).
    fn benched_fn(&self, input: usize) -> usize;

    /// The length in bits of the underlying bit vector; must equal the
    /// length handed to `new`.
    fn len(&self) -> usize;

    /// Total bytes owned by the structure, counted through every owned
    /// buffer; used only for overhead accounting.
    fn mem_size(&self) -> usize;
}

/// One row of a benchmark sweep: a grid point with its per-query mean and
/// median latency and the structure's space overhead.
pub struct BenchRecord {
    pub len: u64,
    pub density_ppm: u32,
    pub mean: Ratio,
    pub median: Ratio,
    pub overhead: Option<Ratio>,
}

/// The numeric figures of one benchmark row are well formed: positive
/// denominators throughout.
pub open spec fn record_figures_wf(rec: BenchRecord) -> bool {
    &&& rec.mean.wf()
    &&& rec.median.wf()
    &&& rec.overhead is Some ==> rec.overhead->Some_0.wf()
}

/// Where a validation run first disagreed with the structure under test.
pub enum SelectValidationFailure {
    /// The structure reported a bit length other than the one it was built
    /// with.
    LengthMismatch { len: usize, one_count: usize, reported: usize },
    /// On the evenly spaced pattern, `query(index)` missed the known
    /// position `index * (len / one_count)`.
    StrideMismatch { len: usize, one_count: usize, index: usize, expected: usize, got: usize },
    /// On a generated vector, `query(index)` missed the position found by a
    /// linear scan; `bits` records the vector's content.
    RandomMismatch { len: usize, index: usize, expected: usize, got: usize, bits: Ghost<Seq<bool>> },
    /// The generator gave up redrawing an all-zero first half.
    GenerationFailed { len: usize },
}

/// The evaluation driver for one structure type, owning the pseudo-random
/// source that is threaded through every generation call.
pub struct Evaluator<X: Evaluate> {
    rng: rand::rngs::SmallRng,
    phantom_x: core::marker::PhantomData<X>,
}

impl<X: Evaluate> Evaluator<X> {
    /// The pseudo-random source this driver owns. Every generation call
    /// draws from it in sequence, so the stream depends on the exact order
    /// of grid iteration.
    pub closed spec fn rng_spec(&self) -> rand::rngs::SmallRng {
        self.rng
    }

    /// A driver owning the given pseudo-random source.
    pub fn new(rng: rand::rngs::SmallRng) -> (r: Self)
        ensures
            r.rng_spec() == rng,
    {
        Evaluator { rng, phantom_x: core::marker::PhantomData }
    }

    /// Generate one synthetic vector: the two halves' one-counts and the
    /// packed bits (see [`crate::utils::create_bitvec`]).
    pub fn create_bitvec(&mut self, len: u64, density_ppm: u32, uniform: bool) -> (r: Option<
        (u64, u64, BitVector),
    >)
        requires
            1 <= density_ppm <= PPM,
            1 <= len,
            len <= usize::MAX as u64 - 64,
        ensures
            r is Some ==> r->Some_0.2.wf(),
            r is Some ==> r->Some_0.2.len == len,
            r is Some ==> r->Some_0.0 == crate::bits::count_ones_spec(
                r->Some_0.2@.take(first_half_len(len as int)),
            ),
            r is Some ==> r->Some_0.1 == crate::bits::count_ones_spec(
                r->Some_0.2@.skip(first_half_len(len as int)),
            ),
            r is Some ==> r->Some_0.0 >= 1,
            uniform && density_ppm == PPM ==> r is Some,
    {
        create_bitvec(&mut self.rng, len, density_ppm, uniform)
    }

    /// Space overhead of one built structure, or `None` when its reported
    /// sizes are degenerate.
    pub fn mem_cost(&self, val_struct: &X) -> (r: Option<Ratio>)
        ensures
            r is Some ==> r->Some_0.wf(),
    {
        let len = val_struct.len();
        let bytes = val_struct.mem_size();
        overhead_checked(bytes, len)
    }

    /// One grid point: `repetitions` trials, each of a fresh vector, a fresh
    /// structure and `iterations` timed queries in the alternating access
    /// pattern, reduced to per-query `(mean, median)` latency. Every query
    /// index is a valid select argument: when the second half holds no one,
    /// the odd turns fall back to the first half, whose one-count the
    /// generator guarantees positive.
    ///
    /// The mean is the sum of the trial times over the total query count;
    /// the median is the middle sorted trial time over the per-trial query
    /// count. With one repetition the two are the same number. `None` comes
    /// only from the generator's redraw cap, which a full uniform density
    /// never reaches.
    pub fn bench_single(
        &mut self,
        len: u64,
        density_ppm: u32,
        uniform: bool,
        repetitions: usize,
        iterations: usize,
    ) -> (r: Option<(Ratio, Ratio)>)
        requires
            1 <= density_ppm <= PPM,
            1 <= len,
            len <= usize::MAX as u64 - 64,
            repetitions >= 1,
            iterations >= 1,
        ensures
            r is Some ==> r->Some_0.0.wf() && r->Some_0.1.wf(),
            r is Some ==> r->Some_0.0.den == repetitions * iterations,
            r is Some ==> figures_from_trials(
                r->Some_0.0,
                r->Some_0.1,
                repetitions as int,
                iterations as int,
            ),
            r is Some && repetitions == 1 ==> r->Some_0.0.same_value(r->Some_0.1),
            uniform && density_ppm == PPM ==> r is Some,
    {
        let mut times: Vec<u64> = Vec::new();
        let mut rep: usize = 0;
        while rep < repetitions
            invariant
                times@.len() == rep,
                rep <= repetitions,
                1 <= density_ppm <= PPM,
                1 <= len,
                len <= usize::MAX as u64 - 64,
                repetitions >= 1,
                iterations >= 1,
            decreases repetitions - rep,
        {
            let generated = create_bitvec(&mut self.rng, len, density_ppm, uniform);
            let (c1, c2, bv) = match generated {
                Some(t) => t,
                None => {
                    return None;
                },
            };
            proof {
                lemma_count_split(bv@, first_half_len(len as int));
                lemma_count_le_len(bv@);
                assert(c1 + c2 <= len);
            }
            let n_bits = bv.len;
            let val_struct = X::new(bv.words, n_bits);
            let mut u: usize = 0;
            let begin = clock_now();
            let mut it: usize = 0;
            while it < iterations
                invariant
                    it <= iterations,
                    c1 + c2 <= len,
                    len <= usize::MAX as u64 - 64,
                decreases iterations - it,
            {
                let q = if u & 1 != 0 && c2 > 0 {
                    val_struct.benched_fn((c1 + fastrange(&mut self.rng, c2)) as usize)
                } else {
                    val_struct.benched_fn(fastrange(&mut self.rng, c1) as usize)
                };
                u = u ^ q;
                it = it + 1;
            }
            let elapsed = elapsed_nanos(&begin);
            let _sink = opaque_value(u);
            times.push(elapsed);
            rep = rep + 1;
        }
        let (mean, median) = aggregate(&times, iterations);
        proof {
            assert(times@.len() == repetitions && mean.num == sum_times(times@) && median_matches(
                median,
                times@,
                iterations as int,
            ));
            assert(figures_from_trials(mean, median, repetitions as int, iterations as int));
        }
        Some((mean, median))
    }

    /// A benchmark sweep over the grid `lens x densities_ppm`, one record
    /// per grid point in grid-iteration order; each record carries the grid
    /// point's per-query mean and median latency and the space overhead of a
    /// structure freshly built for that point. `None` comes only from the
    /// generator's redraw cap, and no partial sweep is reported.
    pub fn bench(
        &mut self,
        lens: &Vec<u64>,
        densities_ppm: &Vec<u32>,
        uniform: bool,
        repetitions: usize,
        iterations: usize,
    ) -> (r: Option<Vec<BenchRecord>>)
        requires
            forall|i: int|
                0 <= i < lens@.len() ==> 1 <= #[trigger] lens@[i] <= usize::MAX as u64 - 64,
            forall|i: int|
                0 <= i < densities_ppm@.len() ==> 1 <= #[trigger] densities_ppm@[i] <= PPM,
            repetitions >= 1,
            iterations >= 1,
        ensures
            r is Some ==> r->Some_0@.len() == lens@.len() * densities_ppm@.len(),
            r is Some ==> forall|k: int|
                0 <= k < r->Some_0@.len() ==> #[trigger] grid_point_ok(
                    r->Some_0@[k].len,
                    r->Some_0@[k].density_ppm,
                    k,
                    lens@,
                    densities_ppm@,
                ),
            r is Some ==> forall|k: int|
                0 <= k < r->Some_0@.len() ==> (#[trigger] r->Some_0@[k].mean.den) == repetitions
                    * iterations,
            r is Some && repetitions == 1 ==> forall|k: int|
                0 <= k < r->Some_0@.len() ==> (#[trigger] r->Some_0@[k].mean).same_value(
                    r->Some_0@[k].median,
                ),
            r is Some ==> forall|k: int|
                0 <= k < r->Some_0@.len() ==> #[trigger] record_figures_wf(r->Some_0@[k]),
            r is Some ==> forall|k: int|
                0 <= k < r->Some_0@.len() ==> #[trigger] figures_from_trials(
                    r->Some_0@[k].mean,
                    r->Some_0@[k].median,
                    repetitions as int,
                    iterations as int,
                ),
            uniform && (forall|i: int|
                0 <= i < densities_ppm@.len() ==> #[trigger] densities_ppm@[i] == PPM) ==> r
                is Some,
    {
        let dlen = densities_ppm.len();
        let mut out: Vec<BenchRecord> = Vec::new();
        let mut i: usize = 0;
        while i < lens.len()
            invariant
                i <= lens@.len(),
                dlen == densities_ppm@.len(),
                out@.len() == i * dlen,
                forall|i2: int|
                    0 <= i2 < lens@.len() ==> 1 <= #[trigger] lens@[i2] <= usize::MAX as u64 - 64,
                forall|i2: int|
                    0 <= i2 < densities_ppm@.len() ==> 1 <= #[trigger] densities_ppm@[i2] <= PPM,
                repetitions >= 1,
                iterations >= 1,
                forall|k: int|
                    0 <= k < out@.len() ==> #[trigger] grid_point_ok(
                        out@[k].len,
                        out@[k].density_ppm,
                        k,
                        lens@,
                        densities_ppm@,
                    ),
                forall|k: int|
                    0 <= k < out@.len() ==> (#[trigger] out@[k].mean.den) == repetitions
                        * iterations,
                repetitions == 1 ==> forall|k: int|
                    0 <= k < out@.len() ==> (#[trigger] out@[k].mean).same_value(out@[k].median),
                forall|k: int| 0 <= k < out@.len() ==> #[trigger] record_figures_wf(out@[k]),
                forall|k: int|
                    0 <= k < out@.len() ==> #[trigger] figures_from_trials(
                        out@[k].mean,
                        out@[k].median,
                        repetitions as int,
                        iterations as int,
                    ),
            decreases lens@.len() - i,
        {
            let mut j: usize = 0;
            while j < dlen
                invariant
                    i < lens@.len(),
                    j <= dlen,
                    dlen == densities_ppm@.len(),
                    out@.len() == i * dlen + j,
                    forall|i2: int|
                        0 <= i2 < lens@.len() ==> 1 <= #[trigger] lens@[i2] <= usize::MAX as u64
                            - 64,
                    forall|i2: int|
                        0 <= i2 < densities_ppm@.len() ==> 1 <= #[trigger] densities_ppm@[i2]
                            <= PPM,
                    repetitions >= 1,
                    iterations >= 1,
                    forall|k: int|
                        0 <= k < out@.len() ==> #[trigger] grid_point_ok(
                            out@[k].len,
                            out@[k].density_ppm,
                            k,
                            lens@,
                            densities_ppm@,
                        ),
                    forall|k: int|
                        0 <= k < out@.len() ==> (#[trigger] out@[k].mean.den) == repetitions
                            * iterations,
                    repetitions == 1 ==> forall|k: int|
                        0 <= k < out@.len() ==> (#[trigger] out@[k].mean).same_value(
                            out@[k].median,
                        ),
                    forall|k: int|
                        0 <= k < out@.len() ==> #[trigger] record_figures_wf(out@[k]),
                    forall|k: int|
                        0 <= k < out@.len() ==> #[trigger] figures_from_trials(
                            out@[k].mean,
                            out@[k].median,
                            repetitions as int,
                            iterations as int,
                        ),
                decreases dlen - j,
            {
                let len = lens[i];
                let density_ppm = densities_ppm[j];
                let single = self.bench_single(len, density_ppm, uniform, repetitions, iterations);
                let (mean, median) = match single {
                    Some(t) => t,
                    None => {
                        proof {
                            assert(densities_ppm@[j as int] == density_ppm);
                        }
                        return None;
                    },
                };
                let overhead = match create_bitvec(&mut self.rng, len, density_ppm, uniform) {
                    Some((_, _, bv)) => {
                        let n_bits = bv.len;
                        let val_struct = X::new(bv.words, n_bits);
                        self.mem_cost(&val_struct)
                    },
                    None => {
                        proof {
                            assert(densities_ppm@[j as int] == density_ppm);
                        }
                        return None;
                    },
                };
                out.push(BenchRecord { len, density_ppm, mean, median, overhead });
                proof {
                    crate::utils::lemma_grid_index(i as int, j as int, dlen as int);
                    assert(grid_point_ok(len, density_ppm, i * dlen + j, lens@, densities_ppm@));
                    assert(figures_from_trials(
                        mean,
                        median,
                        repetitions as int,
                        iterations as int,
                    ));
                }
                j = j + 1;
            }
            i = i + 1;
            proof {
                assert((i - 1) * dlen + dlen == i * dlen) by (nonlinear_arith);
            }
        }
        Some(out)
    }

    /// Validate the structure's select operation before any timing.
    ///
    /// Two passes, both required. First, for a grid of lengths and
    /// one-counts, a vector with ones at every `len / one_count`-th
    /// position is built, and `query(i)` must hit `i * (len / one_count)`
    /// for every `i` below the one-count. Second, for each length, a skewed
    /// vector is generated, its one-positions found by linear scan, and
    /// `query(i)` must hit the `i`-th scanned position. The first
    /// disagreement is reported with the exact place it occurred.
    pub fn validate_select(&mut self) -> (r: Result<(), SelectValidationFailure>)
        ensures
            r matches Err(SelectValidationFailure::LengthMismatch { len, reported, .. }) ==> len
                != reported,
            r matches Err(
                SelectValidationFailure::StrideMismatch { len, one_count, index, expected, got },
            ) ==> got != expected && one_count >= 1 && expected == index * ((len / one_count)
                as int) && expected == select_spec(
                stride_seq(len as nat, (len / one_count) as int),
                index as int,
            ),
            r matches Err(
                SelectValidationFailure::RandomMismatch { index, expected, got, bits, .. },
            ) ==> got != expected && index < count_ones_spec(bits@) && expected == select_spec(
                bits@,
                index as int,
            ),
    {
        self.check_stride_patterns(262144)?;
        self.check_stride_patterns(524288)?;
        self.check_stride_patterns(1048576)?;
        self.check_stride_patterns(33554432)?;
        self.check_random_pattern(262144)?;
        self.check_random_pattern(524288)?;
        self.check_random_pattern(1048576)?;
        self.check_random_pattern(33554432)?;
        Ok(())
    }

    /// First validation pass at one length: for each one-count that is a
    /// power of two up to 256, build the evenly spaced pattern and check
    /// every select answer against the known position.
    pub fn check_stride_patterns(&mut self, len: usize) -> (r: Result<(), SelectValidationFailure>)
        requires
            1 <= len,
            len <= usize::MAX - 64,
        ensures
            r matches Err(SelectValidationFailure::LengthMismatch { len, reported, .. }) ==> len
                != reported,
            r matches Err(
                SelectValidationFailure::StrideMismatch { len, one_count, index, expected, got },
            ) ==> got != expected && one_count >= 1 && expected == index * ((len / one_count)
                as int) && expected == select_spec(
                stride_seq(len as nat, (len / one_count) as int),
                index as int,
            ),
            !(r matches Err(SelectValidationFailure::RandomMismatch { .. })),
            !(r matches Err(SelectValidationFailure::GenerationFailed { .. })),
    {
        let mut num_ones: usize = 1;
        while num_ones <= 256
            invariant
                1 <= num_ones <= 512,
                1 <= len <= usize::MAX - 64,
            decreases 512 - num_ones,
        {
            let stride = len / num_ones;
            if stride >= 1 {
                let bits = BitVector::stride_pattern(len, stride);
                let n_bits = bits.len;
                let val_struct = X::new(bits.words, n_bits);
                let reported = val_struct.len();
                if reported != len {
                    return Err(
                        SelectValidationFailure::LengthMismatch {
                            len,
                            one_count: num_ones,
                            reported,
                        },
                    );
                }
                let mut i: usize = 0;
                while i < num_ones
                    invariant
                        stride == len / num_ones,
                        1 <= num_ones,
                        1 <= stride,
                        1 <= len <= usize::MAX - 64,
                        i <= num_ones,
                    decreases num_ones - i,
                {
                    proof {
                        lemma_fundamental_div_mod(len as int, num_ones as int);
                        assert(i * stride <= (num_ones - 1) * stride) by (nonlinear_arith)
                            requires
                                i < num_ones,
                                stride >= 0,
                        ;
                        assert(num_ones * stride <= len);
                        assert((num_ones - 1) * stride == num_ones * stride - stride)
                            by (nonlinear_arith);
                    }
                    let expected = i * stride;
                    let got = val_struct.benched_fn(i);
                    if got != expected {
                        proof {
                            lemma_stride_select(len as nat, stride as int, i as int);
                        }
                        return Err(
                            SelectValidationFailure::StrideMismatch {
                                len,
                                one_count: num_ones,
                                index: i,
                                expected,
                                got,
                            },
                        );
                    }
                    i = i + 1;
                }
            }
            num_ones = num_ones * 2;
        }
        Ok(())
    }

    /// Second validation pass at one length: generate a skewed vector, find
    /// the true one-positions by linear scan, and check every select answer
    /// against them.
    pub fn check_random_pattern(&mut self, len: usize) -> (r: Result<(), SelectValidationFailure>)
        requires
            1 <= len,
            len <= usize::MAX - 64,
        ensures
            r matches Err(
                SelectValidationFailure::RandomMismatch { index, expected, got, bits, .. },
            ) ==> got != expected && index < count_ones_spec(bits@) && expected == select_spec(
                bits@,
                index as int,
            ),
            !(r matches Err(SelectValidationFailure::LengthMismatch { .. })),
            !(r matches Err(SelectValidationFailure::StrideMismatch { .. })),
    {
        let generated = create_bitvec(&mut self.rng, len as u64, PPM / 2, false);
        let (c1, c2, bv) = match generated {
            Some(t) => t,
            None => {
                return Err(SelectValidationFailure::GenerationFailed { len });
            },
        };
        proof {
            lemma_count_split(bv@, first_half_len(len as int));
            lemma_count_le_len(bv@);
            assert(c1 + c2 <= len);
        }
        let ones = (c1 + c2) as usize;
        let pos = bv.one_positions();
        let ghost content = bv@;
        let n_bits = bv.len;
        let val_struct = X::new(bv.words, n_bits);
        let mut i: usize = 0;
        while i < ones
            invariant
                ones == pos@.len(),
                pos@.len() == count_ones_spec(content),
                forall|p: int| 0 <= p < pos@.len() ==> #[trigger] pos@[p] == select_spec(
                    content,
                    p,
                ),
                i <= ones,
            decreases ones - i,
        {
            let expected = pos[i];
            let got = val_struct.benched_fn(i);
            if got != expected {
                return Err(
                    SelectValidationFailure::RandomMismatch {
                        len,
                        index: i,
                        expected,
                        got,
                        bits: Ghost(content),
                    },
                );
            }
            i = i + 1;
        }
        Ok(())
    }
}

} // verus!
