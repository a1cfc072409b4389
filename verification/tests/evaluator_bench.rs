use rand::rngs::SmallRng;
use rand::SeedableRng;
use valcurt::evaluator::{Evaluate, Evaluator};

/// A reference select structure keeping precomputed one-positions.
struct ScanSelect {
    words: Vec<u64>,
    len: usize,
    positions: Vec<usize>,
}

impl Evaluate for ScanSelect {
    fn new(data: Vec<u64>, len: usize) -> Self {
        let mut positions = Vec::new();
        for i in 0..len {
            if (data[i / 64] >> (i % 64)) & 1 == 1 {
                positions.push(i);
            }
        }
        ScanSelect { words: data, len, positions }
    }

    fn benched_fn(&self, input: usize) -> usize {
        if input < self.positions.len() {
            self.positions[input]
        } else {
            0
        }
    }

    fn len(&self) -> usize {
        self.len
    }

    fn mem_size(&self) -> usize {
        8 * self.words.len() + 8 * self.positions.len() + 16
    }
}

#[test]
fn bench_single_single_repetition_mean_equals_median() {
    let mut ev: Evaluator<ScanSelect> = Evaluator::new(SmallRng::seed_from_u64(1));
    let (mean, median) = ev
        .bench_single(4096, 500_000, true, 1, 100)
        .expect("generation at density 0.5 succeeds");
    assert_eq!(mean.den, 100);
    assert_eq!(mean.num * median.den, median.num * mean.den);
}

#[test]
fn bench_single_total_query_count_in_denominator() {
    let mut ev: Evaluator<ScanSelect> = Evaluator::new(SmallRng::seed_from_u64(2));
    let (mean, median) = ev
        .bench_single(4096, 500_000, false, 5, 40)
        .expect("generation at density 0.5 succeeds");
    assert_eq!(mean.den, 200);
    assert!(median.den == 40 || median.den == 80);
}

#[test]
fn bench_grid_order_and_shape() {
    let mut ev: Evaluator<ScanSelect> = Evaluator::new(SmallRng::seed_from_u64(3));
    let lens: Vec<u64> = vec![256, 512];
    let densities: Vec<u32> = vec![250_000, 750_000];
    let records = ev.bench(&lens, &densities, true, 1, 10).expect("bench completes");
    assert_eq!(records.len(), 4);
    let expect = [(256u64, 250_000u32), (256, 750_000), (512, 250_000), (512, 750_000)];
    for (rec, &(l, d)) in records.iter().zip(expect.iter()) {
        assert_eq!(rec.len, l);
        assert_eq!(rec.density_ppm, d);
        assert_eq!(rec.mean.den, 10);
        // one repetition: mean and median agree
        assert_eq!(rec.mean.num * rec.median.den, rec.median.num * rec.mean.den);
        let overhead = rec.overhead.expect("reference structure stores at least the raw bits");
        assert!(overhead.den >= 1);
    }
}

#[test]
fn evaluator_mem_cost_non_negative() {
    let mut ev: Evaluator<ScanSelect> = Evaluator::new(SmallRng::seed_from_u64(4));
    let (_, _, bv) = ev.create_bitvec(10_000, 500_000, true).expect("generation");
    let n = bv.len;
    let s = ScanSelect::new(bv.words, n);
    let overhead = ev.mem_cost(&s).expect("footprint covers the raw bits");
    // overhead percentage is a non-negative rational
    assert!(overhead.den >= 1);
}

#[test]
fn bench_single_reports_generation_failure() {
    let mut ev: Evaluator<ScanSelect> = Evaluator::new(SmallRng::seed_from_u64(6));
    assert!(ev.bench_single(2, 1, false, 1, 1).is_none());
}

#[test]
fn bench_reports_generation_failure() {
    let mut ev: Evaluator<ScanSelect> = Evaluator::new(SmallRng::seed_from_u64(7));
    let lens: Vec<u64> = vec![2];
    let densities: Vec<u32> = vec![1];
    assert!(ev.bench(&lens, &densities, false, 1, 1).is_none());
}

#[test]
fn example_scenario_full_run() {
    // length 2^20 + 2 at density 0.5, uniform: validation first, then a
    // short benchmark that must emit a well-formed non-negative overhead
    // and a mean no smaller than the median of the fastest trials.
    let mut ev: Evaluator<ScanSelect> = Evaluator::new(SmallRng::seed_from_u64(0));
    assert!(ev.validate_select().is_ok(), "the reference structure answers every probe exactly");
    let len: u64 = 1_048_578;
    let (mean, median) = ev
        .bench_single(len, 500_000, true, 3, 1000)
        .expect("generation at density 0.5 succeeds");
    assert_eq!(mean.den, 3000);
    assert_eq!(median.den, 1000);
    let (_, _, bv) = ev.create_bitvec(len, 500_000, true).expect("generation");
    let n = bv.len;
    let s = ScanSelect::new(bv.words, n);
    let overhead = ev.mem_cost(&s).expect("non-negative overhead");
    assert!(overhead.den >= 1);
}
