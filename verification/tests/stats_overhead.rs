use valcurt::overhead::{overhead, overhead_checked, Ratio};
use valcurt::stats::{aggregate, sort_times};

#[test]
fn sort_orders_ascending() {
    let v = vec![30u64, 10, 20, 10, 50];
    let s = sort_times(&v);
    assert_eq!(s, vec![10, 10, 20, 30, 50]);
    assert_eq!(sort_times(&vec![]), Vec::<u64>::new());
    assert_eq!(sort_times(&vec![7]), vec![7]);
}

#[test]
fn mean_and_median_odd_count() {
    // trials 10, 30, 20 ns at 2 queries each: mean = 60 / 6, median = 20 / 2
    let times = vec![10u64, 30, 20];
    let (mean, median) = aggregate(&times, 2);
    assert_eq!(mean, Ratio { num: 60, den: 6 });
    assert_eq!(median, Ratio { num: 20, den: 2 });
}

#[test]
fn mean_and_median_even_count() {
    // sorted trials 10, 20, 30, 40 at 1 query each:
    // mean = 100 / 4, median = (20 + 30) / 2
    let times = vec![40u64, 10, 30, 20];
    let (mean, median) = aggregate(&times, 1);
    assert_eq!(mean, Ratio { num: 100, den: 4 });
    assert_eq!(median, Ratio { num: 50, den: 2 });
}

#[test]
fn single_trial_mean_equals_median() {
    // one repetition: the two figures are the same number
    for iterations in [1usize, 2, 7, 1000] {
        let times = vec![12345u64];
        let (mean, median) = aggregate(&times, iterations);
        assert_eq!(mean.num * median.den, median.num * mean.den);
    }
}

#[test]
fn mean_bounded_below_by_median_of_fastest_half() {
    // trials sorted: 10, 20, 30, 40, 50 at 1 query each; the fastest half
    // is 10, 20 (median 15); the mean 150/5 = 30 lies above it.
    let times = vec![50u64, 10, 40, 20, 30];
    let (mean, _) = aggregate(&times, 1);
    let fastest_half = vec![10u64, 20];
    let (_, fh_median) = aggregate(&fastest_half, 1);
    // mean >= fh_median as rationals: 150 * 2 >= 30 * 5
    assert!(mean.num * fh_median.den >= fh_median.num * mean.den);
}

#[test]
fn overhead_exact_value() {
    // 16 bytes = 128 bits over 100 raw bits: 28 extra bits = 28% of 100
    let r = overhead(16, 100);
    assert_eq!(r, Ratio { num: 2800, den: 100 });
    // non-negative numerator over positive denominator
    assert!(r.den >= 1);
}

#[test]
fn overhead_zero_when_exactly_raw_bits() {
    let r = overhead(8, 64);
    assert_eq!(r, Ratio { num: 0, den: 64 });
}

#[test]
fn overhead_checked_rejects_degenerate_inputs() {
    assert!(overhead_checked(16, 0).is_none());
    assert!(overhead_checked(1, 100).is_none());
    assert_eq!(overhead_checked(16, 100), Some(Ratio { num: 2800, den: 100 }));
    // exactly at the boundary: footprint bits equal the raw bits
    assert_eq!(overhead_checked(8, 64), Some(Ratio { num: 0, den: 64 }));
}
