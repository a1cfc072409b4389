use rand::rngs::SmallRng;
use rand::SeedableRng;
use valcurt::utils::{create_bitvec, fastrange, fastrange_non_uniform, PPM};

fn first_half_len(len: usize) -> usize {
    len / 2 + len % 2
}

#[test]
fn identical_seeds_give_bit_identical_vectors() {
    for &(len, ppm, uniform) in
        [(1000u64, 500_000u32, true), (1001, 500_000, false), (4096, 250_000, false)].iter()
    {
        let mut rng_a = SmallRng::seed_from_u64(7);
        let mut rng_b = SmallRng::seed_from_u64(7);
        let (a1, a2, av) = create_bitvec(&mut rng_a, len, ppm, uniform).expect("generation");
        let (b1, b2, bv) = create_bitvec(&mut rng_b, len, ppm, uniform).expect("generation");
        assert_eq!(a1, b1);
        assert_eq!(a2, b2);
        assert_eq!(av.len, bv.len);
        assert_eq!(av.words, bv.words);
    }
}

#[test]
fn generator_stream_depends_on_call_order() {
    // One seed, two consecutive draws: the source is threaded through, so
    // the second vector continues the stream rather than repeating it.
    let mut rng = SmallRng::seed_from_u64(3);
    let (_, _, first) = create_bitvec(&mut rng, 2048, 500_000, true).expect("generation");
    let (_, _, second) = create_bitvec(&mut rng, 2048, 500_000, true).expect("generation");
    assert_ne!(first.words, second.words);
}

#[test]
fn half_counts_match_packed_bits() {
    let mut rng = SmallRng::seed_from_u64(11);
    let len: usize = 999;
    let (c1, c2, bv) = create_bitvec(&mut rng, len as u64, 500_000, false).expect("generation");
    let h = first_half_len(len);
    let mut ones_first = 0u64;
    let mut ones_second = 0u64;
    for i in 0..len {
        if bv.get(i) {
            if i < h {
                ones_first += 1;
            } else {
                ones_second += 1;
            }
        }
    }
    assert_eq!(c1, ones_first);
    assert_eq!(c2, ones_second);
    assert!(c1 >= 1, "the skewed first half must hold a set bit");
}

#[test]
fn full_density_sets_every_bit() {
    let mut rng = SmallRng::seed_from_u64(5);
    let len: u64 = 300;
    let (c1, c2, bv) = create_bitvec(&mut rng, len, PPM, true).expect("full density cannot fail");
    assert_eq!(c1 + c2, len);
    assert_eq!(bv.count_ones() as u64, len);
}

#[test]
fn skewed_halves_follow_their_densities() {
    // density 0.5 skewed: first half at 0.005, second at 0.495. With 2^16
    // bits per half the counts separate by orders of magnitude.
    let mut rng = SmallRng::seed_from_u64(13);
    let len: u64 = 1 << 17;
    let (c1, c2, _) = create_bitvec(&mut rng, len, 500_000, false).expect("generation");
    let half = (len / 2) as f64;
    let rate1 = c1 as f64 / half;
    let rate2 = c2 as f64 / half;
    assert!(rate1 < 0.02, "first-half rate {} should be near 0.005", rate1);
    assert!(rate2 > 0.4 && rate2 < 0.6, "second-half rate {} should be near 0.495", rate2);
}

#[test]
fn hopeless_density_exhausts_redraws() {
    // skewed density one part per million: the one-bit first half is set
    // with probability one in a hundred million, so every redraw comes up
    // empty and the generator reports failure instead of spinning.
    let mut rng = SmallRng::seed_from_u64(21);
    assert!(create_bitvec(&mut rng, 2, 1, false).is_none());
}

#[test]
fn fastrange_stays_in_range() {
    let mut rng = SmallRng::seed_from_u64(17);
    for range in [1u64, 2, 3, 10, 1000, u64::MAX] {
        for _ in 0..100 {
            assert!(fastrange(&mut rng, range) < range);
        }
    }
    assert_eq!(fastrange(&mut rng, 0), 0);
}

#[test]
fn fastrange_non_uniform_stays_in_range() {
    let mut rng = SmallRng::seed_from_u64(19);
    for _ in 0..200 {
        let r = fastrange_non_uniform(&mut rng, 10, 20);
        assert!(r < 30);
    }
    for _ in 0..50 {
        assert_eq!(fastrange_non_uniform(&mut rng, 0, 0), 0);
    }
}
