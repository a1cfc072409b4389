use rand::rngs::SmallRng;
use rand::SeedableRng;
use valcurt::evaluator::{Evaluate, Evaluator, SelectValidationFailure};

/// A reference select structure: it keeps the packed words and the list of
/// one-positions found by a single linear scan at construction.
struct ScanSelect {
    words: Vec<u64>,
    len: usize,
    positions: Vec<usize>,
}

impl Evaluate for ScanSelect {
    fn new(data: Vec<u64>, len: usize) -> Self {
        let mut positions = Vec::new();
        for i in 0..len {
            if (data[i / 64] >> (i % 64)) & 1 == 1 {
                positions.push(i);
            }
        }
        ScanSelect { words: data, len, positions }
    }

    fn benched_fn(&self, input: usize) -> usize {
        self.positions[input]
    }

    fn len(&self) -> usize {
        self.len
    }

    fn mem_size(&self) -> usize {
        8 * self.words.len() + 8 * self.positions.len() + 16
    }
}

/// A deliberately broken structure: every select answer is shifted by one.
struct OffByOneSelect {
    inner: ScanSelect,
}

impl Evaluate for OffByOneSelect {
    fn new(data: Vec<u64>, len: usize) -> Self {
        OffByOneSelect { inner: ScanSelect::new(data, len) }
    }

    fn benched_fn(&self, input: usize) -> usize {
        self.inner.benched_fn(input) + 1
    }

    fn len(&self) -> usize {
        self.inner.len
    }

    fn mem_size(&self) -> usize {
        self.inner.mem_size()
    }
}

/// A structure that misreports its bit length.
struct WrongLen {
    inner: ScanSelect,
}

impl Evaluate for WrongLen {
    fn new(data: Vec<u64>, len: usize) -> Self {
        WrongLen { inner: ScanSelect::new(data, len) }
    }

    fn benched_fn(&self, input: usize) -> usize {
        self.inner.benched_fn(input)
    }

    fn len(&self) -> usize {
        self.inner.len + 1
    }

    fn mem_size(&self) -> usize {
        self.inner.mem_size()
    }
}

#[test]
fn stride_pass_accepts_reference_small_lengths() {
    let mut ev: Evaluator<ScanSelect> = Evaluator::new(SmallRng::seed_from_u64(0));
    assert!(ev.check_stride_patterns(1 << 18).is_ok());
    assert!(ev.check_stride_patterns(1 << 19).is_ok());
    assert!(ev.check_stride_patterns(1 << 20).is_ok());
}

#[test]
fn stride_pass_accepts_reference_large_length() {
    let mut ev: Evaluator<ScanSelect> = Evaluator::new(SmallRng::seed_from_u64(0));
    assert!(ev.check_stride_patterns(1 << 25).is_ok());
}

#[test]
fn random_pass_accepts_reference_small_lengths() {
    let mut ev: Evaluator<ScanSelect> = Evaluator::new(SmallRng::seed_from_u64(0));
    assert!(ev.check_random_pattern(1 << 18).is_ok());
    assert!(ev.check_random_pattern(1 << 19).is_ok());
    assert!(ev.check_random_pattern(1 << 20).is_ok());
}

#[test]
fn random_pass_accepts_reference_large_length() {
    let mut ev: Evaluator<ScanSelect> = Evaluator::new(SmallRng::seed_from_u64(0));
    assert!(ev.check_random_pattern(1 << 25).is_ok());
}

#[test]
fn stride_pass_catches_shifted_answers() {
    let mut ev: Evaluator<OffByOneSelect> = Evaluator::new(SmallRng::seed_from_u64(0));
    match ev.check_stride_patterns(1 << 18) {
        Err(SelectValidationFailure::StrideMismatch { expected, got, .. }) => {
            assert_ne!(expected, got);
        }
        other => panic!("expected a stride mismatch, got {:?}", other.is_ok()),
    }
}

#[test]
fn random_pass_catches_shifted_answers() {
    let mut ev: Evaluator<OffByOneSelect> = Evaluator::new(SmallRng::seed_from_u64(0));
    match ev.check_random_pattern(1 << 18) {
        Err(SelectValidationFailure::RandomMismatch { expected, got, .. }) => {
            assert_ne!(expected, got);
        }
        other => panic!("expected a random-pattern mismatch, got {:?}", other.is_ok()),
    }
}

#[test]
fn stride_pass_catches_wrong_length() {
    let mut ev: Evaluator<WrongLen> = Evaluator::new(SmallRng::seed_from_u64(0));
    match ev.check_stride_patterns(1 << 18) {
        Err(SelectValidationFailure::LengthMismatch { len, reported, .. }) => {
            assert_ne!(len, reported);
        }
        other => panic!("expected a length mismatch, got {:?}", other.is_ok()),
    }
}
