use valcurt::bits::BitVector;

#[test]
fn empty_vector() {
    let bv = BitVector::new();
    assert_eq!(bv.len, 0);
    assert_eq!(bv.words.len(), 0);
    assert_eq!(bv.count_ones(), 0);
    assert_eq!(bv.one_positions().len(), 0);
}

#[test]
fn push_and_get() {
    let mut bv = BitVector::new();
    let pattern = [true, false, true, true, false, false, true, false];
    for &b in pattern.iter() {
        bv.push_bit(b);
    }
    assert_eq!(bv.len, 8);
    for (i, &b) in pattern.iter().enumerate() {
        assert_eq!(bv.get(i), b);
    }
    assert_eq!(bv.count_ones(), 4);
    assert_eq!(bv.one_positions(), vec![0, 2, 3, 6]);
}

#[test]
fn push_across_word_boundary() {
    let mut bv = BitVector::new();
    for i in 0..130 {
        bv.push_bit(i % 3 == 0);
    }
    assert_eq!(bv.len, 130);
    assert_eq!(bv.words.len(), 3);
    for i in 0..130 {
        assert_eq!(bv.get(i), i % 3 == 0, "bit {}", i);
    }
    // multiples of 3 below 130: 0, 3, ..., 129
    assert_eq!(bv.count_ones(), 44);
}

#[test]
fn stride_pattern_bits() {
    let bv = BitVector::stride_pattern(100, 7);
    assert_eq!(bv.len, 100);
    for i in 0..100 {
        assert_eq!(bv.get(i), i % 7 == 0, "bit {}", i);
    }
    let pos = bv.one_positions();
    // the j-th set bit of the stride pattern sits at j * stride
    for (j, &p) in pos.iter().enumerate() {
        assert_eq!(p, j * 7);
    }
    assert_eq!(pos.len(), 15);
}

#[test]
fn stride_pattern_stride_one_is_all_ones() {
    let bv = BitVector::stride_pattern(65, 1);
    assert_eq!(bv.count_ones(), 65);
}

#[test]
fn from_words_accepts_exact_capacity() {
    let bv = BitVector::from_words(vec![0b1011u64], 4).expect("4 bits fit one word");
    assert_eq!(bv.len, 4);
    assert!(bv.get(0));
    assert!(bv.get(1));
    assert!(!bv.get(2));
    assert!(bv.get(3));
    assert_eq!(bv.count_ones(), 3);
}

#[test]
fn from_words_rejects_overlong_length() {
    assert!(BitVector::from_words(vec![0u64], 65).is_none());
    assert!(BitVector::from_words(vec![], 1).is_none());
    assert!(BitVector::from_words(vec![0u64; 2], 129).is_none());
}

#[test]
fn from_words_masks_unused_bits() {
    // Bits at positions 3 and beyond are junk and must be ignored.
    let bv = BitVector::from_words(vec![u64::MAX], 3).expect("3 bits fit");
    assert_eq!(bv.len, 3);
    assert_eq!(bv.count_ones(), 3);
    assert_eq!(bv.words[0], 0b111);
}

#[test]
fn from_words_drops_extra_words() {
    let bv = BitVector::from_words(vec![1u64, u64::MAX, u64::MAX], 64).expect("64 bits fit");
    assert_eq!(bv.words.len(), 1);
    assert_eq!(bv.count_ones(), 1);
}

#[test]
fn boundary_length_exactly_64() {
    let mut bv = BitVector::new();
    for _ in 0..64 {
        bv.push_bit(true);
    }
    assert_eq!(bv.words.len(), 1);
    bv.push_bit(true);
    assert_eq!(bv.words.len(), 2);
    assert_eq!(bv.count_ones(), 65);
}
