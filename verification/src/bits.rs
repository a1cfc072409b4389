//! A packed bit vector: `len` booleans stored least-significant-bit-first in
//! 64-bit words, with an explicit bit length (the word count alone cannot
//! recover the length, because the last word may be partially used).

use vstd::prelude::*;
use vstd::arithmetic::div_mod::{
    lemma_fundamental_div_mod, lemma_fundamental_div_mod_converse, lemma_mod_multiples_basic,
    lemma_mod_multiples_vanish, lemma_small_mod,
};

verus! {

/// True when bit `k` of word `w` is set.
pub open spec fn word_bit(w: u64, k: u64) -> bool
    recommends
        k < 64,
{
    ((w >> k) & 1) == 1
}

/// Number of set bits in a sequence of booleans.
pub open spec fn count_ones_spec(s: Seq<bool>) -> nat
    decreases s.len(),
{
    if s.len() == 0 {
        0
    } else {
        count_ones_spec(s.drop_last()) + if s.last() {
            1nat
        } else {
            0nat
        }
    }
}

/// The positions of the set bits of `s`, in increasing order.
pub open spec fn ones_positions_spec(s: Seq<bool>) -> Seq<int>
    decreases s.len(),
{
    if s.len() == 0 {
        Seq::empty()
    } else {
        ones_positions_spec(s.drop_last()) + if s.last() {
            seq![s.len() - 1]
        } else {
            Seq::empty()
        }
    }
}

/// Position of the `j`-th (0-indexed) set bit of `s`.
pub open spec fn select_spec(s: Seq<bool>, j: int) -> int
    recommends
        0 <= j < count_ones_spec(s),
{
    ones_positions_spec(s)[j]
}

/// A packed sequence of bits. The representation is canonical: exactly
/// `ceil(len / 64)` words, and every storage position at or beyond `len`
/// holds a zero bit.
pub struct BitVector {
    pub words: Vec<u64>,
    pub len: usize,
}

impl View for BitVector {
    type V = Seq<bool>;

    open spec fn view(&self) -> Seq<bool> {
        Seq::new(self.len as nat, |i: int| word_bit(self.words@[i / 64], (i % 64) as u64))
    }
}

impl BitVector {
    /// Canonical-form invariant: the word count is exactly what `len` bits
    /// need, and the unused storage positions of the last word are zero.
    pub open spec fn wf(&self) -> bool {
        &&& self.words@.len() == (self.len + 63) / 64
        &&& forall|j: int, k: u64|
            0 <= j < self.words@.len() && k < 64 && j * 64 + k >= self.len ==> !(#[trigger] word_bit(
                self.words@[j],
                k,
            ))
    }

    /// The empty bit vector.
    pub fn new() -> (r: BitVector)
        ensures
            r.wf(),
            r.len == 0,
            r@ == Seq::<bool>::empty(),
    {
        let r = BitVector { words: Vec::new(), len: 0 };
        proof {
            assert(r@ =~= Seq::<bool>::empty());
        }
        r
    }

    /// Read the bit at position `i`.
    pub fn get(&self, i: usize) -> (r: bool)
        requires
            self.wf(),
            i < self.len,
        ensures
            r == self@[i as int],
    {
        proof {
            lemma_pos_decomposition(i as int, self.words@.len() as int, self.len as int);
        }
        (self.words[i / 64] >> ((i % 64) as u64)) & 1 == 1
    }

    /// Append one bit at the end.
    pub fn push_bit(&mut self, b: bool)
        requires
            old(self).wf(),
            old(self).len < usize::MAX - 63,
        ensures
            final(self).wf(),
            final(self).len == old(self).len + 1,
            final(self)@ == old(self)@.push(b),
    {
        let ghost prev = *self;
        let idx = self.len / 64;
        let k = (self.len % 64) as u64;
        proof {
            lemma_fundamental_div_mod(self.len as int, 64);
            lemma_fundamental_div_mod(self.len as int + 63, 64);
            lemma_fundamental_div_mod(self.len as int + 64, 64);
        }
        if self.len % 64 == 0 {
            self.words.push(if b { 1u64 } else { 0u64 });
        } else {
            if b {
                let w = self.words[idx];
                self.words.set(idx, w | (1u64 << k));
            }
        }
        self.len = self.len + 1;
        proof {
            lemma_push_bit_correct(prev, *self, b, idx as int, k);
        }
    }
}

impl BitVector {
    /// Count the set bits.
    pub fn count_ones(&self) -> (r: usize)
        requires
            self.wf(),
        ensures
            r == count_ones_spec(self@),
    {
        let mut count: usize = 0;
        let mut i: usize = 0;
        proof {
            assert(self@.take(0) =~= Seq::<bool>::empty());
        }
        while i < self.len
            invariant
                self.wf(),
                i <= self.len,
                count <= i,
                count == count_ones_spec(self@.take(i as int)),
            decreases self.len - i,
        {
            proof {
                lemma_count_take_step(self@, i as int);
            }
            if self.get(i) {
                count = count + 1;
            }
            i = i + 1;
        }
        proof {
            assert(self@.take(self.len as int) =~= self@);
        }
        count
    }

    /// The positions of all set bits, in increasing order. Position `j` of
    /// the result is the true answer to `select(j)` on this vector.
    pub fn one_positions(&self) -> (r: Vec<usize>)
        requires
            self.wf(),
        ensures
            r@.len() == count_ones_spec(self@),
            forall|j: int| 0 <= j < r@.len() ==> #[trigger] r@[j] == select_spec(self@, j),
    {
        let mut r: Vec<usize> = Vec::new();
        let mut i: usize = 0;
        proof {
            assert(self@.take(0) =~= Seq::<bool>::empty());
        }
        while i < self.len
            invariant
                self.wf(),
                i <= self.len,
                r@.map_values(|p: usize| p as int) == ones_positions_spec(self@.take(i as int)),
            decreases self.len - i,
        {
            proof {
                lemma_ones_positions_take_step(self@, i as int);
            }
            if self.get(i) {
                r.push(i);
                proof {
                    assert(r@.map_values(|p: usize| p as int) =~= ones_positions_spec(
                        self@.take(i + 1),
                    ));
                }
            } else {
                proof {
                    assert(r@.map_values(|p: usize| p as int) =~= ones_positions_spec(
                        self@.take(i + 1),
                    ));
                }
            }
            i = i + 1;
        }
        proof {
            assert(self@.take(self.len as int) =~= self@);
            lemma_ones_positions_len(self@);
            assert(forall|j: int|
                0 <= j < r@.len() ==> #[trigger] r@[j] == r@.map_values(|p: usize| p as int)[j]);
        }
        r
    }
}

/// Extending a prefix by one element adds that element's contribution to the
/// one-count.
pub proof fn lemma_count_take_step(s: Seq<bool>, i: int)
    requires
        0 <= i < s.len(),
    ensures
        count_ones_spec(s.take(i + 1)) == count_ones_spec(s.take(i)) + if s[i] {
            1int
        } else {
            0int
        },
{
    assert(s.take(i + 1).drop_last() =~= s.take(i));
    assert(s.take(i + 1).last() == s[i]);
}

/// Extending a prefix by one element appends that element's position to the
/// list of one-positions if it is set.
pub proof fn lemma_ones_positions_take_step(s: Seq<bool>, i: int)
    requires
        0 <= i < s.len(),
    ensures
        ones_positions_spec(s.take(i + 1)) == ones_positions_spec(s.take(i)) + if s[i] {
            seq![i]
        } else {
            Seq::<int>::empty()
        },
{
    assert(s.take(i + 1).drop_last() =~= s.take(i));
    assert(s.take(i + 1).last() == s[i]);
    if s[i] {
        assert(ones_positions_spec(s.take(i + 1)) =~= ones_positions_spec(s.take(i)) + seq![i]);
    } else {
        assert(ones_positions_spec(s.take(i + 1)) =~= ones_positions_spec(s.take(i))
            + Seq::<int>::empty());
    }
}

/// There are as many one-positions as there are ones.
pub proof fn lemma_ones_positions_len(s: Seq<bool>)
    ensures
        ones_positions_spec(s).len() == count_ones_spec(s),
    decreases s.len(),
{
    if s.len() > 0 {
        lemma_ones_positions_len(s.drop_last());
    }
}

/// No sequence holds more ones than elements.
pub proof fn lemma_count_le_len(s: Seq<bool>)
    ensures
        count_ones_spec(s) <= s.len(),
    decreases s.len(),
{
    if s.len() > 0 {
        lemma_count_le_len(s.drop_last());
    }
}

/// Ones split across a cut: the counts of the two parts add up.
pub proof fn lemma_count_split(s: Seq<bool>, m: int)
    requires
        0 <= m <= s.len(),
    ensures
        count_ones_spec(s) == count_ones_spec(s.take(m)) + count_ones_spec(s.skip(m)),
    decreases s.len() - m,
{
    if m == s.len() {
        assert(s.take(m) =~= s);
        assert(s.skip(m) =~= Seq::<bool>::empty());
    } else {
        lemma_count_split(s, m + 1);
        lemma_count_take_step(s, m);
        assert(s.skip(m) =~= seq![s[m]] + s.skip(m + 1));
        lemma_count_cons(s[m], s.skip(m + 1));
    }
}

/// Prepending one element adds its contribution to the one-count.
proof fn lemma_count_cons(b: bool, s: Seq<bool>)
    ensures
        count_ones_spec(seq![b] + s) == count_ones_spec(s) + if b {
            1int
        } else {
            0int
        },
    decreases s.len(),
{
    if s.len() == 0 {
        assert((seq![b] + s) =~= seq![b]);
        assert(count_ones_spec(seq![b]) == count_ones_spec(seq![b].drop_last()) + if b {
            1int
        } else {
            0int
        });
        assert(seq![b].drop_last() =~= Seq::<bool>::empty());
    } else {
        assert((seq![b] + s).drop_last() =~= seq![b] + s.drop_last());
        lemma_count_cons(b, s.drop_last());
    }
}

/// The `j`-th one-position is a set bit, lies inside the sequence, and has
/// exactly `j` ones before it: it is the correct answer to `select(j)`.
pub proof fn lemma_select_spec_props(s: Seq<bool>, j: int)
    requires
        0 <= j < count_ones_spec(s),
    ensures
        0 <= select_spec(s, j) < s.len(),
        s[select_spec(s, j)],
        count_ones_spec(s.take(select_spec(s, j))) == j,
    decreases s.len(),
{
    lemma_ones_positions_len(s);
    let dl = s.drop_last();
    lemma_ones_positions_len(dl);
    if j < count_ones_spec(dl) {
        lemma_select_spec_props(dl, j);
        let p = select_spec(s, j);
        assert(p == select_spec(dl, j));
        assert(s.take(p) =~= dl.take(p));
    } else {
        let p = select_spec(s, j);
        assert(p == s.len() - 1);
        assert(s.take(p) =~= dl);
    }
}

/// Conversely, a set bit with exactly `j` ones before it is the `j`-th
/// one-position.
pub proof fn lemma_select_spec_unique(s: Seq<bool>, j: int, p: int)
    requires
        0 <= p < s.len(),
        s[p],
        count_ones_spec(s.take(p)) == j,
    ensures
        j < count_ones_spec(s),
        select_spec(s, j) == p,
    decreases s.len(),
{
    let dl = s.drop_last();
    lemma_ones_positions_len(s);
    lemma_ones_positions_len(dl);
    if p == s.len() - 1 {
        assert(s.take(p) =~= dl);
    } else {
        assert(dl.take(p) =~= s.take(p));
        lemma_select_spec_unique(dl, j, p);
    }
}

/// A longer prefix holds at least as many ones.
pub proof fn lemma_count_take_mono(s: Seq<bool>, a: int, b: int)
    requires
        0 <= a <= b <= s.len(),
    ensures
        count_ones_spec(s.take(a)) <= count_ones_spec(s.take(b)),
    decreases b - a,
{
    if a < b {
        lemma_count_take_step(s, b - 1);
        lemma_count_take_mono(s, a, b - 1);
    }
}

/// One-positions come in strictly increasing order.
pub proof fn lemma_select_spec_increasing(s: Seq<bool>, j1: int, j2: int)
    requires
        0 <= j1 < j2 < count_ones_spec(s),
    ensures
        select_spec(s, j1) < select_spec(s, j2),
{
    lemma_select_spec_props(s, j1);
    lemma_select_spec_props(s, j2);
    if select_spec(s, j1) >= select_spec(s, j2) {
        lemma_count_take_mono(s, select_spec(s, j2), select_spec(s, j1));
    }
}

/// A bit pattern with ones exactly at the multiples of `stride`.
pub open spec fn stride_seq(len: nat, stride: int) -> Seq<bool> {
    Seq::new(len, |i: int| i % stride == 0)
}

/// Extending a stride pattern prefix from one multiple of `stride` by `r`
/// further positions adds exactly one set bit (the multiple itself).
proof fn lemma_stride_window(len: nat, stride: int, j: int, r: int)
    requires
        stride >= 1,
        j >= 0,
        1 <= r <= stride,
        j * stride + r <= len,
    ensures
        count_ones_spec(stride_seq(len, stride).take(j * stride + r)) == count_ones_spec(
            stride_seq(len, stride).take(j * stride),
        ) + 1,
    decreases r,
{
    let s = stride_seq(len, stride);
    assert(j * stride >= 0) by (nonlinear_arith)
        requires
            j >= 0,
            stride >= 1,
    ;
    if r == 1 {
        lemma_count_take_step(s, j * stride);
        lemma_mod_multiples_basic(j, stride);
        assert(s[j * stride]);
    } else {
        lemma_stride_window(len, stride, j, r - 1);
        lemma_count_take_step(s, j * stride + r - 1);
        lemma_mod_multiples_vanish(j, r - 1, stride);
        assert(stride * j == j * stride) by (nonlinear_arith);
        lemma_small_mod((r - 1) as nat, stride as nat);
        assert(!s[j * stride + r - 1]);
    }
}

/// A stride pattern prefix that ends at the `j`-th multiple holds exactly
/// `j` ones.
pub proof fn lemma_stride_count(len: nat, stride: int, j: int)
    requires
        stride >= 1,
        0 <= j,
        j * stride <= len,
    ensures
        count_ones_spec(stride_seq(len, stride).take(j * stride)) == j,
    decreases j,
{
    if j == 0 {
        assert(j * stride == 0) by (nonlinear_arith)
            requires
                j == 0,
        ;
        assert(stride_seq(len, stride).take(0) =~= Seq::<bool>::empty());
    } else {
        assert((j - 1) * stride + stride == j * stride) by (nonlinear_arith);
        assert((j - 1) * stride <= len) by (nonlinear_arith)
            requires
                stride >= 1,
                j >= 1,
                j * stride <= len,
        ;
        lemma_stride_count(len, stride, j - 1);
        lemma_stride_window(len, stride, j - 1, stride);
        assert(count_ones_spec(stride_seq(len, stride).take((j - 1) * stride + stride)) == j);
        assert(count_ones_spec(stride_seq(len, stride).take(j * stride)) == j);
    }
}

/// An evenly spaced pattern whose length is a whole number of strides holds
/// exactly one set bit per stride.
pub proof fn lemma_stride_total_count(len: nat, stride: int, k: int)
    requires
        stride >= 1,
        0 <= k,
        k * stride == len,
    ensures
        count_ones_spec(stride_seq(len, stride)) == k,
{
    lemma_stride_count(len, stride, k);
    assert(stride_seq(len, stride).take(k * stride) =~= stride_seq(len, stride));
}

/// In a stride pattern the `j`-th set bit lies exactly at position
/// `j * stride`.
pub proof fn lemma_stride_select(len: nat, stride: int, j: int)
    requires
        stride >= 1,
        0 <= j,
        j * stride < len,
    ensures
        j < count_ones_spec(stride_seq(len, stride)),
        select_spec(stride_seq(len, stride), j) == j * stride,
{
    lemma_stride_count(len, stride, j);
    lemma_mod_multiples_basic(j, stride);
    assert(j * stride >= 0) by (nonlinear_arith)
        requires
            j >= 0,
            stride >= 1,
    ;
    assert(stride_seq(len, stride)[j * stride]);
    lemma_select_spec_unique(stride_seq(len, stride), j, j * stride);
}

impl BitVector {
    /// Build the pattern with ones at every multiple of `stride`.
    pub fn stride_pattern(len: usize, stride: usize) -> (r: BitVector)
        requires
            stride >= 1,
            len <= usize::MAX - 64,
        ensures
            r.wf(),
            r.len == len,
            r@ == stride_seq(len as nat, stride as int),
    {
        let mut bv = BitVector::new();
        let mut i: usize = 0;
        proof {
            assert(bv@ =~= stride_seq(0, stride as int));
        }
        while i < len
            invariant
                bv.wf(),
                bv.len == i,
                i <= len,
                stride >= 1,
                len <= usize::MAX - 64,
                bv@ == stride_seq(i as nat, stride as int),
            decreases len - i,
        {
            bv.push_bit(i % stride == 0);
            i = i + 1;
            proof {
                assert(bv@ =~= stride_seq(i as nat, stride as int));
            }
        }
        bv
    }

    /// Checked construction from raw words: accepted exactly when the words
    /// have capacity for `len` bits. The result is brought to canonical form;
    /// bits beyond `len` in the input are ignored.
    pub fn from_words(words: Vec<u64>, len: usize) -> (r: Option<BitVector>)
        ensures
            r is Some <==> len <= words@.len() * 64,
            r is Some ==> r->Some_0.wf(),
            r is Some ==> r->Some_0.len == len,
            r is Some ==> forall|i: int|
                0 <= i < len ==> #[trigger] r->Some_0@[i] == word_bit(
                    words@[i / 64],
                    (i % 64) as u64,
                ),
    {
        proof {
            lemma_fundamental_div_mod(len as int, 64);
            lemma_fundamental_div_mod(len as int + 63, 64);
        }
        let need = len / 64 + if len % 64 == 0 {
            0
        } else {
            1
        };
        if need > words.len() {
            proof {
                assert(len > words@.len() * 64);
            }
            return None;
        }
        let mut ws: Vec<u64> = Vec::new();
        let mut i: usize = 0;
        while i < need
            invariant
                i <= need,
                need <= words@.len(),
                ws@ == words@.take(i as int),
            decreases need - i,
        {
            ws.push(words[i]);
            proof {
                assert(ws@ =~= words@.take(i + 1));
            }
            i = i + 1;
        }
        if len % 64 != 0 {
            let m = (len % 64) as u64;
            proof {
                assert(1u64 << m >= 1) by (bit_vector)
                    requires
                        m < 64,
                ;
            }
            let last = ws[need - 1];
            ws.set(need - 1, last & ((1u64 << m) - 1));
        }
        let bv = BitVector { words: ws, len };
        proof {
            lemma_from_words_correct(words@, bv, need as int);
        }
        Some(bv)
    }
}

/// Masking with `(1 << m) - 1` keeps exactly the bits below `m`.
proof fn lemma_mask_bit(w: u64, m: u64, j: u64)
    requires
        1 <= m < 64,
        j < 64,
    ensures
        word_bit(w & (((1u64 << m) - 1) as u64), j) == (j < m && word_bit(w, j)),
{
    assert(((((w & (((1u64 << m) - 1) as u64)) >> j) & 1) == 1) == (j < m && (((w >> j) & 1) == 1)))
        by (bit_vector)
        requires
            1 <= m < 64,
            j < 64,
    ;
}

/// Correctness of checked construction: canonical form holds and every bit
/// below `len` is read from the input words unchanged.
proof fn lemma_from_words_correct(words: Seq<u64>, bv: BitVector, need: int)
    requires
        bv.len <= words.len() * 64,
        need == (bv.len + 63) / 64,
        need <= words.len(),
        bv.len as int % 64 == 0 ==> bv.words@ == words.take(need),
        bv.len as int % 64 != 0 ==> bv.words@ == words.take(need).update(
            need - 1,
            words[need - 1] & (((1u64 << ((bv.len as int % 64) as u64)) - 1) as u64),
        ),
    ensures
        bv.wf(),
        forall|i: int|
            0 <= i < bv.len ==> #[trigger] bv@[i] == word_bit(words[i / 64], (i % 64) as u64),
{
    let len = bv.len as int;
    let m = len % 64;
    lemma_fundamental_div_mod(len, 64);
    lemma_fundamental_div_mod(len + 63, 64);
    assert(bv.words@.len() == need);
    assert forall|j: int, k: u64|
        0 <= j < bv.words@.len() && k < 64 && j * 64 + k >= bv.len implies !(#[trigger] word_bit(
        bv.words@[j],
        k,
    )) by {
        assert(j == need - 1 && m != 0) by {
            if j < need - 1 {
                assert(j * 64 + k < (need - 1) * 64 + 64);
            }
        }
        lemma_mask_bit(words[j], m as u64, k);
        assert(k >= m);
    }
    assert forall|i: int| 0 <= i < bv.len implies #[trigger] bv@[i] == word_bit(
        words[i / 64],
        (i % 64) as u64,
    ) by {
        lemma_fundamental_div_mod(i, 64);
        assert(0 <= i / 64 < need);
        if m != 0 && i / 64 == need - 1 {
            assert(i % 64 < m);
            lemma_mask_bit(words[need - 1], m as u64, (i % 64) as u64);
        }
    }
}

/// Shifting away the bits below `k` leaves equal values when all bits from
/// `k` upward agree.
proof fn lemma_word_eq_shift_rec(w1: u64, w2: u64, k: u64)
    requires
        k <= 64,
        forall|j: u64| k <= j < 64 ==> #[trigger] word_bit(w1, j) == word_bit(w2, j),
    ensures
        w1 >> k == w2 >> k,
    decreases 64 - k,
{
    if k == 64 {
        assert(w1 >> 64u64 == 0 && w2 >> 64u64 == 0) by (bit_vector);
    } else {
        let k1 = (k + 1) as u64;
        lemma_word_eq_shift_rec(w1, w2, k1);
        assert(word_bit(w1, k) == word_bit(w2, k));
        assert(((w1 >> k) & 1 == 1) == ((w2 >> k) & 1 == 1));
        assert(w1 >> k == ((w1 >> k1) << 1u64) | ((w1 >> k) & 1) && ((w1 >> k) & 1 == 0 || (w1
            >> k) & 1 == 1)) by (bit_vector)
            requires
                k < 64,
                k1 == k + 1,
        ;
        assert(w2 >> k == ((w2 >> k1) << 1u64) | ((w2 >> k) & 1) && ((w2 >> k) & 1 == 0 || (w2
            >> k) & 1 == 1)) by (bit_vector)
            requires
                k < 64,
                k1 == k + 1,
        ;
    }
}

/// Two words with the same bits are the same word.
proof fn lemma_word_eq_by_bits(w1: u64, w2: u64)
    requires
        forall|j: u64| j < 64 ==> #[trigger] word_bit(w1, j) == word_bit(w2, j),
    ensures
        w1 == w2,
{
    lemma_word_eq_shift_rec(w1, w2, 0);
    assert(w1 >> 0u64 == w1 && w2 >> 0u64 == w2) by (bit_vector);
}

/// The packed form is canonical: well-formed vectors with the same bit
/// content hold identical words and length. A generator that repeats the
/// same drawn bits therefore reproduces bit-identical packed output.
pub proof fn lemma_canonical_representation(a: BitVector, b: BitVector)
    requires
        a.wf(),
        b.wf(),
        a@ == b@,
    ensures
        a.len == b.len,
        a.words@ == b.words@,
{
    assert(a@.len() == a.len as nat);
    assert(b@.len() == b.len as nat);
    assert(a@.len() == b@.len());
    assert(a.len == b.len);
    assert(a.words@.len() == b.words@.len());
    assert forall|j: int| 0 <= j < a.words@.len() implies a.words@[j] == b.words@[j] by {
        assert(j * 64 + 63 < a.words@.len() * 64) by (nonlinear_arith)
            requires
                0 <= j < a.words@.len(),
        ;
        assert forall|k: u64| k < 64 implies word_bit(a.words@[j], k) == word_bit(
            b.words@[j],
            k,
        ) by {
            let i = j * 64 + k;
            lemma_fundamental_div_mod(a.len as int + 63, 64);
            if i < a.len {
                lemma_fundamental_div_mod_converse(i, 64, j, k as int);
                assert(i / 64 == j);
                assert(i % 64 == k as int);
                assert(a@[i] == word_bit(a.words@[j], k));
                assert(b@[i] == word_bit(b.words@[j], k));
                assert(a@[i] == b@[i]);
            } else {
                assert(j * 64 + k >= a.len);
                assert(j * 64 + k >= b.len);
                assert(!word_bit(a.words@[j], k));
                assert(!word_bit(b.words@[j], k));
            }
        }
        lemma_word_eq_by_bits(a.words@[j], b.words@[j]);
    }
    assert(a.words@ =~= b.words@);
}

/// Bit `j` of `w | (1 << k)` is set exactly when `j == k` or bit `j` of `w` is.
proof fn lemma_or_bit(w: u64, k: u64, j: u64)
    requires
        k < 64,
        j < 64,
    ensures
        word_bit(w | (1u64 << k), j) == (j == k || word_bit(w, j)),
{
    assert(((((w | (1u64 << k)) >> j) & 1) == 1) == (j == k || (((w >> j) & 1) == 1)))
        by (bit_vector)
        requires
            k < 64,
            j < 64,
    ;
}

/// The words 0 and 1 carry no set bit except, for 1, the lowest.
proof fn lemma_unit_word_bits(j: u64)
    requires
        j < 64,
    ensures
        word_bit(1u64, j) == (j == 0),
        !word_bit(0u64, j),
{
    assert(((((1u64) >> j) & 1) == 1) == (j == 0) && (((0u64) >> j) & 1) != 1) by (bit_vector)
        requires
            j < 64,
    ;
}

/// Correctness of appending one bit: the canonical form is kept and the view
/// grows by exactly that bit.
proof fn lemma_push_bit_correct(prev: BitVector, cur: BitVector, b: bool, idx: int, k: u64)
    requires
        prev.wf(),
        prev.len < usize::MAX - 63,
        idx == prev.len as int / 64,
        k == prev.len as int % 64,
        cur.len == prev.len + 1,
        k == 0 ==> cur.words@ == prev.words@.push(if b { 1u64 } else { 0u64 }),
        k != 0 && b ==> cur.words@ == prev.words@.update(idx, prev.words@[idx] | (1u64 << k)),
        k != 0 && !b ==> cur.words@ == prev.words@,
    ensures
        cur.wf(),
        cur@ == prev@.push(b),
{
    lemma_fundamental_div_mod(prev.len as int, 64);
    lemma_fundamental_div_mod(prev.len as int + 63, 64);
    lemma_fundamental_div_mod(prev.len as int + 64, 64);
    // The new word count is right in either case.
    assert(cur.words@.len() == (cur.len + 63) / 64);
    // Storage positions at or past the new length are still zero.
    assert forall|j: int, kk: u64|
        0 <= j < cur.words@.len() && kk < 64 && j * 64 + kk >= cur.len implies !(#[trigger] word_bit(
        cur.words@[j],
        kk,
    )) by {
        if k == 0 {
            if j < prev.words@.len() {
                assert(!word_bit(prev.words@[j], kk));
            } else {
                lemma_unit_word_bits(kk);
                assert(j == idx);
                assert(kk >= 1);
            }
        } else {
            if b && j == idx {
                lemma_or_bit(prev.words@[idx], k, kk);
                assert(kk != k);
                assert(!word_bit(prev.words@[j], kk));
            } else {
                assert(!word_bit(prev.words@[j], kk));
            }
        }
    }
    // The view is the old view with `b` appended.
    assert forall|i: int| 0 <= i < cur.len implies cur@[i] == prev@.push(b)[i] by {
        lemma_fundamental_div_mod(i, 64);
        if i < prev.len {
            if k != 0 && b && i / 64 == idx {
                lemma_or_bit(prev.words@[idx], k, (i % 64) as u64);
                assert(i == 64 * idx + i % 64);
                assert(prev.len == 64 * idx + k);
                assert((i % 64) as u64 != k);
            }
        } else {
            assert(i == prev.len);
            if k == 0 {
                lemma_unit_word_bits(0);
                assert(word_bit(if b { 1u64 } else { 0u64 }, 0) == b);
            } else {
                if b {
                    lemma_or_bit(prev.words@[idx], k, k);
                } else {
                    assert(!word_bit(prev.words@[idx], k));
                }
            }
        }
    }
    assert(cur@ =~= prev@.push(b));
}

/// For a storage position `i` inside a well-formed vector, the word index
/// `i / 64` is in range.
proof fn lemma_pos_decomposition(i: int, num_words: int, len: int)
    requires
        0 <= i < len,
        num_words == (len + 63) / 64,
    ensures
        0 <= i / 64 < num_words,
        0 <= i % 64 < 64,
{
    lemma_fundamental_div_mod(i, 64);
    lemma_fundamental_div_mod(len + 63, 64);
}

} // verus!
