use vstd::prelude::*;
use vstd::std_specs::bits::{axiom_u64_leading_zeros, axiom_u64_trailing_zeros, u64_trailing_zeros};

verus! {

/// Whether bit `j` of `w` is set.
spec fn word_bit(w: u64, j: u64) -> bool {
    (w >> j) & 1u64 == 1u64
}

/// How bit `j` of each bitwise combination of two words relates to bit `j`
/// of the operands, and how whole-word comparisons read bit by bit.
proof fn lemma_bitwise_pair(a: u64, b: u64)
    by (bit_vector)
    ensures
        forall|j: u64|
            j < 64 ==> #[trigger] word_bit(a & b, j) == (word_bit(a, j) && word_bit(b, j)),
        forall|j: u64|
            j < 64 ==> #[trigger] word_bit(a | b, j) == (word_bit(a, j) || word_bit(b, j)),
        forall|j: u64|
            j < 64 ==> #[trigger] word_bit(a ^ b, j) == (word_bit(a, j) != word_bit(b, j)),
        forall|j: u64| j < 64 ==> #[trigger] word_bit(!a, j) == !word_bit(a, j),
        ((a | b) == a) == ((b & !a) == 0u64),
        ((a ^ b) == 0u64) == (a == b),
        (a & b) == 0 ==> forall|j: u64| j < 64 ==> !(#[trigger] word_bit(a, j) && word_bit(b, j)),
        a == 0 ==> forall|j: u64| j < 64 ==> !#[trigger] word_bit(a, j),
{
}

/// A nonzero word has its bit set at its trailing-zero count.
proof fn lemma_lowest_bit(w: u64)
    requires
        w != 0,
    ensures
        u64_trailing_zeros(w) < 64,
        word_bit(w, u64_trailing_zeros(w) as u64),
        forall|j: u64| j < u64_trailing_zeros(w) ==> !#[trigger] word_bit(w, j),
{
    axiom_u64_trailing_zeros(w);
}

/// How setting or clearing bit `j` of a word changes each bit.
proof fn lemma_single_bit(a: u64, j: u64)
    by (bit_vector)
    requires
        j < 64,
    ensures
        forall|j2: u64|
            j2 < 64 ==> #[trigger] word_bit(a | (1u64 << j), j2) == (j2 == j || word_bit(a, j2)),
        forall|j2: u64|
            j2 < 64 ==> #[trigger] word_bit(a & !(1u64 << j), j2) == (j2 != j && word_bit(a, j2)),
{
}

/// A bit read by shift-and-mask is zero or one, and the masked test agrees
/// with it.
proof fn lemma_bit_read(w: u64, j: u64)
    by (bit_vector)
    requires
        j < 64,
    ensures
        ((w >> j) & 1u64 == 0u64) || ((w >> j) & 1u64 == 1u64),
        (w & (1u64 << j) != 0) == word_bit(w, j),
{
}

/// `w & (w - 1)` clears exactly the lowest set bit `t` of `w`, identified by
/// its set bit with nothing below it (the shifted form of "nothing below").
proof fn lemma_clear_lowest(w: u64, t: u64)
    by (bit_vector)
    requires
        t < 64,
        (w >> t) & 1u64 == 1u64,
        w << ((64 - t) as u64) == 0,
    ensures
        forall|j: u64|
            j < 64 ==> #[trigger] word_bit(w & ((w - 1) as u64), j) == (word_bit(w, j) && j != t),
{
}

/// The position `64 * i + j` of bit `j` of word `i` divides back out.
proof fn lemma_bit_position(i: int, j: int)
    by (nonlinear_arith)
    requires
        0 <= i,
        0 <= j < 64,
    ensures
        (64 * i + j) / 64 == i,
        (64 * i + j) % 64 == j,
{
}

/// The number of `true` entries of a boolean sequence.
pub open spec fn count_trues(s: Seq<bool>) -> nat
    decreases s.len(),
{
    if s.len() == 0 {
        0
    } else {
        count_trues(s.drop_last()) + if s.last() {
            1nat
        } else {
            0nat
        }
    }
}

/// A set of bits with a fixed length, configurable through `L`, the number
/// of 64-bit words used to store the bits. Viewed as a boolean sequence of
/// length `64 * L`.
#[derive(Clone, Debug, Hash)]
pub struct BitSet<const L: usize> {
    words: Vec<u64>,
}

impl<const L: usize> View for BitSet<L> {
    type V = Seq<bool>;

    closed spec fn view(&self) -> Seq<bool> {
        Seq::new((64 * L) as nat, |k: int| word_bit(self.words@[k / 64], (k % 64) as u64))
    }
}

impl<const L: usize> PartialEq for BitSet<L> {
    /// Two bit sets are equal when all their backing words agree.
    fn eq(&self, other: &Self) -> (r: bool) {
        let r = self.words == other.words;
        proof {
            if self.words@.len() == other.words@.len() && (forall|n: int|
                #![auto]
                0 <= n < self.words@.len() ==> self.words@[n] == other.words@[n]) {
                assert(self.words@ =~= other.words@);
            }
        }
        r
    }
}

impl<const L: usize> Eq for BitSet<L> {

}

impl<const L: usize> vstd::std_specs::cmp::PartialEqSpecImpl for BitSet<L> {
    open spec fn obeys_eq_spec() -> bool {
        true
    }

    open spec fn eq_spec(&self, other: &Self) -> bool {
        self.words_view() == other.words_view()
    }
}

impl<const L: usize> BitSet<L> {
    pub closed spec fn wf(&self) -> bool {
        self.words@.len() == L
    }

    /// The backing words; two bit sets are `==` exactly when these agree.
    pub closed spec fn words_view(&self) -> Seq<u64> {
        self.words@
    }

    /// The empty bit set.
    pub fn new() -> (r: Self)
        ensures
            r.wf(),
            r@.len() == 64 * L,
            forall|k: int| 0 <= k < 64 * L ==> !r@[k],
    {
        let mut words: Vec<u64> = Vec::new();
        let mut i: usize = 0;
        while i < L
            invariant
                i <= L,
                words@.len() == i,
                forall|n: int| 0 <= n < i ==> words@[n] == 0u64,
            decreases L - i,
        {
            words.push(0);
            i = i + 1;
        }
        let r = BitSet { words };
        proof {
            assert forall|k: int| 0 <= k < 64 * L implies !r@[k] by {
                lemma_bitwise_pair(r.words@[k / 64], 0);
            }
        }
        r
    }

    /// The bit set holding exactly `index`.
    pub fn from_index(index: usize) -> (r: Self)
        requires
            index < 64 * L,
        ensures
            r.wf(),
            r@.len() == 64 * L,
            forall|k: int| 0 <= k < 64 * L ==> r@[k] == (k == index),
    {
        let mut bit_set = Self::new();
        bit_set.set(index);
        bit_set
    }

    /// Sets the bit at `index`.
    pub fn set(&mut self, index: usize)
        requires
            old(self).wf(),
            index < 64 * L,
        ensures
            final(self).wf(),
            final(self)@ == old(self)@.update(index as int, true),
    {
        let i = index / 64;
        let j = index % 64;
        proof {
            lemma_bit_position(i as int, j as int);
            assert(i < L) by (nonlinear_arith)
                requires
                    64 * (i as int) + (j as int) < 64 * L && 0 <= j < 64 && 0 <= i,
            ;
        }
        let w = self.words[i];
        self.words[i] = w | (1u64 << (j as u64));
        proof {
            lemma_single_bit(w, j as u64);
            assert forall|k: int| 0 <= k < 64 * L implies self@[k] == old(self)@.update(
                index as int,
                true,
            )[k] by {
                lemma_bit_position(k / 64, k % 64);
            }
            assert(self@ =~= old(self)@.update(index as int, true));
        }
    }

    /// Clears the bit at `index`.
    pub fn clear(&mut self, index: usize)
        requires
            old(self).wf(),
            index < 64 * L,
        ensures
            final(self).wf(),
            final(self)@ == old(self)@.update(index as int, false),
    {
        let i = index / 64;
        let j = index % 64;
        proof {
            lemma_bit_position(i as int, j as int);
            assert(i < L) by (nonlinear_arith)
                requires
                    64 * (i as int) + (j as int) < 64 * L && 0 <= j < 64 && 0 <= i,
            ;
        }
        let w = self.words[i];
        self.words[i] = w & !(1u64 << (j as u64));
        proof {
            lemma_single_bit(w, j as u64);
            assert forall|k: int| 0 <= k < 64 * L implies self@[k] == old(self)@.update(
                index as int,
                false,
            )[k] by {
                lemma_bit_position(k / 64, k % 64);
            }
            assert(self@ =~= old(self)@.update(index as int, false));
        }
    }

    /// Whether the bit at `index` is set.
    pub fn test(&self, index: usize) -> (r: bool)
        requires
            self.wf(),
            index < 64 * L,
        ensures
            r == self@[index as int],
    {
        let i = index / 64;
        let j = index % 64;
        proof {
            lemma_bit_position(i as int, j as int);
            assert(i < L) by (nonlinear_arith)
                requires
                    64 * (i as int) + (j as int) < 64 * L && 0 <= j < 64 && 0 <= i,
            ;
            lemma_bit_read(self.words@[i as int], j as u64);
        }
        self.words[i] & (1u64 << (j as u64)) != 0
    }

    /// Whether every bit of `other` is also set in `self`.
    pub fn contains(&self, other: &Self) -> (r: bool)
        requires
            self.wf(),
            other.wf(),
        ensures
            r == (forall|k: int| 0 <= k < 64 * L && other@[k] ==> self@[k]),
    {
        let mut i: usize = 0;
        while i < L
            invariant
                self.wf(),
                other.wf(),
                i <= L,
                forall|k: int| 0 <= k < 64 * i && other@[k] ==> self@[k],
            decreases L - i,
        {
            let a = self.words[i];
            let b = other.words[i];
            if (a | b) != a {
                proof {
                    lemma_bitwise_pair(a, b);
                    lemma_bitwise_pair(b, !a);
                    lemma_lowest_bit(b & !a);
                    let j = u64_trailing_zeros(b & !a) as u64;
                    lemma_bit_position(i as int, j as int);
                    assert(other@[64 * (i as int) + j] && !self@[64 * (i as int) + j]);
                }
                return false;
            }
            proof {
                lemma_bitwise_pair(a, b);
                lemma_bitwise_pair(b, !a);
                assert forall|k: int| 0 <= k < 64 * (i + 1) && other@[k] implies self@[k] by {
                    lemma_bit_position(k / 64, k % 64);
                }
            }
            i = i + 1;
        }
        true
    }

    /// Whether `self` and `other` have no set bit in common.
    pub fn contains_none(&self, other: &Self) -> (r: bool)
        requires
            self.wf(),
            other.wf(),
        ensures
            r == (forall|k: int| 0 <= k < 64 * L ==> !(self@[k] && other@[k])),
    {
        let mut i: usize = 0;
        while i < L
            invariant
                self.wf(),
                other.wf(),
                i <= L,
                forall|k: int| 0 <= k < 64 * i ==> !(self@[k] && other@[k]),
            decreases L - i,
        {
            let a = self.words[i];
            let b = other.words[i];
            if (a & b) != 0 {
                proof {
                    lemma_bitwise_pair(a, b);
                    lemma_lowest_bit(a & b);
                    let j = u64_trailing_zeros(a & b) as u64;
                    lemma_bit_position(i as int, j as int);
                    assert(self@[64 * (i as int) + j] && other@[64 * (i as int) + j]);
                }
                return false;
            }
            proof {
                lemma_bitwise_pair(a, b);
                assert forall|k: int| 0 <= k < 64 * (i + 1) implies !(self@[k] && other@[k]) by {
                    lemma_bit_position(k / 64, k % 64);
                }
            }
            i = i + 1;
        }
        true
    }

    /// Whether `self` and `other` share at least one set bit.
    pub fn contains_some(&self, other: &Self) -> (r: bool)
        requires
            self.wf(),
            other.wf(),
        ensures
            r == !(forall|k: int| 0 <= k < 64 * L ==> !(self@[k] && other@[k])),
    {
        !self.contains_none(other)
    }

    /// Combines the words of `self` and `other` elementwise.
    fn zip_words(&self, other: &Self, which: u8) -> (r: Self)
        requires
            self.wf(),
            other.wf(),
            which < 3,
        ensures
            r.wf(),
            forall|n: int|
                0 <= n < L ==> #[trigger] r.words@[n] == (if which == 0 {
                    self.words@[n] & other.words@[n]
                } else if which == 1 {
                    self.words@[n] | other.words@[n]
                } else {
                    self.words@[n] ^ other.words@[n]
                }),
    {
        let mut words: Vec<u64> = Vec::new();
        let mut i: usize = 0;
        while i < L
            invariant
                self.wf(),
                other.wf(),
                which < 3,
                i <= L,
                words@.len() == i,
                forall|n: int|
                    0 <= n < i ==> #[trigger] words@[n] == (if which == 0 {
                        self.words@[n] & other.words@[n]
                    } else if which == 1 {
                        self.words@[n] | other.words@[n]
                    } else {
                        self.words@[n] ^ other.words@[n]
                    }),
            decreases L - i,
        {
            let w = if which == 0 {
                self.words[i] & other.words[i]
            } else if which == 1 {
                self.words[i] | other.words[i]
            } else {
                self.words[i] ^ other.words[i]
            };
            words.push(w);
            i = i + 1;
        }
        BitSet { words }
    }

    /// The bits of `self` without the bits of `other`.
    pub fn difference(&self, other: &Self) -> (r: Self)
        requires
            self.wf(),
            other.wf(),
        ensures
            r.wf(),
            r@.len() == 64 * L,
            forall|k: int| 0 <= k < 64 * L ==> #[trigger] r@[k] == (self@[k] && !other@[k]),
    {
        let flipped = other.not();
        self.intersection(&flipped)
    }

    /// The bits set in `self` or in `other`, but not in both.
    pub fn symmetric_difference(&self, other: &Self) -> (r: Self)
        requires
            self.wf(),
            other.wf(),
        ensures
            r.wf(),
            r@.len() == 64 * L,
            forall|k: int| 0 <= k < 64 * L ==> #[trigger] r@[k] == (self@[k] != other@[k]),
    {
        let r = self.zip_words(other, 2);
        proof {
            assert forall|k: int| 0 <= k < 64 * L implies #[trigger] r@[k] == (self@[k]
                != other@[k]) by {
                lemma_bit_position(k / 64, k % 64);
                lemma_bitwise_pair(self.words@[k / 64], other.words@[k / 64]);
            }
        }
        r
    }

    /// The bits set in both `self` and `other`.
    pub fn intersection(&self, other: &Self) -> (r: Self)
        requires
            self.wf(),
            other.wf(),
        ensures
            r.wf(),
            r@.len() == 64 * L,
            forall|k: int| 0 <= k < 64 * L ==> #[trigger] r@[k] == (self@[k] && other@[k]),
    {
        let r = self.zip_words(other, 0);
        proof {
            assert forall|k: int| 0 <= k < 64 * L implies #[trigger] r@[k] == (self@[k]
                && other@[k]) by {
                lemma_bit_position(k / 64, k % 64);
                lemma_bitwise_pair(self.words@[k / 64], other.words@[k / 64]);
            }
        }
        r
    }

    /// The bits set in `self`, in `other`, or in both.
    pub fn union(&self, other: &Self) -> (r: Self)
        requires
            self.wf(),
            other.wf(),
        ensures
            r.wf(),
            r@.len() == 64 * L,
            forall|k: int| 0 <= k < 64 * L ==> #[trigger] r@[k] == (self@[k] || other@[k]),
    {
        let r = self.zip_words(other, 1);
        proof {
            assert forall|k: int| 0 <= k < 64 * L implies #[trigger] r@[k] == (self@[k]
                || other@[k]) by {
                lemma_bit_position(k / 64, k % 64);
                lemma_bitwise_pair(self.words@[k / 64], other.words@[k / 64]);
            }
        }
        r
    }

    /// The complement: every bit flipped.
    pub fn not(&self) -> (r: Self)
        requires
            self.wf(),
        ensures
            r.wf(),
            r@.len() == 64 * L,
            forall|k: int| 0 <= k < 64 * L ==> #[trigger] r@[k] == !self@[k],
    {
        let mut words: Vec<u64> = Vec::new();
        let mut i: usize = 0;
        while i < L
            invariant
                self.wf(),
                i <= L,
                words@.len() == i,
                forall|n: int| 0 <= n < i ==> #[trigger] words@[n] == !self.words@[n],
            decreases L - i,
        {
            words.push(!self.words[i]);
            i = i + 1;
        }
        let r = BitSet { words };
        proof {
            assert forall|k: int| 0 <= k < 64 * L implies #[trigger] r@[k] == !self@[k] by {
                lemma_bit_position(k / 64, k % 64);
                lemma_bitwise_pair(self.words@[k / 64], 0);
            }
        }
        r
    }

    /// The number of zero bits above the highest set bit, or `64 * L` when
    /// no bit is set.
    pub fn leading_zeros(&self) -> (r: usize)
        requires
            self.wf(),
            L <= usize::MAX / 64,
        ensures
            r <= 64 * L,
            r < 64 * L ==> self@[64 * L - 1 - r] && (forall|k: int|
                64 * L - 1 - r < k < 64 * L ==> !self@[k]),
            r == 64 * L ==> forall|k: int| 0 <= k < 64 * L ==> !self@[k],
    {
        let mut i: usize = L;
        while i > 0
            invariant
                self.wf(),
                L <= usize::MAX / 64,
                i <= L,
                forall|k: int| 64 * i <= k < 64 * L ==> !self@[k],
            decreases i,
        {
            i = i - 1;
            proof {
                assert(64 * (L as int) <= usize::MAX) by (nonlinear_arith)
                    requires
                        L <= usize::MAX / 64,
                ;
            }
            let w = self.words[i];
            if w > 0 {
                let lz = w.leading_zeros() as usize;
                proof {
                    axiom_u64_leading_zeros(w);
                    lemma_bit_read(w, (63 - lz) as u64);
                    assert(64 * (L as int) <= usize::MAX) by (nonlinear_arith)
                        requires
                            L <= usize::MAX / 64,
                    ;
                    assert forall|k: int| 64 * (i as int) + 64 - lz <= k < 64 * L implies !self@[k]
                        by {
                        if k < 64 * (i as int) + 64 {
                            lemma_bit_position(i as int, k - 64 * i);
                        }
                    }
                    lemma_bit_position(i as int, 63 - lz);
                    assert((64 * (L as int) - 1) - ((L - 1 - i as int) * 64 + lz) == 64 * (
                    i as int) + 63 - lz) by (nonlinear_arith);
                }
                return (L - 1 - i) * 64 + lz;
            }
            proof {
                lemma_bitwise_pair(w, 0);
                assert forall|k: int| 64 * (i as int) <= k < 64 * L implies !self@[k] by {
                    if k < 64 * (i as int) + 64 {
                        lemma_bit_position(i as int, k - 64 * i);
                    }
                }
            }
        }
        proof {
            assert(64 * (L as int) <= usize::MAX) by (nonlinear_arith)
                requires
                    L <= usize::MAX / 64,
            ;
        }
        64 * L
    }

    /// The number of zero bits below the lowest set bit, or `64 * L` when no
    /// bit is set.
    pub fn trailing_zeros(&self) -> (r: usize)
        requires
            self.wf(),
            L <= usize::MAX / 64,
        ensures
            r <= 64 * L,
            r < 64 * L ==> self@[r as int] && (forall|k: int| 0 <= k < r ==> !self@[k]),
            r == 64 * L ==> forall|k: int| 0 <= k < 64 * L ==> !self@[k],
    {
        let mut i: usize = 0;
        while i < L
            invariant
                self.wf(),
                L <= usize::MAX / 64,
                i <= L,
                forall|k: int| 0 <= k < 64 * i ==> !self@[k],
            decreases L - i,
        {
            let w = self.words[i];
            if w > 0 {
                let tz = w.trailing_zeros() as usize;
                proof {
                    axiom_u64_trailing_zeros(w);
                    lemma_bit_position(i as int, tz as int);
                    assert forall|k: int| 0 <= k < 64 * (i as int) + tz implies !self@[k] by {
                        if 64 * (i as int) <= k {
                            lemma_bit_position(i as int, k - 64 * i);
                        }
                    }
                }
                return i * 64 + tz;
            }
            proof {
                lemma_bitwise_pair(w, 0);
                assert forall|k: int| 0 <= k < 64 * (i as int) + 64 implies !self@[k] by {
                    if 64 * (i as int) <= k {
                        lemma_bit_position(i as int, k - 64 * i);
                    }
                }
            }
            i = i + 1;
        }
        proof {
            assert(64 * (L as int) <= usize::MAX) by (nonlinear_arith)
                requires
                    L <= usize::MAX / 64,
            ;
        }
        64 * L
    }

    /// The number of set bits.
    pub fn count_ones(&self) -> (r: usize)
        requires
            self.wf(),
            L <= usize::MAX / 64,
        ensures
            r == count_trues(self@),
    {
        let mut total: usize = 0;
        let mut i: usize = 0;
        proof {
            assert(self@.take(0) =~= Seq::<bool>::empty());
        }
        while i < L
            invariant
                self.wf(),
                L <= usize::MAX / 64,
                i <= L,
                total <= 64 * i,
                total == count_trues(self@.take(64 * i as int)),
            decreases L - i,
        {
            let w = self.words[i];
            let mut j: usize = 0;
            while j < 64
                invariant
                    self.wf(),
                    L <= usize::MAX / 64,
                    i < L,
                    j <= 64,
                    w == self.words@[i as int],
                    total <= 64 * i + j,
                    total == count_trues(self@.take(64 * i + j)),
                decreases 64 - j,
            {
                proof {
                    lemma_bit_position(i as int, j as int);
                    assert(self@.take(64 * i + j + 1).drop_last() =~= self@.take(64 * i + j));
                    assert(64 * (i as int) + j < 64 * (L as int)) by (nonlinear_arith)
                        requires
                            0 <= j < 64 && 0 <= i < L,
                    ;
                    assert(64 * (L as int) <= usize::MAX) by (nonlinear_arith)
                        requires
                            L <= usize::MAX / 64,
                    ;
                }
                if (w >> (j as u64)) & 1u64 == 1u64 {
                    total = total + 1;
                }
                j = j + 1;
            }
            i = i + 1;
        }
        proof {
            assert(self@.take(64 * (L as int)) =~= self@);
        }
        total
    }

    /// Whether no bit is set.
    pub fn is_empty(&self) -> (r: bool)
        requires
            self.wf(),
        ensures
            r == (forall|k: int| 0 <= k < 64 * L ==> !self@[k]),
    {
        let mut i: usize = 0;
        while i < L
            invariant
                self.wf(),
                i <= L,
                forall|k: int| 0 <= k < 64 * i ==> !self@[k],
            decreases L - i,
        {
            let w = self.words[i];
            if w != 0 {
                proof {
                    lemma_lowest_bit(w);
                    let j = u64_trailing_zeros(w) as u64;
                    lemma_bit_position(i as int, j as int);
                    assert(self@[64 * (i as int) + j]);
                }
                return false;
            }
            proof {
                lemma_bitwise_pair(w, 0);
                assert forall|k: int| 0 <= k < 64 * (i + 1) implies !self@[k] by {
                    if 64 * (i as int) <= k {
                        lemma_bit_position(i as int, k - 64 * i);
                    }
                }
            }
            i = i + 1;
        }
        true
    }

    /// The view always holds exactly `64 * L` bits, one per bit of the
    /// backing words.
    pub proof fn lemma_view_len(&self)
        ensures
            self@.len() == 64 * L,
    {
    }

    /// `==` (which compares the backing words) agrees with the bitwise view:
    /// two well-formed bit sets are equal exactly when every bit agrees.
    pub proof fn lemma_eq_is_bitwise(&self, other: &Self)
        requires
            self.wf(),
            other.wf(),
        ensures
            (self.words_view() == other.words_view()) == (self@ == other@),
    {
        if self.words_view() == other.words_view() {
            assert(self@ =~= other@);
        } else {
            assert(!(self.words_view() =~= other.words_view()));
            let n = choose|n: int|
                0 <= n < L && self.words_view()[n] != other.words_view()[n];
            let w1 = self.words_view()[n];
            let w2 = other.words_view()[n];
            lemma_bitwise_pair(w1, w2);
            lemma_lowest_bit(w1 ^ w2);
            let t = u64_trailing_zeros(w1 ^ w2) as u64;
            lemma_bit_position(n, t as int);
            assert(self@[64 * n + t] != other@[64 * n + t]);
        }
    }

    /// A cursor over the indices of the set bits, in increasing order.
    pub fn iter_indices(&self) -> (r: SetBitsIter<'_, L>)
        requires
            self.wf(),
            L <= usize::MAX / 64,
        ensures
            r.iter_wf(),
            forall|k: int| 0 <= k < 64 * L ==> #[trigger] r.remaining_bit(k) == self@[k],
    {
        let current = if L > 0 {
            self.words[0]
        } else {
            0
        };
        let r = SetBitsIter { set: self, word_index: 0, current };
        proof {
            assert forall|k: int| 0 <= k < 64 * L implies #[trigger] r.remaining_bit(k)
                == self@[k] by {
                lemma_bit_position(k / 64, k % 64);
            }
        }
        r
    }
}

/// Iterator over the indices of a bit set that are set to one, low to high.
/// `current` holds the not-yet-yielded bits of the word at `word_index`;
/// later words have not been touched.
pub struct SetBitsIter<'a, const L: usize> {
    set: &'a BitSet<L>,
    word_index: usize,
    current: u64,
}

impl<'a, const L: usize> SetBitsIter<'a, L> {
    pub closed spec fn iter_wf(&self) -> bool {
        &&& self.set.wf()
        &&& L <= usize::MAX / 64
        &&& self.word_index <= L
        &&& (self.word_index == L ==> self.current == 0)
    }

    /// Whether index `k` is still to be yielded.
    pub closed spec fn remaining_bit(&self, k: int) -> bool {
        let wi = self.word_index as int;
        if k < 64 * wi {
            false
        } else if k < 64 * wi + 64 && self.word_index < L {
            word_bit(self.current, (k - 64 * wi) as u64)
        } else if k < 64 * L {
            self.set@[k]
        } else {
            false
        }
    }

    /// No index outside `[0, 64 * L)` is ever still to be yielded, whatever
    /// state the cursor is in.
    pub proof fn lemma_remaining_in_range(&self)
        ensures
            forall|k: int| !(0 <= k < 64 * L) ==> !#[trigger] self.remaining_bit(k),
    {
    }

    /// Yields the lowest index not yet yielded whose bit is set, or `None`
    /// once none is left.
    pub fn next(&mut self) -> (r: Option<usize>)
        requires
            old(self).iter_wf(),
        ensures
            final(self).iter_wf(),
            r is None ==> (forall|k: int| !#[trigger] old(self).remaining_bit(k)) && (forall|
                k: int,
            | !#[trigger] final(self).remaining_bit(k)),
            r matches Some(found) ==> found < 64 * L && old(self).remaining_bit(found as int) && (
            forall|k: int| k < found ==> !#[trigger] old(self).remaining_bit(k)) && (forall|k: int|
                #[trigger] final(self).remaining_bit(k) == (old(self).remaining_bit(k) && k
                    != found)),
    {
        while self.current == 0
            invariant
                self.iter_wf(),
                forall|k: int| #[trigger] self.remaining_bit(k) == old(self).remaining_bit(k),
            decreases L - self.word_index,
        {
            let ghost prev = *self;
            if self.word_index + 1 >= L {
                self.word_index = L;
                self.current = 0;
                proof {
                    lemma_bitwise_pair(prev.current, 0);
                    assert forall|k: int| !#[trigger] prev.remaining_bit(k) by {}
                    assert forall|k: int| !#[trigger] old(self).remaining_bit(k) by {
                        assert(prev.remaining_bit(k) == old(self).remaining_bit(k));
                    }
                    assert forall|k: int| !#[trigger] self.remaining_bit(k) by {}
                }
                return None;
            }
            self.word_index = self.word_index + 1;
            self.current = self.set.words[self.word_index];
            proof {
                lemma_bitwise_pair(prev.current, 0);
                assert forall|k: int| #[trigger] self.remaining_bit(k) == prev.remaining_bit(
                    k,
                ) by {
                    lemma_bit_position(self.word_index as int, 0);
                    if 64 * (self.word_index as int) <= k < 64 * (self.word_index as int) + 64 {
                        lemma_bit_position(self.word_index as int, k - 64 * (
                        self.word_index as int));
                    }
                }
            }
        }
        let w = self.current;
        let tz = w.trailing_zeros() as usize;
        proof {
            axiom_u64_trailing_zeros(w);
            assert(64 * (L as int) <= usize::MAX) by (nonlinear_arith)
                requires
                    L <= usize::MAX / 64,
            ;
            assert(64 * (self.word_index as int) + tz < 64 * (L as int)) by (nonlinear_arith)
                requires
                    0 <= tz < 64 && 0 <= (self.word_index as int) < L,
            ;
        }
        let found = self.word_index * 64 + tz;
        let ghost prev = *self;
        self.current = w & (w - 1);
        proof {
            lemma_clear_lowest(w, tz as u64);
            assert(prev.remaining_bit(found as int));
            assert(old(self).remaining_bit(found as int)) by {
                assert(prev.remaining_bit(found as int) == old(self).remaining_bit(found as int));
            }
            assert forall|k: int| k < found implies !#[trigger] old(self).remaining_bit(k) by {
                assert(!prev.remaining_bit(k));
                assert(prev.remaining_bit(k) == old(self).remaining_bit(k));
            }
            assert forall|k: int| #[trigger] self.remaining_bit(k) == (old(self).remaining_bit(k)
                && k != found) by {
                assert(self.remaining_bit(k) == (prev.remaining_bit(k) && k != found));
                assert(prev.remaining_bit(k) == old(self).remaining_bit(k));
            }
        }
        Some(found)
    }
}

} // verus!
