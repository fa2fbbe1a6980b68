//! Bitmap of visited node indices with an amortised-O(1) clear.
//!
//! Each word carries the generation in which it was last written; a word
//! whose recorded generation differs from the current one reads as all
//! zeroes.  `clear` therefore only increments the generation counter, except
//! on wrap-around, where both arrays really are zeroed.

use vstd::prelude::*;
use vstd::pervasive::VecAdditionalExecFns;

verus! {

pub struct VisitedSet {
    bits: Vec<u64>,
    generation: u64,
    generations: Vec<u64>,
}

impl VisitedSet {
    /// Structural invariant: the two word arrays run in parallel, the
    /// generation counter is live, and no word is from the future.
    pub closed spec fn wf(&self) -> bool {
        &&& self.bits@.len() == self.generations@.len()
        &&& self.generation >= 1
        &&& forall|w: int|
            0 <= w < self.generations@.len() ==> self.generations@[w] <= self.generation
    }

    /// Number of words in the bitmap.
    pub closed spec fn words(&self) -> nat {
        self.bits@.len()
    }

    /// Whether index `i` reads as visited in the current generation.
    pub closed spec fn spec_contains(&self, i: int) -> bool {
        &&& 0 <= i
        &&& i / 64 < self.bits@.len()
        &&& self.generations@[i / 64] == self.generation
        &&& (self.bits@[i / 64] >> ((i % 64) as u64)) & 1 == 1
    }
}

impl View for VisitedSet {
    type V = Set<int>;

    /// The set of indices currently marked visited.
    closed spec fn view(&self) -> Set<int> {
        Set::new(|i: int| self.spec_contains(i))
    }
}

/// The word-level facts behind marking one bit: the chosen bit reads as set,
/// every other bit of the word is untouched, testing against the mask agrees
/// with reading the bit, and a zeroed word has no bits.
proof fn lemma_word_bits(w: u64, b: u64, b2: u64)
    requires
        b < 64,
        b2 < 64,
    ensures
        ((w | (1u64 << b)) >> b) & 1 == 1,
        b2 != b ==> ((w | (1u64 << b)) >> b2) & 1 == (w >> b2) & 1,
        (w & (1u64 << b) != 0) <==> ((w >> b) & 1 == 1),
        (0u64 >> b2) & 1 == 0,
{
    assert(((w | (1u64 << b)) >> b) & 1 == 1 && (b2 != b ==> ((w | (1u64 << b)) >> b2) & 1 == (w
        >> b2) & 1) && ((w & (1u64 << b) != 0) <==> ((w >> b) & 1 == 1)) && (0u64 >> b2) & 1 == 0)
        by (bit_vector)
        requires
            b < 64,
            b2 < 64,
    ;
}

/// An index determines its word and bit position, and conversely.
proof fn lemma_index_split(i: int, j: int)
    requires
        0 <= i,
        0 <= j,
        i / 64 == j / 64,
        i % 64 == j % 64,
    ensures
        i == j,
{
    assert(i == 64 * (i / 64) + i % 64);
    assert(j == 64 * (j / 64) + j % 64);
}

impl VisitedSet {
    /// A fresh set sized for `capacity` indices; nothing is visited.
    pub fn new(capacity: usize) -> (r: VisitedSet)
        requires
            capacity + 63 <= usize::MAX,
        ensures
            r.wf(),
            r@ == Set::<int>::empty(),
    {
        let num_words: usize = (capacity + 63) / 64;
        let mut bits: Vec<u64> = Vec::new();
        let mut generations: Vec<u64> = Vec::new();
        let mut k: usize = 0;
        while k < num_words
            invariant
                bits@.len() == k,
                generations@.len() == k,
                forall|w: int| 0 <= w < k ==> generations@[w] == 0,
            decreases num_words - k,
        {
            bits.push(0);
            generations.push(0);
            k = k + 1;
        }
        let r = VisitedSet { bits, generation: 1, generations };
        proof {
            assert(r@ =~= Set::<int>::empty());
        }
        r
    }

    /// Forget every visited index.  On generation wrap-around the arrays are
    /// rewound to a zeroed first generation; the observable state is the
    /// same either way: empty.
    pub fn clear(&mut self)
        requires
            old(self).wf(),
        ensures
            final(self).wf(),
            final(self)@ == Set::<int>::empty(),
            final(self).words() == old(self).words(),
    {
        if self.generation == u64::MAX {
            self.generation = 1;
            let n = self.bits.len();
            let mut k: usize = 0;
            while k < n
                invariant
                    self.bits@.len() == n,
                    self.generations@.len() == n,
                    k <= n,
                    self.generation == 1,
                    forall|w: int| 0 <= w < k ==> self.generations@[w] == 0,
                decreases n - k,
            {
                self.bits.set(k, 0);
                self.generations.set(k, 0);
                k = k + 1;
            }
        } else {
            self.generation = self.generation + 1;
        }
        proof {
            assert(self@ =~= Set::<int>::empty());
        }
    }

    /// Grow the word arrays so that indices below `capacity` have a word,
    /// without changing which indices are visited.
    pub fn ensure_capacity(&mut self, capacity: usize)
        requires
            old(self).wf(),
            capacity + 63 <= usize::MAX,
        ensures
            final(self).wf(),
            final(self)@ == old(self)@,
            final(self).words() >= old(self).words(),
            (capacity + 63) / 64 <= final(self).words(),
    {
        let num_words: usize = (capacity + 63) / 64;
        while self.bits.len() < num_words
            invariant
                self.wf(),
                self.generation == old(self).generation,
                self@ == old(self)@,
                self.words() >= old(self).words(),
            decreases num_words - self.bits@.len(),
        {
            let ghost prev = *self;
            self.bits.push(0);
            self.generations.push(0);
            proof {
                assert forall|i: int| self.spec_contains(i) == prev.spec_contains(i) by {
                    if 0 <= i && i / 64 == prev.bits@.len() as int {
                        assert(self.generations@[i / 64] == 0);
                    }
                }
                assert(self@ =~= prev@);
            }
        }
    }

    /// Mark `idx` visited; report whether it was newly marked.
    pub fn insert(&mut self, idx: usize) -> (newly: bool)
        requires
            old(self).wf(),
            idx + 64 <= usize::MAX,
        ensures
            final(self).wf(),
            final(self)@ == old(self)@.insert(idx as int),
            newly == !old(self)@.contains(idx as int),
    {
        let word_idx: usize = idx / 64;
        let bit_idx: usize = idx % 64;
        let mask: u64 = 1u64 << (bit_idx as u64);

        if word_idx >= self.bits.len() {
            self.ensure_capacity(idx + 1);
            proof {
                assert((idx + 64) / 64 == idx / 64 + 1);
            }
        }
        let ghost grown = *self;

        if self.generations[word_idx] != self.generation {
            self.bits.set(word_idx, 0);
            self.generations.set(word_idx, self.generation);
        }
        let ghost live = *self;
        proof {
            // Reviving the word does not make any index read as visited.
            assert forall|j: int|
                live.spec_contains(j) implies grown.spec_contains(j) by {
                if j / 64 == word_idx as int {
                    lemma_word_bits(0u64, (idx as int % 64) as u64, (j % 64) as u64);
                }
            }
            assert forall|j: int|
                grown.spec_contains(j) implies live.spec_contains(j) by {
                if j / 64 == word_idx as int {
                    lemma_word_bits(0u64, (idx as int % 64) as u64, (j % 64) as u64);
                }
            }
        }

        let word = self.bits[word_idx];
        let was_set = (word & mask) != 0;
        self.bits.set(word_idx, word | mask);

        proof {
            let b = (idx as int % 64) as u64;
            lemma_word_bits(word, b, b);
            assert(self.spec_contains(idx as int));
            assert forall|j: int|
                j != idx as int implies self.spec_contains(j) == live.spec_contains(j) by {
                if 0 <= j && j / 64 == word_idx as int {
                    if j % 64 == idx as int % 64 {
                        lemma_index_split(j, idx as int);
                    } else {
                        lemma_word_bits(word, b, (j % 64) as u64);
                    }
                }
            }
            assert(live.spec_contains(idx as int) == grown@.contains(idx as int));
            assert(self@ =~= grown@.insert(idx as int));
        }
        !was_set
    }

    /// Whether `idx` is currently marked visited.
    pub fn contains(&self, idx: usize) -> (r: bool)
        requires
            self.wf(),
        ensures
            r == self@.contains(idx as int),
    {
        let word_idx: usize = idx / 64;

        if word_idx >= self.bits.len() {
            return false;
        }
        if self.generations[word_idx] != self.generation {
            return false;
        }
        let bit_idx: usize = idx % 64;
        let r = (self.bits[word_idx] & (1u64 << (bit_idx as u64))) != 0;
        proof {
            lemma_word_bits(self.bits@[word_idx as int], (idx as int % 64) as u64, 0);
        }
        r
    }
}

} // verus!
