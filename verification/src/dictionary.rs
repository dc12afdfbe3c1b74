//! The word enumerator: a dynamically growing mixed-radix counter.

use vstd::prelude::*;

use crate::alphabet::valid_indices;
use crate::alphabet::word_chars;

verus! {

/// Relies on String::push: appends exactly the given character to the end
/// of the string.
#[verifier::external_body]
pub(crate) fn push_char(s: &mut String, c: char)
    ensures
        final(s)@ == old(s)@.push(c),
{
    s.push(c);
}

/// Enumerates every word over a fixed alphabet, in strictly increasing
/// length and lexicographic order within each length.
///
/// `word` holds the current word as alphabet indices, most-significant
/// first; `counter` counts how many advances have been made; `owned` is
/// carry bookkeeping and is zero between calls.
pub struct Dictionary {
    pub chars: Vec<char>,
    pub word_length: usize,
    pub counter: u64,
    pub owned: u8,
    pub word: Vec<usize>,
}

/// The word that follows `w` in the enumeration order, over an alphabet of
/// `n` symbols. The last digit below `n - 1` is incremented and every digit
/// to its right resets to zero; when all digits are maximal the word grows
/// by one digit and every digit resets to zero.
pub open spec fn next_position(w: Seq<usize>, n: nat) -> Seq<usize>
    decreases w.len(),
{
    if w.len() == 0 {
        seq![0usize]
    } else if w.last() + 1 < n {
        w.update(w.len() - 1, (w.last() + 1) as usize)
    } else {
        next_position(w.drop_last(), n).push(0usize)
    }
}

/// Advancing keeps every digit a valid alphabet index and never empties
/// the word.
pub proof fn lemma_next_position_valid(w: Seq<usize>, n: nat)
    requires
        n >= 1,
        valid_indices(w, n),
    ensures
        next_position(w, n).len() >= 1,
        valid_indices(next_position(w, n), n),
    decreases w.len(),
{
    if w.len() == 0 {
    } else if w.last() + 1 < n {
        let r = next_position(w, n);
        assert forall|i: int| 0 <= i < r.len() implies (#[trigger] r[i]) < n by {
            if i < w.len() - 1 {
                assert(w[i] < n);
            }
        }
    } else {
        assert(valid_indices(w.drop_last(), n)) by {
            assert forall|i: int| 0 <= i < w.len() - 1 implies (#[trigger] w.drop_last()[i])
                < n by {
                assert(w[i] < n);
            }
        }
        lemma_next_position_valid(w.drop_last(), n);
    }
}

/// Every digit of the word is at the highest alphabet index.
pub open spec fn all_max(w: Seq<usize>, n: nat) -> bool {
    forall|i: int| 0 <= i < w.len() ==> (#[trigger] w[i]) + 1 == n
}

/// Length growth happens exactly on full overflow, and a new length
/// bracket always begins at all-zero digits — never at the configured
/// starting digit, which only the very first bracket uses.
pub proof fn lemma_growth_resets_to_zero(w: Seq<usize>, n: nat)
    requires
        n >= 1,
        valid_indices(w, n),
        w.len() >= 1,
    ensures
        all_max(w, n) ==> next_position(w, n) == zeros((w.len() + 1) as nat),
        !all_max(w, n) ==> next_position(w, n).len() == w.len(),
    decreases w.len(),
{
    if all_max(w, n) {
        if w.len() == 1 {
            assert(next_position(w.drop_last(), n) =~= seq![0usize]);
            assert(next_position(w, n) =~= zeros(2));
        } else {
            assert(valid_indices(w.drop_last(), n) && all_max(w.drop_last(), n)) by {
                assert forall|i: int| 0 <= i < w.len() - 1 implies (#[trigger] w.drop_last()[i])
                    < n && w.drop_last()[i] + 1 == n by {
                    assert(w[i] < n && w[i] + 1 == n);
                }
            }
            lemma_growth_resets_to_zero(w.drop_last(), n);
            assert(next_position(w, n) =~= zeros((w.len() + 1) as nat));
        }
    } else {
        if w.last() + 1 < n {
        } else {
            let j = choose|j: int| 0 <= j < w.len() && #[trigger] w[j] + 1 != n;
            assert(w.drop_last()[j] == w[j]);
            assert(valid_indices(w.drop_last(), n) && !all_max(w.drop_last(), n)) by {
                assert forall|i: int| 0 <= i < w.len() - 1 implies (#[trigger] w.drop_last()[i])
                    < n by {
                    assert(w[i] < n);
                }
            }
            lemma_growth_resets_to_zero(w.drop_last(), n);
        }
    }
}

/// The enumerator state — position and generated count — reached after
/// `k` advances over an alphabet of `n` symbols: each advance moves the
/// position to `next_position` and grows the count by exactly one.
pub open spec fn state_after(w: Seq<usize>, n: nat, count: nat, k: nat) -> (Seq<usize>, nat)
    decreases k,
{
    if k == 0 {
        (w, count)
    } else {
        let prev = state_after(w, n, count, (k - 1) as nat);
        (next_position(prev.0, n), prev.1 + 1)
    }
}

/// The generated count after exactly `k` advances from a fresh enumerator
/// equals `k`, for every `k`, regardless of how many length-growth events
/// occurred along the way.
pub proof fn lemma_counter_counts(w: Seq<usize>, n: nat, k: nat)
    ensures
        state_after(w, n, 0, k).1 == k,
    decreases k,
{
    if k > 0 {
        lemma_counter_counts(w, n, (k - 1) as nat);
    }
}

/// Determinism: two enumerations configured with the same initial position
/// and the same alphabet spell the same word after any number of advances
/// — the output stream is a function of the configuration alone.
pub proof fn lemma_deterministic(
    w1: Seq<usize>,
    c1: Seq<char>,
    w2: Seq<usize>,
    c2: Seq<char>,
    k: nat,
)
    requires
        w1 == w2,
        c1 == c2,
    ensures
        word_chars(state_after(w1, c1.len(), 0, k).0, c1) == word_chars(
            state_after(w2, c2.len(), 0, k).0,
            c2,
        ),
{
}

/// A run of `k` digits at index zero.
pub open spec fn zeros(k: nat) -> Seq<usize> {
    Seq::new(k, |i: int| 0usize)
}

impl Dictionary {
    /// The enumerator's invariant: a non-empty alphabet, a non-empty word
    /// whose digits all index into the alphabet, and no pending carry.
    pub open spec fn wf(self) -> bool {
        &&& self.chars@.len() >= 1
        &&& self.word@.len() >= 1
        &&& valid_indices(self.word@, self.chars@.len())
        &&& self.owned == 0
    }

    pub fn new(
        word_length: usize,
        start_with: usize,
        start_with_char: usize,
        available_chars: &Vec<char>,
    ) -> (r: Dictionary)
        requires
            available_chars@.len() >= 1,
            start_with_char < available_chars@.len(),
            start_with < usize::MAX,
        ensures
            r.wf(),
            r.chars@ == available_chars@,
            r.word_length == word_length,
            r.counter == 0,
            r.word@ == Seq::new((start_with + 1) as nat, |i: int| start_with_char),
    {
        let mut word: Vec<usize> = Vec::new();
        let mut i: usize = 0;
        while i < start_with + 1
            invariant
                i <= start_with + 1,
                start_with < usize::MAX,
                word@ == Seq::new(i as nat, |j: int| start_with_char),
            decreases start_with + 1 - i,
        {
            word.push(start_with_char);
            i = i + 1;
            assert(word@ =~= Seq::new(i as nat, |j: int| start_with_char));
        }
        Dictionary {
            word_length,
            chars: available_chars.clone(),
            word,
            counter: 0,
            owned: 0,
        }
    }

    /// The word currently spelled: each digit replaced by its alphabet
    /// symbol, most-significant first. A pure projection; never mutates.
    pub fn get_current_word(&self) -> (r: String)
        requires
            self.wf(),
        ensures
            r@ == word_chars(self.word@, self.chars@),
    {
        let ghost goal = word_chars(self.word@, self.chars@);
        let mut s = String::new();
        let mut i: usize = 0;
        while i < self.word.len()
            invariant
                self.wf(),
                i <= self.word@.len(),
                goal == word_chars(self.word@, self.chars@),
                s@ == goal.take(i as int),
            decreases self.word@.len() - i,
        {
            let d = self.word[i];
            push_char(&mut s, self.chars[d]);
            i = i + 1;
            proof {
                assert(s@ =~= goal.take(i as int));
            }
        }
        proof {
            assert(s@ =~= goal);
        }
        s
    }

    /// Whether the current word may still be emitted: its length has not
    /// passed the configured upper bound.
    pub fn within_max_length(&self) -> (r: bool)
        ensures
            r == (self.word@.len() <= self.word_length),
    {
        self.word.len() <= self.word_length
    }

    /// Advances to the next word in the enumeration order and counts the
    /// advance. Carry ripples right to left; a full overflow grows the word
    /// by one digit with every digit reset to index zero.
    pub fn next_word(&mut self)
        requires
            old(self).wf(),
            old(self).counter < u64::MAX,
        ensures
            final(self).wf(),
            final(self).chars == old(self).chars,
            final(self).word_length == old(self).word_length,
            final(self).counter == old(self).counter + 1,
            final(self).word@ == next_position(old(self).word@, old(self).chars@.len()),
    {
        let ghost orig = self.word@;
        let ghost gn = self.chars@.len();
        let ghost target = next_position(orig, gn);
        proof {
            lemma_next_position_valid(orig, gn);
        }
        self.counter = self.counter + 1;
        let n = self.chars.len();
        let olen = self.word.len();
        let mut popped: usize = 0;
        while self.word.len() > 0 && self.word[self.word.len() - 1] == n - 1
            invariant
                n == gn,
                olen == orig.len(),
                gn >= 1,
                self.chars@.len() == gn,
                self.chars == old(self).chars,
                self.word_length == old(self).word_length,
                self.owned == old(self).owned,
                self.counter == old(self).counter + 1,
                valid_indices(self.word@, gn),
                popped == orig.len() - self.word@.len(),
                self.word@ == orig.take(self.word@.len() as int),
                target == next_position(self.word@, gn) + zeros(popped as nat),
            decreases self.word.len(),
        {
            let ghost before = self.word@;
            self.word.pop();
            popped = popped + 1;
            proof {
                assert(self.word@ =~= before.drop_last());
                assert(self.word@ =~= orig.take(self.word@.len() as int));
                assert(before.last() + 1 == gn);
                assert(next_position(before, gn) == next_position(self.word@, gn).push(0usize));
                assert(next_position(self.word@, gn).push(0usize) + zeros((popped - 1) as nat)
                    =~= next_position(self.word@, gn) + zeros(popped as nat));
            }
        }
        if self.word.len() == 0 {
            self.word.push(0);
            proof {
                assert(target =~= self.word@ + zeros(popped as nat));
            }
        } else {
            let last_idx = self.word.len() - 1;
            let last = self.word[last_idx];
            assert(last + 1 < gn);
            self.word.set(last_idx, last + 1);
            proof {
                assert(target =~= self.word@ + zeros(popped as nat));
            }
        }
        let mut k: usize = 0;
        while k < popped
            invariant
                k <= popped,
                self.chars == old(self).chars,
                self.word_length == old(self).word_length,
                self.owned == old(self).owned,
                self.counter == old(self).counter + 1,
                self.chars@.len() == gn,
                target == self.word@ + zeros((popped - k) as nat),
            decreases popped - k,
        {
            self.word.push(0);
            k = k + 1;
            proof {
                assert(target =~= self.word@ + zeros((popped - k) as nat));
            }
        }
        proof {
            assert(target =~= self.word@);
        }
    }
}

} // verus!
