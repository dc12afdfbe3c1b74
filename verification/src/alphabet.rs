//! The symbol table: an ordered, immutable sequence of characters.
//!
//! A word is represented internally as a sequence of indices into the
//! alphabet (most-significant first); these helpers translate between
//! indices and symbols and state when that translation is invertible.

use vstd::prelude::*;

verus! {

/// The default symbol table: the 96 characters with code points 32..=127.
pub open spec fn default_alphabet() -> Seq<char> {
    Seq::new(96, |i: int| (32 + i) as char)
}

/// Every position of a word is a valid index into an alphabet of `n` symbols.
pub open spec fn valid_indices(word: Seq<usize>, n: nat) -> bool {
    forall|i: int| 0 <= i < word.len() ==> (#[trigger] word[i]) < n
}

/// The characters spelled by a word: each index replaced by its symbol.
pub open spec fn word_chars(word: Seq<usize>, chars: Seq<char>) -> Seq<char> {
    Seq::new(word.len(), |i: int| chars[word[i] as int])
}

/// No symbol occurs twice in the alphabet.
pub open spec fn distinct(chars: Seq<char>) -> bool {
    forall|i: int, j: int| 0 <= i < j < chars.len() ==> chars[i] != chars[j]
}

/// The index of the first occurrence of `c` in `chars`, or -1 when absent.
pub open spec fn first_index_of(chars: Seq<char>, c: char) -> int
    decreases chars.len(),
{
    if chars.len() == 0 {
        -1
    } else if chars[0] == c {
        0
    } else {
        let r = first_index_of(chars.drop_first(), c);
        if r < 0 {
            -1
        } else {
            r + 1
        }
    }
}

/// When `first_index_of` answers `i`, then `i` is in range, the symbol
/// there is `c`, and no earlier symbol is `c`; when it answers -1, no
/// symbol is `c`.
pub proof fn lemma_first_index_of_spec(chars: Seq<char>, c: char)
    ensures
        first_index_of(chars, c) >= 0 ==> {
            let i = first_index_of(chars, c);
            &&& i < chars.len()
            &&& chars[i] == c
            &&& forall|j: int| 0 <= j < i ==> chars[j] != c
        },
        first_index_of(chars, c) < 0 ==> forall|j: int|
            0 <= j < chars.len() ==> chars[j] != c,
    decreases chars.len(),
{
    if chars.len() > 0 && chars[0] != c {
        lemma_first_index_of_spec(chars.drop_first(), c);
        assert forall|j: int| 1 <= j < chars.len() implies chars[j] == chars.drop_first()[j
            - 1] by {}
    }
}

/// A symbol found at `i` with no earlier occurrence is the first occurrence.
pub proof fn lemma_first_index_of_found(chars: Seq<char>, c: char, i: int)
    requires
        0 <= i < chars.len(),
        chars[i] == c,
        forall|j: int| 0 <= j < i ==> chars[j] != c,
    ensures
        first_index_of(chars, c) == i,
    decreases chars.len(),
{
    if i > 0 {
        assert forall|j: int| 0 <= j < i - 1 implies chars.drop_first()[j] != c by {
            assert(chars[j + 1] != c);
        }
        lemma_first_index_of_found(chars.drop_first(), c, i - 1);
    }
}

/// The index of the first occurrence of `c` in `chars`, or `None` when the
/// symbol is absent.
pub fn position_of_char(chars: &Vec<char>, c: char) -> (r: Option<usize>)
    ensures
        match r {
            Some(i) => first_index_of(chars@, c) == i as int,
            None => first_index_of(chars@, c) == -1,
        },
{
    let mut i: usize = 0;
    while i < chars.len()
        invariant
            i <= chars@.len(),
            forall|j: int| 0 <= j < i ==> chars@[j] != c,
        decreases chars@.len() - i,
    {
        if chars[i] == c {
            proof {
                lemma_first_index_of_found(chars@, c, i as int);
            }
            return Some(i);
        }
        i = i + 1;
    }
    proof {
        lemma_first_index_of_spec(chars@, c);
    }
    None
}

/// Round trip: spelling a word and resolving each output symbol back
/// through the first-occurrence index reconstructs the word digit for
/// digit, for any alphabet without repeated symbols — in particular for
/// the default contiguous one.
pub proof fn lemma_round_trip(word: Seq<usize>, chars: Seq<char>)
    requires
        distinct(chars),
        valid_indices(word, chars.len()),
    ensures
        forall|i: int|
            0 <= i < word.len() ==> first_index_of(chars, #[trigger] word_chars(word, chars)[i])
                == word[i],
{
    assert forall|i: int| 0 <= i < word.len() implies first_index_of(
        chars,
        #[trigger] word_chars(word, chars)[i],
    ) == word[i] by {
        let d = word[i] as int;
        assert(word_chars(word, chars)[i] == chars[d]);
        lemma_first_index_of_found(chars, chars[d], d);
    }
}

/// The default alphabet holds no symbol twice.
pub proof fn lemma_default_alphabet_distinct()
    ensures
        distinct(default_alphabet()),
{
    assert forall|i: int, j: int| 0 <= i < j < 96 implies default_alphabet()[i]
        != default_alphabet()[j] by {
        assert(((32 + i) as char) as int == 32 + i);
        assert(((32 + j) as char) as int == 32 + j);
    }
}

} // verus!
