//! Decisions of the generation run: when to write, when to switch to the
//! next size-capped output file, when to stop, and how the indexed files
//! are named. The surrounding input/output loop performs the actions these
//! functions decide.

use vstd::prelude::*;

use crate::dictionary::push_char;
use crate::dictionary::Dictionary;

verus! {

/// What the run does next: emit the current word to the active file, roll
/// over to the next indexed file, or terminate.
#[derive(Debug, PartialEq, Eq, Structural)]
pub enum RunStep {
    Emit,
    Rollover,
    Finished,
}

/// The decision taken with the current word and the active file's on-disk
/// size in hand: stop once the word outgrows the bound — the length check
/// comes before any write, so an over-length word is never emitted — else
/// write while the file is under the cap, else roll over.
pub open spec fn spec_next_step(word_len: nat, max_len: nat, file_len: u64, cap: u64) -> RunStep {
    if word_len > max_len {
        RunStep::Finished
    } else if file_len < cap {
        RunStep::Emit
    } else {
        RunStep::Rollover
    }
}

/// Decides the run's next action from the enumerator and the active file's
/// current size. The cap is a soft ceiling: it is checked before a write,
/// so a single write may push the file slightly past it.
pub fn next_step(dict: &Dictionary, file_len: u64, cap: u64) -> (r: RunStep)
    ensures
        r == spec_next_step(dict.word@.len(), dict.word_length as nat, file_len, cap),
{
    if !dict.within_max_length() {
        RunStep::Finished
    } else if file_len < cap {
        RunStep::Emit
    } else {
        RunStep::Rollover
    }
}

/// The per-file byte cap: whole decimal megabytes, one megabyte being
/// exactly 1,000,000 bytes.
pub fn cap_bytes(size_mb: u32) -> (r: u64)
    ensures
        r == size_mb * 1_000_000u64,
{
    (size_mb as u64) * 1_000_000
}

/// The character for one decimal digit.
pub open spec fn digit_char(d: int) -> char {
    (48 + d) as char
}

/// The decimal digits of `n`, most-significant first, no leading zeros.
pub open spec fn decimal_digits(n: int) -> Seq<char>
    decreases n,
{
    if n < 10 {
        seq![digit_char(n)]
    } else {
        decimal_digits(n / 10).push(digit_char(n % 10))
    }
}

/// The decimal digits of `n` left-padded with zeros to at least width 3.
pub open spec fn padded_index(n: int) -> Seq<char> {
    if n < 10 {
        seq!['0', '0'] + decimal_digits(n)
    } else if n < 100 {
        seq!['0'] + decimal_digits(n)
    } else {
        decimal_digits(n)
    }
}

/// The name of the output file with the given 1-based index: the base path
/// itself for the first file, then the base path with a dot and the index
/// zero-padded to 3 digits.
pub open spec fn spec_file_name(base: Seq<char>, index: int) -> Seq<char> {
    if index <= 1 {
        base
    } else {
        base + seq!['.'] + padded_index(index)
    }
}

fn digit_char_of(d: usize) -> (r: char)
    requires
        d < 10,
    ensures
        r == digit_char(d as int),
{
    let b: u8 = 48 + (d as u8);
    b as char
}

/// The path the file with the given 1-based index is written to.
pub fn file_name_for(base: &String, index: usize) -> (r: String)
    requires
        index >= 1,
    ensures
        r@ == spec_file_name(base@, index as int),
{
    let mut name = base.clone();
    if index > 1 {
        push_char(&mut name, '.');
        if index < 10 {
            push_char(&mut name, '0');
            push_char(&mut name, '0');
        } else if index < 100 {
            push_char(&mut name, '0');
        }
        let ghost prefix = name@;
        proof {
            assert(prefix + decimal_digits(index as int) =~= spec_file_name(
                base@,
                index as int,
            ));
        }
        let mut stack: Vec<char> = Vec::new();
        let mut m: usize = index;
        while m >= 10
            invariant
                name@ == prefix,
                decimal_digits(index as int) == decimal_digits(m as int) + stack@.reverse(),
            decreases m,
        {
            let ghost old_stack = stack@;
            stack.push(digit_char_of(m % 10));
            proof {
                assert(stack@.reverse() =~= seq![digit_char((m % 10) as int)]
                    + old_stack.reverse());
                assert(decimal_digits((m / 10) as int) + stack@.reverse() =~= decimal_digits(
                    m as int,
                ) + old_stack.reverse());
            }
            m = m / 10;
        }
        push_char(&mut name, digit_char_of(m));
        proof {
            assert(decimal_digits(m as int) =~= seq![digit_char(m as int)]);
            assert(name@ + stack@.reverse() =~= prefix + decimal_digits(index as int));
        }
        while stack.len() > 0
            invariant
                name@ + stack@.reverse() == prefix + decimal_digits(index as int),
            decreases stack@.len(),
        {
            let ghost old_stack = stack@;
            let ghost old_name = name@;
            let c = stack.pop().unwrap();
            push_char(&mut name, c);
            proof {
                assert(stack@ =~= old_stack.drop_last());
                assert(old_stack.reverse() =~= seq![old_stack.last()]
                    + old_stack.drop_last().reverse());
                assert(name@ + stack@.reverse() =~= old_name + old_stack.reverse());
            }
        }
        proof {
            assert(name@ =~= name@ + stack@.reverse());
        }
    }
    name
}

/// The byte stream of a run: every emitted word followed by exactly one
/// line feed, in emission order.
pub open spec fn emitted_stream(words: Seq<Seq<char>>) -> Seq<char>
    decreases words.len(),
{
    if words.len() == 0 {
        Seq::empty()
    } else {
        emitted_stream(words.drop_last()) + words.last() + seq!['\n']
    }
}

/// The sum of (word length + 1) over every emitted word.
pub open spec fn total_emitted_len(words: Seq<Seq<char>>) -> int
    decreases words.len(),
{
    if words.len() == 0 {
        0
    } else {
        total_emitted_len(words.drop_last()) + words.last().len() + 1
    }
}

/// The output accounts for every word: the length of the whole emitted
/// stream — however it is split across files, a split loses no bytes —
/// equals the sum of (word length + 1) over every word emitted. Each
/// symbol of the default alphabet occupies exactly one byte.
pub proof fn lemma_emitted_stream_len(words: Seq<Seq<char>>)
    ensures
        emitted_stream(words).len() == total_emitted_len(words),
    decreases words.len(),
{
    if words.len() > 0 {
        lemma_emitted_stream_len(words.drop_last());
    }
}

} // verus!
