//! Brute-force wordlist generation: enumerates every string over a fixed
//! alphabet in order of increasing length, lexicographic within a length,
//! and plans how the stream is split across size-capped output files.

pub mod alphabet;
pub mod context;
pub mod dictionary;
pub mod driver;
