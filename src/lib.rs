//! Detection of a repeating block at the start of a sequence.
//!
//! A length `len` is a pattern length of a sequence when the sequence holds
//! the block of its first `len` elements followed by at least one more full
//! copy, and keeps repeating that block until it ends (the last copy may be
//! cut short). The detector searches a range `[min, max]` of candidate
//! lengths and keeps a progress table so that no position is checked twice.

pub mod detect;
pub mod divisors;
pub mod laws;
pub mod period;
pub mod repeat;
pub mod table;

pub use detect::detect_pattern;
pub use divisors::factors;
pub use repeat::build_vec;
pub use table::{max_len, new_table};
