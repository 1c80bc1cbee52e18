//! A byte-level Markov chain of fixed order: a table from every window of
//! `N` bytes seen in a corpus to the bytes seen after it, and a generator
//! that walks the table one byte at a time.

pub mod chain;
pub mod corpus;
pub mod listing;
pub mod ngram;
pub mod random;
pub mod states;
pub mod successors;

pub use crate::chain::MarkovIter;
pub use crate::ngram::{NGram, State};
pub use crate::random::{First, RandomSource, ThreadSource};
pub use crate::states::{BuildError, MarkovStates};
pub use crate::successors::Successors;
