//! Error values for the atom compiler and the generated identities.
//!
//! Every fallible operation reports its failure explicitly; none of these
//! carries partial-match information.

use vstd::prelude::*;

verus! {

/// A fault found while compiling the vocabulary, before any recognizer is
/// produced.
#[derive(Clone, Copy, Debug, PartialEq, Eq, Structural)]
pub enum BuildError {
    /// The vocabulary holds no entries at all.
    EmptyVocabulary,
    /// Two vocabulary entries are byte-identical.
    DuplicateEntry,
}

/// The uniform, information-free outcome of failing to recognize an input:
/// the input is not byte-identical to any declared atom.
#[derive(Clone, Copy, Debug, PartialEq, Eq, Structural)]
pub struct ParseFailure;

/// Returned when an ordinal at or above the vocabulary size is asked to name
/// an atom.
#[derive(Clone, Copy, Debug, PartialEq, Eq, Structural)]
pub struct OrdinalRangeError;

} // verus!
