//! Recognizers and dense containers for a small, fixed vocabulary of byte
//! strings ("atoms").
//!
//! An [`identity::AtomTable`] is compiled once from the vocabulary: the
//! strings are partitioned by length, and each length class gets a decision
//! tree that factors out shared prefixes ([`trie::TrieNode`]) so that
//! recognition does as few comparisons as possible, batching literal bytes
//! into word-wide comparisons ([`matcher`]). Every atom receives a dense
//! ordinal in `0..N` in declaration order; [`dense_map::DenseAtomMap`] and
//! [`typed_map::TypedAtomMap`] use that ordinal for constant-time,
//! allocation-free associative storage.

pub mod dense_map;
pub mod errors;
pub mod identity;
pub mod iterators;
pub mod matcher;
pub mod trie;
pub mod typed_map;

use vstd::prelude::*;

verus! {

/// True when every pair of distinct indices holds a different byte string.
pub open spec fn texts_distinct(texts: Seq<Seq<u8>>) -> bool {
    forall|i: int, j: int| 0 <= i < j < texts.len() ==> texts[i] != texts[j]
}

} // verus!
