//! The errors of building a trie.

use vstd::prelude::*;

verus! {

/// Why an insertion or a compilation failed.  Searching never fails.
#[derive(Debug, Clone, PartialEq, Eq)]
pub enum TrieError {
    /// A single pattern could not be compiled; the text is what the pattern
    /// engine said.
    PatternCompilation(String),
    /// The patterns of one tree level could not be compiled into one
    /// matcher; the text is what the pattern engine said.
    MultiPatternCompilation(String),
}

impl TrieError {
    /// What the pattern engine said about the failure.
    pub fn message(&self) -> (text: &String)
        ensures
            *text == match *self {
                TrieError::PatternCompilation(t) => t,
                TrieError::MultiPatternCompilation(t) => t,
            },
    {
        match self {
            TrieError::PatternCompilation(t) => t,
            TrieError::MultiPatternCompilation(t) => t,
        }
    }
}

} // verus!
