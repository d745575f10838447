//! A phrase-matching index: token sequences are mapped to values, and a text
//! is searched for every phrase that occurs in it.
//!
//! Phrases are inserted into a construction node, which is then compiled into
//! a read-only node and wrapped, together with a tokenizer, into a [`Trie`].
//! Every operation is specified against [`PhraseTree`], the mathematical
//! model of a trie.

pub mod error;
pub mod laws;
pub mod model;
pub mod node;
pub mod nodes;
pub mod pattern;
pub mod prefilter;
pub mod text;
pub mod tokenization;
pub mod trie;

pub use error::TrieError;
pub use model::PhraseTree;
pub use node::{
    ExhaustiveSearch, ImmutableTrieNode, ImmutableTrieNodeBuilder, MutableTrieNode,
};
pub use nodes::{
    GenericTrieNode, NodeKey, RegexFilteredTrieNode, RegexFilteredTrieNodeBuilder, RegexNodeKey,
    RegexSetTrieNode, RegexSetTrieNodeBuilder, RegexTrieNode, StringNodeKey, StringTrieNode,
};
pub use trie::{
    ImmutableTrie, ImmutableTrieBuilder, RegexMatcher, RegexMatcherBuilder, RegexTrie,
    RegexTrieBuilder, StringMatcher, StringMatcherBuilder, StringTrie, StringTrieBuilder, Trie,
    TrieBuilder,
};
pub use tokenization::{
    tokenize, BoundaryTokenizer, DummyTokenizer, NoOpTokenizer, TokenBoundary, Tokenizer,
    WhitespaceTokenizer,
};
