//! The kinds of node.

pub mod generic;
pub mod key;
pub mod per_child;
pub mod prefiltered;
pub mod regex_set;
pub mod string;

pub use generic::GenericTrieNode;
pub use key::{NodeKey, RegexNodeKey, StringNodeKey};
pub use per_child::RegexTrieNode;
pub use prefiltered::{RegexFilteredTrieNode, RegexFilteredTrieNodeBuilder};
pub use regex_set::{RegexSetTrieNode, RegexSetTrieNodeBuilder};
pub use string::StringTrieNode;
