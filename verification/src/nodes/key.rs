//! The keys of the generic node: what an edge is matched with.

use vstd::prelude::*;
use regex::Regex;
use crate::error::TrieError;
use crate::pattern::{
    compile_pattern, copy_regex, describe_regex_error, pattern_accepts, pattern_compiles, regex_accepts,
    regex_source, source_of,
};
use crate::text::{anchor, anchoring};

verus! {

/// Whether every clone of a key of kind `K` has the label of the key.
pub open spec fn clones_keep_label<K: NodeKey + Clone>() -> bool {
    forall|key: K, copy: K| #[trigger] cloned(key, copy) ==> copy.label() == key.label()
}

/// A key is made from a text and then tells which tokens it matches.  What
/// it matches depends on nothing but the label that the text became.
pub trait NodeKey: Sized {
    /// The label that the key stands for.
    spec fn label(&self) -> Seq<char>;

    /// The label of the key that is made from a text.
    spec fn label_of() -> spec_fn(Seq<char>) -> Seq<char>;

    /// Whether a key can be made for this label.
    spec fn admits() -> spec_fn(Seq<char>) -> bool;

    /// Whether the key of this label (first argument) matches the token
    /// (second argument).
    spec fn accepts() -> spec_fn(Seq<char>, Seq<char>) -> bool;

    /// The key of `key`, where there is one.
    fn new(key: &str) -> (made: Result<Self, TrieError>)
        ensures
            made is Ok <==> Self::admits()(Self::label_of()(key@)),
            match made {
                Ok(k) => k.label() == Self::label_of()(key@),
                Err(e) => e is PatternCompilation,
            },
    ;

    /// Whether the key matches `value`.
    fn is_match(&self, value: &str) -> (matched: bool)
        ensures
            matched == Self::accepts()(self.label(), value@),
    ;

    /// The label as text.
    fn as_str(&self) -> (label: &str)
        ensures
            label@ == self.label(),
    ;
}

/// The key that matches the one token that equals it.
#[derive(Debug)]
pub struct StringNodeKey(String);

impl Clone for StringNodeKey {
    /// A key of the same label.
    fn clone(&self) -> (copy: Self)
        ensures
            copy.label() == self.label(),
    {
        StringNodeKey(self.0.clone())
    }
}

impl NodeKey for StringNodeKey {
    closed spec fn label(&self) -> Seq<char> {
        self.0@
    }

    /// A text is its own label.
    open spec fn label_of() -> spec_fn(Seq<char>) -> Seq<char> {
        |text: Seq<char>| text
    }

    /// Every text is a key.
    open spec fn admits() -> spec_fn(Seq<char>) -> bool {
        |label: Seq<char>| true
    }

    open spec fn accepts() -> spec_fn(Seq<char>, Seq<char>) -> bool {
        |label: Seq<char>, token: Seq<char>| label == token
    }

    fn new(key: &str) -> (made: Result<Self, TrieError>) {
        Ok(StringNodeKey(String::from_str(key)))
    }

    fn is_match(&self, value: &str) -> (matched: bool) {
        self.0.as_str().eq(value)
    }

    fn as_str(&self) -> (label: &str) {
        self.0.as_str()
    }
}

/// The key that matches the tokens that its pattern matches whole, case
/// ignored.
#[derive(Debug)]
pub struct RegexNodeKey(Regex);

impl Clone for RegexNodeKey {
    /// A key of the same label.
    fn clone(&self) -> (copy: Self)
        ensures
            copy.label() == self.label(),
    {
        RegexNodeKey(copy_regex(&self.0))
    }
}

impl NodeKey for RegexNodeKey {
    closed spec fn label(&self) -> Seq<char> {
        regex_source(self.0)
    }

    /// A text becomes the pattern that matches it whole.
    open spec fn label_of() -> spec_fn(Seq<char>) -> Seq<char> {
        anchoring()
    }

    /// The patterns that compile are keys.
    open spec fn admits() -> spec_fn(Seq<char>) -> bool {
        |label: Seq<char>| pattern_compiles(label)
    }

    open spec fn accepts() -> spec_fn(Seq<char>, Seq<char>) -> bool {
        |label: Seq<char>, token: Seq<char>| pattern_accepts(label, token)
    }

    fn new(key: &str) -> (made: Result<Self, TrieError>) {
        let pattern = anchor(key);
        match compile_pattern(pattern.as_str()) {
            Ok(regex) => Ok(RegexNodeKey(regex)),
            Err(e) => Err(TrieError::PatternCompilation(describe_regex_error(&e))),
        }
    }

    fn is_match(&self, value: &str) -> (matched: bool) {
        regex_accepts(&self.0, value)
    }

    fn as_str(&self) -> (label: &str) {
        source_of(&self.0)
    }
}

} // verus!
