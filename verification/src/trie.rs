//! The index and its builder: a tokenizer together with the root of a trie.

use vstd::prelude::*;
use vstd::slice::slice_subrange;
use vstd::std_specs::hash::{builds_valid_hashers, obeys_key_model};
use vstd::laws_cmp::obeys_cmp;
use std::collections::{BTreeSet, HashSet};
use std::collections::hash_map::RandomState;
use std::hash::Hash;
use std::marker::PhantomData;
use crate::error::TrieError;
use crate::model::{owned, owned_all, phrase, tree_cloned, PhraseTree};
use crate::node::{
    fails_with, insertion, labels_of, ExhaustiveSearch, ImmutableTrieNode,
    ImmutableTrieNodeBuilder,
};
use crate::nodes::{RegexFilteredTrieNode, RegexFilteredTrieNodeBuilder, StringTrieNode};
use crate::tokenization::{BoundaryTokenizer, Tokenizer, WhitespaceTokenizer};

verus! {

/// Whether the default value of the builder `B` is a well-formed builder of
/// the empty tree.
pub open spec fn default_builder_is_empty<V, B: ImmutableTrieNodeBuilder<V> + Default>() -> bool {
    forall|b: B| #[trigger]
        call_ensures(B::default, (), b) ==> b.builder_wf() && b.builder_model()
            == PhraseTree::<V>::empty()
}

/// Whether the default value of the node `N` is a well-formed node of the
/// empty tree.
pub open spec fn default_node_is_empty<V, N: ImmutableTrieNode<V> + Default>() -> bool {
    forall|n: N| #[trigger]
        call_ensures(N::default, (), n) ==> n.wf() && n.model() == PhraseTree::<V>::empty()
}

/// Whether every clone of a well-formed node of kind `N` is well-formed
/// and stands for a clone of the node's tree.
pub open spec fn clones_keep_tree<V: Clone, N: ImmutableTrieNode<V> + Clone>() -> bool {
    forall|node: N, copy: N| #[trigger]
        cloned(node, copy) && node.wf() ==> copy.wf() && tree_cloned(node.model(), copy.model())
}

/// Collects phrases: a text is split by the builder's tokenizer, and its
/// tokens are inserted into the construction node.
#[derive(Debug)]
pub struct TrieBuilder<B, V, T = WhitespaceTokenizer> where
    B: ImmutableTrieNodeBuilder<V>,
    T: Tokenizer,
 {
    tokenizer: T,
    builder: B,
    _values: PhantomData<V>,
}

impl<B, V, T> TrieBuilder<B, V, T> where B: ImmutableTrieNodeBuilder<V>, T: Tokenizer {
    /// The construction node is well-formed.
    pub closed spec fn wf(&self) -> bool {
        self.builder.builder_wf()
    }

    /// The tree of the phrases inserted so far.
    pub closed spec fn model(&self) -> PhraseTree<V> {
        self.builder.builder_model()
    }

    /// The tokenizer that splits the inserted texts.
    pub closed spec fn insertion_tokenizer(&self) -> T {
        self.tokenizer
    }

    /// A well-formed builder holds a well-formed tree.
    pub proof fn lemma_model_wf(self)
        requires
            self.wf(),
        ensures
            self.model().wf(),
    {
        self.builder.builder_model_wf();
    }

    /// A builder that splits with `tokenizer` and inserts into `builder`.
    pub fn new(tokenizer: T, builder: B) -> (made: Self)
        requires
            builder.builder_wf(),
        ensures
            made.wf(),
            made.model() == builder.builder_model(),
            made.insertion_tokenizer() == tokenizer,
    {
        TrieBuilder { tokenizer, builder, _values: PhantomData }
    }

    /// Splits `key` into tokens and inserts them as one phrase with `value`;
    /// a value that the phrase had before is overwritten.  The insertion
    /// stops at the first token whose label cannot be created: the path up
    /// to it then exists, and no value has changed.
    pub fn add(&mut self, key: &str, value: V) -> (done: Result<(), TrieError>)
        requires
            old(self).wf(),
        ensures
            final(self).wf(),
            final(self).insertion_tokenizer() == old(self).insertion_tokenizer(),
            insertion(
                old(self).model(),
                final(self).model(),
                B::admits(),
                labels_of(B::label_of(), old(self).insertion_tokenizer().tokens_of(key@)),
                value,
                done,
            ),
    {
        let tokens = self.tokenizer.tokenize(key);
        self.builder.add(tokens.as_slice(), value)
    }

    /// Inserts `tokens` as one phrase with `value`, as [`TrieBuilder::add`]
    /// does with the tokens of a text.
    pub fn add_tokens(&mut self, tokens: &[String], value: V) -> (done: Result<(), TrieError>)
        requires
            old(self).wf(),
        ensures
            final(self).wf(),
            final(self).insertion_tokenizer() == old(self).insertion_tokenizer(),
            insertion(
                old(self).model(),
                final(self).model(),
                B::admits(),
                labels_of(B::label_of(), phrase(tokens@)),
                value,
                done,
            ),
    {
        self.builder.add(tokens, value)
    }

    /// Compiles the tree and wraps it with the tokenizer that the searches
    /// will split with.  Either the whole tree compiles or nothing is
    /// returned but the error.
    pub fn build<TT: Tokenizer>(self, trie_tokenizer: TT) -> (built: Result<
        Trie<B::Node, V, TT>,
        TrieError,
    >)
        requires
            self.wf(),
        ensures
            match built {
                Ok(trie) => B::outcome(self.model()) is Built && trie.wf() && trie.model()
                    == self.model() && trie.search_tokenizer() == trie_tokenizer,
                Err(e) => fails_with(B::outcome(self.model()), e),
            },
    {
        match self.builder.build() {
            Ok(root) => Ok(Trie::new(trie_tokenizer, root)),
            Err(e) => Err(e),
        }
    }

    /// Compiles the tree and wraps it with the default value of the
    /// tokenizer `TT`.
    pub fn build_default<TT: Tokenizer + Default>(self) -> (built: Result<
        Trie<B::Node, V, TT>,
        TrieError,
    >)
        requires
            self.wf(),
        ensures
            match built {
                Ok(trie) => B::outcome(self.model()) is Built && trie.wf() && trie.model()
                    == self.model() && call_ensures(TT::default, (), trie.search_tokenizer()),
                Err(e) => fails_with(B::outcome(self.model()), e),
            },
    {
        match self.builder.build() {
            Ok(root) => Ok(Trie::new(TT::default(), root)),
            Err(e) => Err(e),
        }
    }
}

impl<B, V, T> TrieBuilder<B, V, T> where B: ImmutableTrieNodeBuilder<V> + Default, T: Tokenizer {
    /// A builder that splits with `tokenizer` and starts from the default
    /// construction node.
    pub fn with_tokenizer(tokenizer: T) -> (made: Self)
        ensures
            made.insertion_tokenizer() == tokenizer,
            default_builder_is_empty::<V, B>() ==> made.wf() && made.model()
                == PhraseTree::<V>::empty(),
    {
        TrieBuilder { tokenizer, builder: B::default(), _values: PhantomData }
    }
}

impl<B, V, T> TrieBuilder<B, V, T> where B: ImmutableTrieNodeBuilder<V>, T: Tokenizer + Default {
    /// A builder that inserts into `builder` and splits with the default
    /// tokenizer.
    pub fn with_builder(builder: B) -> (made: Self)
        requires
            builder.builder_wf(),
        ensures
            made.wf(),
            made.model() == builder.builder_model(),
            call_ensures(T::default, (), made.insertion_tokenizer()),
    {
        Self::new(T::default(), builder)
    }
}

impl<B, V, T> Default for TrieBuilder<B, V, T> where
    B: ImmutableTrieNodeBuilder<V> + Default,
    T: Tokenizer + Default,
 {
    /// The default tokenizer with the default construction node.
    fn default() -> (made: Self)
        ensures
            call_ensures(T::default, (), made.insertion_tokenizer()),
            default_builder_is_empty::<V, B>() ==> made.wf() && made.model()
                == PhraseTree::<V>::empty(),
    {
        TrieBuilder { tokenizer: T::default(), builder: B::default(), _values: PhantomData }
    }
}

/// The index: a compiled trie and the tokenizer that splits the texts that
/// are searched.  It is never changed after it has been built.
#[derive(Debug)]
pub struct Trie<N, V, T = BoundaryTokenizer> where N: ImmutableTrieNode<V>, T: Tokenizer {
    tokenizer: T,
    root: N,
    _values: PhantomData<V>,
}

impl<N, V, T> Trie<N, V, T> where N: ImmutableTrieNode<V>, T: Tokenizer {
    /// The root is well-formed.
    pub closed spec fn wf(&self) -> bool {
        self.root.wf()
    }

    /// The tree that is searched.
    pub closed spec fn model(&self) -> PhraseTree<V> {
        self.root.model()
    }

    /// The tokenizer that splits the searched texts.
    pub closed spec fn search_tokenizer(&self) -> T {
        self.tokenizer
    }

    /// The root of the trie.
    pub closed spec fn root_node(&self) -> N {
        self.root
    }

    /// A well-formed index searches a well-formed tree.
    pub proof fn lemma_model_wf(self)
        requires
            self.wf(),
        ensures
            self.model().wf(),
    {
        self.root.model_wf();
    }

    /// An index over the tree below `root`, searched with the tokens that
    /// `tokenizer` gives.
    pub fn new(tokenizer: T, root: N) -> (trie: Self)
        requires
            root.wf(),
        ensures
            trie.wf(),
            trie.model() == root.model(),
            trie.search_tokenizer() == tokenizer,
    {
        Trie { tokenizer, root, _values: PhantomData }
    }

    /// The first value that a first-match descent finds in `tokens`, the
    /// start offsets tried in ascending order.
    pub fn find_any_in(&self, tokens: &[String]) -> (found: Option<&V>)
        requires
            self.wf(),
        ensures
            owned(found) == self.model().find_any(N::matcher(), phrase(tokens@)),
    {
        let ghost all = phrase(tokens@);
        let mut i: usize = 0;
        while i < tokens.len()
            invariant
                i <= tokens@.len(),
                self.wf(),
                all == phrase(tokens@),
                self.model().find_any_from(N::matcher(), all, i as int) == self.model().find_any(
                    N::matcher(),
                    all,
                ),
            decreases tokens@.len() - i,
        {
            let rest = slice_subrange(tokens, i, tokens.len());
            proof {
                assert(phrase(rest@) =~= all.skip(i as int));
            }
            let found = self.root.get_any(rest);
            if found.is_some() {
                return found;
            }
            i += 1;
        }
        None
    }

    /// The values that the exhaustive descents from every start offset of
    /// `tokens` find, offset after offset; a value that is reached twice
    /// occurs twice.
    pub fn find_all_in(&self, tokens: &[String]) -> (found: Vec<&V>)
        requires
            self.wf(),
        ensures
            owned_all(found@) == self.model().find_all(N::matcher(), phrase(tokens@)),
    {
        let ghost all = phrase(tokens@);
        let mut found: Vec<&V> = Vec::new();
        let mut i: usize = 0;
        proof {
            assert(owned_all(found@) =~= Seq::<V>::empty());
        }
        while i < tokens.len()
            invariant
                i <= tokens@.len(),
                self.wf(),
                all == phrase(tokens@),
                owned_all(found@) == self.model().find_all_upto(N::matcher(), all, i as int),
            decreases tokens@.len() - i,
        {
            let rest = slice_subrange(tokens, i, tokens.len());
            proof {
                assert(phrase(rest@) =~= all.skip(i as int));
            }
            let ghost before = owned_all(found@);
            let mut more = self.root.get_all(rest);
            let ghost added = owned_all(more@);
            found.append(&mut more);
            proof {
                assert(owned_all(found@) =~= before + added);
            }
            i += 1;
        }
        found
    }

    /// The first value that a phrase of the index has in `search_str`: the
    /// text is split into tokens, and from each start offset in turn a
    /// first-match descent is made, until one finds a value.
    pub fn find_any(&self, search_str: &str) -> (found: Option<&V>)
        requires
            self.wf(),
        ensures
            owned(found) == self.model().find_any(
                N::matcher(),
                self.search_tokenizer().tokens_of(search_str@),
            ),
    {
        let tokens = self.tokenizer.tokenize(search_str);
        self.find_any_in(tokens.as_slice())
    }

    /// The values of all phrases of the index that occur in `search_str`:
    /// the text is split into tokens, and the results of the exhaustive
    /// descents from every start offset are put one after the other.
    pub fn find_all(&self, search_str: &str) -> (found: Vec<&V>)
        requires
            self.wf(),
        ensures
            owned_all(found@) == self.model().find_all(
                N::matcher(),
                self.search_tokenizer().tokens_of(search_str@),
            ),
    {
        let tokens = self.tokenizer.tokenize(search_str);
        self.find_all_in(tokens.as_slice())
    }

    /// Determinism: what the exhaustive search returns is a function of the
    /// index and the text, so two searches of one text on one index return
    /// the same values, each as often.
    pub proof fn law_find_all_is_determined(self, text: Seq<char>, once: Seq<V>, again: Seq<V>)
        requires
            once == self.model().find_all(N::matcher(), self.search_tokenizer().tokens_of(text)),
            again == self.model().find_all(N::matcher(), self.search_tokenizer().tokens_of(text)),
        ensures
            once == again,
            once.to_multiset() == again.to_multiset(),
    {
    }

    /// A text without tokens holds no phrase: the search for any value
    /// finds none, and the exhaustive search finds nothing.
    pub proof fn law_no_tokens_no_match(self, text: Seq<char>)
        requires
            self.search_tokenizer().tokens_of(text).len() == 0,
        ensures
            self.model().find_any(N::matcher(), self.search_tokenizer().tokens_of(text)) is None,
            self.model().find_all(N::matcher(), self.search_tokenizer().tokens_of(text))
                == Seq::<V>::empty(),
    {
    }

    /// The root of the trie.
    pub fn root(&self) -> (root: &N)
        requires
            self.wf(),
        ensures
            *root == self.root_node(),
            root.wf(),
            root.model() == self.model(),
    {
        &self.root
    }
}

impl<N, V, T> Trie<N, V, T> where N: ImmutableTrieNode<V>, V: Hash + Eq, T: Tokenizer {
    /// The values of [`Trie::find_all`] as a set: every value once, in no
    /// order.  What the set holds is stated for value types whose hashing
    /// and equality follow the model of a key that std's hash collections
    /// assume.
    pub fn find_unique(&self, search_str: &str) -> (found: HashSet<&V>)
        requires
            self.wf(),
        ensures
            obeys_key_model::<&V>() && builds_valid_hashers::<RandomState>() ==> forall|v: &V|
                found@.contains(v) <==> self.model().find_all(
                    N::matcher(),
                    self.search_tokenizer().tokens_of(search_str@),
                ).contains(*v),
    {
        let all = self.find_all(search_str);
        let mut found: HashSet<&V> = HashSet::new();
        let mut i: usize = 0;
        while i < all.len()
            invariant
                i <= all@.len(),
                obeys_key_model::<&V>() && builds_valid_hashers::<RandomState>() ==> forall|v: &V|
                    found@.contains(v) <==> exists|j: int| 0 <= j < i && all@[j] == v,
            decreases all@.len() - i,
        {
            found.insert(all[i]);
            i += 1;
        }
        proof {
            let values = owned_all(all@);
            if obeys_key_model::<&V>() && builds_valid_hashers::<RandomState>() {
                assert forall|v: &V| found@.contains(v) <==> values.contains(*v) by {
                    if found@.contains(v) {
                        let j = choose|j: int| 0 <= j < all@.len() && all@[j] == v;
                        assert(values[j] == *v);
                    }
                    if values.contains(*v) {
                        let j = choose|j: int| 0 <= j < values.len() && values[j] == *v;
                        assert(all@[j] == v);
                    }
                }
            }
        }
        found
    }
}

impl<N, V, T> Trie<N, V, T> where N: ImmutableTrieNode<V>, V: Ord, T: Tokenizer {
    /// The values of [`Trie::find_all`] as an ordered set: every value once,
    /// in ascending order.  What the set holds is stated for value types
    /// whose comparison is a total order.
    pub fn find_unique_sorted(&self, search_str: &str) -> (found: BTreeSet<&V>)
        requires
            self.wf(),
        ensures
            obeys_cmp::<&V>() ==> forall|v: &V|
                found@.contains(v) <==> self.model().find_all(
                    N::matcher(),
                    self.search_tokenizer().tokens_of(search_str@),
                ).contains(*v),
    {
        let all = self.find_all(search_str);
        let mut found: BTreeSet<&V> = BTreeSet::new();
        let mut i: usize = 0;
        while i < all.len()
            invariant
                i <= all@.len(),
                obeys_cmp::<&V>() ==> forall|v: &V|
                    found@.contains(v) <==> exists|j: int| 0 <= j < i && all@[j] == v,
            decreases all@.len() - i,
        {
            found.insert(all[i]);
            i += 1;
        }
        proof {
            let values = owned_all(all@);
            if obeys_cmp::<&V>() {
                assert forall|v: &V| found@.contains(v) <==> values.contains(*v) by {
                    if found@.contains(v) {
                        let j = choose|j: int| 0 <= j < all@.len() && all@[j] == v;
                        assert(values[j] == *v);
                    }
                    if values.contains(*v) {
                        let j = choose|j: int| 0 <= j < values.len() && values[j] == *v;
                        assert(all@[j] == v);
                    }
                }
            }
        }
        found
    }
}

impl<N, T> Trie<N, bool, T> where N: ImmutableTrieNode<bool>, T: Tokenizer {
    /// Whether [`Trie::find_any`] finds the value `true` in `value`.
    pub fn has_match(&self, value: &str) -> (matched: bool)
        requires
            self.wf(),
        ensures
            matched == (self.model().find_any(
                N::matcher(),
                self.search_tokenizer().tokens_of(value@),
            ) == Some(true)),
    {
        match self.find_any(value) {
            Some(found) => *found,
            None => false,
        }
    }
}

impl<N, V, T> Clone for Trie<N, V, T> where
    N: ImmutableTrieNode<V> + Clone,
    V: Clone,
    T: Tokenizer + Clone,
 {
    /// An index over a clone of the root, with a clone of the tokenizer.
    /// For nodes whose clones keep the tree, the copy searches the same
    /// edges and finds clones of the values.
    fn clone(&self) -> (copy: Self)
        ensures
            cloned(self.root_node(), copy.root_node()),
            cloned(self.search_tokenizer(), copy.search_tokenizer()),
            self.wf() && clones_keep_tree::<V, N>() ==> copy.wf() && tree_cloned(
                self.model(),
                copy.model(),
            ),
    {
        Trie { tokenizer: self.tokenizer.clone(), root: self.root.clone(), _values: PhantomData }
    }
}

impl<N, V, T> Default for Trie<N, V, T> where
    N: ImmutableTrieNode<V> + Default,
    T: Tokenizer + Default,
 {
    /// The default tokenizer over the default root.
    fn default() -> (trie: Self)
        ensures
            call_ensures(T::default, (), trie.search_tokenizer()),
            default_node_is_empty::<V, N>() ==> trie.wf() && trie.model()
                == PhraseTree::<V>::empty(),
    {
        Trie { tokenizer: T::default(), root: N::default(), _values: PhantomData }
    }
}

/// The index under its longer name.
pub type ImmutableTrie<N, V, T = BoundaryTokenizer> = Trie<N, V, T>;

/// The builder under its longer name.
pub type ImmutableTrieBuilder<B, V, T = WhitespaceTokenizer> = TrieBuilder<B, V, T>;

/// An index of literal tokens.
pub type StringTrie<V, T = BoundaryTokenizer> = Trie<StringTrieNode<V>, V, T>;

/// The builder of an index of literal tokens.
pub type StringTrieBuilder<V, T = WhitespaceTokenizer> = TrieBuilder<StringTrieNode<V>, V, T>;

/// An index of literal tokens that only tells whether a phrase occurs.
pub type StringMatcher<T = BoundaryTokenizer> = StringTrie<bool, T>;

/// The builder of a [`StringMatcher`].
pub type StringMatcherBuilder<T = WhitespaceTokenizer> = TrieBuilder<
    StringTrieNode<bool>,
    bool,
    T,
>;

/// An index of patterns, each level compiled into one prefiltered set.
pub type RegexTrie<V, T = BoundaryTokenizer> = Trie<RegexFilteredTrieNode<V>, V, T>;

/// An index of patterns that only tells whether a phrase occurs.
pub type RegexMatcher<T = BoundaryTokenizer> = RegexTrie<bool, T>;

/// The builder of a [`RegexTrie`].
pub type RegexTrieBuilder<V, T = WhitespaceTokenizer> = TrieBuilder<
    RegexFilteredTrieNodeBuilder<V>,
    V,
    T,
>;

/// The builder of a [`RegexMatcher`].
pub type RegexMatcherBuilder<T = WhitespaceTokenizer> = RegexTrieBuilder<bool, T>;

} // verus!
