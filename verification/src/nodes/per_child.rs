//! The per-child-pattern node: every edge carries a compiled pattern of its
//! own, and the patterns are tried one after the other.

use vstd::prelude::*;
use vstd::slice::slice_subrange;
use regex::Regex;
use crate::error::TrieError;
use crate::model::{phrase, picks, tree_cloned, Matcher, PhraseTree};
use crate::node::{
    first_refused, insertion, labels_of, lemma_first_refused, BuildOutcome, ImmutableTrieNode,
    ImmutableTrieNodeBuilder,
};
use crate::pattern::{
    compile_pattern, copy_regex, describe_regex_error, ignoring_case, pattern_compiles, regex_accepts,
    regex_source, source_of,
};
use crate::text::{anchor, anchoring};

verus! {

/// A node whose edges each carry a compiled pattern.  A pattern is compiled
/// when its edge is created, so the node is its own builder.
#[derive(Debug)]
pub struct RegexTrieNode<V> {
    value: Option<V>,
    patterns: Vec<Regex>,
    children: Vec<RegexTrieNode<V>>,
}

/// The patterns that compile can be edges.
pub open spec fn compiling() -> spec_fn(Seq<char>) -> bool {
    |label: Seq<char>| pattern_compiles(label)
}

impl<V> RegexTrieNode<V> {
    /// One pattern per child, no pattern twice, every pattern one that
    /// compiles, and the same below.
    pub closed spec fn well_formed(&self) -> bool
        decreases self,
    {
        &&& self.patterns@.len() == self.children@.len()
        &&& forall|i: int, j: int|
            0 <= i < j < self.patterns@.len() ==> regex_source(self.patterns@[i]) != regex_source(
                self.patterns@[j],
            )
        &&& forall|i: int|
            0 <= i < self.patterns@.len() ==> pattern_compiles(
                regex_source(#[trigger] self.patterns@[i]),
            )
        &&& forall|i: int|
            0 <= i < self.children@.len() ==> (#[trigger] self.children@[i]).well_formed()
    }

    /// The tree that the node stands for: the patterns are the labels.
    pub closed spec fn tree(&self) -> PhraseTree<V>
        decreases self,
    {
        PhraseTree {
            value: self.value,
            labels: Seq::new(self.patterns@.len(), |i: int| regex_source(self.patterns@[i])),
            children: Seq::new(
                self.children@.len(),
                |i: int|
                    if 0 <= i < self.children@.len() {
                        self.children@[i].tree()
                    } else {
                        PhraseTree::empty()
                    },
            ),
        }
    }

    /// The patterns of the edges, in the order of the children.
    pub fn patterns(&self) -> (texts: Vec<String>)
        ensures
            phrase(texts@) == self.tree().labels,
    {
        let mut texts: Vec<String> = Vec::new();
        let mut i: usize = 0;
        while i < self.patterns.len()
            invariant
                i <= self.patterns@.len(),
                texts@.len() == i,
                forall|k: int|
                    0 <= k < i ==> (#[trigger] texts@[k])@ == regex_source(self.patterns@[k]),
            decreases self.patterns@.len() - i,
        {
            texts.push(String::from_str(source_of(&self.patterns[i])));
            i += 1;
        }
        assert(phrase(texts@) =~= self.tree().labels);
        texts
    }

    /// A well-formed node stands for a well-formed tree.
    pub proof fn lemma_tree_wf(&self)
        requires
            self.well_formed(),
        ensures
            self.tree().wf(),
        decreases self,
    {
        let tree = self.tree();
        assert forall|i: int| 0 <= i < tree.children.len() implies (
        #[trigger] tree.children[i]).wf() by {
            self.children@[i].lemma_tree_wf();
        }
    }

    /// A node without value and without children.
    pub fn new() -> (node: Self)
        ensures
            node.well_formed(),
            node.tree() == PhraseTree::<V>::empty(),
    {
        let node = RegexTrieNode { value: None, patterns: Vec::new(), children: Vec::new() };
        assert(node.tree().labels =~= Seq::empty());
        assert(node.tree().children =~= Seq::empty());
        node
    }

    /// The number of nodes below this one.
    fn count_below(&self) -> (n: usize)
        requires
            self.well_formed(),
            self.tree().size_recursive() <= usize::MAX,
        ensures
            n == self.tree().size_recursive(),
        decreases self,
    {
        let ghost tree = self.tree();
        let mut n: usize = 0;
        let mut i: usize = 0;
        while i < self.children.len()
            invariant
                i <= self.children@.len(),
                self.well_formed(),
                tree == self.tree(),
                tree.size_recursive() <= usize::MAX,
                n == tree.size_of_first(i as int),
            decreases self.children@.len() - i,
        {
            proof {
                tree.lemma_size_of_first_monotone(i + 1, tree.children.len() as int);
                assert(tree.children[i as int] == self.children@[i as int].tree());
            }
            let below = self.children[i].count_below();
            n = n + 1 + below;
            i += 1;
        }
        n
    }

    /// The index of the edge whose pattern is `label`, or the number of
    /// edges if there is none.
    fn find_pattern(&self, label: &str) -> (at: usize)
        requires
            self.well_formed(),
        ensures
            at == self.tree().position(label@),
            at <= self.patterns@.len(),
    {
        let mut i: usize = 0;
        while i < self.patterns.len()
            invariant
                i <= self.patterns@.len(),
                self.tree().position_from(label@, i as int) == self.tree().position(label@),
            decreases self.patterns@.len() - i,
        {
            if source_of(&self.patterns[i]).eq(label) {
                return i;
            }
            i += 1;
        }
        i
    }

    /// Inserts the phrase `tokens` with `value`.  Each token becomes the
    /// pattern that matches it whole; a pattern that has no edge yet is
    /// compiled, and at the first that does not compile the insertion
    /// stops.
    fn insert_phrase(&mut self, tokens: &[String], value: V) -> (done: Result<(), TrieError>)
        requires
            old(self).well_formed(),
        ensures
            final(self).well_formed(),
            insertion(
                old(self).tree(),
                final(self).tree(),
                compiling(),
                labels_of(anchoring(), phrase(tokens@)),
                value,
                done,
            ),
        decreases tokens@.len(),
    {
        let ghost before = self.tree();
        let ghost labels = labels_of(anchoring(), phrase(tokens@));
        if tokens.len() == 0 {
            self.value = Some(value);
            proof {
                assert(self.tree().labels =~= before.labels);
                assert(self.tree().children =~= before.children);
            }
            return Ok(());
        }
        let pattern = anchor(tokens[0].as_str());
        proof {
            assert(labels[0] == pattern@);
            before.lemma_position_range(labels[0]);
        }
        let at = self.find_pattern(pattern.as_str());
        if at == self.patterns.len() {
            let regex = match compile_pattern(pattern.as_str()) {
                Ok(regex) => regex,
                Err(e) => {
                    proof {
                        assert(labels.take(0) =~= Seq::<Seq<char>>::empty());
                    }
                    return Err(TrieError::PatternCompilation(describe_regex_error(&e)));
                },
            };
            let ghost patterns = self.patterns@;
            let ghost children = self.children@;
            self.patterns.push(regex);
            self.children.push(RegexTrieNode::new());
            proof {
                assert forall|i: int, j: int|
                    0 <= i < j < self.patterns@.len() implies regex_source(self.patterns@[i])
                    != regex_source(self.patterns@[j]) by {
                    assert(self.patterns@[i] == patterns[i]);
                    if j == at {
                        assert(before.labels[i] == regex_source(patterns[i]));
                    } else {
                        assert(self.patterns@[j] == patterns[j]);
                    }
                }
                assert forall|i: int| 0 <= i < self.patterns@.len() implies pattern_compiles(
                    regex_source(#[trigger] self.patterns@[i]),
                ) by {
                    if i < at {
                        assert(self.patterns@[i] == patterns[i]);
                    }
                }
                assert forall|i: int| 0 <= i < self.children@.len() implies (
                #[trigger] self.children@[i]).well_formed() by {
                    if i < at {
                        assert(self.children@[i] == children[i]);
                    }
                }
            }
        }
        let rest = slice_subrange(tokens, 1, tokens.len());
        let ghost grown = self.tree();
        let ghost child_before = self.children@[at as int].tree();
        let ghost rest_labels = labels_of(anchoring(), phrase(rest@));
        proof {
            assert(rest_labels =~= labels.drop_first());
            assert(self.well_formed());
            assert(pattern_compiles(regex_source(self.patterns@[at as int])));
            assert(grown.labels[at as int] == labels[0]);
            if at < before.labels.len() {
                assert(grown.labels =~= before.labels);
                assert(grown.children =~= before.children);
            } else {
                assert(grown.labels =~= before.labels.push(labels[0]));
                assert(child_before == PhraseTree::<V>::empty());
            }
        }
        let done = self.children[at].insert_phrase(rest, value);
        proof {
            let child_after = self.children@[at as int].tree();
            assert(self.tree().labels =~= grown.labels);
            assert(self.tree().children =~= grown.children.update(at as int, child_after));
            if at >= before.labels.len() {
                assert(grown.children.update(at as int, child_after) =~= before.children.push(
                    child_after,
                ));
            }
            let stop = first_refused(compiling(), rest_labels);
            lemma_first_refused(compiling(), rest_labels);
            if done is Err {
                assert(labels.take(stop + 1).drop_first() =~= rest_labels.take(stop));
                assert(labels.take(stop + 1)[0] == labels[0]);
            }
        }
        done
    }
}

impl<V: Clone> RegexTrieNode<V> {
    /// A copy of the node and of everything below it.
    fn duplicate(&self) -> (copy: Self)
        ensures
            self.well_formed() ==> copy.well_formed() && tree_cloned(self.tree(), copy.tree()),
        decreases self,
    {
        let mut patterns: Vec<Regex> = Vec::new();
        let mut children: Vec<RegexTrieNode<V>> = Vec::new();
        let mut i: usize = 0;
        while i < self.patterns.len() && i < self.children.len()
            invariant
                i <= self.patterns@.len(),
                i <= self.children@.len(),
                patterns@.len() == i,
                children@.len() == i,
                forall|k: int|
                    0 <= k < i ==> regex_source(#[trigger] patterns@[k]) == regex_source(
                        self.patterns@[k],
                    ),
                forall|k: int|
                    0 <= k < i && self.children@[k].well_formed() ==> (
                    #[trigger] children@[k]).well_formed() && tree_cloned(
                        self.children@[k].tree(),
                        children@[k].tree(),
                    ),
            decreases self.patterns@.len() - i,
        {
            patterns.push(copy_regex(&self.patterns[i]));
            children.push(self.children[i].duplicate());
            i += 1;
        }
        let copy = RegexTrieNode { value: self.value.clone(), patterns, children };
        proof {
            if self.well_formed() {
                assert(copy.tree().labels =~= self.tree().labels);
                assert forall|k: int| 0 <= k < self.tree().children.len() implies tree_cloned(
                    #[trigger] self.tree().children[k],
                    copy.tree().children[k],
                ) by {
                    assert(children@[k].well_formed());
                }
                assert forall|a: int, b: int|
                    0 <= a < b < patterns@.len() implies regex_source(patterns@[a])
                    != regex_source(patterns@[b]) by {
                    assert(regex_source(patterns@[a]) == regex_source(self.patterns@[a]));
                    assert(regex_source(patterns@[b]) == regex_source(self.patterns@[b]));
                }
            }
        }
        copy
    }
}

impl<V: Clone> Clone for RegexTrieNode<V> {
    /// A copy with the same edges and, at every node, a clone of the value.
    fn clone(&self) -> (copy: Self)
        ensures
            self.well_formed() ==> copy.well_formed() && tree_cloned(self.tree(), copy.tree()),
    {
        self.duplicate()
    }
}

impl<V> Default for RegexTrieNode<V> {
    fn default() -> (node: Self)
        ensures
            node.well_formed(),
            node.tree() == PhraseTree::<V>::empty(),
    {
        RegexTrieNode::new()
    }
}

impl<V> ImmutableTrieNode<V> for RegexTrieNode<V> {
    open spec fn wf(&self) -> bool {
        self.well_formed()
    }

    open spec fn model(&self) -> PhraseTree<V> {
        self.tree()
    }

    open spec fn matcher() -> Matcher {
        ignoring_case()
    }

    proof fn model_wf(&self) {
        self.lemma_tree_wf();
    }

    fn value(&self) -> (found: Option<&V>) {
        self.value.as_ref()
    }

    /// The children whose pattern accepts `token`, in the order in which
    /// their edges were created.
    fn get_children(&self, token: &str) -> (found: Vec<&Self>) {
        let mut found: Vec<&Self> = Vec::new();
        let ghost tree = self.tree();
        let mut i: usize = 0;
        while i < self.patterns.len()
            invariant
                i <= self.patterns@.len(),
                self.well_formed(),
                tree == self.tree(),
                found@.len() == picks(tree.labels, ignoring_case(), token@, i as int).len(),
                forall|j: int|
                    0 <= j < found@.len() ==> (#[trigger] found@[j]).well_formed()
                        && found@[j].tree() == tree.children[picks(
                        tree.labels,
                        ignoring_case(),
                        token@,
                        i as int,
                    )[j]],
            decreases self.patterns@.len() - i,
        {
            proof {
                assert(tree.labels[i as int] == regex_source(self.patterns@[i as int]));
                assert(tree.children[i as int] == self.children@[i as int].tree());
            }
            if regex_accepts(&self.patterns[i], token) {
                found.push(&self.children[i]);
            }
            i += 1;
        }
        found
    }

    fn len(&self) -> (n: usize) {
        self.children.len()
    }

    fn len_recursive(&self) -> (n: usize) {
        self.count_below()
    }
}

impl<V> ImmutableTrieNodeBuilder<V> for RegexTrieNode<V> {
    type Node = RegexTrieNode<V>;

    open spec fn builder_wf(&self) -> bool {
        self.well_formed()
    }

    open spec fn builder_model(&self) -> PhraseTree<V> {
        self.tree()
    }

    proof fn builder_model_wf(&self) {
        self.lemma_tree_wf();
    }

    /// A token is inserted as the pattern that matches it whole.
    open spec fn label_of() -> spec_fn(Seq<char>) -> Seq<char> {
        anchoring()
    }

    /// An edge can be created for a pattern that compiles.
    open spec fn admits() -> spec_fn(Seq<char>) -> bool {
        compiling()
    }

    /// There is nothing left to compile.
    open spec fn outcome(tree: PhraseTree<V>) -> BuildOutcome {
        BuildOutcome::Built
    }

    fn add(&mut self, tokens: &[String], value: V) -> (done: Result<(), TrieError>) {
        self.insert_phrase(tokens, value)
    }

    /// The node is already what it compiles into.
    fn build(self) -> (built: Result<Self::Node, TrieError>)
        ensures
            built == Ok::<Self::Node, TrieError>(self),
    {
        Ok(self)
    }
}

} // verus!
