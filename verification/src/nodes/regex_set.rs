//! The compiled-set node over `regex::RegexSet`: the patterns of all the
//! edges that leave a node are compiled into one matcher.

use vstd::prelude::*;
use regex::RegexSet;
use crate::error::TrieError;
use crate::model::{
    lemma_marked_are_picks, lemma_picks_ascending, phrase, tree_cloned, Matcher, PhraseTree,
};
use crate::node::{
    admit_all, compile_outcome, in_ascending_order, indices, labels_of, lemma_failure_stays,
    lemma_none_refused, outcome_of_first, BuildOutcome, ImmutableTrieNode,
    ImmutableTrieNodeBuilder,
};
use crate::nodes::string::StringTrieNode;
use crate::pattern::{
    compile_set, copy_set, describe_regex_error, ignoring_case, set_compiles, set_matches,
    set_patterns, set_sources,
};
use crate::text::{anchor_all, anchoring};

verus! {

/// A node whose edges are matched by one compiled set of patterns.  A node
/// without children has no matcher.
#[derive(Debug)]
pub struct RegexSetTrieNode<V> {
    value: Option<V>,
    patterns: Option<RegexSet>,
    children: Vec<RegexSetTrieNode<V>>,
}

impl<V> RegexSetTrieNode<V> {
    /// The patterns of the edges, in the order of the children.
    pub closed spec fn labels(&self) -> Seq<Seq<char>> {
        match self.patterns {
            Some(set) => set_patterns(set),
            None => Seq::empty(),
        }
    }

    /// One pattern per child, no pattern twice, and the same below.
    pub closed spec fn well_formed(&self) -> bool
        decreases self,
    {
        &&& self.labels().len() == self.children@.len()
        &&& forall|i: int, j: int|
            0 <= i < j < self.labels().len() ==> self.labels()[i] != self.labels()[j]
        &&& forall|i: int|
            0 <= i < self.children@.len() ==> (#[trigger] self.children@[i]).well_formed()
    }

    /// The tree that the node stands for: the patterns are the labels.
    pub closed spec fn tree(&self) -> PhraseTree<V>
        decreases self,
    {
        PhraseTree {
            value: self.value,
            labels: self.labels(),
            children: Seq::new(
                self.children@.len(),
                |i: int|
                    if 0 <= i < self.children@.len() {
                        self.children@[i].tree()
                    } else {
                        PhraseTree::empty()
                    },
            ),
        }
    }

    /// The patterns of the edges, in the order of the children.
    pub fn patterns(&self) -> (texts: Vec<String>)
        ensures
            phrase(texts@) == self.tree().labels,
    {
        match &self.patterns {
            Some(set) => set_sources(set),
            None => {
                let texts: Vec<String> = Vec::new();
                assert(phrase(texts@) =~= Seq::<Seq<char>>::empty());
                texts
            },
        }
    }

    /// A well-formed node stands for a well-formed tree.
    pub proof fn lemma_tree_wf(&self)
        requires
            self.well_formed(),
        ensures
            self.tree().wf(),
        decreases self,
    {
        let tree = self.tree();
        assert forall|i: int| 0 <= i < tree.children.len() implies (
        #[trigger] tree.children[i]).wf() by {
            self.children@[i].lemma_tree_wf();
        }
    }

    /// The number of nodes below this one.
    fn count_below(&self) -> (n: usize)
        requires
            self.well_formed(),
            self.tree().size_recursive() <= usize::MAX,
        ensures
            n == self.tree().size_recursive(),
        decreases self,
    {
        let ghost tree = self.tree();
        let mut n: usize = 0;
        let mut i: usize = 0;
        while i < self.children.len()
            invariant
                i <= self.children@.len(),
                self.well_formed(),
                tree == self.tree(),
                tree.size_recursive() <= usize::MAX,
                n == tree.size_of_first(i as int),
            decreases self.children@.len() - i,
        {
            proof {
                tree.lemma_size_of_first_monotone(i + 1, tree.children.len() as int);
                assert(tree.children[i as int] == self.children@[i as int].tree());
            }
            let below = self.children[i].count_below();
            n = n + 1 + below;
            i += 1;
        }
        n
    }
}

impl<V: Clone> RegexSetTrieNode<V> {
    /// A copy of the node and of everything below it.
    fn duplicate(&self) -> (copy: Self)
        ensures
            self.well_formed() ==> copy.well_formed() && tree_cloned(self.tree(), copy.tree()),
        decreases self,
    {
        let mut children: Vec<RegexSetTrieNode<V>> = Vec::new();
        let mut i: usize = 0;
        while i < self.children.len()
            invariant
                i <= self.children@.len(),
                children@.len() == i,
                forall|k: int|
                    0 <= k < i && self.children@[k].well_formed() ==> (
                    #[trigger] children@[k]).well_formed() && tree_cloned(
                        self.children@[k].tree(),
                        children@[k].tree(),
                    ),
            decreases self.children@.len() - i,
        {
            children.push(self.children[i].duplicate());
            i += 1;
        }
        let patterns = match &self.patterns {
            Some(set) => Some(copy_set(set)),
            None => None,
        };
        let copy = RegexSetTrieNode { value: self.value.clone(), patterns, children };
        proof {
            if self.well_formed() {
                assert(copy.labels() == self.labels());
                assert forall|k: int| 0 <= k < self.tree().children.len() implies tree_cloned(
                    #[trigger] self.tree().children[k],
                    copy.tree().children[k],
                ) by {
                    assert(children@[k].well_formed());
                }
            }
        }
        copy
    }
}

impl<V: Clone> Clone for RegexSetTrieNode<V> {
    /// A copy with the same edges and, at every node, a clone of the value.
    fn clone(&self) -> (copy: Self)
        ensures
            self.well_formed() ==> copy.well_formed() && tree_cloned(self.tree(), copy.tree()),
    {
        self.duplicate()
    }
}

impl<V> ImmutableTrieNode<V> for RegexSetTrieNode<V> {
    open spec fn wf(&self) -> bool {
        self.well_formed()
    }

    open spec fn model(&self) -> PhraseTree<V> {
        self.tree()
    }

    open spec fn matcher() -> Matcher {
        ignoring_case()
    }

    proof fn model_wf(&self) {
        self.lemma_tree_wf();
    }

    fn value(&self) -> (found: Option<&V>) {
        self.value.as_ref()
    }

    /// The children whose pattern accepts `token`, in the order of their
    /// indices.
    fn get_children(&self, token: &str) -> (found: Vec<&Self>) {
        let mut found: Vec<&Self> = Vec::new();
        match &self.patterns {
            None => {},
            Some(set) => {
                let reported = set_matches(set, token);
                let picked = in_ascending_order(&reported, self.children.len());
                let ghost picks = self.tree().matching(ignoring_case(), token@);
                proof {
                    lemma_marked_are_picks(
                        Seq::new(
                            self.children@.len(),
                            |i: int| reported@.contains(i as usize),
                        ),
                        self.labels(),
                        ignoring_case(),
                        token@,
                        self.labels().len() as int,
                    );
                    lemma_picks_ascending(
                        self.labels(),
                        ignoring_case(),
                        token@,
                        self.labels().len() as int,
                    );
                }
                let mut k: usize = 0;
                while k < picked.len()
                    invariant
                        k <= picked@.len(),
                        self.well_formed(),
                        indices(picked@) == picks,
                        picks == self.tree().matching(ignoring_case(), token@),
                        forall|j: int|
                            0 <= j < picks.len() ==> 0 <= #[trigger] picks[j]
                                < self.children@.len(),
                        found@.len() == k,
                        forall|j: int|
                            0 <= j < k ==> (#[trigger] found@[j]).well_formed() && found@[j].tree()
                                == self.tree().children[picks[j]],
                    decreases picked@.len() - k,
                {
                    assert(indices(picked@)[k as int] == picked@[k as int]);
                    found.push(&self.children[picked[k]]);
                    k += 1;
                }
                assert(indices(picked@).len() == picked@.len());
            },
        }
        found
    }

    fn len(&self) -> (n: usize) {
        self.children.len()
    }

    fn len_recursive(&self) -> (n: usize) {
        self.count_below()
    }
}

/// Compiles a construction tree of patterns, the children of each node
/// before the set of the node itself.
fn compile_tree<V>(node: StringTrieNode<V>) -> (built: Result<RegexSetTrieNode<V>, TrieError>)
    requires
        node.well_formed(),
    ensures
        match built {
            Ok(made) => set_outcome(node.tree()) is Built && made.well_formed() && made.tree()
                == node.tree(),
            Err(e) => set_outcome(node.tree()) is BadSet && e is MultiPatternCompilation,
        },
    decreases node.tree(),
{
    let ghost tree = node.tree();
    proof {
        node.lemma_tree_wf();
    }
    let (value, keys, children) = node.into_parts();
    let mut built: Vec<RegexSetTrieNode<V>> = Vec::new();
    for child in it: children
        invariant
            it.seq() == children@,
            tree == node.tree(),
            children@.len() == tree.children.len(),
            forall|i: int|
                0 <= i < children@.len() ==> (#[trigger] children@[i]).well_formed()
                    && children@[i].tree() == tree.children[i],
            built@.len() == it.index(),
            outcome_of_first(tree, admit_all(), set_builds(), it.index() as int) is Built,
            forall|i: int|
                0 <= i < built@.len() ==> (#[trigger] built@[i]).well_formed() && built@[i].tree()
                    == tree.children[i],
    {
        proof {
            assert(child == children@[it.index() as int]);
            assert(child.tree() == tree.children[it.index() as int]);
        }
        match compile_tree(child) {
            Ok(made) => {
                built.push(made);
            },
            Err(e) => {
                proof {
                    lemma_failure_stays(tree, admit_all(), set_builds(), it.index() + 1);
                }
                return Err(e);
            },
        }
    }
    let patterns = if keys.len() == 0 {
        None
    } else {
        match compile_set(&keys) {
            Ok(set) => Some(set),
            Err(e) => {
                return Err(TrieError::MultiPatternCompilation(describe_regex_error(&e)));
            },
        }
    };
    let made = RegexSetTrieNode { value, patterns, children: built };
    proof {
        assert(made.labels() =~= tree.labels);
        assert(made.tree().children =~= tree.children);
    }
    Ok(made)
}

/// The patterns of one level are accepted as a set.
pub open spec fn set_builds() -> spec_fn(Seq<Seq<char>>) -> bool {
    |labels: Seq<Seq<char>>| set_compiles(labels)
}

/// How the compilation of `tree` into sets ends.
pub open spec fn set_outcome<V>(tree: PhraseTree<V>) -> BuildOutcome {
    compile_outcome(tree, admit_all(), set_builds())
}

/// Collects phrases of patterns and compiles each level into one
/// `regex::RegexSet`.
pub struct RegexSetTrieNodeBuilder<V> {
    phrases: StringTrieNode<V>,
}

impl<V> Default for RegexSetTrieNodeBuilder<V> {
    fn default() -> (builder: Self)
        ensures
            builder.builder_wf(),
            builder.builder_model() == PhraseTree::<V>::empty(),
    {
        RegexSetTrieNodeBuilder { phrases: StringTrieNode::new() }
    }
}

impl<V> ImmutableTrieNodeBuilder<V> for RegexSetTrieNodeBuilder<V> {
    type Node = RegexSetTrieNode<V>;

    closed spec fn builder_wf(&self) -> bool {
        self.phrases.well_formed()
    }

    closed spec fn builder_model(&self) -> PhraseTree<V> {
        self.phrases.tree()
    }

    proof fn builder_model_wf(&self) {
        self.phrases.lemma_tree_wf();
    }

    /// A token is inserted as the pattern that matches it whole.
    open spec fn label_of() -> spec_fn(Seq<char>) -> Seq<char> {
        anchoring()
    }

    /// Patterns are not compiled before the tree is.
    open spec fn admits() -> spec_fn(Seq<char>) -> bool {
        admit_all()
    }

    open spec fn outcome(tree: PhraseTree<V>) -> BuildOutcome {
        set_outcome(tree)
    }

    /// Never fails: a malformed pattern shows when the tree is compiled.
    fn add(&mut self, tokens: &[String], value: V) -> (done: Result<(), TrieError>)
        ensures
            done is Ok,
    {
        let patterns = anchor_all(tokens);
        proof {
            let labels = labels_of(Self::label_of(), phrase(tokens@));
            assert(labels =~= phrase(patterns@));
            lemma_none_refused(Self::admits(), labels);
        }
        self.phrases.insert_phrase(patterns.as_slice(), value);
        Ok(())
    }

    fn build(self) -> (built: Result<Self::Node, TrieError>) {
        compile_tree(self.phrases)
    }
}

} // verus!
