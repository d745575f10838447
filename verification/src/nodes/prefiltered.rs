//! The compiled-set node over `regex_filtered::Regexes`: the patterns of
//! all the edges that leave a node are compiled into one prefiltered
//! matcher, which is shared behind a `triomphe::Arc`.

use vstd::prelude::*;
use regex_filtered::Regexes;
use triomphe::Arc;
use crate::error::TrieError;
use crate::model::{
    lemma_marked_are_picks, lemma_picks_ascending, phrase, tree_cloned, Matcher, PhraseTree,
};
use crate::node::{
    admit_all, compile_outcome, fails_with, in_ascending_order, indices, labels_of,
    lemma_failure_stays, lemma_none_refused, outcome_of_first, BuildOutcome, ImmutableTrieNode,
    ImmutableTrieNodeBuilder,
};
use crate::nodes::string::StringTrieNode;
use crate::pattern::{
    build_filter, builder_patterns, describe_build_error, describe_parse_error, filter_admits,
    filter_builds, filter_matches, filter_sources, ignoring_case, new_filter_builder,
    push_filter_pattern, share_again, share_filter, shared_patterns,
};
use crate::prefilter::{guard_pattern, is_prefilter_safe, prefilter_safe, GUARD_PATTERN};
use crate::text::{anchor_all, anchoring};

verus! {

/// A node whose edges are matched by one prefiltered set of patterns.  A
/// node without children has no matcher.
pub struct RegexFilteredTrieNode<V> {
    value: Option<V>,
    patterns: Option<Arc<Regexes>>,
    children: Vec<RegexFilteredTrieNode<V>>,
}

impl<V> RegexFilteredTrieNode<V> {
    /// The patterns of the edges, in the order of the children: the
    /// patterns of the set but the guard that closes it.
    pub closed spec fn labels(&self) -> Seq<Seq<char>> {
        match self.patterns {
            Some(shared) => if shared_patterns(shared).len() > 0 {
                shared_patterns(shared).drop_last()
            } else {
                Seq::empty()
            },
            None => Seq::empty(),
        }
    }

    /// The set, where there is one, ends with the guard pattern.
    pub closed spec fn guarded(&self) -> bool {
        match self.patterns {
            Some(shared) => shared_patterns(shared).len() > 0 && shared_patterns(shared).last()
                == guard_pattern(),
            None => true,
        }
    }

    /// One pattern per child, no pattern twice, the guard behind them, and
    /// the same below.
    pub closed spec fn well_formed(&self) -> bool
        decreases self,
    {
        &&& self.guarded()
        &&& self.labels().len() == self.children@.len()
        &&& forall|i: int, j: int|
            0 <= i < j < self.labels().len() ==> self.labels()[i] != self.labels()[j]
        &&& forall|i: int|
            0 <= i < self.children@.len() ==> (#[trigger] self.children@[i]).well_formed()
    }

    /// The tree that the node stands for: the patterns are the labels.
    pub closed spec fn tree(&self) -> PhraseTree<V>
        decreases self,
    {
        PhraseTree {
            value: self.value,
            labels: self.labels(),
            children: Seq::new(
                self.children@.len(),
                |i: int|
                    if 0 <= i < self.children@.len() {
                        self.children@[i].tree()
                    } else {
                        PhraseTree::empty()
                    },
            ),
        }
    }

    /// The patterns of the edges, in the order of the children.
    pub fn patterns(&self) -> (texts: Vec<String>)
        ensures
            phrase(texts@) == self.tree().labels,
    {
        match &self.patterns {
            Some(set) => {
                let mut texts = filter_sources(set);
                let ghost all = texts@;
                if texts.len() > 0 {
                    texts.pop();
                    assert(phrase(texts@) =~= phrase(all).drop_last());
                } else {
                    assert(phrase(texts@) =~= Seq::<Seq<char>>::empty());
                }
                texts
            },
            None => {
                let texts: Vec<String> = Vec::new();
                assert(phrase(texts@) =~= Seq::<Seq<char>>::empty());
                texts
            },
        }
    }

    /// A well-formed node stands for a well-formed tree.
    pub proof fn lemma_tree_wf(&self)
        requires
            self.well_formed(),
        ensures
            self.tree().wf(),
        decreases self,
    {
        let tree = self.tree();
        assert forall|i: int| 0 <= i < tree.children.len() implies (
        #[trigger] tree.children[i]).wf() by {
            self.children@[i].lemma_tree_wf();
        }
    }

    /// The number of nodes below this one.
    fn count_below(&self) -> (n: usize)
        requires
            self.well_formed(),
            self.tree().size_recursive() <= usize::MAX,
        ensures
            n == self.tree().size_recursive(),
        decreases self,
    {
        let ghost tree = self.tree();
        let mut n: usize = 0;
        let mut i: usize = 0;
        while i < self.children.len()
            invariant
                i <= self.children@.len(),
                self.well_formed(),
                tree == self.tree(),
                tree.size_recursive() <= usize::MAX,
                n == tree.size_of_first(i as int),
            decreases self.children@.len() - i,
        {
            proof {
                tree.lemma_size_of_first_monotone(i + 1, tree.children.len() as int);
                assert(tree.children[i as int] == self.children@[i as int].tree());
            }
            let below = self.children[i].count_below();
            n = n + 1 + below;
            i += 1;
        }
        n
    }
}

impl<V: Clone> RegexFilteredTrieNode<V> {
    /// A copy of the node and of everything below it.
    fn duplicate(&self) -> (copy: Self)
        ensures
            self.well_formed() ==> copy.well_formed() && tree_cloned(self.tree(), copy.tree()),
        decreases self,
    {
        let mut children: Vec<RegexFilteredTrieNode<V>> = Vec::new();
        let mut i: usize = 0;
        while i < self.children.len()
            invariant
                i <= self.children@.len(),
                children@.len() == i,
                forall|k: int|
                    0 <= k < i && self.children@[k].well_formed() ==> (
                    #[trigger] children@[k]).well_formed() && tree_cloned(
                        self.children@[k].tree(),
                        children@[k].tree(),
                    ),
            decreases self.children@.len() - i,
        {
            children.push(self.children[i].duplicate());
            i += 1;
        }
        let patterns = match &self.patterns {
            Some(shared) => Some(share_again(shared)),
            None => None,
        };
        let copy = RegexFilteredTrieNode { value: self.value.clone(), patterns, children };
        proof {
            if self.well_formed() {
                assert(copy.labels() == self.labels());
                assert forall|k: int| 0 <= k < self.tree().children.len() implies tree_cloned(
                    #[trigger] self.tree().children[k],
                    copy.tree().children[k],
                ) by {
                    assert(children@[k].well_formed());
                }
            }
        }
        copy
    }
}

impl<V: Clone> Clone for RegexFilteredTrieNode<V> {
    /// A copy with the same edges and, at every node, a clone of the value.
    fn clone(&self) -> (copy: Self)
        ensures
            self.well_formed() ==> copy.well_formed() && tree_cloned(self.tree(), copy.tree()),
    {
        self.duplicate()
    }
}

impl<V> ImmutableTrieNode<V> for RegexFilteredTrieNode<V> {
    open spec fn wf(&self) -> bool {
        self.well_formed()
    }

    open spec fn model(&self) -> PhraseTree<V> {
        self.tree()
    }

    open spec fn matcher() -> Matcher {
        ignoring_case()
    }

    proof fn model_wf(&self) {
        self.lemma_tree_wf();
    }

    fn value(&self) -> (found: Option<&V>) {
        self.value.as_ref()
    }

    /// The children whose pattern accepts `token`, in the order of their
    /// indices.
    fn get_children(&self, token: &str) -> (found: Vec<&Self>) {
        let mut found: Vec<&Self> = Vec::new();
        match &self.patterns {
            None => {},
            Some(set) => {
                let reported = filter_matches(set, token);
                let picked = in_ascending_order(&reported, self.children.len());
                let ghost picks = self.tree().matching(ignoring_case(), token@);
                proof {
                    lemma_marked_are_picks(
                        Seq::new(
                            self.children@.len(),
                            |i: int| reported@.contains(i as usize),
                        ),
                        self.labels(),
                        ignoring_case(),
                        token@,
                        self.labels().len() as int,
                    );
                    lemma_picks_ascending(
                        self.labels(),
                        ignoring_case(),
                        token@,
                        self.labels().len() as int,
                    );
                }
                let mut k: usize = 0;
                while k < picked.len()
                    invariant
                        k <= picked@.len(),
                        self.well_formed(),
                        indices(picked@) == picks,
                        picks == self.tree().matching(ignoring_case(), token@),
                        forall|j: int|
                            0 <= j < picks.len() ==> 0 <= #[trigger] picks[j]
                                < self.children@.len(),
                        found@.len() == k,
                        forall|j: int|
                            0 <= j < k ==> (#[trigger] found@[j]).well_formed() && found@[j].tree()
                                == self.tree().children[picks[j]],
                    decreases picked@.len() - k,
                {
                    assert(indices(picked@)[k as int] == picked@[k as int]);
                    found.push(&self.children[picked[k]]);
                    k += 1;
                }
                assert(indices(picked@).len() == picked@.len());
            },
        }
        found
    }

    fn len(&self) -> (n: usize) {
        self.children.len()
    }

    fn len_recursive(&self) -> (n: usize) {
        self.count_below()
    }
}

/// Compiles a construction tree of patterns: at each node the patterns
/// are pushed one by one, the child behind each compiled right after it,
/// and the set of the node is built last.  A pattern that the prefilter
/// cannot take is refused before it is pushed.
fn compile_tree<V>(node: StringTrieNode<V>) -> (built: Result<RegexFilteredTrieNode<V>, TrieError>)
    requires
        node.well_formed(),
    ensures
        match built {
            Ok(made) => filter_outcome(node.tree()) is Built && made.well_formed() && made.tree()
                == node.tree(),
            Err(e) => fails_with(filter_outcome(node.tree()), e),
        },
    decreases node.tree(),
{
    let ghost tree = node.tree();
    proof {
        node.lemma_tree_wf();
    }
    let (value, keys, children) = node.into_parts();
    let mut built: Vec<RegexFilteredTrieNode<V>> = Vec::new();
    let mut builder = new_filter_builder();
    let mut i: usize = 0;
    let count = children.len();
    proof {
        assert(tree.labels.take(0) =~= Seq::<Seq<char>>::empty());
    }
    for child in it: children
        invariant
            it.seq() == children@,
            tree == node.tree(),
            i == it.index(),
            count == children@.len(),
            phrase(keys@) == tree.labels,
            children@.len() == tree.children.len(),
            tree.labels.len() == tree.children.len(),
            forall|k: int|
                0 <= k < children@.len() ==> (#[trigger] children@[k]).well_formed()
                    && children@[k].tree() == tree.children[k],
            built@.len() == it.index(),
            builder_patterns(builder) == tree.labels.take(i as int),
            outcome_of_first(tree, filter_admit(), filter_build(), it.index() as int) is Built,
            forall|k: int|
                0 <= k < built@.len() ==> (#[trigger] built@[k]).well_formed() && built@[k].tree()
                    == tree.children[k],
    {
        proof {
            assert(child == children@[it.index() as int]);
            assert(child.tree() == tree.children[it.index() as int]);
            assert(phrase(keys@)[i as int] == keys@[i as int]@);
            assert(tree.labels.take(i as int).push(tree.labels[i as int]) =~= tree.labels.take(
                i + 1,
            ));
        }
        if !is_prefilter_safe(keys[i].as_str()) {
            proof {
                lemma_failure_stays(tree, filter_admit(), filter_build(), it.index() + 1);
            }
            return Err(TrieError::PatternCompilation(String::from_str(UNSAFE_PATTERN)));
        }
        match push_filter_pattern(builder, keys[i].as_str()) {
            Ok(longer) => {
                builder = longer;
            },
            Err(e) => {
                proof {
                    lemma_failure_stays(tree, filter_admit(), filter_build(), it.index() + 1);
                }
                return Err(TrieError::PatternCompilation(describe_parse_error(&e)));
            },
        }
        match compile_tree(child) {
            Ok(made) => {
                built.push(made);
            },
            Err(e) => {
                proof {
                    lemma_failure_stays(tree, filter_admit(), filter_build(), it.index() + 1);
                }
                return Err(e);
            },
        }
        i += 1;
    }
    proof {
        assert(tree.labels.take(tree.labels.len() as int) =~= tree.labels);
    }
    let patterns = if keys.len() == 0 {
        None
    } else {
        if !is_prefilter_safe(GUARD_PATTERN) {
            return Err(TrieError::MultiPatternCompilation(String::from_str(UNSAFE_PATTERN)));
        }
        let guarded = match push_filter_pattern(builder, GUARD_PATTERN) {
            Ok(longer) => longer,
            Err(e) => {
                return Err(TrieError::MultiPatternCompilation(describe_parse_error(&e)));
            },
        };
        match build_filter(guarded) {
            Ok(filter) => {
                let shared = share_filter(filter);
                proof {
                    assert(shared_patterns(shared).drop_last() =~= tree.labels);
                }
                Some(shared)
            },
            Err(e) => {
                return Err(TrieError::MultiPatternCompilation(describe_build_error(&e)));
            },
        }
    };
    let made = RegexFilteredTrieNode { value, patterns, children: built };
    proof {
        assert(made.labels() =~= tree.labels);
        assert(made.tree().children =~= tree.children);
    }
    Ok(made)
}

/// What the error says of a pattern that is not handed to the prefilter.
pub const UNSAFE_PATTERN: &'static str =
    "the pattern counts too high or repeats what can only be empty";

/// A pattern is checked on its own when it is pushed: the prefilter must
/// be able to take it, and the engine must accept it.
pub open spec fn filter_admit() -> spec_fn(Seq<char>) -> bool {
    |label: Seq<char>| prefilter_safe(label) && filter_admits(label)
}

/// The patterns of one level, with the guard behind them, are accepted as
/// a set.
pub open spec fn filter_build() -> spec_fn(Seq<Seq<char>>) -> bool {
    |labels: Seq<Seq<char>>|
        prefilter_safe(guard_pattern()) && filter_admits(guard_pattern()) && filter_builds(
            labels.push(guard_pattern()),
        )
}

/// How the compilation of `tree` into prefiltered sets ends.
pub open spec fn filter_outcome<V>(tree: PhraseTree<V>) -> BuildOutcome {
    compile_outcome(tree, filter_admit(), filter_build())
}

/// Collects phrases of patterns and compiles each level into one
/// `regex_filtered::Regexes`.
pub struct RegexFilteredTrieNodeBuilder<V> {
    phrases: StringTrieNode<V>,
}

impl<V> Default for RegexFilteredTrieNodeBuilder<V> {
    fn default() -> (builder: Self)
        ensures
            builder.builder_wf(),
            builder.builder_model() == PhraseTree::<V>::empty(),
    {
        RegexFilteredTrieNodeBuilder { phrases: StringTrieNode::new() }
    }
}

impl<V> ImmutableTrieNodeBuilder<V> for RegexFilteredTrieNodeBuilder<V> {
    type Node = RegexFilteredTrieNode<V>;

    closed spec fn builder_wf(&self) -> bool {
        self.phrases.well_formed()
    }

    closed spec fn builder_model(&self) -> PhraseTree<V> {
        self.phrases.tree()
    }

    proof fn builder_model_wf(&self) {
        self.phrases.lemma_tree_wf();
    }

    /// A token is inserted as the pattern that matches it whole.
    open spec fn label_of() -> spec_fn(Seq<char>) -> Seq<char> {
        anchoring()
    }

    /// Patterns are not compiled before the tree is.
    open spec fn admits() -> spec_fn(Seq<char>) -> bool {
        admit_all()
    }

    open spec fn outcome(tree: PhraseTree<V>) -> BuildOutcome {
        filter_outcome(tree)
    }

    /// Never fails: a malformed pattern shows when the tree is compiled.
    fn add(&mut self, tokens: &[String], value: V) -> (done: Result<(), TrieError>)
        ensures
            done is Ok,
    {
        let patterns = anchor_all(tokens);
        proof {
            let labels = labels_of(Self::label_of(), phrase(tokens@));
            assert(labels =~= phrase(patterns@));
            lemma_none_refused(Self::admits(), labels);
        }
        self.phrases.insert_phrase(patterns.as_slice(), value);
        Ok(())
    }

    fn build(self) -> (built: Result<Self::Node, TrieError>) {
        compile_tree(self.phrases)
    }
}

} // verus!
