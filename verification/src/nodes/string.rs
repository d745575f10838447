//! The exact-token node: an edge is followed on the token that equals its
//! label, so at most one edge matches.

use vstd::prelude::*;
use vstd::slice::slice_subrange;
use crate::error::TrieError;
use crate::model::{exact, phrase, tree_cloned, Matcher, PhraseTree};
use crate::node::{
    admit_all, labels_of, lemma_none_refused, BuildOutcome, ImmutableTrieNode,
    ImmutableTrieNodeBuilder,
};

verus! {

/// A node whose edges are labelled with literal tokens.  It is its own
/// builder: compiling it changes nothing.
#[derive(Debug)]
pub struct StringTrieNode<V> {
    value: Option<V>,
    keys: Vec<String>,
    children: Vec<StringTrieNode<V>>,
}

impl<V> StringTrieNode<V> {
    /// One key per child, no key twice, and the same below.
    pub closed spec fn well_formed(&self) -> bool
        decreases self,
    {
        &&& self.keys@.len() == self.children@.len()
        &&& forall|i: int, j: int|
            0 <= i < j < self.keys@.len() ==> self.keys@[i]@ != self.keys@[j]@
        &&& forall|i: int|
            0 <= i < self.children@.len() ==> (#[trigger] self.children@[i]).well_formed()
    }

    /// The tree that the node stands for: the keys are the labels.
    pub closed spec fn tree(&self) -> PhraseTree<V>
        decreases self,
    {
        PhraseTree {
            value: self.value,
            labels: Seq::new(self.keys@.len(), |i: int| self.keys@[i]@),
            children: Seq::new(
                self.children@.len(),
                |i: int|
                    if 0 <= i < self.children@.len() {
                        self.children@[i].tree()
                    } else {
                        PhraseTree::empty()
                    },
            ),
        }
    }

    /// A node without value and without children.
    pub fn new() -> (node: Self)
        ensures
            node.well_formed(),
            node.tree() == PhraseTree::<V>::empty(),
    {
        let node = StringTrieNode { value: None, keys: Vec::new(), children: Vec::new() };
        assert(node.tree().labels =~= Seq::empty());
        assert(node.tree().children =~= Seq::empty());
        node
    }

    /// A well-formed node stands for a well-formed tree.
    pub proof fn lemma_tree_wf(&self)
        requires
            self.well_formed(),
        ensures
            self.tree().wf(),
        decreases self,
    {
        let tree = self.tree();
        assert forall|i: int| 0 <= i < tree.children.len() implies (
        #[trigger] tree.children[i]).wf() by {
            self.children@[i].lemma_tree_wf();
        }
    }

    /// Whether a child stands under `token`.
    pub fn contains_key(&self, token: &str) -> (present: bool)
        requires
            self.well_formed(),
        ensures
            present == (self.tree().position(token@) < self.tree().labels.len()),
    {
        self.find_key(token) < self.keys.len()
    }

    /// The number of nodes below this one.
    fn count_below(&self) -> (n: usize)
        requires
            self.well_formed(),
            self.tree().size_recursive() <= usize::MAX,
        ensures
            n == self.tree().size_recursive(),
        decreases self,
    {
        let ghost tree = self.tree();
        let mut n: usize = 0;
        let mut i: usize = 0;
        while i < self.children.len()
            invariant
                i <= self.children@.len(),
                self.well_formed(),
                tree == self.tree(),
                tree.size_recursive() <= usize::MAX,
                n == tree.size_of_first(i as int),
            decreases self.children@.len() - i,
        {
            proof {
                tree.lemma_size_of_first_monotone(i + 1, tree.children.len() as int);
                assert(tree.children[i as int] == self.children@[i as int].tree());
            }
            let below = self.children[i].count_below();
            n = n + 1 + below;
            i += 1;
        }
        n
    }

    /// The index of the child under `token`, or the number of children if
    /// there is none.
    fn find_key(&self, token: &str) -> (at: usize)
        requires
            self.well_formed(),
        ensures
            at == self.tree().position(token@),
            at <= self.keys@.len(),
            at < self.keys@.len() ==> self.keys@[at as int]@ == token@,
    {
        let mut i: usize = 0;
        while i < self.keys.len()
            invariant
                i <= self.keys@.len(),
                self.tree().position_from(token@, i as int) == self.tree().position(token@),
            decreases self.keys@.len() - i,
        {
            if self.keys[i].as_str().eq(token) {
                return i;
            }
            i += 1;
        }
        i
    }

    /// Takes the node apart: its value, its keys and its children.
    pub(crate) fn into_parts(self) -> (parts: (Option<V>, Vec<String>, Vec<StringTrieNode<V>>))
        requires
            self.well_formed(),
        ensures
            parts.0 == self.tree().value,
            phrase(parts.1@) == self.tree().labels,
            parts.2@.len() == self.tree().children.len(),
            forall|i: int|
                0 <= i < parts.2@.len() ==> (#[trigger] parts.2@[i]).well_formed()
                    && parts.2@[i].tree() == self.tree().children[i],
    {
        assert(phrase(self.keys@) =~= self.tree().labels);
        (self.value, self.keys, self.children)
    }

    /// Inserts the phrase `tokens` with `value`, which replaces the value
    /// that the phrase had.
    pub(crate) fn insert_phrase(&mut self, tokens: &[String], value: V)
        requires
            old(self).well_formed(),
        ensures
            final(self).well_formed(),
            final(self).tree() == old(self).tree().insert(phrase(tokens@), value),
        decreases tokens@.len(),
    {
        let ghost before = self.tree();
        let ghost path = phrase(tokens@);
        if tokens.len() == 0 {
            self.value = Some(value);
            proof {
                assert(self.tree().labels =~= before.labels);
                assert(self.tree().children =~= before.children);
            }
            return;
        }
        let at = self.find_key(tokens[0].as_str());
        if at == self.keys.len() {
            proof {
                before.lemma_position_range(tokens@[0]@);
            }
            let ghost keys = self.keys@;
            let ghost children = self.children@;
            self.keys.push(tokens[0].clone());
            self.children.push(StringTrieNode::new());
            proof {
                assert forall|i: int, j: int| 0 <= i < j < self.keys@.len() implies self.keys@[i]@
                    != self.keys@[j]@ by {
                    assert(self.keys@[i] == keys[i]);
                    if j == at {
                        assert(before.labels[i] == keys[i]@);
                    } else {
                        assert(self.keys@[j] == keys[j]);
                    }
                }
                assert forall|i: int| 0 <= i < self.children@.len() implies (
                #[trigger] self.children@[i]).well_formed() by {
                    if i < at {
                        assert(self.children@[i] == children[i]);
                    }
                }
            }
        }
        let rest = slice_subrange(tokens, 1, tokens.len());
        let ghost grown = self.tree();
        let ghost child_before = self.children@[at as int].tree();
        proof {
            assert(phrase(rest@) =~= path.drop_first());
            assert(path[0] == tokens@[0]@);
            assert(self.well_formed());
        }
        self.children[at].insert_phrase(rest, value);
        proof {
            let child_after = child_before.insert(phrase(rest@), value);
            assert(self.tree().labels =~= grown.labels);
            assert(self.tree().children =~= grown.children.update(at as int, child_after));
            if at < before.labels.len() {
                assert(grown == before);
            } else {
                assert(grown.labels =~= before.labels.push(path[0]));
                assert(grown.children.update(at as int, child_after) =~= before.children.push(
                    child_after,
                ));
            }
        }
    }
}

impl<V> ImmutableTrieNode<V> for StringTrieNode<V> {
    open spec fn wf(&self) -> bool {
        self.well_formed()
    }

    open spec fn model(&self) -> PhraseTree<V> {
        self.tree()
    }

    open spec fn matcher() -> Matcher {
        exact()
    }

    proof fn model_wf(&self) {
        self.lemma_tree_wf();
    }

    fn value(&self) -> (found: Option<&V>) {
        self.value.as_ref()
    }

    /// At most one child: the one under `token`.
    fn get_children(&self, token: &str) -> (found: Vec<&Self>) {
        let mut found: Vec<&Self> = Vec::new();
        let at = self.find_key(token);
        proof {
            self.lemma_tree_wf();
            self.tree().lemma_exact_matching(token@);
        }
        if at < self.keys.len() {
            found.push(&self.children[at]);
        }
        found
    }

    fn len(&self) -> (n: usize) {
        self.children.len()
    }

    fn len_recursive(&self) -> (n: usize) {
        self.count_below()
    }
}

impl<V> ImmutableTrieNodeBuilder<V> for StringTrieNode<V> {
    type Node = StringTrieNode<V>;

    open spec fn builder_wf(&self) -> bool {
        self.well_formed()
    }

    open spec fn builder_model(&self) -> PhraseTree<V> {
        self.tree()
    }

    proof fn builder_model_wf(&self) {
        self.lemma_tree_wf();
    }

    /// A token is its own label.
    open spec fn label_of() -> spec_fn(Seq<char>) -> Seq<char> {
        |token: Seq<char>| token
    }

    /// Every label can be created.
    open spec fn admits() -> spec_fn(Seq<char>) -> bool {
        admit_all()
    }

    /// There is nothing to compile.
    open spec fn outcome(tree: PhraseTree<V>) -> BuildOutcome {
        BuildOutcome::Built
    }

    /// Never fails.
    fn add(&mut self, tokens: &[String], value: V) -> (done: Result<(), TrieError>)
        ensures
            done is Ok,
    {
        proof {
            let labels = labels_of(Self::label_of(), phrase(tokens@));
            assert(labels =~= phrase(tokens@));
            lemma_none_refused(Self::admits(), labels);
        }
        self.insert_phrase(tokens, value);
        Ok(())
    }

    /// The node is already what it compiles into.
    fn build(self) -> (built: Result<Self::Node, TrieError>)
        ensures
            built == Ok::<Self::Node, TrieError>(self),
    {
        Ok(self)
    }
}

impl<V: Clone> StringTrieNode<V> {
    /// A copy of the node and of everything below it.
    fn duplicate(&self) -> (copy: Self)
        ensures
            self.well_formed() ==> copy.well_formed() && tree_cloned(self.tree(), copy.tree()),
        decreases self,
    {
        let mut keys: Vec<String> = Vec::new();
        let mut children: Vec<StringTrieNode<V>> = Vec::new();
        let mut i: usize = 0;
        while i < self.keys.len() && i < self.children.len()
            invariant
                i <= self.keys@.len(),
                i <= self.children@.len(),
                keys@ == self.keys@.take(i as int),
                children@.len() == i,
                forall|k: int|
                    0 <= k < i && self.children@[k].well_formed() ==> (
                    #[trigger] children@[k]).well_formed() && tree_cloned(
                        self.children@[k].tree(),
                        children@[k].tree(),
                    ),
            decreases self.keys@.len() - i,
        {
            keys.push(self.keys[i].clone());
            children.push(self.children[i].duplicate());
            assert(keys@ =~= self.keys@.take(i + 1));
            i += 1;
        }
        let copy = StringTrieNode { value: self.value.clone(), keys, children };
        proof {
            if self.well_formed() {
                assert(keys@ =~= self.keys@);
                assert(copy.tree().labels =~= self.tree().labels);
                assert forall|k: int| 0 <= k < self.tree().children.len() implies tree_cloned(
                    #[trigger] self.tree().children[k],
                    copy.tree().children[k],
                ) by {
                    assert(children@[k].well_formed());
                }
            }
        }
        copy
    }
}

impl<V: Clone> Clone for StringTrieNode<V> {
    /// A copy with the same edges and, at every node, a clone of the value.
    fn clone(&self) -> (copy: Self)
        ensures
            self.well_formed() ==> copy.well_formed() && tree_cloned(self.tree(), copy.tree()),
    {
        self.duplicate()
    }
}

impl<V> Default for StringTrieNode<V> {
    fn default() -> (node: Self)
        ensures
            node.well_formed(),
            node.tree() == PhraseTree::<V>::empty(),
    {
        StringTrieNode::new()
    }
}

} // verus!
