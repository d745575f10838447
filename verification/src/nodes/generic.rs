//! The generic node: every node carries the key that its edge is matched
//! with, and the kind of key decides how tokens are matched.

use vstd::prelude::*;
use vstd::slice::slice_subrange;
use crate::error::TrieError;
use crate::model::{
    owned, owned_all, phrase, picks, tree_cloned, value_seq, Matcher, PhraseTree,
};
use crate::node::{
    exhaustive_descent, first_refused, insertion, labels_of, lemma_first_refused, BuildOutcome,
    ImmutableTrieNode, ImmutableTrieNodeBuilder,
};
use crate::nodes::key::{clones_keep_label, NodeKey};

verus! {

/// A node with a key of its own.  The label of an edge is the label of the
/// key of the child that the edge leads to.  The node is its own builder.
#[derive(Debug)]
pub struct GenericTrieNode<K, V> where K: NodeKey {
    key: K,
    value: Option<V>,
    children: Vec<GenericTrieNode<K, V>>,
}

impl<K, V> GenericTrieNode<K, V> where K: NodeKey {
    /// The label of the node's own key.
    pub closed spec fn key_label(&self) -> Seq<char> {
        self.key.label()
    }

    /// No two children have keys of the same label, every label is one
    /// that a key can be made for, and the same below.
    pub closed spec fn well_formed(&self) -> bool
        decreases self,
    {
        &&& forall|i: int, j: int|
            0 <= i < j < self.children@.len() ==> self.children@[i].key.label()
                != self.children@[j].key.label()
        &&& forall|i: int|
            0 <= i < self.children@.len() ==> (#[trigger] self.children@[i]).well_formed()
    }

    /// The tree that the node stands for; the node's own key is no part of
    /// it.
    pub closed spec fn tree(&self) -> PhraseTree<V>
        decreases self,
    {
        PhraseTree {
            value: self.value,
            labels: Seq::new(self.children@.len(), |i: int| self.children@[i].key.label()),
            children: Seq::new(
                self.children@.len(),
                |i: int|
                    if 0 <= i < self.children@.len() {
                        self.children@[i].tree()
                    } else {
                        PhraseTree::empty()
                    },
            ),
        }
    }

    /// A well-formed node stands for a well-formed tree.
    pub proof fn lemma_tree_wf(&self)
        requires
            self.well_formed(),
        ensures
            self.tree().wf(),
        decreases self,
    {
        let tree = self.tree();
        assert forall|i: int| 0 <= i < tree.children.len() implies (
        #[trigger] tree.children[i]).wf() by {
            self.children@[i].lemma_tree_wf();
        }
    }

    /// A node without value and without children under the key of `key`.
    /// Fails where no key can be made of `key`.
    pub fn new(key: &str) -> (made: Result<Self, TrieError>)
        ensures
            made is Ok <==> K::admits()(K::label_of()(key@)),
            match made {
                Ok(node) => node.well_formed() && node.tree() == PhraseTree::<V>::empty()
                    && node.key_label() == K::label_of()(key@),
                Err(e) => e is PatternCompilation,
            },
    {
        match K::new(key) {
            Ok(key) => {
                let node = GenericTrieNode { key, value: None, children: Vec::new() };
                assert(node.tree().labels =~= Seq::empty());
                assert(node.tree().children =~= Seq::empty());
                Ok(node)
            },
            Err(e) => Err(e),
        }
    }

    /// Whether the node's own key matches `value`.
    pub fn token_is_match(&self, value: &str) -> (matched: bool)
        ensures
            matched == K::accepts()(self.key_label(), value@),
    {
        self.key.is_match(value)
    }

    /// The values of the phrases that start at this node and are matched
    /// by a prefix of `tokens`: the node's own key must match the first
    /// token.
    pub fn get_all(&self, tokens: &[String]) -> (found: Vec<&V>)
        requires
            self.well_formed(),
        ensures
            owned_all(found@) == self.tree().rooted_all(
                self.key_label(),
                K::accepts(),
                phrase(tokens@),
            ),
    {
        let mut found: Vec<&V> = Vec::new();
        proof {
            assert(owned_all(found@) =~= Seq::<V>::empty());
        }
        if tokens.len() == 0 {
            return found;
        }
        if !self.token_is_match(tokens[0].as_str()) {
            return found;
        }
        if let Some(v) = self.value.as_ref() {
            found.push(v);
        }
        let ghost first = owned_all(found@);
        proof {
            assert(first =~= value_seq(self.value));
        }
        let rest = slice_subrange(tokens, 1, tokens.len());
        proof {
            assert(phrase(rest@) =~= phrase(tokens@).drop_first());
        }
        let mut below = exhaustive_descent(self, rest);
        let ghost deeper = owned_all(below@);
        found.append(&mut below);
        proof {
            assert(owned_all(found@) =~= first + deeper);
        }
        found
    }

    /// A value of a phrase that starts at this node and is matched by a
    /// prefix of `tokens`: the node's own key must match the first token;
    /// the node's value ends the search, as does the last token; otherwise
    /// the children are tried in order.
    pub fn get_any(&self, tokens: &[String]) -> (found: Option<&V>)
        requires
            self.well_formed(),
            tokens@.len() > 0,
        ensures
            owned(found) == self.tree().rooted_any(
                self.key_label(),
                K::accepts(),
                phrase(tokens@),
            ),
        decreases tokens@.len(),
    {
        if !self.token_is_match(tokens[0].as_str()) {
            return None;
        } else if tokens.len() == 1 || self.value.is_some() {
            return self.value.as_ref();
        }
        let rest = slice_subrange(tokens, 1, tokens.len());
        proof {
            assert(phrase(rest@) =~= phrase(tokens@).drop_first());
        }
        let ghost tree = self.tree();
        let mut i: usize = 0;
        while i < self.children.len()
            invariant
                i <= self.children@.len(),
                self.well_formed(),
                tree == self.tree(),
                rest@.len() > 0,
                rest@.len() < tokens@.len(),
                tree.first_below(K::accepts(), phrase(rest@), i as int) == tree.rooted_any(
                    self.key_label(),
                    K::accepts(),
                    phrase(tokens@),
                ),
            decreases self.children@.len() - i,
        {
            proof {
                assert(tree.children[i as int] == self.children@[i as int].tree());
                assert(tree.labels[i as int] == self.children@[i as int].key_label());
            }
            let value = self.children[i].get_any(rest);
            if value.is_some() {
                return value;
            }
            i += 1;
        }
        None
    }

    /// Whether [`GenericTrieNode::get_any`] finds a value.
    pub fn is_match(&self, tokens: &[String]) -> (matched: bool)
        requires
            self.well_formed(),
            tokens@.len() > 0,
        ensures
            matched == self.tree().rooted_any(
                self.key_label(),
                K::accepts(),
                phrase(tokens@),
            ) is Some,
    {
        self.get_any(tokens).is_some()
    }

    /// The number of nodes below this one.
    fn count_below(&self) -> (n: usize)
        requires
            self.well_formed(),
            self.tree().size_recursive() <= usize::MAX,
        ensures
            n == self.tree().size_recursive(),
        decreases self,
    {
        let ghost tree = self.tree();
        let mut n: usize = 0;
        let mut i: usize = 0;
        while i < self.children.len()
            invariant
                i <= self.children@.len(),
                self.well_formed(),
                tree == self.tree(),
                tree.size_recursive() <= usize::MAX,
                n == tree.size_of_first(i as int),
            decreases self.children@.len() - i,
        {
            proof {
                tree.lemma_size_of_first_monotone(i + 1, tree.children.len() as int);
                assert(tree.children[i as int] == self.children@[i as int].tree());
            }
            let below = self.children[i].count_below();
            n = n + 1 + below;
            i += 1;
        }
        n
    }

    /// The index of the child whose key has the label `label`, or the
    /// number of children if there is none.
    fn find_label(&self, label: &str) -> (at: usize)
        requires
            self.well_formed(),
        ensures
            at == self.tree().position(label@),
            at <= self.children@.len(),
    {
        let mut i: usize = 0;
        while i < self.children.len()
            invariant
                i <= self.children@.len(),
                self.tree().position_from(label@, i as int) == self.tree().position(label@),
            decreases self.children@.len() - i,
        {
            if self.children[i].key.as_str().eq(label) {
                return i;
            }
            i += 1;
        }
        i
    }

    /// Inserts the phrase `tokens` with `value`.  The key of each token is
    /// made before the edge is looked for; at the first token that gives no
    /// key the insertion stops.
    fn insert_phrase(&mut self, tokens: &[String], value: V) -> (done: Result<(), TrieError>)
        requires
            old(self).well_formed(),
        ensures
            final(self).well_formed(),
            final(self).key_label() == old(self).key_label(),
            insertion(
                old(self).tree(),
                final(self).tree(),
                K::admits(),
                labels_of(K::label_of(), phrase(tokens@)),
                value,
                done,
            ),
        decreases tokens@.len(),
    {
        let ghost before = self.tree();
        let ghost labels = labels_of(K::label_of(), phrase(tokens@));
        if tokens.len() == 0 {
            self.value = Some(value);
            proof {
                assert(self.tree().labels =~= before.labels);
                assert(self.tree().children =~= before.children);
            }
            return Ok(());
        }
        proof {
            assert(labels[0] == K::label_of()(tokens@[0]@));
        }
        let key = match K::new(tokens[0].as_str()) {
            Ok(key) => key,
            Err(e) => {
                proof {
                    assert(labels.take(0) =~= Seq::<Seq<char>>::empty());
                }
                return Err(e);
            },
        };
        let at = self.find_label(key.as_str());
        if at == self.children.len() {
            proof {
                before.lemma_position_range(labels[0]);
            }
            let ghost children = self.children@;
            self.children.push(GenericTrieNode { key, value: None, children: Vec::new() });
            proof {
                let added = self.children@[at as int];
                assert(added.tree().labels =~= Seq::empty());
                assert(added.tree().children =~= Seq::empty());
                assert forall|i: int, j: int|
                    0 <= i < j < self.children@.len() implies self.children@[i].key.label()
                    != self.children@[j].key.label() by {
                    assert(self.children@[i] == children[i]);
                    if j == at {
                        assert(before.labels[i] == children[i].key.label());
                    } else {
                        assert(self.children@[j] == children[j]);
                    }
                }
                assert forall|i: int| 0 <= i < self.children@.len() implies (
                #[trigger] self.children@[i]).well_formed() by {
                    if i < at {
                        assert(self.children@[i] == children[i]);
                    }
                }
            }
        }
        let rest = slice_subrange(tokens, 1, tokens.len());
        let ghost grown = self.tree();
        let ghost child_before = self.children@[at as int].tree();
        let ghost rest_labels = labels_of(K::label_of(), phrase(rest@));
        proof {
            before.lemma_position_range(labels[0]);
            assert(rest_labels =~= labels.drop_first());
            assert(self.well_formed());
            if at < before.labels.len() {
                assert(grown.labels =~= before.labels);
                assert(grown.children =~= before.children);
            } else {
                assert(grown.labels =~= before.labels.push(labels[0]));
                assert(child_before == PhraseTree::<V>::empty());
            }
        }
        let ghost siblings = self.children@;
        let done = self.children[at].insert_phrase(rest, value);
        proof {
            let child_after = self.children@[at as int].tree();
            assert(self.tree().labels =~= grown.labels) by {
                assert forall|i: int|
                    0 <= i < self.children@.len() implies self.children@[i].key.label()
                    == siblings[i].key.label() by {
                    if i != at {
                        assert(self.children@[i] == siblings[i]);
                    }
                }
            }
            assert(self.tree().children =~= grown.children.update(at as int, child_after));
            assert(self.well_formed()) by {
                assert forall|i: int, j: int|
                    0 <= i < j < self.children@.len() implies self.children@[i].key.label()
                    != self.children@[j].key.label() by {
                    assert(self.tree().labels[i] == grown.labels[i]);
                    assert(self.tree().labels[j] == grown.labels[j]);
                    assert(grown.labels[i] == siblings[i].key.label());
                    assert(grown.labels[j] == siblings[j].key.label());
                }
            }
            if at >= before.labels.len() {
                assert(grown.children.update(at as int, child_after) =~= before.children.push(
                    child_after,
                ));
            }
            let stop = first_refused(K::admits(), rest_labels);
            lemma_first_refused(K::admits(), rest_labels);
            if done is Err {
                assert(labels.take(stop + 1).drop_first() =~= rest_labels.take(stop));
                assert(labels.take(stop + 1)[0] == labels[0]);
            }
        }
        done
    }
}

impl<K, V> GenericTrieNode<K, V> where K: NodeKey + Clone, V: Clone {
    /// A copy of the node and of everything below it.
    fn duplicate(&self) -> (copy: Self)
        ensures
            self.well_formed() && clones_keep_label::<K>() ==> copy.well_formed() && tree_cloned(
                self.tree(),
                copy.tree(),
            ) && copy.key_label() == self.key_label(),
        decreases self,
    {
        let mut children: Vec<GenericTrieNode<K, V>> = Vec::new();
        let mut i: usize = 0;
        while i < self.children.len()
            invariant
                i <= self.children@.len(),
                children@.len() == i,
                forall|k: int|
                    0 <= k < i && self.children@[k].well_formed() && clones_keep_label::<K>() ==> (
                    #[trigger] children@[k]).well_formed() && tree_cloned(
                        self.children@[k].tree(),
                        children@[k].tree(),
                    ) && children@[k].key.label() == self.children@[k].key.label(),
            decreases self.children@.len() - i,
        {
            children.push(self.children[i].duplicate());
            i += 1;
        }
        let copy = GenericTrieNode { key: self.key.clone(), value: self.value.clone(), children };
        proof {
            if self.well_formed() && clones_keep_label::<K>() {
                assert(cloned(self.key, copy.key));
                assert(copy.tree().labels =~= self.tree().labels) by {
                    assert forall|k: int| 0 <= k < children@.len() implies children@[k].key.label()
                        == self.children@[k].key.label() by {
                        assert(children@[k].well_formed());
                    }
                }
                assert forall|k: int| 0 <= k < self.tree().children.len() implies tree_cloned(
                    #[trigger] self.tree().children[k],
                    copy.tree().children[k],
                ) by {
                    assert(children@[k].well_formed());
                }
                assert forall|a: int, b: int|
                    0 <= a < b < children@.len() implies children@[a].key.label()
                    != children@[b].key.label() by {
                    assert(children@[a].well_formed());
                    assert(children@[b].well_formed());
                }
            }
        }
        copy
    }
}

impl<K, V> Clone for GenericTrieNode<K, V> where K: NodeKey + Clone, V: Clone {
    /// A copy with the same edges and, at every node, a clone of the value
    /// and of the key; it is stated for keys whose clones keep the label.
    fn clone(&self) -> (copy: Self)
        ensures
            self.well_formed() && clones_keep_label::<K>() ==> copy.well_formed() && tree_cloned(
                self.tree(),
                copy.tree(),
            ) && copy.key_label() == self.key_label(),
    {
        self.duplicate()
    }
}

impl<K, V> ImmutableTrieNode<V> for GenericTrieNode<K, V> where K: NodeKey {
    open spec fn wf(&self) -> bool {
        self.well_formed()
    }

    open spec fn model(&self) -> PhraseTree<V> {
        self.tree()
    }

    /// The keys decide what matches.
    open spec fn matcher() -> Matcher {
        K::accepts()
    }

    proof fn model_wf(&self) {
        self.lemma_tree_wf();
    }

    fn value(&self) -> (found: Option<&V>) {
        self.value.as_ref()
    }

    /// The children whose key matches `token`, in their order.  The key of
    /// each is the label of the edge that leads to it.
    fn get_children(&self, token: &str) -> (found: Vec<&Self>)
        ensures
            forall|j: int|
                0 <= j < found@.len() ==> (#[trigger] found@[j]).key_label()
                    == self.tree().labels[self.tree().matching(K::accepts(), token@)[j]],
    {
        let mut found: Vec<&Self> = Vec::new();
        let ghost tree = self.tree();
        let mut i: usize = 0;
        while i < self.children.len()
            invariant
                i <= self.children@.len(),
                self.well_formed(),
                tree == self.tree(),
                found@.len() == picks(tree.labels, K::accepts(), token@, i as int).len(),
                forall|j: int|
                    0 <= j < found@.len() ==> (#[trigger] found@[j]).well_formed()
                        && found@[j].tree() == tree.children[picks(
                        tree.labels,
                        K::accepts(),
                        token@,
                        i as int,
                    )[j]] && found@[j].key_label() == tree.labels[picks(
                        tree.labels,
                        K::accepts(),
                        token@,
                        i as int,
                    )[j]],
            decreases self.children@.len() - i,
        {
            proof {
                assert(tree.labels[i as int] == self.children@[i as int].key.label());
                assert(tree.children[i as int] == self.children@[i as int].tree());
            }
            if self.children[i].key.is_match(token) {
                found.push(&self.children[i]);
            }
            i += 1;
        }
        found
    }

    fn len(&self) -> (n: usize) {
        self.children.len()
    }

    fn len_recursive(&self) -> (n: usize) {
        self.count_below()
    }
}

impl<K, V> ImmutableTrieNodeBuilder<V> for GenericTrieNode<K, V> where K: NodeKey {
    type Node = GenericTrieNode<K, V>;

    open spec fn builder_wf(&self) -> bool {
        self.well_formed()
    }

    open spec fn builder_model(&self) -> PhraseTree<V> {
        self.tree()
    }

    proof fn builder_model_wf(&self) {
        self.lemma_tree_wf();
    }

    /// The label of a token is the label of its key.
    open spec fn label_of() -> spec_fn(Seq<char>) -> Seq<char> {
        K::label_of()
    }

    /// An edge can be created where a key can be made.
    open spec fn admits() -> spec_fn(Seq<char>) -> bool {
        K::admits()
    }

    /// There is nothing to compile.
    open spec fn outcome(tree: PhraseTree<V>) -> BuildOutcome {
        BuildOutcome::Built
    }

    /// The node's own key stays as it is.
    fn add(&mut self, tokens: &[String], value: V) -> (done: Result<(), TrieError>)
        ensures
            final(self).key_label() == old(self).key_label(),
    {
        self.insert_phrase(tokens, value)
    }

    /// The node is already what it compiles into.
    fn build(self) -> (built: Result<Self::Node, TrieError>)
        ensures
            built == Ok::<Self::Node, TrieError>(self),
    {
        Ok(self)
    }
}

} // verus!
