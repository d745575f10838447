//! What every node of a trie can do: the read-only node that is searched,
//! and the construction node that phrases are inserted into.

use vstd::prelude::*;
use vstd::slice::slice_subrange;
use crate::error::TrieError;
use crate::model::{marked, owned, owned_all, phrase, value_seq, Matcher, PhraseTree};

verus! {

/// The labels under which the tokens of a phrase are inserted, given the
/// label of a single token.
pub open spec fn labels_of(
    label_of: spec_fn(Seq<char>) -> Seq<char>,
    tokens: Seq<Seq<char>>,
) -> Seq<Seq<char>> {
    Seq::new(tokens.len(), |i: int| label_of(tokens[i]))
}

/// The index of the first label that `admits` refuses, or the number of
/// labels if it refuses none.
pub open spec fn first_refused(admits: spec_fn(Seq<char>) -> bool, labels: Seq<Seq<char>>) -> int
    decreases labels.len(),
{
    if labels.len() == 0 || !admits(labels[0]) {
        0
    } else {
        1 + first_refused(admits, labels.drop_first())
    }
}

/// The first refused label is an index, or the number of labels; the labels
/// before it are admitted, and it is not.
pub proof fn lemma_first_refused(admits: spec_fn(Seq<char>) -> bool, labels: Seq<Seq<char>>)
    ensures
        0 <= first_refused(admits, labels) <= labels.len(),
        forall|i: int| 0 <= i < first_refused(admits, labels) ==> admits(#[trigger] labels[i]),
        first_refused(admits, labels) < labels.len() ==> !admits(
            labels[first_refused(admits, labels)],
        ),
    decreases labels.len(),
{
    if labels.len() > 0 && admits(labels[0]) {
        let rest = labels.drop_first();
        lemma_first_refused(admits, rest);
        assert forall|i: int| 0 <= i < first_refused(admits, labels) implies admits(
            #[trigger] labels[i],
        ) by {
            if i > 0 {
                assert(labels[i] == rest[i - 1]);
            }
        }
    }
}

/// Where every label is admitted, none is the first refused.
pub proof fn lemma_none_refused(admits: spec_fn(Seq<char>) -> bool, labels: Seq<Seq<char>>)
    requires
        forall|i: int| 0 <= i < labels.len() ==> admits(#[trigger] labels[i]),
    ensures
        first_refused(admits, labels) == labels.len(),
    decreases labels.len(),
{
    if labels.len() > 0 {
        assert(admits(labels[0]));
        let rest = labels.drop_first();
        assert forall|i: int| 0 <= i < rest.len() implies admits(#[trigger] rest[i]) by {
            assert(rest[i] == labels[i + 1]);
        }
        lemma_none_refused(admits, rest);
    }
}

/// What an insertion leaves.  It succeeds exactly if no label is refused,
/// and `after` is then `before` with the phrase `labels` inserted; the
/// value that the phrase had is overwritten.  Otherwise it stops at the
/// first label that is refused: the path up to that label exists in
/// `after`, and no value has changed.
pub open spec fn insertion<V>(
    before: PhraseTree<V>,
    after: PhraseTree<V>,
    admits: spec_fn(Seq<char>) -> bool,
    labels: Seq<Seq<char>>,
    value: V,
    done: Result<(), TrieError>,
) -> bool {
    let stop = first_refused(admits, labels);
    match done {
        Ok(_) => stop == labels.len() && after == before.insert(labels, value),
        Err(e) => stop < labels.len() && e is PatternCompilation && after == before.with_path(
            labels.take(stop),
            None,
        ),
    }
}

/// Every label can be an edge.
pub open spec fn admit_all() -> spec_fn(Seq<char>) -> bool {
    |label: Seq<char>| true
}

/// How the compilation of a construction tree ends.
pub enum BuildOutcome {
    /// Every level compiles.
    Built,
    /// A single pattern is refused.
    BadPattern,
    /// The patterns of one level are refused as a set.
    BadSet,
}

/// Whether `error` is the error of a compilation that ends as `outcome`: a
/// refused pattern gives the error of a pattern, a refused set that of a
/// set, and a compilation that ends well gives none.
pub open spec fn fails_with(outcome: BuildOutcome, error: TrieError) -> bool {
    match outcome {
        BuildOutcome::Built => false,
        BuildOutcome::BadPattern => error is PatternCompilation,
        BuildOutcome::BadSet => error is MultiPatternCompilation,
    }
}

/// How compiling the first `n` subtrees of `tree` ends: the patterns are
/// taken in order, each is first checked on its own by `admits`, and the
/// subtree behind it is then compiled.
pub open spec fn outcome_of_first<V>(
    tree: PhraseTree<V>,
    admits: spec_fn(Seq<char>) -> bool,
    builds: spec_fn(Seq<Seq<char>>) -> bool,
    n: int,
) -> BuildOutcome
    decreases tree, 0int, n,
{
    if n <= 0 || n > tree.children.len() {
        BuildOutcome::Built
    } else {
        let before = outcome_of_first(tree, admits, builds, n - 1);
        if !(before is Built) {
            before
        } else if !admits(tree.labels[n - 1]) {
            BuildOutcome::BadPattern
        } else {
            compile_outcome(tree.children[n - 1], admits, builds)
        }
    }
}

/// How compiling `tree` ends: the subtrees are compiled first, and the
/// labels of a level that has any are then handed to `builds` as one set.
/// The first failure is the outcome.
pub open spec fn compile_outcome<V>(
    tree: PhraseTree<V>,
    admits: spec_fn(Seq<char>) -> bool,
    builds: spec_fn(Seq<Seq<char>>) -> bool,
) -> BuildOutcome
    decreases tree, 1int, 0int,
{
    let below = outcome_of_first(tree, admits, builds, tree.children.len() as int);
    if !(below is Built) {
        below
    } else if tree.children.len() > 0 && !builds(tree.labels) {
        BuildOutcome::BadSet
    } else {
        BuildOutcome::Built
    }
}

/// A failure among the first `n` subtrees is the outcome of the tree.
pub proof fn lemma_failure_stays<V>(
    tree: PhraseTree<V>,
    admits: spec_fn(Seq<char>) -> bool,
    builds: spec_fn(Seq<Seq<char>>) -> bool,
    n: int,
)
    requires
        0 <= n <= tree.children.len(),
        !(outcome_of_first(tree, admits, builds, n) is Built),
    ensures
        compile_outcome(tree, admits, builds) == outcome_of_first(tree, admits, builds, n),
    decreases tree.children.len() - n,
{
    if n < tree.children.len() {
        lemma_failure_stays(tree, admits, builds, n + 1);
    }
}

/// The indices below `count` that `picked` holds, in ascending order: the
/// order in which the children are returned does not depend on the order
/// in which the engine reports its matches.
pub fn in_ascending_order(picked: &Vec<usize>, count: usize) -> (sorted: Vec<usize>)
    ensures
        indices(sorted@) == marked(
            Seq::new(count as nat, |i: int| picked@.contains(i as usize)),
            count as int,
        ),
        forall|k: int| 0 <= k < sorted@.len() ==> #[trigger] sorted@[k] < count,
{
    let ghost wanted = Seq::new(count as nat, |i: int| picked@.contains(i as usize));
    let mut marks: Vec<bool> = Vec::new();
    let mut i: usize = 0;
    while i < count
        invariant
            i <= count,
            marks@.len() == i,
            forall|j: int| 0 <= j < i ==> !#[trigger] marks@[j],
        decreases count - i,
    {
        marks.push(false);
        i += 1;
    }
    let mut k: usize = 0;
    while k < picked.len()
        invariant
            k <= picked@.len(),
            marks@.len() == count,
            forall|j: int|
                0 <= j < count ==> (#[trigger] marks@[j] <==> exists|at: int|
                    0 <= at < k && picked@[at] == j),
        decreases picked@.len() - k,
    {
        let index = picked[k];
        if index < count {
            let ghost before = marks@;
            marks.set(index, true);
            proof {
                assert forall|j: int| 0 <= j < count implies (#[trigger] marks@[j] <==> exists|
                    at: int,
                | 0 <= at < k + 1 && picked@[at] == j) by {
                    if j == index {
                        assert(picked@[k as int] == j);
                    } else {
                        assert(marks@[j] == before[j]);
                        if before[j] {
                            let at = choose|at: int| 0 <= at < k && picked@[at] == j;
                            assert(0 <= at < k + 1 && picked@[at] == j);
                        }
                    }
                }
            }
        }
        k += 1;
    }
    proof {
        assert(marks@ =~= wanted) by {
            assert forall|j: int| 0 <= j < count implies marks@[j] == wanted[j] by {
                if marks@[j] {
                    let at = choose|at: int| 0 <= at < picked@.len() && picked@[at] == j;
                    assert(picked@[at] == j as usize);
                }
                if wanted[j] {
                    let at = choose|at: int|
                        0 <= at < picked@.len() && picked@[at] == j as usize;
                    assert(picked@[at] == j);
                }
            }
        }
    }
    let mut sorted: Vec<usize> = Vec::new();
    let mut n: usize = 0;
    proof {
        assert(indices(sorted@) =~= marked(marks@, 0));
    }
    while n < count
        invariant
            n <= count,
            marks@.len() == count,
            indices(sorted@) == marked(marks@, n as int),
            forall|j: int| 0 <= j < sorted@.len() ==> #[trigger] sorted@[j] < count,
        decreases count - n,
    {
        if marks[n] {
            let ghost before = indices(sorted@);
            sorted.push(n);
            assert(indices(sorted@) =~= before.push(n as int));
        }
        n += 1;
    }
    sorted
}

/// Machine indices as mathematical ones.
pub open spec fn indices(picked: Seq<usize>) -> Seq<int> {
    Seq::new(picked.len(), |k: int| picked[k] as int)
}

/// A read-only node of a compiled trie.
pub trait ImmutableTrieNode<V>: Sized {
    /// The node's internal invariant.
    spec fn wf(&self) -> bool;

    /// The tree that the node stands for.
    spec fn model(&self) -> PhraseTree<V>;

    /// The relation by which this kind of node matches a label to a token.
    spec fn matcher() -> Matcher;

    /// A well-formed node stands for a well-formed tree.
    proof fn model_wf(&self)
        requires
            self.wf(),
        ensures
            self.model().wf(),
    ;

    /// The value that ends a phrase at this node, if any.
    fn value(&self) -> (found: Option<&V>)
        requires
            self.wf(),
        ensures
            owned(found) == self.model().value,
    ;

    /// Every direct child whose edge matches `token`, in the order of the
    /// edges.
    fn get_children(&self, token: &str) -> (found: Vec<&Self>)
        requires
            self.wf(),
        ensures
            found@.len() == self.model().matching(Self::matcher(), token@).len(),
            forall|j: int|
                0 <= j < found@.len() ==> (#[trigger] found@[j]).wf() && found@[j].model()
                    == self.model().children[self.model().matching(Self::matcher(), token@)[j]],
    ;

    /// The number of direct children.
    fn len(&self) -> (n: usize)
        requires
            self.wf(),
        ensures
            n == self.model().size(),
    ;

    /// The number of nodes below this one.
    fn len_recursive(&self) -> (n: usize)
        requires
            self.wf(),
            self.model().size_recursive() <= usize::MAX,
        ensures
            n == self.model().size_recursive(),
    ;

    /// Whether the node has no child.
    fn is_empty(&self) -> (none: bool)
        requires
            self.wf(),
        ensures
            none == (self.model().size() == 0),
    {
        self.len() == 0
    }

    /// The first child whose edge matches `token`.
    fn get_child(&self, token: &str) -> (found: Option<&Self>)
        requires
            self.wf(),
        ensures
            match found {
                Some(child) => {
                    let picks = self.model().matching(Self::matcher(), token@);
                    picks.len() > 0 && child.wf() && child.model()
                        == self.model().children[picks[0]]
                },
                None => self.model().matching(Self::matcher(), token@).len() == 0,
            },
    {
        let children = self.get_children(token);
        if children.len() > 0 {
            Some(children[0])
        } else {
            None
        }
    }

    /// First-match descent over `tokens`, starting at this node.
    fn get_any(&self, tokens: &[String]) -> (found: Option<&V>)
        requires
            self.wf(),
        ensures
            owned(found) == self.model().descend_any(Self::matcher(), phrase(tokens@)),
    {
        let ghost all = phrase(tokens@);
        let mut child: &Self = self;
        let mut i: usize = 0;
        proof {
            assert(all.skip(0) =~= all);
        }
        while i < tokens.len()
            invariant
                i <= tokens.len(),
                all == phrase(tokens@),
                child.wf(),
                child.model().descend_any(Self::matcher(), all.skip(i as int))
                    == self.model().descend_any(Self::matcher(), all),
            decreases tokens.len() - i,
        {
            let value = child.value();
            if value.is_some() {
                return value;
            }
            proof {
                assert(all.skip(i as int)[0] == tokens@[i as int]@);
                assert(all.skip(i as int).drop_first() =~= all.skip(i + 1));
            }
            match child.get_child(tokens[i].as_str()) {
                Some(next) => {
                    child = next;
                },
                None => {
                    return None;
                },
            }
            i += 1;
        }
        proof {
            assert(all.skip(i as int).len() == 0);
        }
        child.value()
    }

}

/// The exhaustive search, which every read-only node has.
pub trait ExhaustiveSearch<V>: ImmutableTrieNode<V> {
    /// Exhaustive descent over `tokens`, starting at this node.
    fn get_all(&self, tokens: &[String]) -> (found: Vec<&V>)
        requires
            self.wf(),
        ensures
            owned_all(found@) == self.model().descend_all(Self::matcher(), phrase(tokens@)),
    ;
}

impl<V, N: ImmutableTrieNode<V>> ExhaustiveSearch<V> for N {
    fn get_all(&self, tokens: &[String]) -> (found: Vec<&V>) {
        exhaustive_descent(self, tokens)
    }
}

/// Exhaustive descent over `tokens`, starting at `node`: every matching child
/// is visited in order, its value collected, and the descent continued below
/// it on the remaining tokens.
pub fn exhaustive_descent<'a, V, N: ImmutableTrieNode<V>>(
    node: &'a N,
    tokens: &[String],
) -> (found: Vec<&'a V>)
    requires
        node.wf(),
    ensures
        owned_all(found@) == node.model().descend_all(N::matcher(), phrase(tokens@)),
    decreases tokens@.len(),
{
    let mut values: Vec<&V> = Vec::new();
    if tokens.len() == 0 {
        assert(owned_all(values@) =~= Seq::<V>::empty());
        return values;
    }
    let children = node.get_children(tokens[0].as_str());
    let rest = slice_subrange(tokens, 1, tokens.len());
    let ghost picks = node.model().matching(N::matcher(), tokens@[0]@);
    proof {
        assert(phrase(tokens@)[0] == tokens@[0]@);
        assert(phrase(rest@) =~= phrase(tokens@).drop_first());
        assert(owned_all(values@) =~= Seq::<V>::empty());
    }
    let mut k: usize = 0;
    while k < children.len()
        invariant
            k <= children.len(),
            node.wf(),
            children@.len() == picks.len(),
            rest@.len() < tokens@.len(),
            forall|j: int|
                0 <= j < children@.len() ==> (#[trigger] children@[j]).wf()
                    && children@[j].model() == node.model().children[picks[j]],
            owned_all(values@) == node.model().gather_all(
                N::matcher(),
                phrase(rest@),
                picks,
                k as int,
            ),
        decreases children.len() - k,
    {
        let child = children[k];
        let ghost before = owned_all(values@);
        let value = child.value();
        if let Some(v) = value {
            values.push(v);
        }
        let ghost with_value = owned_all(values@);
        proof {
            assert(with_value =~= before + value_seq(child.model().value));
        }
        let mut below = exhaustive_descent(child, rest);
        let ghost deeper = owned_all(below@);
        values.append(&mut below);
        proof {
            assert(owned_all(values@) =~= with_value + deeper);
            assert(owned_all(values@) =~= before + node.model().branch_all(
                N::matcher(),
                phrase(rest@),
                picks[k as int],
            ));
        }
        k += 1;
    }
    values
}

/// A construction node: phrases are inserted into it, and it is then compiled
/// into a read-only node.
pub trait ImmutableTrieNodeBuilder<V>: Sized {
    /// The read-only node that this builder compiles into.
    type Node: ImmutableTrieNode<V>;

    /// The builder's internal invariant.
    spec fn builder_wf(&self) -> bool;

    /// The tree of the phrases inserted so far.
    spec fn builder_model(&self) -> PhraseTree<V>;

    /// A well-formed builder holds a well-formed tree.
    proof fn builder_model_wf(&self)
        requires
            self.builder_wf(),
        ensures
            self.builder_model().wf(),
    ;

    /// The label under which a token is inserted.
    spec fn label_of() -> spec_fn(Seq<char>) -> Seq<char>;

    /// Whether an edge with this label can be created at insertion time.
    spec fn admits() -> spec_fn(Seq<char>) -> bool;

    /// How the compilation of `tree` ends.
    spec fn outcome(tree: PhraseTree<V>) -> BuildOutcome;

    /// Inserts the phrase `tokens` with `value`; a value that the phrase had
    /// before is overwritten.  The insertion stops at the first token whose
    /// label cannot be created: the path up to it then exists, and no value
    /// has changed.
    fn add(&mut self, tokens: &[String], value: V) -> (done: Result<(), TrieError>)
        requires
            old(self).builder_wf(),
        ensures
            final(self).builder_wf(),
            insertion(
                old(self).builder_model(),
                final(self).builder_model(),
                Self::admits(),
                labels_of(Self::label_of(), phrase(tokens@)),
                value,
                done,
            ),
    ;

    /// Compiles the tree, all of it or nothing: the node stands for the same
    /// tree as the builder did.
    fn build(self) -> (built: Result<Self::Node, TrieError>)
        requires
            self.builder_wf(),
        ensures
            match built {
                Ok(node) => Self::outcome(self.builder_model()) is Built && node.wf()
                    && node.model() == self.builder_model(),
                Err(e) => fails_with(Self::outcome(self.builder_model()), e),
            },
    ;
}

/// A node that is searched while it still grows: a read-only node that is
/// its own builder.  The searches go by the names that they have on such a
/// node.
pub trait MutableTrieNode<V>: ImmutableTrieNode<V> + ImmutableTrieNodeBuilder<V> {
    /// The first child whose edge matches `token`.
    fn match_child(&self, token: &str) -> (found: Option<&Self>)
        requires
            self.wf(),
        ensures
            match found {
                Some(child) => {
                    let picks = self.model().matching(Self::matcher(), token@);
                    picks.len() > 0 && child.wf() && child.model()
                        == self.model().children[picks[0]]
                },
                None => self.model().matching(Self::matcher(), token@).len() == 0,
            },
    ;

    /// Every direct child whose edge matches `token`, in the order of the
    /// edges.
    fn match_children(&self, token: &str) -> (found: Vec<&Self>)
        requires
            self.wf(),
        ensures
            found@.len() == self.model().matching(Self::matcher(), token@).len(),
            forall|j: int|
                0 <= j < found@.len() ==> (#[trigger] found@[j]).wf() && found@[j].model()
                    == self.model().children[self.model().matching(Self::matcher(), token@)[j]],
    ;

    /// First-match descent over `tokens`, starting at this node.
    fn match_any(&self, tokens: &[String]) -> (found: Option<&V>)
        requires
            self.wf(),
        ensures
            owned(found) == self.model().descend_any(Self::matcher(), phrase(tokens@)),
    ;

    /// Exhaustive descent over `tokens`, starting at this node.
    fn match_all(&self, tokens: &[String]) -> (found: Vec<&V>)
        requires
            self.wf(),
        ensures
            owned_all(found@) == self.model().descend_all(Self::matcher(), phrase(tokens@)),
    ;
}

impl<V, N> MutableTrieNode<V> for N where
    N: ImmutableTrieNode<V> + ImmutableTrieNodeBuilder<V, Node = N>,
 {
    fn match_child(&self, token: &str) -> (found: Option<&Self>) {
        self.get_child(token)
    }

    fn match_children(&self, token: &str) -> (found: Vec<&Self>) {
        self.get_children(token)
    }

    fn match_any(&self, tokens: &[String]) -> (found: Option<&V>) {
        self.get_any(tokens)
    }

    fn match_all(&self, tokens: &[String]) -> (found: Vec<&V>) {
        exhaustive_descent(self, tokens)
    }
}

} // verus!
