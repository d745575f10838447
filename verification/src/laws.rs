//! Laws of insertion and search, proved of the model.  Every node stands
//! for a [`PhraseTree`], and every operation of the library is specified by
//! the function of the same name on it, so the laws hold of the library.

use vstd::prelude::*;
use crate::model::{lemma_picks_complete, Matcher, PhraseTree};
use crate::node::{compile_outcome, outcome_of_first};
use crate::tokenization::{lowered, scan, trimmed, whitespace_tokens, words};

verus! {

impl<V> PhraseTree<V> {
    /// The subtree at the end of the path `path`, where edges with these
    /// labels lead down from the root.
    pub open spec fn subtree(self, path: Seq<Seq<char>>) -> Option<PhraseTree<V>>
        decreases path.len(),
    {
        if path.len() == 0 {
            Some(self)
        } else {
            let i = self.position(path[0]);
            if 0 <= i < self.children.len() {
                self.children[i].subtree(path.drop_first())
            } else {
                None
            }
        }
    }

    /// The value at the end of the path `path`, where the path exists and a
    /// value stands there.
    pub open spec fn value_at(self, path: Seq<Seq<char>>) -> Option<V> {
        match self.subtree(path) {
            Some(node) => node.value,
            None => None,
        }
    }

    /// The node that a first-match descent stands at after it has consumed
    /// `k` tokens without regard to values, where it gets that far.
    pub open spec fn walk(self, m: Matcher, tokens: Seq<Seq<char>>, k: int) -> Option<
        PhraseTree<V>,
    >
        decreases k,
    {
        if k <= 0 {
            Some(self)
        } else if tokens.len() == 0 {
            None
        } else {
            let picks = self.matching(m, tokens[0]);
            if picks.len() == 0 {
                None
            } else {
                self.children[picks[0]].walk(m, tokens.drop_first(), k - 1)
            }
        }
    }

    /// Making a path exist keeps the tree well-formed.
    pub proof fn lemma_with_path_wf(self, path: Seq<Seq<char>>, value: Option<V>)
        requires
            self.wf(),
        ensures
            self.with_path(path, value).wf(),
        decreases path.len(),
    {
        if path.len() > 0 {
            self.lemma_position_range(path[0]);
            let i = self.position(path[0]);
            if i < self.labels.len() {
                self.children[i].lemma_with_path_wf(path.drop_first(), value);
            } else {
                Self::empty().lemma_with_path_wf(path.drop_first(), value);
            }
        }
    }

    /// A label that was appended is found at the place where it was
    /// appended, if no edge carried it before.
    proof fn lemma_position_after_push(self, label: Seq<char>, child: PhraseTree<V>, from: int)
        requires
            0 <= from <= self.labels.len(),
            self.position_from(label, from) == self.labels.len(),
        ensures
            (PhraseTree {
                labels: self.labels.push(label),
                children: self.children.push(child),
                ..self
            }).position_from(label, from) == self.labels.len(),
        decreases self.labels.len() - from,
    {
        let grown = PhraseTree {
            labels: self.labels.push(label),
            children: self.children.push(child),
            ..self
        };
        if from < self.labels.len() {
            assert(grown.labels[from] == self.labels[from]);
            self.lemma_position_after_push(label, child, from + 1);
        }
    }

    /// Where a label is found after an edge has been appended: where it was
    /// found before, else at the new edge if that carries it, else nowhere.
    proof fn lemma_position_with_push(
        self,
        label: Seq<char>,
        child: PhraseTree<V>,
        sought: Seq<char>,
        from: int,
    )
        requires
            0 <= from <= self.labels.len(),
        ensures
            (PhraseTree {
                labels: self.labels.push(label),
                children: self.children.push(child),
                ..self
            }).position_from(sought, from) == if self.position_from(sought, from)
                < self.labels.len() {
                self.position_from(sought, from)
            } else if sought == label {
                self.labels.len() as int
            } else {
                (self.labels.len() + 1) as int
            },
        decreases self.labels.len() - from,
    {
        let grown = PhraseTree {
            labels: self.labels.push(label),
            children: self.children.push(child),
            ..self
        };
        if from < self.labels.len() {
            assert(grown.labels[from] == self.labels[from]);
            if self.labels[from] != sought {
                self.lemma_position_with_push(label, child, sought, from + 1);
            }
        } else {
            assert(grown.labels[from] == label);
            if sought != label {
                assert(grown.position_from(sought, from + 1) == grown.labels.len());
            }
        }
    }

    /// The position of a label depends on the labels alone.
    proof fn lemma_position_same_labels(self, other: PhraseTree<V>, label: Seq<char>, from: int)
        requires
            self.labels == other.labels,
        ensures
            self.position_from(label, from) == other.position_from(label, from),
        decreases self.labels.len() - from,
    {
        if 0 <= from < self.labels.len() && self.labels[from] != label {
            self.lemma_position_same_labels(other, label, from + 1);
        }
    }

    /// Whatever was done at the end of a path before, an insertion along
    /// the same path leaves the tree that the insertion alone would have
    /// left.
    pub proof fn lemma_insert_after_path(self, path: Seq<Seq<char>>, first: Option<V>, value: V)
        requires
            self.wf(),
        ensures
            self.with_path(path, first).with_path(path, Some(value)) == self.with_path(
                path,
                Some(value),
            ),
        decreases path.len(),
    {
        let once = self.with_path(path, first);
        if path.len() > 0 {
            let rest = path.drop_first();
            self.lemma_position_range(path[0]);
            let i = self.position(path[0]);
            if i < self.labels.len() {
                let child = self.children[i];
                self.lemma_position_same_labels(once, path[0], 0);
                child.lemma_insert_after_path(rest, first, value);
                assert(once.children.update(i, once.children[i].with_path(rest, Some(value)))
                    =~= self.children.update(i, child.with_path(rest, Some(value))));
            } else {
                let child = Self::empty().with_path(rest, first);
                self.lemma_position_after_push(path[0], child, 0);
                Self::empty().lemma_insert_after_path(rest, first, value);
                assert(once.children.update(i, once.children[i].with_path(rest, Some(value)))
                    =~= self.children.push(Self::empty().with_path(rest, Some(value))));
            }
        }
    }
}

impl<V> PhraseTree<V> {
    /// After an insertion the node at the end of the phrase carries the
    /// inserted value.
    pub proof fn lemma_inserted_value(self, path: Seq<Seq<char>>, value: V)
        requires
            self.wf(),
        ensures
            self.insert(path, value).subtree(path) is Some,
            self.insert(path, value).subtree(path)->0.value == Some(value),
        decreases path.len(),
    {
        let after = self.insert(path, value);
        if path.len() > 0 {
            let rest = path.drop_first();
            self.lemma_position_range(path[0]);
            let i = self.position(path[0]);
            if i < self.labels.len() {
                self.lemma_position_same_labels(after, path[0], 0);
                self.children[i].lemma_inserted_value(rest, value);
            } else {
                let child = Self::empty().with_path(rest, Some(value));
                self.lemma_position_after_push(path[0], child, 0);
                Self::empty().lemma_inserted_value(rest, value);
            }
        }
    }

    /// Making a path exist changes no value but the one at its end, and
    /// that one only where a value is given.
    pub proof fn lemma_path_keeps_values(
        self,
        path: Seq<Seq<char>>,
        value: Option<V>,
        other: Seq<Seq<char>>,
    )
        requires
            self.wf(),
            value is Some ==> other != path,
        ensures
            self.with_path(path, value).value_at(other) == self.value_at(other),
        decreases path.len(), other.len(),
    {
        let after = self.with_path(path, value);
        if path.len() == 0 {
            if other.len() > 0 {
                self.lemma_position_same_labels(after, other[0], 0);
            } else {
                assert(other =~= path);
            }
        } else if other.len() > 0 {
            let rest = path.drop_first();
            let beyond = other.drop_first();
            self.lemma_position_range(path[0]);
            self.lemma_position_range(other[0]);
            let i = self.position(path[0]);
            let j = self.position(other[0]);
            if other[0] == path[0] && beyond == rest {
                assert(other =~= path) by {
                    assert(other.len() == beyond.len() + 1);
                    assert(path.len() == rest.len() + 1);
                    assert forall|k: int| 0 <= k < other.len() implies other[k] == path[k] by {
                        if k > 0 {
                            assert(other[k] == beyond[k - 1]);
                            assert(path[k] == rest[k - 1]);
                        }
                    }
                }
            }
            if i < self.labels.len() {
                self.lemma_position_same_labels(after, other[0], 0);
                if j == i {
                    self.children[i].lemma_path_keeps_values(rest, value, beyond);
                }
            } else {
                let child = Self::empty().with_path(rest, value);
                self.lemma_position_with_push(path[0], child, other[0], 0);
                if j == self.labels.len() && other[0] == path[0] {
                    Self::empty().lemma_path_keeps_values(rest, value, beyond);
                    assert(Self::empty().value_at(beyond) is None) by {
                        reveal_with_fuel(PhraseTree::subtree, 2);
                    }
                }
            }
        }
    }

    /// The results of the exhaustive descents from the offsets below `n`
    /// are the flattening of the first `n` single results.
    proof fn lemma_find_all_upto_flattens(self, m: Matcher, tokens: Seq<Seq<char>>, n: int)
        requires
            0 <= n <= tokens.len(),
        ensures
            self.find_all_upto(m, tokens, n) == Seq::new(
                n as nat,
                |i: int| self.descend_all(m, tokens.skip(i)),
            ).flatten(),
        decreases n,
    {
        let parts = Seq::new(n as nat, |i: int| self.descend_all(m, tokens.skip(i)));
        parts.lemma_flatten_and_flatten_alt_are_equivalent();
        if n > 0 {
            let fewer = Seq::new((n - 1) as nat, |i: int| self.descend_all(m, tokens.skip(i)));
            self.lemma_find_all_upto_flattens(m, tokens, n - 1);
            fewer.lemma_flatten_and_flatten_alt_are_equivalent();
            assert(parts.drop_last() =~= fewer);
        }
    }

    /// The search from the offsets at or after `from` finds what the
    /// descent from `at` finds, if no descent from an offset between the
    /// two finds anything.
    proof fn lemma_find_any_from(self, m: Matcher, tokens: Seq<Seq<char>>, from: int, at: int)
        requires
            0 <= from <= at < tokens.len(),
            self.descend_any(m, tokens.skip(at)) is Some,
            forall|j: int| from <= j < at ==> self.descend_any(m, tokens.skip(j)) is None,
        ensures
            self.find_any_from(m, tokens, from) == self.descend_any(m, tokens.skip(at)),
        decreases at - from,
    {
        if from < at {
            self.lemma_find_any_from(m, tokens, from + 1, at);
        }
    }
}

/// Insertion keeps the invariant: a well-formed tree is well-formed after
/// a phrase has been inserted.
pub proof fn law_insert_keeps_wf<V>(tree: PhraseTree<V>, phrase: Seq<Seq<char>>, value: V)
    requires
        tree.wf(),
    ensures
        tree.insert(phrase, value).wf(),
{
    tree.lemma_with_path_wf(phrase, Some(value));
}

/// Matching is complete: a child is among the matching children of a token
/// exactly if the label of its edge matches the token.
pub proof fn law_matching_is_complete<V>(
    tree: PhraseTree<V>,
    m: Matcher,
    token: Seq<char>,
    i: int,
)
    requires
        0 <= i < tree.labels.len(),
    ensures
        tree.matching(m, token).contains(i) <==> m(tree.labels[i], token),
{
    lemma_picks_complete(tree.labels, m, token, tree.labels.len() as int, i);
}

/// Whether every level of `tree` compiles: every label is admitted on its
/// own, and the labels of every level that has any build as a set.
pub open spec fn every_level_compiles<V>(
    tree: PhraseTree<V>,
    admits: spec_fn(Seq<char>) -> bool,
    builds: spec_fn(Seq<Seq<char>>) -> bool,
) -> bool
    decreases tree,
{
    &&& tree.children.len() > 0 ==> builds(tree.labels)
    &&& forall|i: int|
        #![trigger tree.labels[i]]
        #![trigger tree.children[i]]
        0 <= i < tree.children.len() ==> admits(tree.labels[i]) && every_level_compiles(
            tree.children[i],
            admits,
            builds,
        )
}

/// The first `n` subtrees compile exactly if each of them compiles at
/// every level and the label that leads to it is admitted.
proof fn lemma_first_compile<V>(
    tree: PhraseTree<V>,
    admits: spec_fn(Seq<char>) -> bool,
    builds: spec_fn(Seq<Seq<char>>) -> bool,
    n: int,
)
    requires
        0 <= n <= tree.children.len(),
    ensures
        outcome_of_first(tree, admits, builds, n) is Built <==> forall|i: int|
            #![trigger tree.labels[i]]
            #![trigger tree.children[i]]
            0 <= i < n ==> admits(tree.labels[i]) && every_level_compiles(
                tree.children[i],
                admits,
                builds,
            ),
    decreases tree, n,
{
    if n > 0 {
        lemma_first_compile(tree, admits, builds, n - 1);
        law_build_succeeds_where_every_level_compiles(tree.children[n - 1], admits, builds);
        if forall|i: int|
            #![trigger tree.labels[i]]
            #![trigger tree.children[i]]
            0 <= i < n ==> admits(tree.labels[i]) && every_level_compiles(
                tree.children[i],
                admits,
                builds,
            ) {
            assert(admits(tree.labels[n - 1]));
        }
    }
}

/// Compilation is all or nothing, and success is owed to the trees that
/// compile at every level: a build ends well exactly on them.
pub proof fn law_build_succeeds_where_every_level_compiles<V>(
    tree: PhraseTree<V>,
    admits: spec_fn(Seq<char>) -> bool,
    builds: spec_fn(Seq<Seq<char>>) -> bool,
)
    ensures
        compile_outcome(tree, admits, builds) is Built <==> every_level_compiles(
            tree,
            admits,
            builds,
        ),
    decreases tree, tree.children.len() + 1,
{
    lemma_first_compile(tree, admits, builds, tree.children.len() as int);
}

/// Idempotent re-insertion: a phrase that is inserted twice with the same
/// value leaves the tree that one insertion leaves, so every search gives
/// the same result on both.
pub proof fn law_insert_twice<V>(tree: PhraseTree<V>, phrase: Seq<Seq<char>>, value: V)
    requires
        tree.wf(),
    ensures
        tree.insert(phrase, value).insert(phrase, value) == tree.insert(phrase, value),
        forall|m: Matcher, tokens: Seq<Seq<char>>|
            tree.insert(phrase, value).insert(phrase, value).find_all(m, tokens) == tree.insert(
                phrase,
                value,
            ).find_all(m, tokens),
        forall|m: Matcher, tokens: Seq<Seq<char>>|
            tree.insert(phrase, value).insert(phrase, value).find_any(m, tokens) == tree.insert(
                phrase,
                value,
            ).find_any(m, tokens),
{
    tree.lemma_insert_after_path(phrase, Some(value), value);
}

/// Overwrite: of two values that are inserted under the same phrase the
/// later one stays.  The tree is the one that the later insertion alone
/// would have left, and the node at the end of the phrase carries the later
/// value.
pub proof fn law_insert_overwrites<V>(
    tree: PhraseTree<V>,
    phrase: Seq<Seq<char>>,
    earlier: V,
    later: V,
)
    requires
        tree.wf(),
    ensures
        tree.insert(phrase, earlier).insert(phrase, later) == tree.insert(phrase, later),
        tree.insert(phrase, earlier).insert(phrase, later).subtree(phrase) is Some,
        tree.insert(phrase, earlier).insert(phrase, later).subtree(phrase)->0.value == Some(
            later,
        ),
{
    tree.lemma_insert_after_path(phrase, Some(earlier), later);
    tree.lemma_inserted_value(phrase, later);
}

/// No effect beyond growth: an insertion changes the value at the end of
/// the inserted phrase and no other, and an insertion that stops at a label
/// that is refused changes no value at all.
pub proof fn law_insert_changes_no_other_value<V>(
    tree: PhraseTree<V>,
    phrase: Seq<Seq<char>>,
    value: V,
    other: Seq<Seq<char>>,
    stop: int,
)
    requires
        tree.wf(),
        0 <= stop <= phrase.len(),
    ensures
        other != phrase ==> tree.insert(phrase, value).value_at(other) == tree.value_at(other),
        tree.with_path(phrase.take(stop), None).value_at(other) == tree.value_at(other),
{
    if other != phrase {
        tree.lemma_path_keeps_values(phrase, Some(value), other);
    }
    tree.lemma_path_keeps_values(phrase.take(stop), None, other);
}

/// Offset union: the exhaustive search is the concatenation, over every
/// start offset of the tokens in ascending order, of the exhaustive descent
/// from the root over the tokens from that offset on.  No offset is
/// skipped.
pub proof fn law_find_all_is_union_of_offsets<V>(
    tree: PhraseTree<V>,
    m: Matcher,
    tokens: Seq<Seq<char>>,
)
    ensures
        tree.find_all(m, tokens) == Seq::new(
            tokens.len(),
            |i: int| tree.descend_all(m, tokens.skip(i)),
        ).flatten(),
{
    tree.lemma_find_all_upto_flattens(m, tokens, tokens.len() as int);
}

/// Short circuit: where the first-match descent reaches a node with a
/// value after `k` tokens, and no node that it stood at before had one, it
/// returns that value, whatever lies deeper.
pub proof fn law_first_match_short_circuit<V>(
    tree: PhraseTree<V>,
    m: Matcher,
    tokens: Seq<Seq<char>>,
    k: int,
)
    requires
        0 <= k <= tokens.len(),
        tree.walk(m, tokens, k) is Some,
        tree.walk(m, tokens, k)->0.value is Some,
        forall|j: int|
            0 <= j < k && tree.walk(m, tokens, j) is Some ==> (#[trigger] tree.walk(
                m,
                tokens,
                j,
            ))->0.value is None,
    ensures
        tree.descend_any(m, tokens) == tree.walk(m, tokens, k)->0.value,
    decreases k,
{
    if k > 0 {
        assert(tree.walk(m, tokens, 0) == Some(tree));
        let picks = tree.matching(m, tokens[0]);
        let child = tree.children[picks[0]];
        let rest = tokens.drop_first();
        assert forall|j: int| 0 <= j < k - 1 && child.walk(m, rest, j) is Some implies (
        #[trigger] child.walk(m, rest, j))->0.value is None by {
            assert(tree.walk(m, tokens, j + 1) == child.walk(m, rest, j));
        }
        law_first_match_short_circuit(child, m, rest, k - 1);
    }
}

/// The first offset wins: the search for any value returns what the
/// first-match descent finds from the least start offset from which it
/// finds anything.
pub proof fn law_find_any_first_offset<V>(
    tree: PhraseTree<V>,
    m: Matcher,
    tokens: Seq<Seq<char>>,
    at: int,
)
    requires
        0 <= at < tokens.len(),
        tree.descend_any(m, tokens.skip(at)) is Some,
        forall|j: int| 0 <= j < at ==> tree.descend_any(m, tokens.skip(j)) is None,
    ensures
        tree.find_any(m, tokens) == tree.descend_any(m, tokens.skip(at)),
{
    tree.lemma_find_any_from(m, tokens, 0, at);
}

/// Empty input: without tokens the search for any value finds none, and
/// the exhaustive search finds nothing.
pub proof fn law_empty_input<V>(tree: PhraseTree<V>, m: Matcher)
    ensures
        tree.find_any(m, Seq::empty()) is None,
        tree.find_all(m, Seq::empty()) == Seq::<V>::empty(),
{
}

/// The empty text has no tokens for the whitespace tokenizer.
pub proof fn law_empty_text_has_no_tokens()
    ensures
        whitespace_tokens(Seq::empty()) == Seq::<Seq<char>>::empty(),
{
    let text = trimmed(Seq::<char>::empty());
    assert(text =~= Seq::<char>::empty());
    assert(scan(text, 0).0 =~= Seq::<Seq<char>>::empty());
    assert(words(text) =~= Seq::<Seq<char>>::empty());
    assert(lowered(words(text)) =~= Seq::<Seq<char>>::empty());
}

} // verus!
