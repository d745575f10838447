//! The mathematical model of a trie and of the two searches over it.

use vstd::prelude::*;

verus! {

/// Decides whether the edge with the given label (first argument) may be
/// followed on the given token (second argument).
pub type Matcher = spec_fn(Seq<char>, Seq<char>) -> bool;

/// A trie as a mathematical value: an optional value at the root and an
/// ordered sequence of labelled edges, each leading to a subtree.
pub struct PhraseTree<V> {
    pub value: Option<V>,
    pub labels: Seq<Seq<char>>,
    pub children: Seq<PhraseTree<V>>,
}

/// The matcher of literal tokens: an edge is followed on the token that
/// equals its label.
pub open spec fn exact() -> Matcher {
    |label: Seq<char>, token: Seq<char>| label == token
}

/// The tokens of a slice as a phrase of the model.
pub open spec fn phrase(tokens: Seq<String>) -> Seq<Seq<char>> {
    Seq::new(tokens.len(), |i: int| tokens[i]@)
}

/// The value behind an optional reference.
pub open spec fn owned<V>(found: Option<&V>) -> Option<V> {
    match found {
        Some(v) => Some(*v),
        None => None,
    }
}

/// The values behind a sequence of references.
pub open spec fn owned_all<V>(found: Seq<&V>) -> Seq<V> {
    Seq::new(found.len(), |i: int| *found[i])
}

/// The indices, in ascending order, of those among the first `n` labels
/// that match `token`.
pub open spec fn picks(labels: Seq<Seq<char>>, m: Matcher, token: Seq<char>, n: int) -> Seq<int>
    decreases n,
{
    if n <= 0 {
        Seq::empty()
    } else {
        let rest = picks(labels, m, token, n - 1);
        if m(labels[n - 1], token) {
            rest.push(n - 1)
        } else {
            rest
        }
    }
}

/// The indices below `n` that are marked, in ascending order.
pub open spec fn marked(marks: Seq<bool>, n: int) -> Seq<int>
    decreases n,
{
    if n <= 0 {
        Seq::empty()
    } else if marks[n - 1] {
        marked(marks, n - 1).push(n - 1)
    } else {
        marked(marks, n - 1)
    }
}

/// Where the marks say which labels match, the marked indices are the
/// picks.
pub proof fn lemma_marked_are_picks(
    marks: Seq<bool>,
    labels: Seq<Seq<char>>,
    m: Matcher,
    token: Seq<char>,
    n: int,
)
    requires
        forall|i: int| 0 <= i < n ==> #[trigger] marks[i] == m(labels[i], token),
    ensures
        marked(marks, n) == picks(labels, m, token, n),
    decreases n,
{
    if n > 0 {
        lemma_marked_are_picks(marks, labels, m, token, n - 1);
        assert(marks[n - 1] == m(labels[n - 1], token));
    }
}

/// The picks are indices below `n`, in strictly ascending order.
pub proof fn lemma_picks_ascending(labels: Seq<Seq<char>>, m: Matcher, token: Seq<char>, n: int)
    ensures
        picks(labels, m, token, n).len() <= if n < 0 {
            0
        } else {
            n
        },
        forall|k: int|
            0 <= k < picks(labels, m, token, n).len() ==> 0 <= #[trigger] picks(
                labels,
                m,
                token,
                n,
            )[k] < n,
        forall|j: int, k: int|
            0 <= j < k < picks(labels, m, token, n).len() ==> picks(labels, m, token, n)[j]
                < picks(labels, m, token, n)[k],
    decreases n,
{
    if n > 0 {
        lemma_picks_ascending(labels, m, token, n - 1);
    }
}

/// An index below `n` is among the picks exactly if its label matches.
pub proof fn lemma_picks_complete(
    labels: Seq<Seq<char>>,
    m: Matcher,
    token: Seq<char>,
    n: int,
    i: int,
)
    requires
        0 <= i < n,
    ensures
        picks(labels, m, token, n).contains(i) <==> m(labels[i], token),
    decreases n,
{
    let all = picks(labels, m, token, n);
    let rest = picks(labels, m, token, n - 1);
    lemma_picks_ascending(labels, m, token, n - 1);
    if i < n - 1 {
        lemma_picks_complete(labels, m, token, n - 1, i);
        if rest.contains(i) {
            let k = choose|k: int| 0 <= k < rest.len() && rest[k] == i;
            assert(all[k] == i);
        }
        if all.contains(i) {
            let k = choose|k: int| 0 <= k < all.len() && all[k] == i;
            assert(rest[k] == i);
        }
    } else {
        if m(labels[i], token) {
            assert(all[rest.len() as int] == i);
        } else {
            if all.contains(i) {
                let k = choose|k: int| 0 <= k < all.len() && all[k] == i;
                assert(false);
            }
        }
    }
}

/// Whether `copy` can be a clone of `value`: both are absent, or both are
/// there and the one is a clone of the other.
pub open spec fn value_cloned<V: Clone>(value: Option<V>, copy: Option<V>) -> bool {
    match (value, copy) {
        (Some(v), Some(c)) => cloned(v, c),
        (None, None) => true,
        _ => false,
    }
}

/// Whether `copy` can be a clone of `tree`: the same edges with the same
/// labels, and at every node a clone of the value.
pub open spec fn tree_cloned<V: Clone>(tree: PhraseTree<V>, copy: PhraseTree<V>) -> bool
    decreases tree,
{
    &&& copy.labels == tree.labels
    &&& value_cloned(tree.value, copy.value)
    &&& copy.children.len() == tree.children.len()
    &&& forall|i: int|
        #![trigger tree.children[i]]
        #![trigger copy.children[i]]
        0 <= i < tree.children.len() ==> tree_cloned(tree.children[i], copy.children[i])
}

/// A tree can be a clone of itself.
pub proof fn lemma_tree_cloned_reflexive<V: Clone>(tree: PhraseTree<V>)
    ensures
        tree_cloned(tree, tree),
    decreases tree,
{
    assert forall|i: int| 0 <= i < tree.children.len() implies tree_cloned(
        #[trigger] tree.children[i],
        tree.children[i],
    ) by {
        lemma_tree_cloned_reflexive(tree.children[i]);
    }
}

/// The value of a node as a sequence of zero or one elements.
pub open spec fn value_seq<V>(value: Option<V>) -> Seq<V> {
    match value {
        Some(v) => seq![v],
        None => Seq::empty(),
    }
}

impl<V> PhraseTree<V> {
    /// The tree without value and without edges.
    pub open spec fn empty() -> Self {
        PhraseTree { value: None, labels: Seq::empty(), children: Seq::empty() }
    }

    /// Every node has one label per child, and no two edges that leave the
    /// same node carry the same label.
    pub open spec fn wf(self) -> bool
        decreases self,
    {
        &&& self.labels.len() == self.children.len()
        &&& forall|i: int, j: int|
            0 <= i < j < self.labels.len() ==> self.labels[i] != self.labels[j]
        &&& forall|i: int| 0 <= i < self.children.len() ==> (#[trigger] self.children[i]).wf()
    }

    /// The number of edges that leave the root.
    pub open spec fn size(self) -> nat {
        self.children.len()
    }

    /// The number of edges in the first `n` subtrees, the edges that lead to
    /// them included.
    pub open spec fn size_of_first(self, n: int) -> nat
        decreases self, 0int, n,
    {
        if n <= 0 || n > self.children.len() {
            0
        } else {
            self.size_of_first(n - 1) + 1 + self.children[n - 1].size_recursive()
        }
    }

    /// The number of edges in the whole tree.
    pub open spec fn size_recursive(self) -> nat
        decreases self, 1int, 0int,
    {
        self.size_of_first(self.children.len() as int)
    }

    /// The index of the first edge at or after `from` that is labelled
    /// `label`, or the number of edges if there is none.
    pub open spec fn position_from(self, label: Seq<char>, from: int) -> int
        decreases self.labels.len() - from,
    {
        if from < 0 || from >= self.labels.len() {
            self.labels.len() as int
        } else if self.labels[from] == label {
            from
        } else {
            self.position_from(label, from + 1)
        }
    }

    /// The index of the first edge labelled `label`, or the number of edges
    /// if there is none.
    pub open spec fn position(self, label: Seq<char>) -> int {
        self.position_from(label, 0)
    }

    /// The tree after the path `path` has been made to exist from the root;
    /// the node at its end takes `value` if that is `Some`, and keeps what
    /// it had if it is `None`.  Edges that are missing are appended.
    pub open spec fn with_path(self, path: Seq<Seq<char>>, value: Option<V>) -> Self
        decreases path.len(),
    {
        if path.len() == 0 {
            match value {
                Some(_) => PhraseTree { value, ..self },
                None => self,
            }
        } else {
            let i = self.position(path[0]);
            if i < self.labels.len() {
                PhraseTree {
                    children: self.children.update(
                        i,
                        self.children[i].with_path(path.drop_first(), value),
                    ),
                    ..self
                }
            } else {
                PhraseTree {
                    labels: self.labels.push(path[0]),
                    children: self.children.push(
                        Self::empty().with_path(path.drop_first(), value),
                    ),
                    ..self
                }
            }
        }
    }

    /// The tree after `phrase` has been inserted with `value`.
    pub open spec fn insert(self, phrase: Seq<Seq<char>>, value: V) -> Self {
        self.with_path(phrase, Some(value))
    }

    /// The indices, in ascending order, of the edges whose label matches
    /// `token`.
    pub open spec fn matching(self, m: Matcher, token: Seq<char>) -> Seq<int> {
        picks(self.labels, m, token, self.labels.len() as int)
    }

    /// First-match descent: a value at the current node ends the search;
    /// otherwise the first matching edge is followed, and no other.
    pub open spec fn descend_any(self, m: Matcher, tokens: Seq<Seq<char>>) -> Option<V>
        decreases tokens.len(),
    {
        if tokens.len() == 0 || self.value is Some {
            self.value
        } else {
            let picks = self.matching(m, tokens[0]);
            if picks.len() == 0 {
                None
            } else {
                self.children[picks[0]].descend_any(m, tokens.drop_first())
            }
        }
    }

    /// What the subtree behind edge `i` contributes to an exhaustive descent
    /// whose remaining tokens, after the one that matched the edge, are
    /// `rest`.
    pub open spec fn branch_all(self, m: Matcher, rest: Seq<Seq<char>>, i: int) -> Seq<V>
        decreases rest.len(), 2int, 0int,
    {
        value_seq(self.children[i].value) + self.children[i].descend_all(m, rest)
    }

    /// The contributions of the first `n` edges of `picks`, in order.
    pub open spec fn gather_all(
        self,
        m: Matcher,
        rest: Seq<Seq<char>>,
        picks: Seq<int>,
        n: int,
    ) -> Seq<V>
        decreases rest.len(), 3int, n,
    {
        if n <= 0 {
            Seq::empty()
        } else {
            self.gather_all(m, rest, picks, n - 1) + self.branch_all(m, rest, picks[n - 1])
        }
    }

    /// Exhaustive descent: every matching edge is followed, a value on the
    /// way is collected, and the search goes on below it.
    pub open spec fn descend_all(self, m: Matcher, tokens: Seq<Seq<char>>) -> Seq<V>
        decreases tokens.len(), 0int, 0int,
    {
        if tokens.len() == 0 {
            Seq::empty()
        } else {
            let picks = self.matching(m, tokens[0]);
            self.gather_all(m, tokens.drop_first(), picks, picks.len() as int)
        }
    }

    /// The exhaustive descent of a node that carries a key of its own: the
    /// key must match the first token, and the descent goes on below the
    /// node on the tokens after it.
    pub open spec fn rooted_all(self, key: Seq<char>, m: Matcher, tokens: Seq<Seq<char>>) -> Seq<
        V,
    > {
        if tokens.len() > 0 && m(key, tokens[0]) {
            value_seq(self.value) + self.descend_all(m, tokens.drop_first())
        } else {
            Seq::empty()
        }
    }

    /// The search for any value from a node that carries a key of its own:
    /// the key must match the first token; the node's own value ends the
    /// search, as does the last token; otherwise the children are tried in
    /// order, and the first that finds a value gives it.
    pub open spec fn rooted_any(self, key: Seq<char>, m: Matcher, tokens: Seq<Seq<char>>) -> Option<
        V,
    >
        decreases tokens.len(), 0int, 0int,
    {
        if tokens.len() == 0 || !m(key, tokens[0]) {
            None
        } else if tokens.len() == 1 || self.value is Some {
            self.value
        } else {
            self.first_below(m, tokens.drop_first(), 0)
        }
    }

    /// What the first child at or after `from` finds that finds a value in
    /// `rest`, each child searched as a node with its label as key.
    pub open spec fn first_below(self, m: Matcher, rest: Seq<Seq<char>>, from: int) -> Option<V>
        decreases rest.len(), 1int, self.children.len() - from,
    {
        if from < 0 || from >= self.children.len() {
            None
        } else {
            let found = self.children[from].rooted_any(self.labels[from], m, rest);
            if found is Some {
                found
            } else {
                self.first_below(m, rest, from + 1)
            }
        }
    }

    /// The result of the first-match descent from the first offset at or
    /// after `from` at which it finds a value.
    pub open spec fn find_any_from(self, m: Matcher, tokens: Seq<Seq<char>>, from: int) -> Option<V>
        decreases tokens.len() - from,
    {
        if from < 0 || from >= tokens.len() {
            None
        } else {
            let found = self.descend_any(m, tokens.skip(from));
            if found is Some {
                found
            } else {
                self.find_any_from(m, tokens, from + 1)
            }
        }
    }

    /// The first value that a first-match descent finds, the offsets tried in
    /// ascending order.
    pub open spec fn find_any(self, m: Matcher, tokens: Seq<Seq<char>>) -> Option<V> {
        self.find_any_from(m, tokens, 0)
    }

    /// The results of the exhaustive descents from the offsets below `n`,
    /// one after the other.
    pub open spec fn find_all_upto(self, m: Matcher, tokens: Seq<Seq<char>>, n: int) -> Seq<V>
        decreases n,
    {
        if n <= 0 {
            Seq::empty()
        } else {
            self.find_all_upto(m, tokens, n - 1) + self.descend_all(m, tokens.skip(n - 1))
        }
    }

    /// The results of the exhaustive descents from every offset, one after
    /// the other.
    pub open spec fn find_all(self, m: Matcher, tokens: Seq<Seq<char>>) -> Seq<V> {
        self.find_all_upto(m, tokens, tokens.len() as int)
    }
}

impl<V> PhraseTree<V> {
    /// The position of a label, searched from `from`, is the first edge at or
    /// after `from` that carries it, or the number of edges.
    pub proof fn lemma_position_from(self, label: Seq<char>, from: int)
        requires
            0 <= from <= self.labels.len(),
        ensures
            from <= self.position_from(label, from) <= self.labels.len(),
            self.position_from(label, from) < self.labels.len() ==> self.labels[self.position_from(
                label,
                from,
            )] == label,
            forall|j: int| from <= j < self.position_from(label, from) ==> self.labels[j] != label,
        decreases self.labels.len() - from,
    {
        if from < self.labels.len() && self.labels[from] != label {
            self.lemma_position_from(label, from + 1);
        }
    }

    /// The position of a label is the first edge that carries it, or the
    /// number of edges.
    pub proof fn lemma_position_range(self, label: Seq<char>)
        ensures
            0 <= self.position(label) <= self.labels.len(),
            self.position(label) < self.labels.len() ==> self.labels[self.position(label)]
                == label,
            forall|j: int| 0 <= j < self.position(label) ==> self.labels[j] != label,
    {
        self.lemma_position_from(label, 0);
    }

    /// Among the first `n` edges of a tree without repeated labels, the
    /// literal matcher picks the edge that carries the token, and no other.
    pub proof fn lemma_exact_matching_upto(self, token: Seq<char>, n: int)
        requires
            self.wf(),
            0 <= n <= self.labels.len(),
        ensures
            picks(self.labels, exact(), token, n) == if self.position(token) < n {
                seq![self.position(token)]
            } else {
                Seq::<int>::empty()
            },
        decreases n,
    {
        self.lemma_position_range(token);
        if n > 0 {
            self.lemma_exact_matching_upto(token, n - 1);
            let at = self.position(token);
            if self.labels[n - 1] == token {
                if at < n - 1 {
                    assert(self.labels[at] != self.labels[n - 1]);
                }
                assert(at == n - 1);
                assert(Seq::<int>::empty().push(n - 1) =~= seq![n - 1]);
            } else {
                assert(at != n - 1);
            }
        }
    }

    /// In a tree without repeated labels the literal matcher picks at most
    /// one edge: the one that carries the token.
    pub proof fn lemma_exact_matching(self, token: Seq<char>)
        requires
            self.wf(),
        ensures
            self.matching(exact(), token) == if self.position(token) < self.labels.len() {
                seq![self.position(token)]
            } else {
                Seq::<int>::empty()
            },
            self.matching(exact(), token).len() <= 1,
    {
        self.lemma_exact_matching_upto(token, self.labels.len() as int);
    }

    /// The edges of the first `a` subtrees are among those of the first `b`.
    pub proof fn lemma_size_of_first_monotone(self, a: int, b: int)
        requires
            0 <= a <= b <= self.children.len(),
        ensures
            self.size_of_first(a) <= self.size_of_first(b),
        decreases b - a,
    {
        if a < b {
            self.lemma_size_of_first_monotone(a, b - 1);
        }
    }
}

} // verus!
