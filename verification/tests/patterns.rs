use phrase_trie::text::{anchor, anchor_all};
use phrase_trie::{
    ExhaustiveSearch, ImmutableTrieNode, ImmutableTrieNodeBuilder, MutableTrieNode, NoOpTokenizer,
    RegexFilteredTrieNodeBuilder, RegexSetTrieNodeBuilder, RegexTrieNode, Trie, TrieBuilder,
    TrieError, WhitespaceTokenizer,
};

fn words(list: &[&str]) -> Vec<String> {
    list.iter().map(|w| w.to_string()).collect()
}

#[test]
fn anchoring_wraps_and_drops_old_anchors() {
    assert_eq!(anchor("pool"), "^pool$");
    assert_eq!(anchor("^pool$"), "^pool$");
    assert_eq!(anchor("^^a$$"), "^a$");
    assert_eq!(anchor("a^b$c"), "^a^b$c$");
    assert_eq!(anchor(""), "^$");
    assert_eq!(anchor("^"), "^$");
    assert_eq!(anchor("$^"), "^$^$");
    assert_eq!(anchor_all(&words(&["a", "^b"])), vec!["^a$", "^b$"]);
}

#[test]
fn per_child_patterns_match_whole_tokens_without_case() {
    let mut node: RegexTrieNode<u8> = RegexTrieNode::default();
    node.add(&words(&["po+l"]), 1).unwrap();
    assert!(node.get_any(&words(&["pool"])).is_some());
    assert!(node.get_any(&words(&["POOOL"])).is_some());
    assert!(node.get_any(&words(&["pools"])).is_none());
    assert!(node.get_any(&words(&["spool"])).is_none());
    assert!(node.get_any(&words(&["pl"])).is_none());
}

#[test]
fn per_child_patterns_overlap_in_the_order_of_insertion() {
    let mut node: RegexTrieNode<&str> = RegexTrieNode::default();
    node.add(&words(&["(a|the|pool)", "party"]), "val 1").unwrap();
    node.add(&words(&["pool"]), "val 2").unwrap();
    node.add(&words(&["pool", "party"]), "val 3").unwrap();
    assert_eq!(node.len(), 2);
    assert_eq!(node.patterns(), vec!["^(a|the|pool)$", "^pool$"]);
    assert_eq!(node.len_recursive(), 4);
    assert_eq!(node.get_children("pool").len(), 2);
    assert_eq!(node.get_children("the").len(), 1);
    assert_eq!(node.get_children("lake").len(), 0);
    assert!(node.get_child("pool").unwrap().value().is_none());
    assert_eq!(
        node.get_all(&words(&["pool", "party"])),
        vec![&"val 1", &"val 2", &"val 3"]
    );
    assert_eq!(node.match_all(&words(&["pool", "party"])).len(), 3);
    assert_eq!(node.match_children("pool").len(), 2);
    assert!(node.match_child("lake").is_none());
    assert_eq!(node.match_any(&words(&["the", "party"])), Some(&"val 1"));
    assert_eq!(node.get_any(&words(&["pool", "party"])), Some(&"val 1"));
}

#[test]
fn per_child_pattern_that_does_not_compile_stops_the_insertion() {
    let mut node: RegexTrieNode<u8> = RegexTrieNode::default();
    let refused = node.add(&words(&["a", "(", "b"]), 1);
    assert!(matches!(refused, Err(TrieError::PatternCompilation(_))));
    assert!(!refused.unwrap_err().message().is_empty());
    assert_eq!(node.len(), 1);
    assert_eq!(node.len_recursive(), 1);
    assert!(node.get_any(&words(&["a"])).is_none());
    assert!(node.value().is_none());
}

#[test]
fn a_pattern_inserted_twice_has_one_edge() {
    let mut node: RegexTrieNode<u8> = RegexTrieNode::default();
    node.add(&words(&["a+"]), 1).unwrap();
    node.add(&words(&["^a+$"]), 2).unwrap();
    node.add(&words(&["a+", "b"]), 3).unwrap();
    assert_eq!(node.len(), 1);
    assert_eq!(node.get_any(&words(&["aaa"])), Some(&2));
}

#[test]
fn set_node_returns_children_by_ascending_index() {
    let mut builder: RegexSetTrieNodeBuilder<&str> = RegexSetTrieNodeBuilder::default();
    builder.add(&words(&["(a|the|pool)", "party"]), "val 1").unwrap();
    builder.add(&words(&["pool"]), "val 2").unwrap();
    builder.add(&words(&["p.*", "party"]), "val 3").unwrap();
    let node = builder.build().unwrap();
    assert_eq!(node.len(), 3);
    assert_eq!(node.patterns(), vec!["^(a|the|pool)$", "^pool$", "^p.*$"]);
    assert_eq!(node.len_recursive(), 5);
    assert!(!node.is_empty());
    assert_eq!(node.get_children("POOL").len(), 3);
    assert_eq!(node.get_children("a").len(), 1);
    assert!(node.get_children("lake").is_empty());
    assert_eq!(
        node.get_all(&words(&["pool", "party"])),
        vec![&"val 1", &"val 2", &"val 3"]
    );
    assert!(node.get_any(&words(&["pool", "party"])).is_some());
    assert!(node.get_any(&words(&["the"])).is_none());
}

#[test]
fn set_builder_accepts_any_text_until_it_is_built() {
    let mut builder: RegexSetTrieNodeBuilder<u8> = RegexSetTrieNodeBuilder::default();
    builder.add(&words(&["fine"]), 1).unwrap();
    builder.add(&words(&["fine", "("]), 2).unwrap();
    let refused = builder.build();
    assert!(matches!(refused, Err(TrieError::MultiPatternCompilation(_))));
    assert!(!refused.err().unwrap().message().is_empty());
}

#[test]
fn set_builder_without_phrases_builds_a_leaf() {
    let builder: RegexSetTrieNodeBuilder<u8> = RegexSetTrieNodeBuilder::default();
    let node = builder.build().unwrap();
    assert!(node.is_empty());
    assert!(node.value().is_none());
    assert!(node.get_children("x").is_empty());
    assert!(node.get_all(&words(&["x"])).is_empty());
}

#[test]
fn filtered_node_returns_children_by_ascending_index() {
    let mut builder: RegexFilteredTrieNodeBuilder<&str> = RegexFilteredTrieNodeBuilder::default();
    builder.add(&words(&["(a|the|pool)", "party"]), "val 1").unwrap();
    builder.add(&words(&["pool"]), "val 2").unwrap();
    builder.add(&words(&["p.*", "party"]), "val 3").unwrap();
    let node = builder.build().unwrap();
    assert_eq!(node.len(), 3);
    assert_eq!(node.patterns(), vec!["^(a|the|pool)$", "^pool$", "^p.*$"]);
    assert!(node.get_child("a").unwrap().patterns() == vec!["^party$"]);
    assert_eq!(node.len_recursive(), 5);
    assert_eq!(node.get_children("Pool").len(), 3);
    assert_eq!(node.get_children("a").len(), 1);
    assert!(node.get_children("lake").is_empty());
    assert_eq!(
        node.get_all(&words(&["pool", "party"])),
        vec![&"val 1", &"val 2", &"val 3"]
    );
}

#[test]
fn filtered_builder_refuses_a_pattern_when_it_is_built() {
    let mut builder: RegexFilteredTrieNodeBuilder<u8> = RegexFilteredTrieNodeBuilder::default();
    builder.add(&words(&["fine"]), 1).unwrap();
    builder.add(&words(&["fine", "[oops"]), 2).unwrap();
    let refused = builder.build();
    assert!(matches!(refused, Err(TrieError::PatternCompilation(_))));
    assert!(!refused.err().unwrap().message().is_empty());
}

#[test]
fn filtered_builder_without_phrases_builds_a_leaf() {
    let builder: RegexFilteredTrieNodeBuilder<u8> = RegexFilteredTrieNodeBuilder::default();
    let node = builder.build().unwrap();
    assert!(node.is_empty());
    assert!(node.patterns().is_empty());
    assert!(node.get_children("x").is_empty());
}

#[test]
fn cloned_pattern_nodes_answer_alike() {
    let mut node: RegexTrieNode<u8> = RegexTrieNode::default();
    node.add(&words(&["po+l", "party"]), 1).unwrap();
    let copy = node.clone();
    assert_eq!(copy.patterns(), node.patterns());
    assert_eq!(copy.get_any(&words(&["POOL", "party"])), Some(&1));
    let mut builder: RegexSetTrieNodeBuilder<u8> = RegexSetTrieNodeBuilder::default();
    builder.add(&words(&["po+l", "party"]), 2).unwrap();
    let set = builder.build().unwrap();
    let set_copy = set.clone();
    assert_eq!(set_copy.patterns(), vec!["^po+l$"]);
    assert_eq!(set_copy.get_all(&words(&["pool", "party"])), vec![&2]);
    assert_eq!(set_copy.len_recursive(), set.len_recursive());
}

#[test]
fn a_failed_build_returns_no_index() {
    let mut builder: TrieBuilder<RegexFilteredTrieNodeBuilder<u8>, u8> =
        TrieBuilder::with_tokenizer(WhitespaceTokenizer);
    builder.add("good (bad", 1).unwrap();
    let built: Result<Trie<_, u8, NoOpTokenizer>, TrieError> = builder.build(NoOpTokenizer);
    assert!(matches!(built, Err(TrieError::PatternCompilation(_))));
}
