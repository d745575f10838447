use phrase_trie::{
    GenericTrieNode, ImmutableTrieNode, ImmutableTrieNodeBuilder, NodeKey, RegexNodeKey,
    StringNodeKey, TrieError,
};

fn phrase_of(list: &[&str]) -> Vec<String> {
    list.iter().map(|w| w.to_string()).collect()
}

#[test]
fn string_key_matches_its_own_text_only() {
    let key = StringNodeKey::new("bobby").unwrap();
    assert!(key.is_match("bobby"));
    assert!(!key.is_match("Bobby"));
    assert!(!key.is_match("bobbys"));
    assert_eq!(key.as_str(), "bobby");
}

#[test]
fn regex_key_matches_whole_tokens_without_case() {
    let key = RegexNodeKey::new("b(o|a)bby").unwrap();
    assert!(key.is_match("bobby"));
    assert!(key.is_match("BABBY"));
    assert!(!key.is_match("bobbys"));
    assert!(!key.is_match("a bobby"));
    assert_eq!(key.as_str(), "^b(o|a)bby$");
    assert!(matches!(
        RegexNodeKey::new("b(obby"),
        Err(TrieError::PatternCompilation(_))
    ));
}

#[test]
fn generic_node_is_searched_from_its_own_key() {
    let mut root: GenericTrieNode<StringNodeKey, u8> = GenericTrieNode::new("mister").unwrap();
    root.add(&phrase_of(&["bobby"]), 1).unwrap();
    root.add(&phrase_of(&["mark", "junior"]), 2).unwrap();
    root.add(&phrase_of(&["mark"]), 3).unwrap();
    assert!(root.token_is_match("mister"));
    assert!(!root.token_is_match("bobby"));
    assert_eq!(root.len(), 2);
    assert_eq!(root.len_recursive(), 3);
    assert_eq!(root.get_children("mark").len(), 1);
    assert_eq!(root.get_any(&phrase_of(&["mister", "bobby"])), Some(&1));
    assert_eq!(root.get_any(&phrase_of(&["mister", "mark", "junior"])), Some(&3));
    assert_eq!(root.get_any(&phrase_of(&["bobby"])), None);
    assert_eq!(root.get_any(&phrase_of(&["mister"])), None);
    assert_eq!(root.get_any(&phrase_of(&["mister", "joe"])), None);
    assert!(root.is_match(&phrase_of(&["mister", "mark"])));
    assert!(!root.is_match(&phrase_of(&["sir", "mark"])));
    assert_eq!(
        root.get_all(&phrase_of(&["mister", "mark", "junior"])),
        vec![&3, &2]
    );
    assert!(root.get_all(&phrase_of(&["sir", "mark"])).is_empty());
    assert!(root.get_all(&phrase_of(&[])).is_empty());
}

#[test]
fn generic_node_tries_the_children_in_order() {
    let mut root: GenericTrieNode<RegexNodeKey, &str> = GenericTrieNode::new(".*").unwrap();
    root.add(&phrase_of(&["a.*", "x"]), "first").unwrap();
    root.add(&phrase_of(&["a.*", "x"]), "again").unwrap();
    root.add(&phrase_of(&["ab", "y"]), "second").unwrap();
    assert_eq!(root.len(), 2);
    assert_eq!(root.get_any(&phrase_of(&["any", "ab", "y"])), Some(&"second"));
    assert_eq!(root.get_any(&phrase_of(&["any", "AB", "x"])), Some(&"again"));
    assert_eq!(root.get_children("ab").len(), 2);
    assert_eq!(root.get_children("ac").len(), 1);
}

#[test]
fn generic_node_keeps_its_key_when_a_phrase_is_added() {
    let mut node: GenericTrieNode<StringNodeKey, i32> = GenericTrieNode::new("a").unwrap();
    node.add(&phrase_of(&["b"]), 1).unwrap();
    assert_eq!(node.get_any(&phrase_of(&["a", "b"])), Some(&1));
    assert_eq!(node.get_any(&phrase_of(&["b"])), None);
    assert_eq!(node.get_any(&phrase_of(&["a"])), None);
    assert_eq!(node.get_any(&phrase_of(&["a", "c"])), None);
    assert!(node.token_is_match("a"));
    let child = node.get_children("b")[0];
    assert!(child.token_is_match("b"));
    assert_eq!(child.get_any(&phrase_of(&["b"])), Some(&1));
}

#[test]
fn a_failed_insertion_changes_no_result() {
    let mut node: GenericTrieNode<RegexNodeKey, u8> = GenericTrieNode::new("r.*").unwrap();
    node.add(&phrase_of(&["ok", "fine"]), 1).unwrap();
    let queries = [
        phrase_of(&["root", "ok", "fine"]),
        phrase_of(&["root", "ok"]),
        phrase_of(&["ok", "fine"]),
        phrase_of(&["root"]),
    ];
    let before: Vec<Vec<u8>> =
        queries.iter().map(|q| node.get_all(q).into_iter().copied().collect()).collect();
    assert!(node.add(&phrase_of(&["ok", "("]), 2).is_err());
    let after: Vec<Vec<u8>> =
        queries.iter().map(|q| node.get_all(q).into_iter().copied().collect()).collect();
    assert_eq!(before, after);
    assert!(node.value().is_none());
    assert!(node.token_is_match("Ready"));
}

#[test]
fn cloned_nodes_and_keys_answer_alike() {
    let mut node: GenericTrieNode<RegexNodeKey, u8> = GenericTrieNode::new("r").unwrap();
    node.add(&phrase_of(&["a+", "b"]), 1).unwrap();
    let copy = node.clone();
    assert_eq!(copy.get_any(&phrase_of(&["R", "aaa", "B"])), Some(&1));
    assert_eq!(copy.len_recursive(), node.len_recursive());
    let key = StringNodeKey::new("x").unwrap();
    assert_eq!(key.clone().as_str(), "x");
    let pattern = RegexNodeKey::new("x+").unwrap();
    assert!(pattern.clone().is_match("XX"));
    assert_eq!(pattern.clone().as_str(), "^x+$");
}

#[test]
fn generic_node_stops_at_a_token_without_key() {
    assert!(matches!(
        GenericTrieNode::<RegexNodeKey, u8>::new("("),
        Err(TrieError::PatternCompilation(_))
    ));
    let mut root: GenericTrieNode<RegexNodeKey, u8> = GenericTrieNode::new("r").unwrap();
    let refused = root.add(&phrase_of(&["a", "(", "b"]), 1);
    assert!(matches!(refused, Err(TrieError::PatternCompilation(_))));
    assert_eq!(root.len(), 1);
    assert_eq!(root.len_recursive(), 1);
    assert_eq!(root.get_any(&phrase_of(&["r", "a"])), None);
}
