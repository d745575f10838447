use phrase_trie::{
    ImmutableTrieNode, ImmutableTrieNodeBuilder, StringMatcher, StringMatcherBuilder, StringTrie,
    StringTrieBuilder, StringTrieNode,
};

fn tokens(words: &[&str]) -> Vec<String> {
    words.iter().map(|w| w.to_string()).collect()
}

#[test]
fn test_string_trie_shape() {
    let mut node = StringTrieNode::default();
    node.add(&tokens(&["bobby"]), true).unwrap();
    node.add(&tokens(&["mister", "bobby"]), true).unwrap();
    node.add(&tokens(&["mister", "mark"]), true).unwrap();
    assert_eq!(node.len(), 2);
    assert!(node.contains_key("bobby"));
    assert!(node.contains_key("mister"));
    assert!(!node.contains_key("mark"));
    assert!(node.value().is_none());
    let children = node.get_children("bobby");
    assert_eq!(children.len(), 1);
    let child = children[0];
    assert!(child.is_empty());
    assert!(*child.value().unwrap());
    let children = node.get_children("mister");
    assert_eq!(children.len(), 1);
    let child = children[0];
    assert_eq!(child.len(), 2);
    assert!(child.contains_key("bobby"));
    assert!(child.contains_key("mark"));
    assert!(child.value().is_none());
}

#[test]
fn test_string_trie_get_any() {
    let mut node = StringTrieNode::default();
    node.add(&tokens(&["bobby"]), true).unwrap();
    node.add(&tokens(&["mister", "bobby"]), true).unwrap();
    node.add(&tokens(&["mister", "mark"]), true).unwrap();
    assert!(matches!(node.get_any(&tokens(&["bobby"])), Some(true)));
    assert!(matches!(node.get_any(&tokens(&["mister", "bobby"])), Some(true)));
    assert!(matches!(node.get_any(&tokens(&["mister", "mark"])), Some(true)));
    assert!(node.get_any(&tokens(&["mister", "the", "bobby"])).is_none());
    assert!(node.get_any(&tokens(&["mister", "the", "mark"])).is_none());
    assert!(node.get_any(&tokens(&["mark"])).is_none());
    assert!(node.get_any(&tokens(&["mister"])).is_none());
    assert!(node.get_any(&tokens(&["mister", "joe"])).is_none());
}

#[test]
fn mod_test_string_matcher_has_match() {
    let mut trie_builder: StringMatcherBuilder = Default::default();
    trie_builder.add("bobby", true).unwrap();
    trie_builder.add("mister bobby", true).unwrap();
    let trie: StringMatcher = trie_builder.build_default().unwrap();
    assert!(trie.has_match("bobby"));
    assert!(trie.has_match("mister bobby"));
    assert!(!trie.has_match("bobbys"));
    assert!(!trie.has_match("mister bobbys"));
    assert!(trie.has_match("the mister bobby"));
    assert!(trie.has_match("mister the bobby"));
    assert!(!trie.has_match("mister the baby"));
    assert!(!trie.has_match("mister baby"));
}

#[test]
fn mod_test_string_trie_find() {
    let mut trie_builder: StringTrieBuilder<&str> = StringTrieBuilder::default();
    trie_builder.add("test value", "v1").unwrap();
    trie_builder.add("another test value", "v2").unwrap();
    trie_builder.add("something else", "v3").unwrap();
    trie_builder.add("another something else", "v3").unwrap();
    let trie: StringTrie<&str> = trie_builder.build_default().unwrap();
    let all = trie.find_all("this is a test value");
    assert_eq!(all, vec![&"v1"]);
    let mut all = trie.find_all("this is a another test value");
    all.sort();
    assert_eq!(all, vec![&"v1", &"v2"]);
    let all = trie.find_all("another something else");
    assert_eq!(all, vec![&"v3", &"v3"]);
    let all = trie.find_all("nothing");
    assert!(all.is_empty());
    let all = trie.find_all("");
    assert!(all.is_empty());
}

#[test]
fn mod_test_string_trie_find_unique() {
    let mut trie_builder: StringTrieBuilder<&str> = StringTrieBuilder::default();
    trie_builder.add("test value", "v1").unwrap();
    trie_builder.add("another test value", "v2").unwrap();
    trie_builder.add("something else", "v3").unwrap();
    trie_builder.add("another something else", "v3").unwrap();
    let trie: StringTrie<&str> = trie_builder.build_default().unwrap();
    let all = trie.find_unique("this is a test value");
    assert_eq!(all.len(), 1);
    assert!(all.contains(&"v1"));
    let all = trie.find_unique("this is a another test value");
    assert_eq!(all.len(), 2);
    assert!(all.contains(&"v1"));
    assert!(all.contains(&"v2"));
    let all = trie.find_unique("another something else");
    assert_eq!(all.len(), 1);
    assert!(all.contains(&"v3"));
    let all = trie.find_unique("nothing");
    assert!(all.is_empty());
    let all = trie.find_unique("");
    assert!(all.is_empty());
}

#[test]
fn a_cloned_string_node_holds_the_same_phrases() {
    let mut node = StringTrieNode::default();
    node.add(&tokens(&["mister", "bobby"]), 7u8).unwrap();
    let copy = node.clone();
    node.add(&tokens(&["mister", "mark"]), 8u8).unwrap();
    assert_eq!(copy.get_any(&tokens(&["mister", "bobby"])), Some(&7));
    assert_eq!(copy.get_any(&tokens(&["mister", "mark"])), None);
    assert_eq!(node.get_any(&tokens(&["mister", "mark"])), Some(&8));
    assert_eq!(copy.len_recursive(), 2);
}
