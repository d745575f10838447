use phrase_trie::{RegexTrie, RegexTrieBuilder};

#[test]
fn mod_test_regex_trie_conflict_1() {
    let mut trie_builder: RegexTrieBuilder<&str> = Default::default();
    trie_builder
        .add("(a|the|slumber|pool) party", "val 1")
        .unwrap();
    trie_builder.add("pool", "val 2").unwrap();
    let trie: RegexTrie<&str> = trie_builder.build_default().unwrap();
    let results = trie.find_unique("pool");
    assert_eq!(results.len(), 1);
    assert!(results.contains(&"val 2"));
    let results = trie.find_unique("a pool");
    assert_eq!(results.len(), 1);
    assert!(results.contains(&"val 2"));
    let results = trie.find_unique("a party");
    assert_eq!(results.len(), 1);
    assert!(results.contains(&"val 1"));
}
