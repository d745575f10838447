use phrase_trie::{
    ExhaustiveSearch, ImmutableTrieNode, ImmutableTrieNodeBuilder, NoOpTokenizer, RegexTrie,
    RegexTrieBuilder, StringMatcher, StringMatcherBuilder, StringTrie, StringTrieBuilder,
    StringTrieNode, Tokenizer, Trie, TrieBuilder, WhitespaceTokenizer,
};

fn text_tokens(list: &[&str]) -> Vec<String> {
    list.iter().map(|w| w.to_string()).collect()
}

fn sample(extra: &[(&str, u8)]) -> StringTrie<u8, WhitespaceTokenizer> {
    let mut builder: StringTrieBuilder<u8> = StringTrieBuilder::default();
    builder.add("test value", 1).unwrap();
    builder.add("another test value", 2).unwrap();
    builder.add("something else", 3).unwrap();
    for (phrase, value) in extra {
        builder.add(phrase, *value).unwrap();
    }
    builder.build(WhitespaceTokenizer).unwrap()
}

const QUERIES: [&str; 6] = [
    "this is a another test value",
    "test value something else",
    "test",
    "value test value",
    "",
    "another something else",
];

#[test]
fn the_same_search_gives_the_same_values() {
    let trie = sample(&[]);
    for query in QUERIES {
        assert_eq!(trie.find_all(query), trie.find_all(query));
        assert_eq!(trie.find_any(query), trie.find_any(query));
    }
}

#[test]
fn a_pair_inserted_twice_is_inserted_once() {
    let once = sample(&[("test value", 1)]);
    let plain = sample(&[]);
    for query in QUERIES {
        assert_eq!(once.find_all(query), plain.find_all(query));
        assert_eq!(once.find_any(query), plain.find_any(query));
    }
    assert_eq!(once.root().len_recursive(), plain.root().len_recursive());
}

#[test]
fn the_later_value_of_a_phrase_stays() {
    let trie = sample(&[("test value", 9)]);
    assert_eq!(trie.find_all("test value"), vec![&9]);
    assert_eq!(trie.find_any("a test value"), Some(&9));
    assert_eq!(trie.find_all("another test value"), vec![&2, &9]);
}

#[test]
fn find_all_joins_the_descents_from_every_offset() {
    let trie = sample(&[("value", 7), ("test", 8)]);
    for query in QUERIES {
        let tokens = WhitespaceTokenizer.tokenize(query);
        let mut joined: Vec<&u8> = Vec::new();
        for offset in 0..tokens.len() {
            joined.extend(trie.root().get_all(&tokens[offset..]));
        }
        assert_eq!(trie.find_all(query), joined);
        assert_eq!(trie.find_all_in(&tokens), joined);
    }
    assert_eq!(trie.find_all("another test value"), vec![&2, &8, &1, &7]);
}

#[test]
fn find_any_stops_at_the_first_value_on_its_way() {
    let mut builder: StringTrieBuilder<u8> = StringTrieBuilder::default();
    builder.add("a", 1).unwrap();
    builder.add("a b", 2).unwrap();
    builder.add("c d", 3).unwrap();
    let trie: StringTrie<u8, WhitespaceTokenizer> = builder.build_default().unwrap();
    assert_eq!(trie.find_any("a b"), Some(&1));
    assert_eq!(trie.find_all("a b"), vec![&1, &2]);
    assert_eq!(trie.find_any("c a b"), Some(&1));
    assert_eq!(trie.find_any("c d a"), Some(&3));
    assert_eq!(trie.find_any_in(&text_tokens(&["x", "c", "d"])), Some(&3));
    assert_eq!(trie.find_any("c"), None);
}

#[test]
fn a_value_at_the_root_ends_every_descent() {
    let mut node: StringTrieNode<u8> = StringTrieNode::default();
    node.add(&text_tokens(&[]), 5).unwrap();
    node.add(&text_tokens(&["a"]), 6).unwrap();
    assert_eq!(node.get_any(&text_tokens(&["a"])), Some(&5));
    assert_eq!(node.get_any(&text_tokens(&["zz"])), Some(&5));
    assert_eq!(node.get_any(&text_tokens(&[])), Some(&5));
    assert_eq!(node.get_all(&text_tokens(&["a"])), vec![&6]);
    let trie: Trie<StringTrieNode<u8>, u8, WhitespaceTokenizer> =
        Trie::new(WhitespaceTokenizer, node);
    assert_eq!(trie.find_any(""), None);
    assert_eq!(trie.find_any("zz"), Some(&5));
}

#[test]
fn empty_input_matches_nothing() {
    let trie = sample(&[]);
    assert_eq!(trie.find_any(""), None);
    assert!(trie.find_all("").is_empty());
    assert!(trie.find_unique("").is_empty());
    assert!(trie.find_unique_sorted("").is_empty());
    let mut builder: RegexTrieBuilder<u8> = RegexTrieBuilder::default();
    builder.add("pool", 1).unwrap();
    let patterns: RegexTrie<u8> = builder.build_default().unwrap();
    assert_eq!(patterns.find_any(""), None);
    assert!(patterns.find_all("").is_empty());
}

#[test]
fn a_matcher_finds_phrases_at_any_offset() {
    let mut builder: StringMatcherBuilder = Default::default();
    builder.add("bobby", true).unwrap();
    builder.add("mister bobby", true).unwrap();
    let trie: StringMatcher = builder.build_default().unwrap();
    assert_eq!(trie.find_any("mister bobby"), Some(&true));
    assert_eq!(trie.find_any("bobbys"), None);
    assert_eq!(trie.find_any("mister the bobby"), Some(&true));
    assert_eq!(trie.find_any("mister the baby"), None);
}

#[test]
fn a_false_value_is_no_match() {
    let mut builder: StringMatcherBuilder = Default::default();
    builder.add("bobby", false).unwrap();
    builder.add("mark", true).unwrap();
    let trie: StringMatcher = builder.build_default().unwrap();
    assert!(!trie.has_match("bobby"));
    assert_eq!(trie.find_any("bobby"), Some(&false));
    assert!(!trie.has_match("bobby mark"));
    assert!(trie.has_match("mark bobby"));
}

#[test]
fn unique_values_come_sorted() {
    let trie = sample(&[("else", 1), ("value", 3)]);
    let sorted: Vec<&u8> = trie
        .find_unique_sorted("something else another test value")
        .into_iter()
        .collect();
    assert_eq!(sorted, vec![&1, &2, &3]);
    assert_eq!(trie.find_unique("something else another test value").len(), 3);
    assert_eq!(
        trie.find_all("something else another test value"),
        vec![&3, &1, &2, &1, &3]
    );
}

#[test]
fn builders_take_tokens_and_tokenizers() {
    let mut builder: TrieBuilder<StringTrieNode<u8>, u8, NoOpTokenizer> =
        TrieBuilder::new(NoOpTokenizer, StringTrieNode::default());
    builder.add("Whole Text", 1).unwrap();
    builder.add_tokens(&text_tokens(&["two", "tokens"]), 2).unwrap();
    let trie: Trie<StringTrieNode<u8>, u8, WhitespaceTokenizer> =
        builder.build(WhitespaceTokenizer).unwrap();
    assert_eq!(trie.find_any("Whole Text"), None);
    assert_eq!(trie.find_any_in(&text_tokens(&["Whole Text"])), Some(&1));
    assert_eq!(trie.find_any("two tokens"), Some(&2));
    assert_eq!(trie.root().len(), 2);
    let with_builder: TrieBuilder<StringTrieNode<u8>, u8, WhitespaceTokenizer> =
        TrieBuilder::with_builder(StringTrieNode::default());
    let empty: Trie<StringTrieNode<u8>, u8, NoOpTokenizer> = with_builder.build_default().unwrap();
    assert!(empty.root().is_empty());
    assert_eq!(empty.find_any("anything"), None);
    let untouched: Trie<StringTrieNode<u8>, u8, NoOpTokenizer> = Trie::default();
    assert!(untouched.find_all("anything").is_empty());
}
