use phrase_trie::prefilter::is_prefilter_safe;
use phrase_trie::text::anchor;
use phrase_trie::{
    ExhaustiveSearch, ImmutableTrieNode, ImmutableTrieNodeBuilder, RegexFilteredTrieNodeBuilder,
    RegexTrie, RegexTrieBuilder, TrieError,
};

fn pattern_tokens(list: &[&str]) -> Vec<String> {
    list.iter().map(|w| w.to_string()).collect()
}

#[test]
fn usual_patterns_are_taken() {
    assert!(is_prefilter_safe("^pool$"));
    assert!(is_prefilter_safe("^(a|the|slumber|pool)$"));
    assert!(is_prefilter_safe("^p.*$"));
    assert!(is_prefilter_safe("^(ab)+c?[x-z]+\\d+\\.+$"));
    assert!(is_prefilter_safe("^(?:ab|cd){2}$"));
    assert!(is_prefilter_safe("^a{2,3}b{0,}$"));
    assert!(is_prefilter_safe("^abc123$"));
    assert!(is_prefilter_safe("^c++$"));
    assert!(is_prefilter_safe("^$"));
    assert!(is_prefilter_safe("^[oops$"));
    assert!(is_prefilter_safe("^[^a-z]+x$"));
    assert!(is_prefilter_safe("^a--b&&c$"));
}

#[test]
fn counts_that_overflow_a_power_are_refused() {
    assert!(!is_prefilter_safe("^[ab]{64}$"));
    assert!(!is_prefilter_safe("^[0-9]{20}$"));
    assert!(!is_prefilter_safe("^k{64}$"));
    assert!(!is_prefilter_safe("^[ab]{00000099}$"));
    assert!(!is_prefilter_safe("^(a|b|c|d|e|f|g|h|i|j|k|l|m){4}$"));
    assert!(!is_prefilter_safe("^(a|b){16}$"));
    assert!(!is_prefilter_safe("^[ab]{2}{16}$"));
    assert!(!is_prefilter_safe("^[ab]{ 64 }$"));
    assert!(!is_prefilter_safe("^[ab]{100,}$"));
    assert!(is_prefilter_safe("^[ab]{7}$"));
    assert!(is_prefilter_safe("^[0-9]{9}$"));
    assert!(is_prefilter_safe("^(a|b){3}$"));
    assert!(is_prefilter_safe("^a{ 2 , 300 }$"));
}

#[test]
fn counts_of_wide_classes_are_free() {
    assert!(is_prefilter_safe("^\\d{16}$"));
    assert!(is_prefilter_safe("^\\d{1,100}$"));
    assert!(is_prefilter_safe("^\\w{1000}$"));
    assert!(is_prefilter_safe("^\\W{64}\\D{64}$"));
    assert!(is_prefilter_safe("^.{500}$"));
    assert!(!is_prefilter_safe("^\\s{64}$"));
    assert!(!is_prefilter_safe("^(?-u)\\d{20}$"));
}

#[test]
fn a_repeated_group_takes_no_class_that_may_be_empty() {
    assert!(!is_prefilter_safe("^(?:[a&&b]|a{0})+$"));
    assert!(!is_prefilter_safe("^([a--a]|b{0}){2,}$"));
    assert!(!is_prefilter_safe("^([a~~a]|)+$"));
    assert!(!is_prefilter_safe("^([^\\s\\S]|)+$"));
    assert!(!is_prefilter_safe("^(\\P{any}|)+$"));
    assert!(!is_prefilter_safe("^(\\pL)+$"));
    assert!(!is_prefilter_safe("^([a&&b]|){1}+$"));
    assert!(!is_prefilter_safe("^([^]a]|)+$"));
    assert!(!is_prefilter_safe("^([^[:alpha:]]|)+$"));
    assert!(!is_prefilter_safe("^([^\u{0}-z]|)+$"));
    assert!(is_prefilter_safe("^([^,]+,)+$"));
    assert!(is_prefilter_safe("^([^a-z0-9 ]|x){2}$"));
    assert!(is_prefilter_safe("^[a&&b]+$"));
    assert!(is_prefilter_safe("^(a|[a&&b])*$"));
    assert!(is_prefilter_safe("^(a|[a&&b])?x+$"));
}

#[test]
fn what_can_only_be_empty_may_be_repeated() {
    assert!(is_prefilter_safe("^+$"));
    assert!(is_prefilter_safe("^(|)+$"));
    assert!(is_prefilter_safe("^()+$"));
    assert!(is_prefilter_safe("^(?:)+$"));
    assert!(is_prefilter_safe("^(\\b)+$"));
    assert!(is_prefilter_safe("^(a{0})+$"));
}

#[test]
fn groups_may_set_flags_but_x_and_u() {
    assert!(!is_prefilter_safe("^(?x)[ab]{6 4}$"));
    assert!(!is_prefilter_safe("^(?ix)a$"));
    assert!(!is_prefilter_safe("^(?i-x:a)$"));
    assert!(!is_prefilter_safe("^(?-u)a$"));
    assert!(is_prefilter_safe("^(?i)a$"));
    assert!(is_prefilter_safe("^(?s:.)+$"));
    assert!(is_prefilter_safe("^(?P<n>a)$"));
    assert!(is_prefilter_safe("^(?:a)$"));
    assert!(is_prefilter_safe("^(?"));
}

#[test]
fn a_pattern_that_the_prefilter_cannot_take_fails_the_build() {
    for token in ["[ab]{64}", "[0-9]{20}", "(?:[a&&b]|a{0})+", "([a--a]|){2,}", "(?x)a"] {
        let mut builder: RegexFilteredTrieNodeBuilder<u8> =
            RegexFilteredTrieNodeBuilder::default();
        builder.add(&pattern_tokens(&["fine", token]), 1).unwrap();
        let refused = builder.build();
        assert!(matches!(refused, Err(TrieError::PatternCompilation(_))));
        assert!(!refused.err().unwrap().message().is_empty());
    }
}

#[test]
fn counted_and_repeated_patterns_match_through_the_prefilter() {
    let mut builder: RegexFilteredTrieNodeBuilder<u8> = RegexFilteredTrieNodeBuilder::default();
    builder.add(&pattern_tokens(&["[0-9]{3}"]), 1).unwrap();
    builder.add(&pattern_tokens(&["(ab)+", "x{2,}"]), 2).unwrap();
    let node = builder.build().unwrap();
    assert_eq!(node.get_all(&pattern_tokens(&["123"])), vec![&1]);
    assert!(node.get_all(&pattern_tokens(&["1234"])).is_empty());
    assert_eq!(node.get_all(&pattern_tokens(&["ABab", "xxx"])), vec![&2]);
    assert!(node.get_all(&pattern_tokens(&["abab", "x"])).is_empty());
    assert_eq!(node.get_children("abab").len(), 1);
}

#[test]
fn a_cloned_index_shares_the_patterns() {
    let mut builder: RegexTrieBuilder<u8> = RegexTrieBuilder::default();
    builder.add("po+l party", 1).unwrap();
    let trie: RegexTrie<u8> = builder.build_default().unwrap();
    let copy = trie.clone();
    assert_eq!(copy.find_all("a pool party"), trie.find_all("a pool party"));
    assert_eq!(copy.find_any("POOOL Party"), Some(&1));
    assert_eq!(copy.root().patterns(), trie.root().patterns());
}

#[test]
fn patterns_that_are_taken_come_back_from_the_prefilter() {
    let taken = [
        "(a*)+", "(a?)+", "(a|b)+", "(a{0})+", "a{15}", "[ab]{15}", "(a|b|c){9}", "(?:ab){2,}",
        "x{0}+", "a*+", "[^\\s\\S]+", "\\d{1,100}", ".+", "\\W+", "(a|b{2}){3}",
        "((a|b)(c|d)){2}", "a{2}{3}", "\\.{3}", "(ab|cd)+e", "é+", "[é]{4}", "(a|b)c{3}",
        "[ab][cd][ef][gh]{2}", "(ab|cd|ef|gh){2}", "a{1,}", "(.)+", "([a-z])+", "(\\d)+",
        "(a+)+", "((a))+", "]+", "}+", "(a|b)?+", "a{,3}", "[0-9]{9}", "+", "(|)+", "()+",
        "(?:)+", "(\\b)+", "(^)+", "($){2,}", "[a&&b]+", "[a&&b]{2,}", "(a|[a&&b])*",
        "(a|[a&&b])?x+", "(?i)a+", "(?P<n>a)+", "(?s:.){2,}", "\\d{16}", "\\w{1000}",
        ".{500}", "\\d{1,100}", "[^a-z]+x", "(a|b){3}", "(a|b|c|d|e|f|g|h|i|j|k|l){3}",
        "(?i)k{9}", "[a-j]{9}", "(ab|cd){2}{3}", "(a*){3}", "(a{0}|b{0})+", "(a{0}){2,}",
        "([^,]+,)+", "([^a-z0-9]|x){2}", "([^a]|){2,}",
    ];
    for token in taken {
        assert!(is_prefilter_safe(&anchor(token)), "{}", token);
        let mut builder: RegexFilteredTrieNodeBuilder<u8> =
            RegexFilteredTrieNodeBuilder::default();
        builder.add(&pattern_tokens(&[token]), 1).unwrap();
        let built = builder.build();
        assert!(built.is_ok() || matches!(built, Err(TrieError::PatternCompilation(_))));
    }
}

#[test]
fn the_guard_pattern_stands_behind_no_child() {
    let mut builder: RegexFilteredTrieNodeBuilder<u8> = RegexFilteredTrieNodeBuilder::default();
    builder.add(&pattern_tokens(&["guard of the prefilter"]), 1).unwrap();
    builder.add(&pattern_tokens(&["other"]), 2).unwrap();
    let node = builder.build().unwrap();
    assert_eq!(node.len(), 2);
    assert_eq!(node.patterns(), vec!["^guard of the prefilter$", "^other$"]);
    assert_eq!(node.get_children("guard of the prefilter").len(), 1);
    assert_eq!(node.get_all(&pattern_tokens(&["guard of the prefilter"])), vec![&1]);
    let mut lone: RegexFilteredTrieNodeBuilder<u8> = RegexFilteredTrieNodeBuilder::default();
    lone.add(&pattern_tokens(&["other"]), 2).unwrap();
    let node = lone.build().unwrap();
    assert!(node.get_children("guard of the prefilter").is_empty());
    assert_eq!(node.get_children("OTHER").len(), 1);
    assert_eq!(node.patterns(), vec!["^other$"]);
}

#[test]
fn a_single_pattern_of_many_shared_atoms_is_not_passed_over() {
    let mut alternatives: Vec<String> = Vec::new();
    for first in ["aaa", "bbb", "ccc", "ddd", "eee", "fff", "ggg", "hhh", "iii", "jjj"] {
        for second in ["kkk", "lll", "mmm", "nnn", "ooo", "ppp", "qqq", "rrr", "sss", "ttt"] {
            alternatives.push(format!("{first}.*{second}"));
        }
    }
    let token = format!("({})", alternatives.join("|"));
    let mut builder: RegexFilteredTrieNodeBuilder<u8> = RegexFilteredTrieNodeBuilder::default();
    builder.add(&[token], 1).unwrap();
    let node = builder.build().unwrap();
    assert_eq!(node.get_children("aaa-kkk").len(), 1);
    assert_eq!(node.get_children("jjjxttt").len(), 1);
    assert_eq!(node.get_children("eee and ppp").len(), 1);
    assert!(node.get_children("kkkaaa").is_empty());
}
