use phrase_trie::{DummyTokenizer, NoOpTokenizer, Tokenizer, WhitespaceTokenizer};

#[test]
fn tokenization_test_whitespace_tokenizer() {
    assert_eq!(WhitespaceTokenizer::tokenize("test"), vec!["test"]);
    assert_eq!(WhitespaceTokenizer::tokenize("Test"), vec!["test"]);
    assert_eq!(WhitespaceTokenizer::tokenize("Test "), vec!["test"]);
    assert_eq!(
        WhitespaceTokenizer::tokenize("Test test"),
        vec!["test", "test"]
    );
    assert_eq!(
        WhitespaceTokenizer::tokenize("Test  test"),
        vec!["test", "test"]
    );
}

#[test]
fn mod_test_whitespace_tokenizer() {
    let tokenizer = WhitespaceTokenizer;
    assert_eq!(tokenizer.tokenize("test"), vec!["test"]);
    assert_eq!(tokenizer.tokenize("Test"), vec!["test"]);
    assert_eq!(tokenizer.tokenize("Test "), vec!["test"]);
    assert_eq!(tokenizer.tokenize("Test test"), vec!["test", "test"]);
    assert_eq!(tokenizer.tokenize("Test  test"), vec!["test", "test"]);
}

#[test]
fn no_op_tokenizer_keeps_the_text_whole() {
    assert_eq!(NoOpTokenizer::tokenize("Test  test"), vec!["Test  test"]);
    assert_eq!(DummyTokenizer::tokenize(""), vec![""]);
}

#[test]
fn whitespace_tokenizer_splits_at_every_separator() {
    assert_eq!(
        WhitespaceTokenizer::tokenize("  A\tb\nC\r\nd "),
        vec!["a", "b", "c", "d"]
    );
}

#[test]
fn whitespace_tokenizer_trims_other_whitespace_at_the_ends_only() {
    assert_eq!(
        WhitespaceTokenizer::tokenize("\u{b}x\u{b}y\u{b}"),
        vec!["x\u{b}y"]
    );
    assert_eq!(WhitespaceTokenizer::tokenize("a \u{b}"), vec!["a"]);
}

#[test]
fn whitespace_tokenizer_of_nothing() {
    assert!(WhitespaceTokenizer::tokenize("").is_empty());
    assert!(WhitespaceTokenizer::tokenize(" \t\r\n").is_empty());
}

#[test]
fn whitespace_tokenizer_lowers_beyond_ascii() {
    assert_eq!(WhitespaceTokenizer::tokenize("ÄB Çd"), vec!["äb", "çd"]);
}
