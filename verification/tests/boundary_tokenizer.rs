use phrase_trie::{tokenize, BoundaryTokenizer, TokenBoundary, Tokenizer};

#[test]
fn default_boundaries_split_words_case_and_digits() {
    let tokenizer = BoundaryTokenizer::default();
    assert_eq!(tokenizer.tokenize("helloWorld"), vec!["hello", "world"]);
    assert_eq!(
        tokenizer.tokenize("foo-bar_baz qux"),
        vec!["foo", "bar", "baz", "qux"]
    );
    assert_eq!(tokenizer.tokenize("abc123"), vec!["abc", "123"]);
    assert_eq!(tokenizer.tokenize("HTTPServer"), vec!["http", "server"]);
}

#[test]
fn default_boundaries_split_at_punctuation() {
    let tokenizer = BoundaryTokenizer::default();
    assert_eq!(tokenizer.tokenize("a.b,c;d:e"), vec!["a", "b", "c", "d", "e"]);
    assert_eq!(tokenizer.tokenize("(x)+[y]"), vec!["x", "y"]);
    assert_eq!(tokenizer.tokenize("who?me!"), vec!["who", "me"]);
}

#[test]
fn default_boundaries_of_nothing() {
    let tokenizer = BoundaryTokenizer::default();
    assert!(tokenizer.tokenize("").is_empty());
    assert!(tokenizer.tokenize(" - _ ").is_empty());
}

#[test]
fn free_tokenize_is_the_default_tokenizer() {
    assert_eq!(tokenize("Mister Bobby"), vec!["mister", "bobby"]);
    assert_eq!(
        tokenize("someText_here"),
        BoundaryTokenizer::default().tokenize("someText_here")
    );
}

#[test]
fn chosen_boundaries_are_the_only_ones() {
    let tokenizer = BoundaryTokenizer::new(vec![TokenBoundary::Delimiter(",")]);
    assert_eq!(
        tokenizer.tokenize("One Two,threeFour,,Five"),
        vec!["one two", "threefour", "five"]
    );
    let no_boundaries = BoundaryTokenizer::new(Vec::new());
    assert_eq!(no_boundaries.tokenize("One Two"), vec!["one two"]);
}

#[test]
fn delimiters_of_one_ascii_character_are_single_steps() {
    assert!(TokenBoundary::Delimiter(",").is_single_step());
    assert!(TokenBoundary::Acronym.is_single_step());
    assert!(!TokenBoundary::Delimiter("").is_single_step());
    assert!(!TokenBoundary::Delimiter("::").is_single_step());
    assert!(!TokenBoundary::Delimiter("é").is_single_step());
}

#[test]
fn a_delimiter_of_several_characters_is_refused() {
    assert!(BoundaryTokenizer::try_new(vec![TokenBoundary::Delimiter("::")]).is_none());
    let made = BoundaryTokenizer::try_new(vec![
        TokenBoundary::Delimiter(":"),
        TokenBoundary::UpperLower,
    ]);
    assert_eq!(made.unwrap().tokenize("a:bCd"), vec!["a", "bc", "d"]);
}

#[test]
fn a_clone_splits_alike() {
    let tokenizer = BoundaryTokenizer::new(vec![TokenBoundary::Hyphen, TokenBoundary::LowerDigit]);
    let copy = tokenizer.clone();
    assert_eq!(copy.tokenize("ab1-c d"), vec!["ab", "1", "c d"]);
    assert_eq!(copy.tokenize("ab1-c d"), tokenizer.tokenize("ab1-c d"));
}
