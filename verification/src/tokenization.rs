//! Tokenizers: they turn a text into the sequence of tokens that a trie is
//! built from and searched with.

use vstd::prelude::*;
use crate::model::phrase;
use crate::text::{chars_of, lowercase, white_space};

pub mod boundary;

pub use boundary::{tokenize, BoundaryTokenizer, TokenBoundary};

verus! {

/// Splits a text into tokens.  The tokens of a text are a function of the
/// tokenizer and the text: the same text always gives the same tokens.
pub trait Tokenizer {
    /// The tokens of `text`.
    spec fn tokens_of(&self, text: Seq<char>) -> Seq<Seq<char>>;

    /// Splits `s` into its tokens.
    fn tokenize(&self, s: &str) -> (tokens: Vec<String>)
        ensures
            phrase(tokens@) == self.tokens_of(s@),
    ;
}

/// The characters at which the whitespace tokenizer splits.
pub open spec fn is_separator(c: char) -> bool {
    c == ' ' || c == '\t' || c == '\n' || c == '\r'
}

/// The first index at or after `from` whose character is not whitespace, or
/// the length of the text.
pub open spec fn skip_whitespace(text: Seq<char>, from: int) -> int
    decreases text.len() - from,
{
    if from < 0 || from >= text.len() {
        text.len() as int
    } else if white_space(text[from]) {
        skip_whitespace(text, from + 1)
    } else {
        from
    }
}

/// The least index, not below `floor`, from which everything before `upto`
/// is whitespace.
pub open spec fn drop_whitespace(text: Seq<char>, floor: int, upto: int) -> int
    decreases upto,
{
    if upto <= floor || upto <= 0 || upto > text.len() || !white_space(text[upto - 1]) {
        upto
    } else {
        drop_whitespace(text, floor, upto - 1)
    }
}

/// The text without the whitespace at its two ends.
pub open spec fn trimmed(text: Seq<char>) -> Seq<char> {
    let start = skip_whitespace(text, 0);
    let end = drop_whitespace(text, start, text.len() as int);
    text.subrange(start, end)
}

/// The state of a scan after the first `n` characters: the words that have
/// ended, and the word that is being read.
pub open spec fn scan(text: Seq<char>, n: int) -> (Seq<Seq<char>>, Seq<char>)
    decreases n,
{
    if n <= 0 {
        (Seq::empty(), Seq::empty())
    } else {
        let (words, word) = scan(text, n - 1);
        if !is_separator(text[n - 1]) {
            (words, word.push(text[n - 1]))
        } else if word.len() > 0 {
            (words.push(word), Seq::empty())
        } else {
            (words, word)
        }
    }
}

/// The words of a text: its maximal runs of characters that are no
/// separators, in order.
pub open spec fn words(text: Seq<char>) -> Seq<Seq<char>> {
    let (words, word) = scan(text, text.len() as int);
    if word.len() > 0 {
        words.push(word)
    } else {
        words
    }
}

/// During a scan no word is empty and no word holds a separator, the word
/// that is being read included.
pub proof fn lemma_scan_words(text: Seq<char>, n: int)
    requires
        0 <= n <= text.len(),
    ensures
        forall|k: int|
            0 <= k < scan(text, n).0.len() ==> (#[trigger] scan(text, n).0[k]).len() > 0,
        forall|k: int, j: int|
            0 <= k < scan(text, n).0.len() && 0 <= j < scan(text, n).0[k].len() ==> !is_separator(
                #[trigger] scan(text, n).0[k][j],
            ),
        forall|j: int|
            0 <= j < scan(text, n).1.len() ==> !is_separator(#[trigger] scan(text, n).1[j]),
    decreases n,
{
    if n > 0 {
        lemma_scan_words(text, n - 1);
        let before = scan(text, n - 1);
        let after = scan(text, n);
        assert forall|k: int| 0 <= k < after.0.len() implies (#[trigger] after.0[k]).len() > 0
            && forall|j: int| 0 <= j < after.0[k].len() ==> !is_separator(after.0[k][j]) by {
            if k < before.0.len() {
                assert(after.0[k] == before.0[k]);
                assert forall|j: int| 0 <= j < after.0[k].len() implies !is_separator(
                    after.0[k][j],
                ) by {
                    assert(!is_separator(before.0[k][j]));
                }
            } else {
                assert(after.0[k] == before.1);
            }
        }
    }
}

/// The words of a text are not empty, and none holds a separator.
pub proof fn law_words_are_whole(text: Seq<char>)
    ensures
        forall|k: int| 0 <= k < words(text).len() ==> (#[trigger] words(text)[k]).len() > 0,
        forall|k: int, j: int|
            0 <= k < words(text).len() && 0 <= j < words(text)[k].len() ==> !is_separator(
                #[trigger] words(text)[k][j],
            ),
{
    lemma_scan_words(text, text.len() as int);
}

/// The given words, each in lowercase.
pub open spec fn lowered(words: Seq<Seq<char>>) -> Seq<Seq<char>> {
    Seq::new(words.len(), |i: int| lowercase(words[i]))
}

/// The tokens of the whitespace tokenizer: the words of the trimmed text,
/// each in lowercase.
pub open spec fn whitespace_tokens(text: Seq<char>) -> Seq<Seq<char>> {
    lowered(words(trimmed(text)))
}

/// Splits at spaces, tabs and line ends, after trimming the whitespace at
/// the two ends of the text, and puts every token in lowercase.
#[derive(Debug, Clone, Default, Copy)]
pub struct WhitespaceTokenizer;

impl WhitespaceTokenizer {
    /// The lowercase words of `s`.
    pub fn tokenize(s: &str) -> (tokens: Vec<String>)
        ensures
            phrase(tokens@) == whitespace_tokens(s@),
    {
        let chars = chars_of(s);
        let mut start: usize = 0;
        while start < chars.len() && chars[start].is_whitespace()
            invariant
                start <= chars@.len(),
                skip_whitespace(chars@, start as int) == skip_whitespace(chars@, 0),
            decreases chars@.len() - start,
        {
            start += 1;
        }
        let mut end: usize = chars.len();
        while end > start && chars[end - 1].is_whitespace()
            invariant
                start <= end <= chars@.len(),
                drop_whitespace(chars@, start as int, end as int) == drop_whitespace(
                    chars@,
                    start as int,
                    chars@.len() as int,
                ),
            decreases end,
        {
            end -= 1;
        }
        let ghost text = chars@.subrange(start as int, end as int);
        assert(text == trimmed(s@));
        let mut tokens: Vec<String> = Vec::new();
        let mut word = String::new();
        let mut i: usize = start;
        assert(phrase(tokens@) =~= lowered(scan(text, 0).0));
        while i < end
            invariant
                start <= i <= end <= chars@.len(),
                text == chars@.subrange(start as int, end as int),
                word@ == scan(text, i - start).1,
                phrase(tokens@) == lowered(scan(text, i - start).0),
            decreases end - i,
        {
            let c = chars[i];
            let ghost before = scan(text, i - start);
            assert(text[i - start] == c);
            if !(c == ' ' || c == '\t' || c == '\n' || c == '\r') {
                word.push(c);
            } else if !word.as_str().is_empty() {
                let ghost lower = phrase(tokens@);
                tokens.push(word.as_str().to_lowercase());
                word = String::new();
                assert(phrase(tokens@) =~= lower.push(lowercase(before.1)));
                assert(lowered(before.0.push(before.1)) =~= lower.push(lowercase(before.1)));
            }
            i += 1;
        }
        if !word.as_str().is_empty() {
            let ghost before = scan(text, text.len() as int);
            let ghost lower = phrase(tokens@);
            tokens.push(word.as_str().to_lowercase());
            assert(phrase(tokens@) =~= lower.push(lowercase(before.1)));
            assert(lowered(before.0.push(before.1)) =~= lower.push(lowercase(before.1)));
        }
        tokens
    }
}

impl Tokenizer for WhitespaceTokenizer {
    open spec fn tokens_of(&self, text: Seq<char>) -> Seq<Seq<char>> {
        whitespace_tokens(text)
    }

    fn tokenize(&self, s: &str) -> (tokens: Vec<String>) {
        WhitespaceTokenizer::tokenize(s)
    }
}

/// The tokenizer that does not split: the whole text is the one token.
#[derive(Debug, Clone, Default, Copy)]
pub struct NoOpTokenizer;

impl NoOpTokenizer {
    /// The text as its only token.
    pub fn tokenize(s: &str) -> (tokens: Vec<String>)
        ensures
            phrase(tokens@) == seq![s@],
    {
        let mut tokens: Vec<String> = Vec::new();
        tokens.push(String::from_str(s));
        assert(phrase(tokens@) =~= seq![s@]);
        tokens
    }
}

impl Tokenizer for NoOpTokenizer {
    open spec fn tokens_of(&self, text: Seq<char>) -> Seq<Seq<char>> {
        seq![text]
    }

    fn tokenize(&self, s: &str) -> (tokens: Vec<String>) {
        NoOpTokenizer::tokenize(s)
    }
}

/// Another name for the tokenizer that does not split: the whole text is
/// the one token.
#[derive(Debug, Clone, Default, Copy)]
pub struct DummyTokenizer;

impl DummyTokenizer {
    /// The text as its only token.
    pub fn tokenize(s: &str) -> (tokens: Vec<String>)
        ensures
            phrase(tokens@) == seq![s@],
    {
        NoOpTokenizer::tokenize(s)
    }
}

impl Tokenizer for DummyTokenizer {
    open spec fn tokens_of(&self, text: Seq<char>) -> Seq<Seq<char>> {
        seq![text]
    }

    fn tokenize(&self, s: &str) -> (tokens: Vec<String>) {
        NoOpTokenizer::tokenize(s)
    }
}

} // verus!
