//! The boundary tokenizer: it splits where the case or the kind of the
//! characters changes, and at delimiters.

use vstd::prelude::*;
use vstd::string::StrSliceExecFns;
use convert_case::Boundary;
use crate::model::phrase;
use crate::text::lowercase;
use crate::tokenization::Tokenizer;

verus! {

/// A condition on which the boundary tokenizer splits a text.
#[derive(Debug, Clone, Copy, PartialEq, Eq)]
pub enum TokenBoundary {
    /// At a space, which is removed.
    Space,
    /// At a hyphen, which is removed.
    Hyphen,
    /// At an underscore, which is removed.
    Underscore,
    /// Between a lowercase letter and an uppercase letter that follows it.
    LowerUpper,
    /// Between an uppercase letter and a lowercase letter that follows it.
    UpperLower,
    /// Before the last letter of a run of uppercase letters that a lowercase
    /// letter follows.
    Acronym,
    /// Between a lowercase letter and a digit that follows it.
    LowerDigit,
    /// Between an uppercase letter and a digit that follows it.
    UpperDigit,
    /// Between a digit and a lowercase letter that follows it.
    DigitLower,
    /// Between a digit and an uppercase letter that follows it.
    DigitUpper,
    /// At the given delimiter, which is removed.
    Delimiter(&'static str),
}

impl TokenBoundary {
    /// Whether the boundary removes at most one character: every named
    /// boundary does, and a delimiter does if it is one ASCII character.
    pub open spec fn single_step(self) -> bool {
        match self {
            TokenBoundary::Delimiter(d) => d@.len() == 1 && vstd::string::is_ascii(d),
            _ => true,
        }
    }

    /// Whether the boundary removes at most one character.
    pub fn is_single_step(&self) -> (single: bool)
        ensures
            single == self.single_step(),
    {
        match self {
            TokenBoundary::Delimiter(d) => {
                d.is_ascii() && d.unicode_len() == 1
            },
            _ => true,
        }
    }
}

/// What `convert_case::split` returns for a text and a list of boundaries,
/// each boundary taken as the constant of `convert_case::Boundary` of the
/// same name, a delimiter as `Boundary::from_delim` of it.
pub uninterp spec fn boundary_parts(text: Seq<char>, boundaries: Seq<TokenBoundary>) -> Seq<
    Seq<char>,
>;

/// Calls `convert_case::split`, which walks the text once and cuts it where
/// the first boundary of the list applies.  It is a function of its two
/// arguments; the contract names its result, and says that the empty text
/// has no part, which is the first thing the function tests.  With
/// boundaries that remove at most one character each cut starts where the
/// previous one ended or later, so no slice of the text is taken
/// backwards.
#[verifier::external_body]
fn split_at_boundaries(text: &str, boundaries: &Vec<TokenBoundary>) -> (parts: Vec<String>)
    requires
        forall|i: int| 0 <= i < boundaries@.len() ==> (#[trigger] boundaries@[i]).single_step(),
    ensures
        phrase(parts@) == boundary_parts(text@, boundaries@),
        text@.len() == 0 ==> parts@.len() == 0,
{
    let outside: Vec<Boundary> = boundaries.iter().map(|b| match *b {
        TokenBoundary::Space => Boundary::SPACE,
        TokenBoundary::Hyphen => Boundary::HYPHEN,
        TokenBoundary::Underscore => Boundary::UNDERSCORE,
        TokenBoundary::LowerUpper => Boundary::LOWER_UPPER,
        TokenBoundary::UpperLower => Boundary::UPPER_LOWER,
        TokenBoundary::Acronym => Boundary::ACRONYM,
        TokenBoundary::LowerDigit => Boundary::LOWER_DIGIT,
        TokenBoundary::UpperDigit => Boundary::UPPER_DIGIT,
        TokenBoundary::DigitLower => Boundary::DIGIT_LOWER,
        TokenBoundary::DigitUpper => Boundary::DIGIT_UPPER,
        TokenBoundary::Delimiter(d) => Boundary::from_delim(d),
    }).collect();
    convert_case::split(&text, &outside).into_iter().map(String::from).collect()
}

/// The first `n` of `parts` without the empty ones, each in lowercase.
pub open spec fn lowered_parts(parts: Seq<Seq<char>>, n: int) -> Seq<Seq<char>>
    decreases n,
{
    if n <= 0 {
        Seq::empty()
    } else if parts[n - 1].len() == 0 {
        lowered_parts(parts, n - 1)
    } else {
        lowered_parts(parts, n - 1).push(lowercase(parts[n - 1]))
    }
}

/// The tokens of the boundary tokenizer: the parts into which the
/// boundaries split the text, without the empty ones, each in lowercase.
pub open spec fn boundary_tokens(text: Seq<char>, boundaries: Seq<TokenBoundary>) -> Seq<
    Seq<char>,
> {
    if text.len() == 0 {
        Seq::empty()
    } else {
        let parts = boundary_parts(text, boundaries);
        lowered_parts(parts, parts.len() as int)
    }
}

/// The empty text has no tokens, whatever the boundaries.
pub proof fn law_empty_text_has_no_boundary_tokens(boundaries: Seq<TokenBoundary>)
    ensures
        boundary_tokens(Seq::empty(), boundaries) == Seq::<Seq<char>>::empty(),
{
}

/// The boundaries of the default tokenizer: the space, the hyphen, the
/// underscore, the changes of case and between letters and digits, and the
/// usual punctuation.
pub open spec fn default_boundaries() -> Seq<TokenBoundary> {
    seq![
        TokenBoundary::Space,
        TokenBoundary::Hyphen,
        TokenBoundary::Underscore,
        TokenBoundary::LowerUpper,
        TokenBoundary::Acronym,
        TokenBoundary::LowerDigit,
        TokenBoundary::UpperDigit,
        TokenBoundary::DigitLower,
        TokenBoundary::DigitUpper,
        TokenBoundary::Delimiter("."),
        TokenBoundary::Delimiter(","),
        TokenBoundary::Delimiter("<"),
        TokenBoundary::Delimiter(">"),
        TokenBoundary::Delimiter("|"),
        TokenBoundary::Delimiter("["),
        TokenBoundary::Delimiter("]"),
        TokenBoundary::Delimiter("{"),
        TokenBoundary::Delimiter("}"),
        TokenBoundary::Delimiter("\t"),
        TokenBoundary::Delimiter(";"),
        TokenBoundary::Delimiter(":"),
        TokenBoundary::Delimiter("@"),
        TokenBoundary::Delimiter("&"),
        TokenBoundary::Delimiter("^"),
        TokenBoundary::Delimiter("$"),
        TokenBoundary::Delimiter("("),
        TokenBoundary::Delimiter(")"),
        TokenBoundary::Delimiter("+"),
        TokenBoundary::Delimiter("!"),
        TokenBoundary::Delimiter("?"),
        TokenBoundary::Delimiter("*"),
        TokenBoundary::Delimiter("#"),
    ]
}

/// Appends a boundary that removes at most one character.
fn push_boundary(boundaries: &mut Vec<TokenBoundary>, boundary: TokenBoundary)
    requires
        boundary.single_step(),
        forall|i: int|
            0 <= i < old(boundaries)@.len() ==> (#[trigger] old(boundaries)@[i]).single_step(),
    ensures
        final(boundaries)@ == old(boundaries)@.push(boundary),
        forall|i: int|
            0 <= i < final(boundaries)@.len() ==> (#[trigger] final(boundaries)@[i]).single_step(),
{
    boundaries.push(boundary);
}

/// Splits a text at the boundaries it was made with, drops what is empty and
/// puts every token in lowercase.
#[derive(Debug)]
pub struct BoundaryTokenizer {
    boundaries: Vec<TokenBoundary>,
}

impl BoundaryTokenizer {
    /// Every boundary removes at most one character.
    #[verifier::type_invariant]
    spec fn single_steps(self) -> bool {
        forall|i: int|
            0 <= i < self.boundaries@.len() ==> (#[trigger] self.boundaries@[i]).single_step()
    }

    /// The boundaries at which the tokenizer splits, in the order in which
    /// they are tried.
    pub closed spec fn boundaries(self) -> Seq<TokenBoundary> {
        self.boundaries@
    }

    /// A tokenizer that splits at `boundaries`.
    pub fn new(boundaries: Vec<TokenBoundary>) -> (made: Self)
        requires
            forall|i: int| 0 <= i < boundaries@.len() ==> (#[trigger] boundaries@[i]).single_step(),
        ensures
            made.boundaries() == boundaries@,
    {
        BoundaryTokenizer { boundaries }
    }
}

impl BoundaryTokenizer {
    /// A tokenizer that splits at `boundaries`, if every one of them
    /// removes at most one character.
    pub fn try_new(boundaries: Vec<TokenBoundary>) -> (made: Option<Self>)
        ensures
            made is Some <==> forall|i: int|
                0 <= i < boundaries@.len() ==> (#[trigger] boundaries@[i]).single_step(),
            made matches Some(tokenizer) ==> tokenizer.boundaries() == boundaries@,
    {
        let mut i: usize = 0;
        while i < boundaries.len()
            invariant
                i <= boundaries@.len(),
                forall|k: int| 0 <= k < i ==> (#[trigger] boundaries@[k]).single_step(),
            decreases boundaries@.len() - i,
        {
            if !boundaries[i].is_single_step() {
                return None;
            }
            i += 1;
        }
        Some(BoundaryTokenizer::new(boundaries))
    }
}

impl Clone for BoundaryTokenizer {
    fn clone(&self) -> (copy: Self)
        ensures
            copy.boundaries() == self.boundaries(),
    {
        proof {
            use_type_invariant(self);
        }
        let mut boundaries: Vec<TokenBoundary> = Vec::new();
        let mut i: usize = 0;
        while i < self.boundaries.len()
            invariant
                i <= self.boundaries@.len(),
                boundaries@ == self.boundaries@.take(i as int),
                forall|k: int|
                    0 <= k < self.boundaries@.len() ==> (
                    #[trigger] self.boundaries@[k]).single_step(),
            decreases self.boundaries@.len() - i,
        {
            boundaries.push(self.boundaries[i]);
            assert(boundaries@ =~= self.boundaries@.take(i + 1));
            i += 1;
        }
        assert(boundaries@ =~= self.boundaries@);
        BoundaryTokenizer { boundaries }
    }
}

impl Default for BoundaryTokenizer {
    /// The tokenizer of the default boundaries.
    fn default() -> (made: Self)
        ensures
            made.boundaries() == default_boundaries(),
    {
        proof {
            reveal_strlit(".");
            reveal_strlit(",");
            reveal_strlit("<");
            reveal_strlit(">");
            reveal_strlit("|");
            reveal_strlit("[");
            reveal_strlit("]");
            reveal_strlit("{");
            reveal_strlit("}");
            reveal_strlit("\t");
            reveal_strlit(";");
            reveal_strlit(":");
            reveal_strlit("@");
            reveal_strlit("&");
            reveal_strlit("^");
            reveal_strlit("$");
            reveal_strlit("(");
            reveal_strlit(")");
            reveal_strlit("+");
            reveal_strlit("!");
            reveal_strlit("?");
            reveal_strlit("*");
            reveal_strlit("#");
        }
        let mut boundaries: Vec<TokenBoundary> = Vec::new();
        push_boundary(&mut boundaries, TokenBoundary::Space);
        push_boundary(&mut boundaries, TokenBoundary::Hyphen);
        push_boundary(&mut boundaries, TokenBoundary::Underscore);
        push_boundary(&mut boundaries, TokenBoundary::LowerUpper);
        push_boundary(&mut boundaries, TokenBoundary::Acronym);
        push_boundary(&mut boundaries, TokenBoundary::LowerDigit);
        push_boundary(&mut boundaries, TokenBoundary::UpperDigit);
        push_boundary(&mut boundaries, TokenBoundary::DigitLower);
        push_boundary(&mut boundaries, TokenBoundary::DigitUpper);
        push_boundary(&mut boundaries, TokenBoundary::Delimiter("."));
        push_boundary(&mut boundaries, TokenBoundary::Delimiter(","));
        push_boundary(&mut boundaries, TokenBoundary::Delimiter("<"));
        push_boundary(&mut boundaries, TokenBoundary::Delimiter(">"));
        push_boundary(&mut boundaries, TokenBoundary::Delimiter("|"));
        push_boundary(&mut boundaries, TokenBoundary::Delimiter("["));
        push_boundary(&mut boundaries, TokenBoundary::Delimiter("]"));
        push_boundary(&mut boundaries, TokenBoundary::Delimiter("{"));
        push_boundary(&mut boundaries, TokenBoundary::Delimiter("}"));
        push_boundary(&mut boundaries, TokenBoundary::Delimiter("\t"));
        push_boundary(&mut boundaries, TokenBoundary::Delimiter(";"));
        push_boundary(&mut boundaries, TokenBoundary::Delimiter(":"));
        push_boundary(&mut boundaries, TokenBoundary::Delimiter("@"));
        push_boundary(&mut boundaries, TokenBoundary::Delimiter("&"));
        push_boundary(&mut boundaries, TokenBoundary::Delimiter("^"));
        push_boundary(&mut boundaries, TokenBoundary::Delimiter("$"));
        push_boundary(&mut boundaries, TokenBoundary::Delimiter("("));
        push_boundary(&mut boundaries, TokenBoundary::Delimiter(")"));
        push_boundary(&mut boundaries, TokenBoundary::Delimiter("+"));
        push_boundary(&mut boundaries, TokenBoundary::Delimiter("!"));
        push_boundary(&mut boundaries, TokenBoundary::Delimiter("?"));
        push_boundary(&mut boundaries, TokenBoundary::Delimiter("*"));
        push_boundary(&mut boundaries, TokenBoundary::Delimiter("#"));
        assert(boundaries@ =~= default_boundaries());
        BoundaryTokenizer { boundaries }
    }
}

/// Splits `s` with the default boundary tokenizer.
pub fn tokenize(s: &str) -> (tokens: Vec<String>)
    ensures
        phrase(tokens@) == boundary_tokens(s@, default_boundaries()),
{
    BoundaryTokenizer::default().tokenize(s)
}

impl Tokenizer for BoundaryTokenizer {
    open spec fn tokens_of(&self, text: Seq<char>) -> Seq<Seq<char>> {
        boundary_tokens(text, self.boundaries())
    }

    fn tokenize(&self, s: &str) -> (tokens: Vec<String>) {
        proof {
            use_type_invariant(self);
        }
        let parts = split_at_boundaries(s, &self.boundaries);
        let mut tokens: Vec<String> = Vec::new();
        let mut i: usize = 0;
        while i < parts.len()
            invariant
                i <= parts@.len(),
                phrase(tokens@) == lowered_parts(phrase(parts@), i as int),
            decreases parts@.len() - i,
        {
            if !parts[i].as_str().is_empty() {
                let ghost before = phrase(tokens@);
                tokens.push(parts[i].as_str().to_lowercase());
                assert(phrase(tokens@) =~= before.push(lowercase(parts@[i as int]@)));
            }
            i += 1;
        }
        tokens
    }
}

} // verus!
