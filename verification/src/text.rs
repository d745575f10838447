//! Operations on text that the tokenizers and the pattern nodes share.

use vstd::prelude::*;

verus! {

/// Whether `char::is_whitespace` holds of a character: whether it has the
/// Unicode property White_Space.
pub uninterp spec fn white_space(c: char) -> bool;

/// What `str::to_lowercase` returns: the lowercase equivalent of a text.
pub uninterp spec fn lowercase(text: Seq<char>) -> Seq<char>;

/// `char::is_whitespace` tells whether the character has the Unicode
/// property White_Space; the contract names that answer.
pub assume_specification[ char::is_whitespace ](c: char) -> (white: bool)
    ensures
        white == white_space(c),
;

/// `str::to_lowercase` returns the lowercase equivalent of the slice as a
/// new `String`; the contract names that text.
pub assume_specification[ str::to_lowercase ](s: &str) -> (lower: String)
    ensures
        lower@ == lowercase(s@),
;

/// `==` on string slices, `<str as PartialEq>::eq`, holds of two slices
/// exactly if they hold the same characters.
pub assume_specification[ <str as PartialEq>::eq ](a: &str, b: &str) -> (same: bool)
    ensures
        same == (a@ == b@),
;

/// `String::push` appends the character to the end of the string.
pub assume_specification[ String::push ](s: &mut String, c: char)
    ensures
        final(s)@ == old(s)@.push(c),
;

/// The characters of `s`, in order.
pub fn chars_of(s: &str) -> (chars: Vec<char>)
    ensures
        chars@ == s@,
{
    let mut chars: Vec<char> = Vec::new();
    let text = s.chars();
    for c in it: text
        invariant
            it.seq() == s@,
            chars@ == s@.take(it.index() as int),
    {
        proof {
            assert(s@.take(it.index() + 1) =~= s@.take(it.index() as int).push(c));
        }
        chars.push(c);
    }
    proof {
        assert(s@.take(s@.len() as int) =~= s@);
    }
    chars
}

/// The first index at or after `from` whose character is not `c`, or the
/// length of the text.
pub open spec fn skip_char(text: Seq<char>, c: char, from: int) -> int
    decreases text.len() - from,
{
    if from < 0 || from >= text.len() {
        text.len() as int
    } else if text[from] == c {
        skip_char(text, c, from + 1)
    } else {
        from
    }
}

/// The least index, not below `floor`, from which every character before
/// `upto` is `c`.
pub open spec fn drop_char(text: Seq<char>, c: char, floor: int, upto: int) -> int
    decreases upto,
{
    if upto <= floor || upto <= 0 || upto > text.len() || text[upto - 1] != c {
        upto
    } else {
        drop_char(text, c, floor, upto - 1)
    }
}

/// The text without the `^` at its start and the `$` at its end, however
/// many of either there are.
pub open spec fn unanchored(text: Seq<char>) -> Seq<char> {
    let start = skip_char(text, '^', 0);
    let end = drop_char(text, '$', start, text.len() as int);
    text.subrange(start, end)
}

/// The pattern that matches a whole token and nothing less: the text
/// between one `^` and one `$`, anchors that it already had at its ends
/// being dropped first.
pub open spec fn anchored(text: Seq<char>) -> Seq<char> {
    seq!['^'] + unanchored(text) + seq!['$']
}

/// The function that anchors: see [`anchored`].
pub open spec fn anchoring() -> spec_fn(Seq<char>) -> Seq<char> {
    |text: Seq<char>| anchored(text)
}

/// The whole-token patterns of `tokens`, in their order.
pub fn anchor_all(tokens: &[String]) -> (patterns: Vec<String>)
    ensures
        patterns@.len() == tokens@.len(),
        forall|i: int| 0 <= i < tokens@.len() ==> (#[trigger] patterns@[i])@ == anchored(
            tokens@[i]@,
        ),
{
    let mut patterns: Vec<String> = Vec::new();
    let mut i: usize = 0;
    while i < tokens.len()
        invariant
            i <= tokens@.len(),
            patterns@.len() == i,
            forall|k: int| 0 <= k < i ==> (#[trigger] patterns@[k])@ == anchored(tokens@[k]@),
        decreases tokens@.len() - i,
    {
        patterns.push(anchor(tokens[i].as_str()));
        i += 1;
    }
    patterns
}

/// The whole-token pattern of `token`.
pub fn anchor(token: &str) -> (pattern: String)
    ensures
        pattern@ == anchored(token@),
{
    let chars = chars_of(token);
    let mut start: usize = 0;
    while start < chars.len() && chars[start] == '^'
        invariant
            start <= chars@.len(),
            skip_char(chars@, '^', start as int) == skip_char(chars@, '^', 0),
        decreases chars@.len() - start,
    {
        start += 1;
    }
    let mut end: usize = chars.len();
    while end > start && chars[end - 1] == '$'
        invariant
            start <= end <= chars@.len(),
            drop_char(chars@, '$', start as int, end as int) == drop_char(
                chars@,
                '$',
                start as int,
                chars@.len() as int,
            ),
        decreases end,
    {
        end -= 1;
    }
    let mut pattern = String::new();
    pattern.push('^');
    let mut i: usize = start;
    assert(pattern@ =~= seq!['^'] + chars@.subrange(start as int, i as int));
    while i < end
        invariant
            start <= i <= end <= chars@.len(),
            pattern@ == seq!['^'] + chars@.subrange(start as int, i as int),
        decreases end - i,
    {
        pattern.push(chars[i]);
        assert(pattern@ =~= seq!['^'] + chars@.subrange(start as int, i + 1));
        i += 1;
    }
    pattern.push('$');
    pattern
}

} // verus!
