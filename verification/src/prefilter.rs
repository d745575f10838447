//! Which patterns the prefiltered set takes.
//!
//! Before `regex-filtered` compiles a pattern it derives, from the parsed
//! pattern, the strings that every match must hold.  On two kinds of
//! pattern that derivation does not end well, and a third kind hides the
//! first two from a reading of the text:
//!
//! - A counted repetition of a set of two or more strings raises the size
//!   of the set to the power of the count, without a check.  What is
//!   repeated is a set only where it is a literal, a class of at most 10
//!   characters, or a group; a class or a literal gives at most 10
//!   strings, a group at most 16 for each of its alternatives.
//!   [`counts_fit`] keeps the counts so low that the power fits a machine
//!   word.  The dot, and digits and word characters written as `\d` and
//!   `\w`, are classes of more than 10 characters: their counts are free.
//! - A repetition of at least once, without a fixed count, divides by the
//!   length of what it repeats where that is a single string.  The parser
//!   drops a repetition of what can only be empty, so the string is empty
//!   only where the parser cannot tell: where a group holds a class that
//!   no character is in.  Such a class is written with a class operator
//!   (`&&`, `--`, `~~`), as a property (`\p`, `\P`), or as the negation
//!   (`[^`) of a class that holds every character; a negated class that
//!   names only characters from the space upwards holds the character 0.
//!   [`repeated_groups_are_plain`] admits none of the others in a pattern
//!   that repeats a group with `+` or `{`.
//! - With the flag `x` a count can be written in pieces, and without the
//!   flag `u` the class `\d` has 10 characters.  [`flags_are_plain`]
//!   leaves both flags out.
//!
//! The conditions are on the text of the pattern and err on the side of
//! refusing.  Only the patterns that [`prefilter_safe`] takes are handed to
//! the prefilter.

use vstd::prelude::*;
use crate::text::{chars_of, white_space};

verus! {

/// The pattern that closes every prefiltered set.  The prefilter prunes
/// what leads to a pattern where it holds a single pattern that it can
/// filter, and can then pass over a match; this literal is one that it can
/// filter, so no other pattern is ever the single one.  No child stands
/// behind it.
pub const GUARD_PATTERN: &'static str = "^guard of the prefilter$";

/// The text of [`GUARD_PATTERN`].
pub open spec fn guard_pattern() -> Seq<char> {
    GUARD_PATTERN@
}

/// The longest pattern that the prefilter is given, in characters.
pub const MAX_PATTERN_LEN: usize = 65536;

/// The value at which a repetition count stops growing.
pub const COUNT_CAP: u32 = 64;

/// Whether the character is an ASCII digit.
pub open spec fn is_digit(c: char) -> bool {
    48 <= (c as u32) <= 57
}

/// Whether the character can stand among the flags of a group: an ASCII
/// letter or a hyphen.
pub open spec fn is_flag(c: char) -> bool {
    65 <= (c as u32) <= 90 || 97 <= (c as u32) <= 122 || c == '-'
}

/// Whether `x` or `u` stands in the run of flags that starts at `from`.
pub open spec fn flags_hold_x_or_u(text: Seq<char>, from: int) -> bool
    decreases text.len() - from,
{
    if from < 0 || from >= text.len() || !is_flag(text[from]) {
        false
    } else if text[from] == 'x' || text[from] == 'u' {
        true
    } else {
        flags_hold_x_or_u(text, from + 1)
    }
}

/// No group sets or clears the flags `x` and `u`.
pub open spec fn flags_are_plain(text: Seq<char>) -> bool {
    forall|i: int|
        0 <= i < text.len() - 1 && text[i] == '(' && #[trigger] text[i + 1] == '?'
            ==> !flags_hold_x_or_u(text, i + 2)
}

/// The number of `|` among the first `n` characters.
pub open spec fn bars(text: Seq<char>, n: int) -> nat
    decreases n,
{
    if n <= 0 {
        0
    } else if text[n - 1] == '|' {
        bars(text, n - 1) + 1
    } else {
        bars(text, n - 1)
    }
}

/// The index of the `{` whose count can stand at index `n`: the `{` before
/// `n` with nothing but digits and whitespace in between; -1 where there
/// is none.
pub open spec fn brace_at(text: Seq<char>, n: int) -> int
    decreases n,
{
    if n <= 0 || n > text.len() {
        -1
    } else if text[n - 1] == '{' {
        n - 1
    } else if is_digit(text[n - 1]) || white_space(text[n - 1]) {
        brace_at(text, n - 1)
    } else {
        -1
    }
}

/// The value of the run of digits that ends before index `n`, which stops
/// growing at [`COUNT_CAP`]; 0 where no digit stands there.
pub open spec fn count_before(text: Seq<char>, n: int) -> nat
    decreases n,
{
    if n <= 0 || n > text.len() || !is_digit(text[n - 1]) {
        0
    } else {
        let longer = count_before(text, n - 1) * 10 + ((text[n - 1] as u32) - 48);
        if longer >= COUNT_CAP {
            COUNT_CAP as nat
        } else {
            longer as nat
        }
    }
}

/// Whether what stands before the `{` at `brace` is a class of more than
/// 10 characters however it is read: the dot, or `d`, `D`, `w` or `W`
/// behind a backslash.
pub open spec fn wide_before(text: Seq<char>, brace: int) -> bool {
    brace >= 1 && (text[brace - 1] == '.' || (brace >= 2 && text[brace - 2] == '\\' && (text[brace
        - 1] == 'd' || text[brace - 1] == 'D' || text[brace - 1] == 'w' || text[brace - 1]
        == 'W')))
}

/// Whether what stands before the `{` at `brace` can be a group or a
/// repetition: it ends with `)`, `}`, `*`, `+` or `?`.
pub open spec fn group_before(text: Seq<char>, brace: int) -> bool {
    brace >= 1 && (text[brace - 1] == ')' || text[brace - 1] == '}' || text[brace - 1] == '*'
        || text[brace - 1] == '+' || text[brace - 1] == '?')
}

/// Whether `count` is small enough for the `{` at `brace`.  A class of
/// more than 10 characters takes any count.  A group has fewer than 2 to
/// the power of 4 plus the number of `|` strings, and that to the power of
/// the count must fit a machine word.  Anything else has at most 10
/// strings, and 10 to the power of the count must fit.
pub open spec fn count_fits(text: Seq<char>, brace: int, count: nat) -> bool {
    if brace < 1 || wide_before(text, brace) {
        true
    } else if group_before(text, brace) {
        (4 + bars(text, text.len() as int)) * count < usize::BITS
    } else {
        10 * count <= 3 * usize::BITS
    }
}

/// Every count is small enough for what it repeats.
pub open spec fn counts_fit(text: Seq<char>) -> bool {
    forall|i: int|
        1 <= i <= text.len() && is_digit(#[trigger] text[i - 1]) && brace_at(text, i) >= 0
            ==> count_fits(text, brace_at(text, i), count_before(text, i))
}

/// Whether the class that is negated from index `from` on ends at the
/// first `]` and names nothing but characters from the space upwards, one
/// by one or in ranges.  Such a class leaves the character 0 out, so its
/// negation holds it.
pub open spec fn negated_body_is_plain(text: Seq<char>, from: int) -> bool
    decreases text.len() - from,
{
    if from < 0 || from >= text.len() || text[from] == ']' {
        true
    } else if text[from] == '\\' || text[from] == '[' || (text[from] as u32) < 32 {
        false
    } else {
        negated_body_is_plain(text, from + 1)
    }
}

/// No class is written with an operator or as a property, and a class
/// that is negated names plain characters only: every class then holds a
/// character.
pub open spec fn classes_are_plain(text: Seq<char>) -> bool {
    forall|i: int|
        0 <= i < text.len() - 1 ==> !(#[trigger] text[i] == '&' && text[i + 1] == '&') && !(text[i]
            == '-' && text[i + 1] == '-') && !(text[i] == '~' && text[i + 1] == '~') && !(text[i]
            == '\\' && (text[i + 1] == 'p' || text[i + 1] == 'P')) && (text[i] == '[' && text[i
            + 1] == '^' ==> i + 2 < text.len() && text[i + 2] != ']' && negated_body_is_plain(
            text,
            i + 2,
        ))
}

/// Whether a group is repeated at least once: a `+` or a `{` stands right
/// behind a `)`.
pub open spec fn repeats_a_group(text: Seq<char>) -> bool {
    exists|i: int|
        1 <= i < text.len() && (#[trigger] text[i] == '+' || text[i] == '{') && text[i - 1] == ')'
}

/// Where a group is repeated at least once, every class holds a
/// character.
pub open spec fn repeated_groups_are_plain(text: Seq<char>) -> bool {
    repeats_a_group(text) ==> classes_are_plain(text)
}

/// The patterns that the prefilter takes.
pub open spec fn prefilter_safe(text: Seq<char>) -> bool {
    &&& text.len() <= MAX_PATTERN_LEN
    &&& flags_are_plain(text)
    &&& counts_fit(text)
    &&& repeated_groups_are_plain(text)
}

fn digit(c: char) -> (is: bool)
    ensures
        is == is_digit(c),
{
    let code = c as u32;
    48 <= code && code <= 57
}

fn flag(c: char) -> (is: bool)
    ensures
        is == is_flag(c),
{
    let code = c as u32;
    (65 <= code && code <= 90) || (97 <= code && code <= 122) || c == '-'
}

fn count_bars(text: &Vec<char>) -> (count: usize)
    ensures
        count == bars(text@, text@.len() as int),
        count <= text@.len(),
{
    let mut count: usize = 0;
    let mut i: usize = 0;
    while i < text.len()
        invariant
            i <= text@.len(),
            count == bars(text@, i as int),
            count <= i,
        decreases text@.len() - i,
    {
        if text[i] == '|' {
            count += 1;
        }
        i += 1;
    }
    count
}

fn holds_x_or_u(text: &Vec<char>, from: usize) -> (holds: bool)
    ensures
        holds == flags_hold_x_or_u(text@, from as int),
{
    let mut i: usize = from;
    while i < text.len() && flag(text[i])
        invariant
            from <= i,
            flags_hold_x_or_u(text@, i as int) == flags_hold_x_or_u(text@, from as int),
        decreases text@.len() - i,
    {
        if text[i] == 'x' || text[i] == 'u' {
            return true;
        }
        i += 1;
    }
    false
}

fn plain_flags(text: &Vec<char>) -> (holds: bool)
    ensures
        holds == flags_are_plain(text@),
{
    let mut i: usize = 0;
    while i < text.len()
        invariant
            i <= text@.len(),
            forall|j: int|
                0 <= j < i && j < text@.len() - 1 && text@[j] == '(' && #[trigger] text@[j + 1]
                    == '?' ==> !flags_hold_x_or_u(text@, j + 2),
        decreases text@.len() - i,
    {
        if text[i] == '(' && i + 1 < text.len() && text[i + 1] == '?' {
            if holds_x_or_u(text, i + 2) {
                return false;
            }
        }
        i += 1;
    }
    true
}

fn fitting_count(text: &Vec<char>, weight: usize, brace: usize, count: u32) -> (fits: bool)
    requires
        brace < text@.len() <= MAX_PATTERN_LEN,
        weight == 4 + bars(text@, text@.len() as int),
        count <= COUNT_CAP,
    ensures
        fits == count_fits(text@, brace as int, count as nat),
{
    if brace < 1 {
        return true;
    }
    let before = text[brace - 1];
    if before == '.' || (brace >= 2 && text[brace - 2] == '\\' && (before == 'd' || before == 'D'
        || before == 'w' || before == 'W')) {
        true
    } else if before == ')' || before == '}' || before == '*' || before == '+' || before == '?' {
        proof {
            assert(bars(text@, text@.len() as int) <= text@.len()) by {
                lemma_bars_bound(text@, text@.len() as int);
            }
            assert(weight * count <= (4 + MAX_PATTERN_LEN) * COUNT_CAP) by (nonlinear_arith)
                requires
                    weight <= 4 + MAX_PATTERN_LEN,
                    count <= COUNT_CAP,
            ;
        }
        weight * (count as usize) < usize::BITS as usize
    } else {
        10 * count <= 3 * usize::BITS
    }
}

/// There are no more `|` than characters.
proof fn lemma_bars_bound(text: Seq<char>, n: int)
    requires
        0 <= n,
    ensures
        bars(text, n) <= n,
    decreases n,
{
    if n > 0 {
        lemma_bars_bound(text, n - 1);
    }
}

fn fitting_counts(text: &Vec<char>) -> (holds: bool)
    requires
        text@.len() <= MAX_PATTERN_LEN,
    ensures
        holds == counts_fit(text@),
{
    let weight = 4 + count_bars(text);
    let mut brace: Option<usize> = None;
    let mut count: u32 = 0;
    let mut i: usize = 0;
    while i < text.len()
        invariant
            i <= text@.len() <= MAX_PATTERN_LEN,
            weight == 4 + bars(text@, text@.len() as int),
            match brace {
                Some(at) => at == brace_at(text@, i as int) && at < i,
                None => brace_at(text@, i as int) == -1,
            },
            count == count_before(text@, i as int),
            count <= COUNT_CAP,
            forall|j: int|
                1 <= j <= i && is_digit(#[trigger] text@[j - 1]) && brace_at(text@, j) >= 0
                    ==> count_fits(text@, brace_at(text@, j), count_before(text@, j)),
        decreases text@.len() - i,
    {
        let c = text[i];
        if digit(c) {
            let longer = count * 10 + (c as u32 - 48);
            count = if longer >= COUNT_CAP {
                COUNT_CAP
            } else {
                longer
            };
            proof {
                assert(count == count_before(text@, i + 1));
                assert(is_digit(text@[i + 1 - 1]));
            }
            if let Some(at) = brace {
                if !fitting_count(text, weight, at, count) {
                    return false;
                }
            }
        } else {
            count = 0;
            if c == '{' {
                brace = Some(i);
            } else if !c.is_whitespace() {
                brace = None;
            }
        }
        i += 1;
    }
    true
}

fn plain_negated_body(text: &Vec<char>, from: usize) -> (holds: bool)
    ensures
        holds == negated_body_is_plain(text@, from as int),
{
    let mut i: usize = from;
    while i < text.len() && text[i] != ']'
        invariant
            from <= i,
            negated_body_is_plain(text@, i as int) == negated_body_is_plain(text@, from as int),
        decreases text@.len() - i,
    {
        let c = text[i];
        if c == '\\' || c == '[' || (c as u32) < 32 {
            return false;
        }
        i += 1;
    }
    true
}

fn plain_classes(text: &Vec<char>) -> (holds: bool)
    ensures
        holds == classes_are_plain(text@),
{
    let mut i: usize = 0;
    while i < text.len()
        invariant
            i <= text@.len(),
            forall|j: int|
                0 <= j < i && j < text@.len() - 1 ==> !(#[trigger] text@[j] == '&' && text@[j + 1]
                    == '&') && !(text@[j] == '-' && text@[j + 1] == '-') && !(text@[j] == '~'
                    && text@[j + 1] == '~') && !(text@[j] == '\\' && (text@[j + 1] == 'p'
                    || text@[j + 1] == 'P')) && (text@[j] == '[' && text@[j + 1] == '^' ==> j + 2
                    < text@.len() && text@[j + 2] != ']' && negated_body_is_plain(text@, j + 2)),
        decreases text@.len() - i,
    {
        if i + 1 < text.len() {
            let c = text[i];
            let next = text[i + 1];
            if (c == '&' && next == '&') || (c == '-' && next == '-') || (c == '~' && next == '~')
                || (c == '\\' && (next == 'p' || next == 'P')) {
                return false;
            }
            if c == '[' && next == '^' {
                if !(i + 2 < text.len() && text[i + 2] != ']' && plain_negated_body(text, i + 2)) {
                    return false;
                }
            }
        }
        i += 1;
    }
    true
}

fn group_is_repeated(text: &Vec<char>) -> (holds: bool)
    ensures
        holds == repeats_a_group(text@),
{
    let mut i: usize = 1;
    while i < text.len()
        invariant
            1 <= i,
            forall|j: int|
                1 <= j < i && j < text@.len() ==> !((#[trigger] text@[j] == '+' || text@[j] == '{')
                    && text@[j - 1] == ')'),
        decreases text@.len() - i,
    {
        if (text[i] == '+' || text[i] == '{') && text[i - 1] == ')' {
            return true;
        }
        i += 1;
    }
    false
}

/// Whether the prefilter takes the pattern.
pub fn is_prefilter_safe(pattern: &str) -> (safe: bool)
    ensures
        safe == prefilter_safe(pattern@),
{
    let text = chars_of(pattern);
    if text.len() > MAX_PATTERN_LEN {
        return false;
    }
    plain_flags(&text) && fitting_counts(&text) && (!group_is_repeated(&text) || plain_classes(
        &text,
    ))
}

} // verus!
