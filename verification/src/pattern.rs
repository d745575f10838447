//! The pattern engines: what the library believes of the `regex` and
//! `regex-filtered` crates, stated once and used by every pattern node.
//!
//! Patterns are compiled without regard to case and with Unicode support.
//! Nothing here is proved: Verus takes each contract below as given.

use vstd::prelude::*;
use regex::{Regex, RegexBuilder, RegexSet, RegexSetBuilder};
use regex_filtered::{Builder, Options, Regexes};
use triomphe::Arc;
use crate::model::{phrase, Matcher};
use crate::prefilter::{guard_pattern, prefilter_safe};

verus! {

/// `regex::Regex`, a compiled pattern.  Verus sees nothing inside it.
#[verifier::external_type_specification]
#[verifier::external_body]
pub struct ExRegex(regex::Regex);

/// `regex::Error`, why a pattern did not compile.
#[verifier::external_type_specification]
#[verifier::external_body]
pub struct ExRegexError(regex::Error);

/// `regex::RegexSet`, patterns compiled into one matcher.
#[verifier::external_type_specification]
#[verifier::external_body]
pub struct ExRegexSet(regex::RegexSet);

/// `regex_filtered::Builder`, which collects the patterns of a set.
#[verifier::external_type_specification]
#[verifier::external_body]
pub struct ExFilterBuilder(regex_filtered::Builder);

/// `regex_filtered::Regexes`, patterns compiled into one prefiltered
/// matcher.
#[verifier::external_type_specification]
#[verifier::external_body]
pub struct ExRegexes(regex_filtered::Regexes);

/// `regex_filtered::ParseError`, why a pattern was not taken into a set.
#[verifier::external_type_specification]
#[verifier::external_body]
pub struct ExParseError(regex_filtered::ParseError);

/// `regex_filtered::BuildError`, why a set could not be built.
#[verifier::external_type_specification]
#[verifier::external_body]
pub struct ExBuildError(regex_filtered::BuildError);

/// `triomphe::Arc`, a shared pointer.
#[verifier::external_type_specification]
#[verifier::external_body]
#[verifier::reject_recursive_types(T)]
pub struct ExArc<T: ?Sized>(triomphe::Arc<T>);

/// Whether `RegexBuilder::build` accepts the pattern, case ignored and
/// Unicode on.
pub uninterp spec fn pattern_compiles(pattern: Seq<char>) -> bool;

/// What `Regex::is_match` returns on `token` for the regex that was built
/// from `pattern`, case ignored and Unicode on.
pub uninterp spec fn pattern_accepts(pattern: Seq<char>, token: Seq<char>) -> bool;

/// What `Regex::as_str` returns: the pattern that the regex was built from.
pub uninterp spec fn regex_source(regex: Regex) -> Seq<char>;

/// Whether `RegexSetBuilder::build` accepts the patterns as one set.
pub uninterp spec fn set_compiles(patterns: Seq<Seq<char>>) -> bool;

/// What `RegexSet::patterns` returns: the patterns that the set was built
/// from, in their order.
pub uninterp spec fn set_patterns(set: RegexSet) -> Seq<Seq<char>>;

/// Whether `regex_filtered::Builder::push_opt` accepts the pattern, for a
/// pattern on which the call returns.
pub uninterp spec fn filter_admits(pattern: Seq<char>) -> bool;

/// Whether `regex_filtered::Builder::build` succeeds on the patterns.
pub uninterp spec fn filter_builds(patterns: Seq<Seq<char>>) -> bool;

/// The patterns that have been pushed into a builder, in their order.
pub uninterp spec fn builder_patterns(builder: Builder) -> Seq<Seq<char>>;

/// The patterns that a filtered set was built from, in their order.
pub uninterp spec fn filter_patterns(filter: Regexes) -> Seq<Seq<char>>;

/// The patterns of the filtered set behind a shared pointer.
pub uninterp spec fn shared_patterns(shared: Arc<Regexes>) -> Seq<Seq<char>>;

/// The matcher of the pattern nodes: an edge is followed on the tokens
/// that the pattern of its label accepts.
pub open spec fn ignoring_case() -> Matcher {
    |label: Seq<char>, token: Seq<char>| pattern_accepts(label, token)
}

/// Builds a regex with `RegexBuilder`, case ignored and Unicode on.  The
/// build fails on a pattern that is malformed or too large, and on no
/// other; a regex that was built remembers its pattern.
#[verifier::external_body]
pub(crate) fn compile_pattern(pattern: &str) -> (made: Result<Regex, regex::Error>)
    ensures
        made is Ok <==> pattern_compiles(pattern@),
        made matches Ok(regex) ==> regex_source(regex) == pattern@,
{
    RegexBuilder::new(pattern).case_insensitive(true).unicode(true).build()
}

/// Calls `Regex::is_match`: whether the regex matches somewhere in the
/// token.  The regexes of this library are built by [`compile_pattern`],
/// so the answer depends on the pattern and the token alone.
#[verifier::external_body]
pub(crate) fn regex_accepts(regex: &Regex, token: &str) -> (accepted: bool)
    ensures
        accepted == pattern_accepts(regex_source(*regex), token@),
{
    regex.is_match(token)
}

/// Calls `Regex::as_str`, which returns the pattern that the regex was
/// built from.
#[verifier::external_body]
pub(crate) fn source_of(regex: &Regex) -> (source: &str)
    ensures
        source@ == regex_source(*regex),
{
    regex.as_str()
}

/// Calls `Regex::clone`: the copy is the same compiled pattern, so it was
/// built from the same text.
#[verifier::external_body]
pub(crate) fn copy_regex(regex: &Regex) -> (copy: Regex)
    ensures
        regex_source(copy) == regex_source(*regex),
{
    regex.clone()
}

/// Calls `RegexSet::clone`: the copy is the same compiled set, so it was
/// built from the same patterns.
#[verifier::external_body]
pub(crate) fn copy_set(set: &RegexSet) -> (copy: RegexSet)
    ensures
        set_patterns(copy) == set_patterns(*set),
{
    set.clone()
}

/// What the `regex` crate says about a failure, as text.
#[verifier::external_body]
pub(crate) fn describe_regex_error(error: &regex::Error) -> String {
    error.to_string()
}

/// Builds a set with `RegexSetBuilder`, case ignored and Unicode on.  The
/// set keeps the patterns in the order given.
#[verifier::external_body]
pub(crate) fn compile_set(patterns: &Vec<String>) -> (made: Result<RegexSet, regex::Error>)
    ensures
        made is Ok <==> set_compiles(phrase(patterns@)),
        made matches Ok(set) ==> set_patterns(set) == phrase(patterns@),
{
    RegexSetBuilder::new(patterns).unicode(true).case_insensitive(true).build()
}

/// Calls `RegexSet::matches` and walks the result, which yields the index
/// of each pattern that matches the token.  The contract says which
/// indices come out, not in which order.  The sets of this library are
/// built by [`compile_set`].
#[verifier::external_body]
pub(crate) fn set_matches(set: &RegexSet, token: &str) -> (picked: Vec<usize>)
    ensures
        forall|i: usize|
            i < set_patterns(*set).len() ==> (#[trigger] picked@.contains(i) <==> pattern_accepts(
                set_patterns(*set)[i as int],
                token@,
            )),
{
    set.matches(token).iter().collect()
}

/// Calls `RegexSet::patterns`, which returns the patterns that the set was
/// built from; they are copied.
#[verifier::external_body]
pub(crate) fn set_sources(set: &RegexSet) -> (texts: Vec<String>)
    ensures
        phrase(texts@) == set_patterns(*set),
{
    set.patterns().to_vec()
}

/// Calls `regex_filtered::Builder::new`: a builder without patterns.
#[verifier::external_body]
pub(crate) fn new_filter_builder() -> (builder: Builder)
    ensures
        builder_patterns(builder) == Seq::<Seq<char>>::empty(),
{
    Builder::new()
}

/// Calls `regex_filtered::Builder::push_opt` with the option to ignore
/// case.  The pattern is parsed and compiled on its own, whatever the
/// builder holds; when that succeeds it is appended.  Before it compiles
/// the pattern the call works out which strings a match must hold, and on
/// a pattern that [`prefilter_safe`] does not take that work can overflow,
/// divide by zero or go on without end: such a pattern is not handed over.
#[verifier::external_body]
pub(crate) fn push_filter_pattern(builder: Builder, pattern: &str) -> (pushed: Result<
    Builder,
    regex_filtered::ParseError,
>)
    requires
        prefilter_safe(pattern@),
    ensures
        pushed is Ok <==> filter_admits(pattern@),
        pushed matches Ok(longer) ==> builder_patterns(longer) == builder_patterns(builder).push(
            pattern@,
        ),
{
    let mut options = Options::new();
    options.case_insensitive(true);
    builder.push_opt(pattern, &options)
}

/// Calls `regex_filtered::Builder::build`, which makes the set of the
/// patterns pushed so far.
#[verifier::external_body]
pub(crate) fn build_filter(builder: Builder) -> (made: Result<
    Regexes,
    regex_filtered::BuildError,
>)
    ensures
        made is Ok <==> filter_builds(builder_patterns(builder)),
        made matches Ok(filter) ==> filter_patterns(filter) == builder_patterns(builder),
{
    builder.build()
}

/// Calls `triomphe::Arc::new`: the same set behind a shared pointer.
#[verifier::external_body]
pub(crate) fn share_filter(filter: Regexes) -> (shared: Arc<Regexes>)
    ensures
        shared_patterns(shared) == filter_patterns(filter),
{
    Arc::new(filter)
}

/// Calls `triomphe::Arc::clone`: one more pointer to the same set.
#[verifier::external_body]
pub(crate) fn share_again(shared: &Arc<Regexes>) -> (again: Arc<Regexes>)
    ensures
        shared_patterns(again) == shared_patterns(*shared),
{
    shared.clone()
}

/// Calls `regex_filtered::Regexes::matching`, which yields the patterns
/// that match the token with their indices; the indices are kept.  The
/// contract says which indices come out, not in which order.  The sets of
/// this library are built through [`push_filter_pattern`] and end with the
/// guard pattern: the prefilter passes over no match in a set that holds
/// two patterns that it can filter, or none but the guard.
#[verifier::external_body]
pub(crate) fn filter_matches(shared: &Arc<Regexes>, token: &str) -> (picked: Vec<usize>)
    requires
        shared_patterns(*shared).len() > 0,
        shared_patterns(*shared).last() == guard_pattern(),
    ensures
        forall|i: usize|
            i < shared_patterns(*shared).len() ==> (#[trigger] picked@.contains(i)
                <==> pattern_accepts(shared_patterns(*shared)[i as int], token@)),
{
    shared.matching(token).map(|found| found.0).collect()
}

/// Calls `regex_filtered::Regexes::regexes`, which returns the regexes of
/// the set in their order, and `Regex::as_str` on each: the patterns that
/// the set was built from.
#[verifier::external_body]
pub(crate) fn filter_sources(shared: &Arc<Regexes>) -> (texts: Vec<String>)
    ensures
        phrase(texts@) == shared_patterns(*shared),
{
    shared.regexes().iter().map(|regex| regex.as_str().to_string()).collect()
}

/// What `regex-filtered` says about a pattern that it refused, as text.
#[verifier::external_body]
pub(crate) fn describe_parse_error(error: &regex_filtered::ParseError) -> String {
    error.to_string()
}

/// What `regex-filtered` says about a set that it could not build, as
/// text.
#[verifier::external_body]
pub(crate) fn describe_build_error(error: &regex_filtered::BuildError) -> String {
    error.to_string()
}

} // verus!
