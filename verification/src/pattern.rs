//! Regular expressions, as the `regex` crate compiles and runs them.
//!
//! Nothing in this module is proved: each item states what the library
//! takes on trust from the crate.

use regex::Regex;
use vstd::prelude::*;

verus! {

/// `regex::Regex`, a compiled expression. Its inside is not visible here.
#[verifier::external_type_specification]
#[verifier::external_body]
pub struct ExRegex(regex::Regex);

/// `regex::Error`, the reason why a pattern did not compile.
#[verifier::external_type_specification]
#[verifier::external_body]
pub struct ExRegexError(regex::Error);

/// What `Regex::new` makes of a pattern: the compiled expression, or the
/// reason why the pattern is refused.
pub uninterp spec fn regex_new(pattern: Seq<char>) -> Result<Regex, regex::Error>;

/// Whether `Regex::is_match` finds a match of the expression anywhere in
/// the haystack.
pub uninterp spec fn regex_is_match(re: Regex, haystack: Seq<char>) -> bool;

/// The text that a `regex::Error` shows of itself through `Display`.
pub uninterp spec fn regex_error_text(error: regex::Error) -> Seq<char>;

/// Calls `Regex::new`. It is taken on trust that compiling depends on the
/// pattern alone, so that the outcome is the one that `regex_new` names
/// for this pattern.
#[verifier::external_body]
pub(crate) fn compile(pattern: &str) -> (outcome: Result<Regex, regex::Error>)
    ensures
        outcome == regex_new(pattern@),
{
    Regex::new(pattern)
}

/// Calls `Regex::is_match`. It is taken on trust that the search depends on
/// the expression and the haystack alone, so that its result is the one
/// that `regex_is_match` names for the two.
#[verifier::external_body]
pub(crate) fn is_match(re: &Regex, haystack: &str) -> (found: bool)
    ensures
        found == regex_is_match(*re, haystack@),
{
    re.is_match(haystack)
}

/// Calls `to_string` on a `regex::Error`, which writes the error out
/// through its `Display`. It is taken on trust that the text depends on
/// the error alone.
#[verifier::external_body]
pub(crate) fn error_text(error: &regex::Error) -> (text: String)
    ensures
        text@ == regex_error_text(*error),
{
    error.to_string()
}

/// Calls `clone` on a `Regex`. It is taken on trust that the copy is the
/// same expression as the one copied.
#[verifier::external_body]
pub(crate) fn duplicate(re: &Regex) -> (copy: Regex)
    ensures
        copy == *re,
{
    re.clone()
}

} // verus!
