//! The regular expression by which the subjects of members are recognised.

use vstd::prelude::*;

verus! {

/// A compiled regular expression of `regex`, carried through unread.
#[verifier::external_type_specification]
#[verifier::external_body]
pub struct ExRegex(regex::Regex);

/// The error of `regex`'s compiler, carried through unread.
#[verifier::external_type_specification]
#[verifier::external_body]
pub struct ExRegexError(regex::Error);

/// Whether `regex::Regex::new` accepts the pattern.
pub uninterp spec fn pattern_compiles(pattern: Seq<char>) -> bool;

/// The pattern that a compiled expression was made from: what
/// `regex::Regex::as_str` returns.
pub uninterp spec fn pattern_of(expression: regex::Regex) -> Seq<char>;

/// Whether the expression that `regex::Regex::new` makes from `pattern`
/// matches anywhere in `haystack`.
pub uninterp spec fn pattern_matches(pattern: Seq<char>, haystack: Seq<char>) -> bool;

/// Whether the expression matches anywhere in `haystack`: what
/// `regex::Regex::is_match` returns for it.
pub uninterp spec fn expression_matches(expression: regex::Regex, haystack: Seq<char>) -> bool;

/// The expression matches as the expression that `regex::Regex::new` makes
/// from its pattern does.
pub open spec fn matches_as_compiled(expression: regex::Regex) -> bool {
    forall|haystack: Seq<char>| #[trigger]
        expression_matches(expression, haystack) == pattern_matches(
            pattern_of(expression),
            haystack,
        )
}

/// Calls `regex::Regex::new`. Trusted: whether the pattern is accepted
/// depends on the pattern alone; the expression remembers the pattern that it
/// was made from; and what it matches is what the expression made from that
/// pattern matches.
#[verifier::external_body]
pub(crate) fn compile(pattern: &str) -> (r: Result<regex::Regex, regex::Error>)
    ensures
        r.is_ok() == pattern_compiles(pattern@),
        r matches Ok(expression) ==> pattern_of(expression) == pattern@,
        r matches Ok(expression) ==> forall|haystack: Seq<char>| #[trigger]
            expression_matches(expression, haystack) == pattern_matches(pattern@, haystack),
{
    regex::Regex::new(pattern)
}

/// Calls `regex::Regex::is_match`. Trusted: whether there is a match depends
/// on the expression and on the text alone.
#[verifier::external_body]
pub(crate) fn is_match(expression: &regex::Regex, haystack: &str) -> (r: bool)
    ensures
        r == expression_matches(*expression, haystack@),
{
    expression.is_match(haystack)
}

} // verus!
