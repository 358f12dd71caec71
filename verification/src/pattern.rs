//! Compiled line grammars. The expression engine is the `regex` crate; what
//! is stated of it here is believed, not proved.

use regex::Regex;
use vstd::prelude::*;

verus! {

/// `regex::Regex`, a compiled expression. Nothing is known of its inside.
#[verifier::external_type_specification]
#[verifier::external_body]
pub struct ExRegex(regex::Regex);

/// `regex::Error`, the reason why a pattern did not compile. Nothing is
/// known of its inside.
#[verifier::external_type_specification]
#[verifier::external_body]
pub struct ExRegexError(regex::Error);

/// Whether `Regex::new` accepts a pattern: whether the text is a valid
/// expression whose program stays within the engine's default size limit.
pub uninterp spec fn regex_compiles(pattern: Seq<char>) -> bool;

/// What `Regex::captures` finds for the expression compiled from `pattern`
/// in `haystack`: `None` where nothing matches, else the groups of the
/// leftmost match in the order of their opening brackets, the whole match
/// first, each as the text it matched or `None` where it took no part.
pub uninterp spec fn regex_captures(pattern: Seq<char>, haystack: Seq<char>) -> Option<
    Seq<Option<Seq<char>>>,
>;

/// The groups of a match as mathematical values.
pub open spec fn group_texts(groups: Seq<Option<String>>) -> Seq<Option<Seq<char>>> {
    Seq::new(
        groups.len(),
        |i: int|
            match groups[i] {
                Some(s) => Some(s@),
                None => None,
            },
    )
}

/// The outcome of a search as mathematical values.
pub open spec fn found_texts(found: Option<Vec<Option<String>>>) -> Option<Seq<Option<Seq<char>>>> {
    match found {
        Some(groups) => Some(group_texts(groups@)),
        None => None,
    }
}

/// A compiled expression together with the text it was compiled from. Only
/// `compile` makes one, so the two always belong together.
pub struct Pattern {
    source: String,
    compiled: Regex,
}

impl Pattern {
    /// The text the expression was compiled from.
    pub closed spec fn source(&self) -> Seq<char> {
        self.source@
    }
}

/// Calls `Regex::new`. It succeeds exactly on the patterns that the engine
/// accepts, and the outcome remembers the pattern it came from.
#[verifier::external_body]
pub(crate) fn compile(pattern: &str) -> (r: Result<Pattern, regex::Error>)
    ensures
        r is Ok <==> regex_compiles(pattern@),
        r matches Ok(p) ==> p.source() == pattern@,
{
    Regex::new(pattern).map(|compiled| Pattern { source: pattern.to_string(), compiled })
}

/// Calls `Regex::captures` and copies each group of the match out of the
/// haystack. The outcome is the one the engine gives for this pattern and
/// this haystack.
#[verifier::external_body]
pub(crate) fn captures(pattern: &Pattern, haystack: &str) -> (found: Option<Vec<Option<String>>>)
    ensures
        found_texts(found) == regex_captures(pattern.source(), haystack@),
{
    pattern.compiled.captures(haystack).map(
        |caps| caps.iter().map(|group| group.map(|m| m.as_str().to_string())).collect(),
    )
}

} // verus!
