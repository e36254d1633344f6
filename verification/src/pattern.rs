//! Regular expressions, compiled and run by the regex crate.
use regex::Regex;
use vstd::prelude::*;

verus! {

#[verifier::external_type_specification]
#[verifier::external_body]
pub struct ExRegex(regex::Regex);

#[verifier::external_type_specification]
#[verifier::external_body]
pub struct ExRegexError(regex::Error);

/// Whether `Regex::new(pattern)` compiles the pattern; it depends on the
/// pattern alone.
pub uninterp spec fn regex_compiles(pattern: Seq<char>) -> bool;

/// What `Regex::is_match` answers for the regex that `Regex::new(pattern)`
/// compiles, with the default options.
pub uninterp spec fn regex_is_match(pattern: Seq<char>, haystack: Seq<char>) -> bool;

/// What `Regex::captures` gives for the regex that `Regex::new(pattern)`
/// compiles, with the default options, read
/// group by group (group 0 is the whole match), each group as its text.
pub uninterp spec fn regex_captures(pattern: Seq<char>, haystack: Seq<char>) -> Option<
    Seq<Option<Seq<char>>>,
>;

/// The texts of capture groups as plain values.
pub open spec fn groups_view(groups: Seq<Option<String>>) -> Seq<Option<Seq<char>>> {
    groups.map_values(
        |g: Option<String>|
            match g {
                Some(s) => Some(s@),
                None => None,
            },
    )
}

/// A regex compiled by `Regex::new` from a pattern, with the default options.
/// Only `compile_regex` makes one, so its answers are those of
/// `Regex::new(pattern)` for the pattern that it holds.
pub struct CompiledRegex {
    regex: Regex,
    pattern: String,
}

impl View for CompiledRegex {
    type V = Seq<char>;

    /// The pattern that the regex was compiled from.
    closed spec fn view(&self) -> Seq<char> {
        self.pattern@
    }
}

/// Calls `Regex::new(pattern)`, which succeeds or fails by the pattern alone,
/// and keeps the regex together with its pattern.
#[verifier::external_body]
pub(crate) fn compile_regex(pattern: &str) -> (res: Result<CompiledRegex, regex::Error>)
    ensures
        res is Ok <==> regex_compiles(pattern@),
        res matches Ok(re) ==> re@ == pattern@,
{
    match Regex::new(pattern) {
        Ok(regex) => Ok(CompiledRegex { regex, pattern: pattern.to_string() }),
        Err(e) => Err(e),
    }
}

/// Calls `Regex::is_match` on the regex that `Regex::new` compiled.
#[verifier::external_body]
pub(crate) fn regex_matches(re: &CompiledRegex, haystack: &str) -> (b: bool)
    ensures
        b == regex_is_match(re@, haystack@),
{
    re.regex.is_match(haystack)
}

/// Calls `Regex::captures` on the regex that `Regex::new` compiled and hands
/// out the text of each group, in the order of `Captures::iter`.
#[verifier::external_body]
pub(crate) fn regex_capture_groups(re: &CompiledRegex, haystack: &str) -> (res: Option<
    Vec<Option<String>>,
>)
    ensures
        match res {
            Some(groups) => regex_captures(re@, haystack@) == Some(groups_view(groups@)),
            None => regex_captures(re@, haystack@) is None,
        },
{
    match re.regex.captures(haystack) {
        Some(caps) => Some(caps.iter().map(|g| g.map(|m| m.as_str().to_string())).collect()),
        None => None,
    }
}

impl CompiledRegex {
    /// Whether the regex matches somewhere in `haystack`.
    pub fn is_match(&self, haystack: &str) -> (b: bool)
        ensures
            b == regex_is_match(self@, haystack@),
    {
        regex_matches(self, haystack)
    }
}

} // verus!
