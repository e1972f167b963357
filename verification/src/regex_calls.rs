//! The calls into the `regex` crate.

use vstd::prelude::*;

verus! {

#[verifier::external_type_specification]
#[verifier::external_body]
pub struct ExRegex(regex::Regex);

#[verifier::external_type_specification]
#[verifier::external_body]
pub struct ExRegexError(regex::Error);

/// Whether `regex::Regex::new` accepts the pattern.
pub uninterp spec fn regex_is_valid(pattern: Seq<char>) -> bool;

/// Whether `regex::Regex::is_match` finds the pattern somewhere in the text.
pub uninterp spec fn regex_is_match(pattern: Seq<char>, text: Seq<char>) -> bool;

/// The text of the leftmost-first match of the pattern, as
/// `regex::Regex::find` returns it.
pub uninterp spec fn regex_find(pattern: Seq<char>, text: Seq<char>) -> Option<Seq<char>>;

/// The text of the named group in the first match of the pattern, as
/// `regex::Regex::captures` followed by `Captures::name` returns it.
pub uninterp spec fn regex_capture(pattern: Seq<char>, text: Seq<char>, group: Seq<char>) -> Option<
    Seq<char>,
>;

/// A compiled regular expression together with the pattern it was compiled
/// from.
pub struct CompiledRegex {
    re: regex::Regex,
    pattern: String,
}

impl View for CompiledRegex {
    type V = Seq<char>;

    closed spec fn view(&self) -> Seq<char> {
        self.pattern@
    }
}

/// Calls `regex::Regex::new`. Claimed: it succeeds exactly on the patterns
/// that `regex_is_valid` names, and the compiled value is of that pattern.
#[verifier::external_body]
pub(crate) fn compile_regex(pattern: &str) -> (r: Result<CompiledRegex, regex::Error>)
    ensures
        r is Ok <==> regex_is_valid(pattern@),
        r matches Ok(c) ==> c@ == pattern@,
{
    match regex::Regex::new(pattern) {
        Ok(re) => Ok(CompiledRegex { re, pattern: pattern.to_string() }),
        Err(e) => Err(e),
    }
}

/// Calls `regex::Regex::is_match`. Claimed: the answer is `regex_is_match` of
/// the compiled pattern and the text.
#[verifier::external_body]
pub(crate) fn is_match(re: &CompiledRegex, text: &str) -> (r: bool)
    ensures
        r == regex_is_match(re@, text@),
{
    re.re.is_match(text)
}

/// Calls `regex::Regex::find`. Claimed: the matched text is `regex_find` of
/// the compiled pattern and the text.
#[verifier::external_body]
pub(crate) fn find(re: &CompiledRegex, text: &str) -> (r: Option<String>)
    ensures
        r is Some <==> regex_find(re@, text@) is Some,
        r matches Some(m) ==> regex_find(re@, text@) == Some(m@),
{
    re.re.find(text).map(|m| m.as_str().to_string())
}

/// Calls `regex::Regex::captures` and reads the named group. Claimed: the
/// group's text is `regex_capture` of the compiled pattern, the text and the
/// group name.
#[verifier::external_body]
pub(crate) fn capture(re: &CompiledRegex, text: &str, group: &str) -> (r: Option<String>)
    ensures
        r is Some <==> regex_capture(re@, text@, group@) is Some,
        r matches Some(m) ==> regex_capture(re@, text@, group@) == Some(m@),
{
    re.re.captures(text).and_then(|c| c.name(group).map(|m| m.as_str().to_string()))
}

} // verus!
