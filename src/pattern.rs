//! Regular expressions, compiled by the `regex` crate and kept together with
//! the text they were compiled from.
use vstd::prelude::*;

verus! {

/// `regex::Regex`, held as an opaque value.
#[verifier::external_type_specification]
#[verifier::external_body]
pub struct ExRegex(regex::Regex);

/// `regex::Error`, held as an opaque value.
#[verifier::external_type_specification]
#[verifier::external_body]
pub struct ExRegexError(regex::Error);

/// Whether `regex::Regex::new` accepts the pattern text.
pub uninterp spec fn regex_compiles(pattern: Seq<char>) -> bool;

/// Whether the regex compiled from `pattern` matches somewhere in `text`.
pub uninterp spec fn regex_is_match(pattern: Seq<char>, text: Seq<char>) -> bool;

/// A compiled regular expression and the text it was compiled from. The only
/// way to make one is `compile_pattern`, so the two always belong together.
pub struct Pattern {
    source: String,
    regex: regex::Regex,
}

impl View for Pattern {
    type V = Seq<char>;

    /// The pattern's source text.
    closed spec fn view(&self) -> Seq<char> {
        self.source@
    }
}

impl Pattern {
    /// The text the pattern was compiled from.
    pub fn as_str(&self) -> (r: &str)
        ensures
            r@ == self@,
    {
        self.source.as_str()
    }
}

/// Relies on `regex::Regex::new`: it succeeds exactly on the valid patterns,
/// which depends on the pattern text alone. The result keeps that text.
#[verifier::external_body]
pub(crate) fn compile_pattern(source: &str) -> (r: Result<Pattern, regex::Error>)
    ensures
        r is Ok <==> regex_compiles(source@),
        r matches Ok(p) ==> p@ == source@,
{
    match regex::Regex::new(source) {
        Ok(regex) => Ok(Pattern { source: source.to_string(), regex }),
        Err(e) => Err(e),
    }
}

/// Relies on `regex::Regex::is_match`: whether the compiled pattern matches
/// anywhere in the text, which depends on the pattern text and the text alone.
#[verifier::external_body]
pub(crate) fn pattern_is_match(p: &Pattern, text: &str) -> (r: bool)
    ensures
        r == regex_is_match(p@, text@),
{
    p.regex.is_match(text)
}

/// Relies on the `Display` impl of `regex::Error`: the message it gives.
#[verifier::external_body]
pub(crate) fn regex_error_message(e: &regex::Error) -> (r: String) {
    e.to_string()
}

} // verus!
