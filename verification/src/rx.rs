//! Trusted interface to the regex crate: compiled patterns, matching, and
//! literal replacement.  Everything else in the crate is verified against
//! the contracts stated here.

use vstd::prelude::*;

verus! {

/// Declares regex::Regex, the compiled pattern type, for use in signatures
/// and fields; its contents are reached only through `regex_source`.
#[verifier::external_type_specification]
#[verifier::external_body]
pub struct ExRegex(regex::Regex);

/// Declares regex::Error, what regex::Regex::new reports for a pattern it
/// refuses; the library only carries it into its own error type.
#[verifier::external_type_specification]
#[verifier::external_body]
pub struct ExRegexError(regex::Error);

/// The pattern a compiled regex holds, the string `regex::Regex::as_str`
/// returns.
pub uninterp spec fn regex_source(re: regex::Regex) -> Seq<char>;

/// Whether the regex crate accepts a pattern.
pub uninterp spec fn pattern_compiles(pattern: Seq<char>) -> bool;

/// What `regex::Regex::is_match` returns, as a function of the compiled
/// pattern and the haystack.
pub uninterp spec fn regex_is_match(pattern: Seq<char>, text: Seq<char>) -> bool;

/// What `regex::Regex::replace_all` returns for a literal replacement, as a
/// function of the compiled pattern, the haystack and the replacement.
pub uninterp spec fn regex_replace_all(
    pattern: Seq<char>,
    text: Seq<char>,
    replacement: Seq<char>,
) -> Seq<char>;

/// Relies on regex::Regex::new, which compiles deterministically from the
/// pattern string, and on regex::Regex::as_str, which returns exactly the
/// string the value was compiled from.
#[verifier::external_body]
pub(crate) fn compile_regex(pattern: &str) -> (r: Result<regex::Regex, regex::Error>)
    ensures
        r is Ok <==> pattern_compiles(pattern@),
        r matches Ok(re) ==> regex_source(re) == pattern@,
{
    regex::Regex::new(pattern)
}

/// Relies on regex::Regex::is_match: its result depends only on the pattern
/// the regex was compiled from and on the haystack.
#[verifier::external_body]
pub(crate) fn regex_match(re: &regex::Regex, text: &str) -> (r: bool)
    ensures
        r == regex_is_match(regex_source(*re), text@),
{
    re.is_match(text)
}

/// Relies on regex::Regex::replace_all with regex::NoExpand: every
/// non-overlapping match of the pattern, left to right, is replaced by the
/// literal replacement, deterministically in the three strings.
#[verifier::external_body]
pub(crate) fn regex_replace(re: &regex::Regex, text: &str, replacement: &str) -> (r: String)
    ensures
        r@ == regex_replace_all(regex_source(*re), text@, replacement@),
{
    re.replace_all(text, regex::NoExpand(replacement)).into_owned()
}

/// Relies on the Display impl of regex::Error, through ToString.
#[verifier::external_body]
pub(crate) fn regex_error_text(e: &regex::Error) -> String {
    e.to_string()
}


/// What the conventional header pattern captures from a header line: the
/// type (its first group) and the subject (its third), both empty when the
/// header does not match.  A function of the header alone.
pub uninterp spec fn header_captures(header: Seq<char>) -> (Seq<char>, Seq<char>);

/// Relies on regex::Regex::new and regex::Regex::captures with the fixed
/// conventional header pattern: the pattern always compiles, and the
/// captured type and subject depend on the header alone.
#[verifier::external_body]
pub(crate) fn capture_header_parts(header: &str) -> (r: (String, String))
    ensures
        (r.0@, r.1@) == header_captures(header@),
{
    match regex::Regex::new("^(\\w*)(?:\\((.*)\\))?!?: (.*)$") {
        Ok(re) => match re.captures(header) {
            Some(caps) => (
                caps.get(1).map(|m| m.as_str()).unwrap_or("").to_string(),
                caps.get(3).map(|m| m.as_str()).unwrap_or("").to_string(),
            ),
            None => (String::new(), String::new()),
        },
        Err(_) => (String::new(), String::new()),
    }
}


} // verus!
