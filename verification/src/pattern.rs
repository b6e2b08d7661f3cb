//! The boundary to the `regex` crate: a compiled pattern kept together with
//! its source text, so that contracts can speak of the pattern text alone.
//!
//! What regular-expression compilation and matching return is far too large to
//! state here, but each is a pure function of its text arguments, so the
//! results are given names (`regex_ok`, `regex_ncaps`, `regex_match`) that the
//! trusted wrappers below relate to the values the `regex` crate computes.

use vstd::prelude::*;

verus! {

#[verifier::external_type_specification]
#[verifier::external_body]
pub struct ExRegex(regex::Regex);

/// Whether `regex::Regex::new` accepts this pattern text.
pub uninterp spec fn regex_ok(pat: Seq<char>) -> bool;

/// The capture-group count that `regex::Regex::captures_len` reports for the
/// regex compiled from this pattern text; it counts the implicit whole-match
/// group, so it is always at least one.
pub uninterp spec fn regex_ncaps(pat: Seq<char>) -> nat;

/// Whether the regex compiled from `pat` matches anywhere in `text`, as
/// `regex::Regex::is_match` decides it.
pub uninterp spec fn regex_match(pat: Seq<char>, text: Seq<char>) -> bool;

/// A compiled regular expression paired with the text it was compiled from.
/// Values exist only for pattern texts that compiled successfully, so every
/// `Pattern` satisfies `regex_ok(self@)`.
pub struct Pattern {
    regex: regex::Regex,
    source: String,
}

impl View for Pattern {
    type V = Seq<char>;

    closed spec fn view(&self) -> Seq<char> {
        self.source@
    }
}

impl Pattern {
    /// Relies on `regex::Regex::new`: whether a pattern text compiles is a
    /// function of that text alone (named `regex_ok`); on failure the regex
    /// engine's message is handed back.
    #[verifier::external_body]
    pub(crate) fn compile(pat: &str) -> (r: Result<Pattern, String>)
        ensures
            r is Ok <==> regex_ok(pat@),
            r matches Ok(p) ==> p@ == pat@,
    {
        match regex::Regex::new(pat) {
            Ok(regex) => Ok(Pattern { regex, source: pat.to_owned() }),
            Err(e) => Err(e.to_string()),
        }
    }

    /// Relies on `regex::Regex::captures_len`: the number of capture groups a
    /// pattern declares, counting the implicit whole-match group, which its
    /// documentation guarantees to be at least one.
    #[verifier::external_body]
    pub(crate) fn capture_count(&self) -> (n: usize)
        requires
            regex_ok(self@),
        ensures
            n == regex_ncaps(self@),
            n >= 1,
    {
        self.regex.captures_len()
    }

    /// Relies on `regex::Regex::is_match`: whether a regex matches anywhere in
    /// a haystack is a function of the pattern text and the haystack alone.
    #[verifier::external_body]
    pub(crate) fn is_match(&self, text: &str) -> (r: bool)
        ensures
            r == regex_match(self@, text@),
    {
        self.regex.is_match(text)
    }

    /// The text this pattern was compiled from.
    pub fn source_str(&self) -> (s: &str)
        ensures
            s@ == self@,
    {
        self.source.as_str()
    }
}

} // verus!
