//! Regular expressions, through the `regex` crate.

use vstd::prelude::*;
use regex::Regex;

verus! {

/// `regex::Regex`, a compiled regular expression; opaque here, only carried.
#[verifier::external_type_specification]
#[verifier::external_body]
pub struct ExRegex(Regex);

/// Whether `regex::Regex::new` accepts a pattern.
pub uninterp spec fn regex_compiles(pattern: Seq<char>) -> bool;

/// What `regex::Regex::replace_all` returns for a compiled pattern, a text and
/// a replacement template.
pub uninterp spec fn regex_replace_all(pattern: Seq<char>, text: Seq<char>, rep: Seq<char>) -> Seq<char>;

/// What `regex::Regex::replace` (first match only) returns for a compiled
/// pattern, a text and a replacement template.
pub uninterp spec fn regex_replace_first(pattern: Seq<char>, text: Seq<char>, rep: Seq<char>) -> Seq<char>;

/// A compiled regular expression together with the pattern it was compiled from.
pub(crate) struct Pattern {
    re: Regex,
    source: Ghost<Seq<char>>,
}

impl Pattern {
    /// The pattern text this expression was compiled from.
    pub closed spec fn source(&self) -> Seq<char> {
        self.source@
    }

    /// `regex::Regex::new`. Claims that it succeeds exactly when the pattern
    /// compiles (named by `regex_compiles`) and keeps the pattern's text.
    #[verifier::external_body]
    pub(crate) fn compile(pattern: &str) -> (r: Option<Pattern>)
        ensures
            r is Some <==> regex_compiles(pattern@),
            r matches Some(p) ==> p.source() == pattern@,
    {
        match Regex::new(pattern) {
            Ok(re) => Some(Pattern { re, source: Ghost(pattern@) }),
            Err(_) => None,
        }
    }

    /// `regex::Regex::replace_all`. Claims only that the result is the one
    /// named by `regex_replace_all` for the pattern, the text and the template.
    #[verifier::external_body]
    pub(crate) fn replace_all(&self, text: &str, rep: &str) -> (r: String)
        ensures
            r@ == regex_replace_all(self.source(), text@, rep@),
    {
        self.re.replace_all(text, rep).into_owned()
    }

    /// `regex::Regex::replace`. Claims only that the result is the one named
    /// by `regex_replace_first` for the pattern, the text and the template.
    #[verifier::external_body]
    pub(crate) fn replace_first(&self, text: &str, rep: &str) -> (r: String)
        ensures
            r@ == regex_replace_first(self.source(), text@, rep@),
    {
        self.re.replace(text, rep).into_owned()
    }
}

} // verus!
