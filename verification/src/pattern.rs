//! Patterns that select files by the text of their path.

use vstd::prelude::*;
use crate::path::{is_text, text_of, PathName};

verus! {

/// A compiled regular expression of the `regex` crate, opaque here.
#[verifier::external_type_specification]
#[verifier::external_body]
pub struct ExRegex(regex::Regex);

/// The error with which the `regex` crate refuses a pattern, opaque here.
#[verifier::external_type_specification]
#[verifier::external_body]
pub struct ExRegexError(regex::Error);

/// Whether `regex::Regex::new` accepts `source`: it is well-formed, and what
/// it compiles to stays within the crate's default size limit.
pub uninterp spec fn regex_compiles(source: Seq<char>) -> bool;

/// Whether the regular expression written as `source` matches somewhere in
/// `haystack`, as `regex::Regex::is_match` reports it.
pub uninterp spec fn regex_is_match(source: Seq<char>, haystack: Seq<char>) -> bool;

/// A pattern: the text it was written as, and what that text compiled to.
///
/// The two fields are private and set together, by `compile` alone, so
/// `regex` is always the compilation of `source`.
#[derive(Debug)]
pub struct Pattern {
    source: String,
    regex: regex::Regex,
}

impl View for Pattern {
    type V = Seq<char>;

    closed spec fn view(&self) -> Seq<char> {
        self.source@
    }
}

/// Why a pattern was refused.
#[derive(Debug)]
pub struct InvalidPattern {
    /// The text that did not compile.
    pub pattern: String,
    /// What the `regex` crate said of it.
    pub cause: regex::Error,
}

/// Whether a file at `path` passes `pattern`; no pattern lets every file pass.
pub open spec fn selects(pattern: Option<Seq<char>>, path: Seq<u8>) -> bool {
    match pattern {
        Some(source) => regex_is_match(source, text_of(path)),
        None => true,
    }
}

/// Whether a file at `path` cannot be judged: a pattern is set, and the path is
/// not text.
pub open spec fn unjudgeable(pattern: Option<Seq<char>>, path: Seq<u8>) -> bool {
    pattern is Some && !is_text(path)
}

impl Pattern {
    /// Calls `regex::Regex::new` on `source`. Claims that it succeeds exactly
    /// where `regex_compiles` says so, and that the pattern it yields was
    /// written as `source`.
    #[verifier::external_body]
    pub(crate) fn compile(source: &str) -> (res: Result<Pattern, regex::Error>)
        ensures
            res is Ok <==> regex_compiles(source@),
            res matches Ok(pattern) ==> pattern@ == source@,
    {
        match regex::Regex::new(source) {
            Ok(regex) => Ok(Pattern { source: source.to_string(), regex }),
            Err(cause) => Err(cause),
        }
    }

    /// Calls `regex::Regex::is_match` on `haystack`. Claims that the answer
    /// is `regex_is_match` of the pattern's text and the haystack.
    #[verifier::external_body]
    pub(crate) fn is_match(&self, haystack: &str) -> (found: bool)
        ensures
            found == regex_is_match(self@, haystack@),
    {
        self.regex.is_match(haystack)
    }

    /// The pattern written as `source`, or the reason why there is none.
    pub fn parse(source: &str) -> (res: Result<Pattern, InvalidPattern>)
        ensures
            res is Ok <==> regex_compiles(source@),
            res matches Ok(pattern) ==> pattern@ == source@,
            res matches Err(refusal) ==> refusal.pattern@ == source@,
    {
        match Pattern::compile(source) {
            Ok(pattern) => Ok(pattern),
            Err(cause) => Err(InvalidPattern { pattern: source.to_owned(), cause }),
        }
    }

    /// The text the pattern was written as.
    pub fn as_str(&self) -> (source: &str)
        ensures
            source@ == self@,
    {
        self.source.as_str()
    }

    /// Judges a file's path: `Some(true)` where the pattern matches its text,
    /// `Some(false)` where it does not, `None` where the path is not text.
    pub fn judge(&self, path: &PathName) -> (verdict: Option<bool>)
        ensures
            verdict is Some <==> is_text(path@),
            verdict matches Some(passes) ==> passes == selects(Some(self@), path@),
    {
        match path.as_text() {
            Some(text) => Some(self.is_match(text)),
            None => None,
        }
    }
}

} // verus!
