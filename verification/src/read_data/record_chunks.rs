use vstd::prelude::*;

use regex::Regex;

verus! {

#[verifier::external_type_specification]
#[verifier::external_body]
pub struct ExRegex(Regex);

/// Whether the regex crate accepts `pattern` as a regular expression.
pub uninterp spec fn regex_accepts(pattern: Seq<char>) -> bool;

/// The texts the regex crate finds for `pattern` in `text`: its successive
/// non-overlapping leftmost-first matches, in order.
pub uninterp spec fn regex_find_all(pattern: Seq<char>, text: Seq<char>) -> Seq<Seq<char>>;

/// A compiled pattern that cuts a text into the pieces it matches.
pub struct RecordChunker {
    re: Regex,
    source: Ghost<Seq<char>>,
}

impl RecordChunker {
    /// The pattern this chunker was compiled from.
    pub closed spec fn pattern(&self) -> Seq<char> {
        self.source@
    }
}

/// Calls `regex::Regex::new` on `pattern`. Trusted: the result is `Some`
/// exactly when the regex crate accepts the pattern (`regex_accepts`), and
/// then holds the compiled pattern, tagged with its source text.
#[verifier::external_body]
fn compile_pattern(pattern: &str) -> (r: Option<RecordChunker>)
    ensures
        r is Some <==> regex_accepts(pattern@),
        r matches Some(c) ==> c.pattern() == pattern@,
{
    match Regex::new(pattern) {
        Ok(re) => Some(RecordChunker { re, source: Ghost(pattern@) }),
        Err(_) => None,
    }
}

/// Calls `regex::Regex::find_iter` with the chunker's compiled pattern on
/// `text` and copies out each match's text. Trusted: the copies are the
/// matches `regex_find_all` names for the chunker's source pattern.
#[verifier::external_body]
fn find_all_matches(chunker: &RecordChunker, text: &str) -> (r: Vec<String>)
    ensures
        r@.map_values(|s: String| s@) == regex_find_all(chunker.pattern(), text@),
{
    let mut out: Vec<String> = Vec::new();
    for m in chunker.re.find_iter(text) {
        out.push(m.as_str().to_string());
    }
    out
}

impl RecordChunker {
    /// Compiles `pattern`; `None` when the regex crate rejects it.
    pub fn new(pattern: &str) -> (r: Option<Self>)
        ensures
            r is Some <==> regex_accepts(pattern@),
            r matches Some(c) ==> c.pattern() == pattern@,
    {
        compile_pattern(pattern)
    }

    /// The pieces of `text` that the pattern matches, in order.
    pub fn chunks(&self, text: &str) -> (r: Vec<String>)
        ensures
            r@.map_values(|s: String| s@) == regex_find_all(self.pattern(), text@),
    {
        find_all_matches(self, text)
    }
}

} // verus!
