//! Matcher which matches the textual form of a path against a regular expression.

use super::{Combinator, MatchMaker};
use crate::error;
use crate::path::{render_path, Path, SpecElement};
use crate::streamer::ParsedKind;
use vstd::prelude::*;

verus! {

/// What `regex::Regex::new` reports for a pattern: `None` when it compiles,
/// else the text of its error.
pub uninterp spec fn regex_error(pattern: Seq<char>) -> Option<Seq<char>>;

/// Whether the pattern compiles as a regular expression of the `regex` crate.
pub open spec fn regex_valid(pattern: Seq<char>) -> bool {
    regex_error(pattern) is None
}

/// Whether the regular expression compiled from `pattern` matches somewhere in `haystack`.
pub uninterp spec fn regex_match(pattern: Seq<char>, haystack: Seq<char>) -> bool;

/// Calls `regex::Regex::new`: `None` when the pattern compiled, else the
/// text of the error.
#[verifier::external_body]
fn regex_compiles(pattern: &str) -> (r: Option<String>)
    ensures
        match r {
            None => regex_error(pattern@) is None,
            Some(m) => regex_error(pattern@) == Some(m@),
        },
{
    ::regex::Regex::new(pattern).err().map(|e| e.to_string())
}

/// Compiles the pattern with `regex::Regex::new` and calls `Regex::is_match`
/// on the haystack; `None` when the pattern does not compile.
#[verifier::external_body]
fn regex_is_match(pattern: &str, haystack: &str) -> (r: Option<bool>)
    ensures
        r == if regex_valid(pattern@) {
            Some(regex_match(pattern@, haystack@))
        } else {
            None::<bool>
        },
{
    ::regex::Regex::new(pattern).ok().map(|re| re.is_match(haystack))
}

/// Matches the textual form of a path (e.g. `{"users"}[0]`) against a regex.
#[derive(Debug, Clone)]
pub struct Regex {
    pattern: String,
}

impl Regex {
    /// The regular expression of the matcher.
    pub closed spec fn pattern(&self) -> Seq<char> {
        self.pattern@
    }

    /// Creates a new regex matcher from a regular expression.
    pub fn new(pattern: &str) -> (r: Result<Self, error::Matcher>)
        ensures
            regex_valid(pattern@) <==> r is Ok,
            r matches Ok(m) ==> m.pattern() == pattern@,
            r matches Err(error::Matcher::Parse(msg)) ==> regex_error(pattern@) == Some(msg@),
    {
        match regex_compiles(pattern) {
            None => Ok(Regex { pattern: pattern.to_string() }),
            Some(msg) => Err(error::Matcher::Parse(msg)),
        }
    }

    /// Parses the matcher from a regular expression.
    pub fn from_str(pattern: &str) -> (r: Result<Self, error::Matcher>)
        ensures
            regex_valid(pattern@) <==> r is Ok,
            r matches Ok(m) ==> m.pattern() == pattern@,
            r matches Err(error::Matcher::Parse(msg)) ==> regex_error(pattern@) == Some(msg@),
    {
        Self::new(pattern)
    }
}

impl Regex {
    /// Paths which textual form matches the regular expression are accepted.
    pub open spec fn accepts(&self, path: Seq<SpecElement>, kind: ParsedKind) -> bool {
        regex_valid(self.pattern()) && regex_match(self.pattern(), render_path(path))
    }
}

impl MatchMaker for Regex {
    open spec fn spec_match(&self, path: Seq<SpecElement>, kind: ParsedKind) -> bool {
        self.accepts(path, kind)
    }

    fn match_path(&self, path: &Path, _kind: ParsedKind) -> (r: bool) {
        let text = path.to_string();
        match regex_is_match(self.pattern.as_str(), text.as_str()) {
            Some(matched) => matched,
            None => false,
        }
    }

    fn into_combinator(self) -> (c: Combinator) {
        Combinator::Matcher(super::combinator::Leaf::Regex(self))
    }
}

} // verus!
