//! Path matchers (decide which paths are interesting).

use crate::path::{Path, SpecElement};
use crate::streamer::ParsedKind;
use vstd::prelude::*;

pub mod all;
pub mod combinator;
pub mod depth;
pub mod regex;
pub mod simple;

pub use self::all::All;
pub use self::combinator::Combinator;
pub use self::depth::Depth;
pub use self::regex::Regex;
pub use self::simple::Simple;

verus! {

/// Common matcher trait.
pub trait MatchMaker: Sized {
    /// Whether the matcher matches a path of a value of the given kind.
    spec fn spec_match(&self, path: Seq<SpecElement>, kind: ParsedKind) -> bool;

    /// Checks whether the path matches.
    fn match_path(&self, path: &Path, kind: ParsedKind) -> (r: bool)
        ensures
            r == self.spec_match(path@, kind),
    ;

    /// Wraps the matcher into a [`Combinator`] which matches the same paths.
    fn into_combinator(self) -> (c: Combinator)
        ensures
            forall|p: Seq<SpecElement>, k: ParsedKind| c.matches_spec(p, k) == self.spec_match(p, k),
    ;
}

/// Path elements other than the root marker.
pub open spec fn strip_roots(path: Seq<SpecElement>) -> Seq<SpecElement>
    decreases path.len(),
{
    if path.len() == 0 {
        Seq::empty()
    } else if path.last() is Root {
        strip_roots(path.drop_last())
    } else {
        strip_roots(path.drop_last()).push(path.last())
    }
}

} // verus!
