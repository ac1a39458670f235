//! Matcher which matches all paths.

use super::{Combinator, MatchMaker};
use crate::path::{Path, SpecElement};
use crate::streamer::ParsedKind;
use crate::error;
use vstd::prelude::*;

verus! {

/// Matches every path.
#[derive(Debug, Clone, Copy, PartialEq, Eq, Structural, Default)]
pub struct All;

impl All {
    /// Creates the matcher from a definition (any definition is accepted).
    pub fn from_str(_input: &str) -> (r: Result<Self, error::Matcher>)
        ensures
            r is Ok,
    {
        Ok(All)
    }
}

impl All {
    /// Every path is accepted.
    pub open spec fn accepts(&self, path: Seq<SpecElement>, kind: ParsedKind) -> bool {
        true
    }
}

impl MatchMaker for All {
    open spec fn spec_match(&self, path: Seq<SpecElement>, kind: ParsedKind) -> bool {
        self.accepts(path, kind)
    }

    fn match_path(&self, _path: &Path, _kind: ParsedKind) -> (r: bool) {
        true
    }

    fn into_combinator(self) -> (c: Combinator) {
        Combinator::Matcher(super::combinator::Leaf::All(self))
    }
}

} // verus!
