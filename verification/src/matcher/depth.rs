//! Matcher based on the depth of a path.

use super::{Combinator, MatchMaker};
use crate::error;
use crate::path::{depth_of, Path, SpecElement};
use crate::streamer::ParsedKind;
use crate::text::{find_char, parse_usize, parse_usize_spec};
use vstd::prelude::*;

verus! {

/// Matches paths which depth lies within `min..=max` (`max` is optional).
#[derive(Debug, Clone, Copy, PartialEq, Eq, Structural, Default)]
pub struct Depth {
    pub min: usize,
    pub max: Option<usize>,
}

/// Whether the depth lies within the bounds.
pub open spec fn depth_in_bounds(depth: nat, min: usize, max: Option<usize>) -> bool {
    min <= depth && match max {
        Some(max) => depth <= max,
        None => true,
    }
}

/// Parses a depth definition `MIN[-[MAX]]`: `MIN-MAX`, `MIN-` or `MIN`
/// (the last two without a maximum).
pub open spec fn depth_parse(s: Seq<char>) -> Option<(usize, Option<usize>)> {
    match find_char(s, '-') {
        None => match parse_usize_spec(s) {
            Some(start) => Some((start, None)),
            None => None,
        },
        Some(i) => {
            let first = s.take(i);
            let second = s.skip(i + 1);
            match (parse_usize_spec(first), parse_usize_spec(second)) {
                (Some(start), Some(end)) => if start > end {
                    None
                } else {
                    Some((start, Some(end)))
                },
                (Some(start), None) => if second.len() == 0 {
                    Some((start, None))
                } else {
                    None
                },
                _ => None,
            }
        },
    }
}

impl Depth {
    /// Creates a new depth matcher.
    ///
    /// # Arguments
    /// * `min` - minimal depth (lower won't be matched)
    /// * `max` - maximal depth - optional (higher won't be matched)
    pub fn new(min: usize, max: Option<usize>) -> (r: Self)
        ensures
            r.min == min,
            r.max == max,
    {
        Depth { min, max }
    }

    /// Checks whether the depth of the path lies within the bounds.
    pub fn match_path(&self, path: &Path) -> (r: bool)
        ensures
            r == depth_in_bounds(depth_of(path@), self.min, self.max),
    {
        let depth = path.depth();
        match self.max {
            Some(max) => self.min <= depth && depth <= max,
            None => self.min <= depth,
        }
    }

    /// Parses the matcher from its definition, e.g. `2-4`, `2-` or `2`.
    pub fn from_str(s: &str) -> (r: Result<Self, error::Matcher>)
        ensures
            match r {
                Ok(d) => depth_parse(s@) == Some((d.min, d.max)),
                Err(error::Matcher::Parse(msg)) => depth_parse(s@) is None && msg@ == s@,
            },
    {
        let chars = crate::path::collect_chars(s);
        let n = chars.len();
        let dash = crate::text::find_from(chars.as_slice(), 0, '-');
        assert(chars@.skip(0) =~= chars@);
        match dash {
            None => match parse_usize(chars.as_slice()) {
                Some(start) => Ok(Self::new(start, None)),
                None => Err(error::Matcher::Parse(s.to_string())),
            },
            Some(i) => {
                let first = crate::text::copy_range(chars.as_slice(), 0, i);
                let second = crate::text::copy_range(chars.as_slice(), i + 1, n);
                assert(first@ =~= chars@.take(i as int));
                assert(second@ =~= chars@.skip(i + 1));
                let start = parse_usize(first.as_slice());
                let end = parse_usize(second.as_slice());
                match (start, end) {
                    (Some(start), Some(end)) => {
                        if start > end {
                            Err(error::Matcher::Parse(s.to_string()))
                        } else {
                            Ok(Self::new(start, Some(end)))
                        }
                    },
                    (Some(start), None) => {
                        if second.len() == 0 {
                            Ok(Self::new(start, None))
                        } else {
                            Err(error::Matcher::Parse(s.to_string()))
                        }
                    },
                    _ => Err(error::Matcher::Parse(s.to_string())),
                }
            },
        }
    }
}

impl Depth {
    /// Paths with a depth within the bounds are accepted.
    pub open spec fn accepts(&self, path: Seq<SpecElement>, kind: ParsedKind) -> bool {
        depth_in_bounds(depth_of(path), self.min, self.max)
    }
}

impl MatchMaker for Depth {
    open spec fn spec_match(&self, path: Seq<SpecElement>, kind: ParsedKind) -> bool {
        self.accepts(path, kind)
    }

    fn match_path(&self, path: &Path, _kind: ParsedKind) -> (r: bool) {
        Depth::match_path(self, path)
    }

    fn into_combinator(self) -> (c: Combinator) {
        Combinator::Matcher(super::combinator::Leaf::Depth(self))
    }
}

} // verus!
