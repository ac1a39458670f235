//! Boolean combinations of matchers.

use super::{All, Depth, MatchMaker, Regex, Simple};
use crate::path::{Path, SpecElement};
use crate::streamer::ParsedKind;
use vstd::prelude::*;

verus! {

/// A single matcher inside a combinator.
#[derive(Debug, Clone)]
pub enum Leaf {
    Simple(Simple),
    Depth(Depth),
    All(All),
    Regex(Regex),
}

impl Leaf {
    /// Whether the wrapped matcher matches.
    pub open spec fn spec_leaf(&self, path: Seq<SpecElement>, kind: ParsedKind) -> bool {
        match self {
            Leaf::Simple(m) => m.accepts(path, kind),
            Leaf::Depth(m) => m.accepts(path, kind),
            Leaf::All(m) => m.accepts(path, kind),
            Leaf::Regex(m) => m.accepts(path, kind),
        }
    }

    fn match_leaf(&self, path: &Path, kind: ParsedKind) -> (r: bool)
        ensures
            r == self.spec_leaf(path@, kind),
    {
        match self {
            Leaf::Simple(m) => m.match_path(path, kind),
            Leaf::Depth(m) => MatchMaker::match_path(m, path, kind),
            Leaf::All(m) => m.match_path(path, kind),
            Leaf::Regex(m) => m.match_path(path, kind),
        }
    }
}

/// Combines several matchers together.
///
/// It implements the boolean algebra:
/// * `!comb` negates the combinator
/// * `comb1 & comb2` both should match
/// * `comb1 | comb2` at least one should match
#[derive(Debug)]
pub enum Combinator {
    /// Represents the actual underlying matcher
    Matcher(Leaf),
    /// Negates the expression
    Not(Box<Combinator>),
    /// Both expressions should be valid
    And(Box<Combinator>, Box<Combinator>),
    /// At least one of the expressions should be valid
    Or(Box<Combinator>, Box<Combinator>),
}

impl Combinator {
    /// Whether the combination matches.
    pub open spec fn matches_spec(&self, path: Seq<SpecElement>, kind: ParsedKind) -> bool
        decreases self,
    {
        match self {
            Combinator::Matcher(m) => m.spec_leaf(path, kind),
            Combinator::Not(c) => !c.matches_spec(path, kind),
            Combinator::And(a, b) => a.matches_spec(path, kind) && b.matches_spec(path, kind),
            Combinator::Or(a, b) => a.matches_spec(path, kind) || b.matches_spec(path, kind),
        }
    }

    /// Creates a new combinator wrapping a matcher.
    pub fn new<M: MatchMaker>(matcher: M) -> (c: Self)
        ensures
            forall|p: Seq<SpecElement>, k: ParsedKind| c.matches_spec(p, k) == matcher.spec_match(p, k),
    {
        let c = matcher.into_combinator();
        c
    }

    fn match_comb(&self, path: &Path, kind: ParsedKind) -> (r: bool)
        ensures
            r == self.matches_spec(path@, kind),
        decreases self,
    {
        match self {
            Combinator::Matcher(m) => m.match_leaf(path, kind),
            Combinator::Not(c) => !c.match_comb(path, kind),
            Combinator::Or(a, b) => a.match_comb(path, kind) || b.match_comb(path, kind),
            Combinator::And(a, b) => a.match_comb(path, kind) && b.match_comb(path, kind),
        }
    }

    /// Negates the combinator.
    pub fn not(self) -> (r: Self)
        ensures
            forall|p: Seq<SpecElement>, k: ParsedKind| r.matches_spec(p, k) == !self.matches_spec(p, k),
    {
        Combinator::Not(Box::new(self))
    }

    /// Both combinators have to match.
    pub fn and(self, rhs: Self) -> (r: Self)
        ensures
            forall|p: Seq<SpecElement>, k: ParsedKind| r.matches_spec(p, k) == (self.matches_spec(p, k)
                && rhs.matches_spec(p, k)),
    {
        Combinator::And(Box::new(self), Box::new(rhs))
    }

    /// At least one of the combinators has to match.
    pub fn or(self, rhs: Self) -> (r: Self)
        ensures
            forall|p: Seq<SpecElement>, k: ParsedKind| r.matches_spec(p, k) == (self.matches_spec(p, k)
                || rhs.matches_spec(p, k)),
    {
        Combinator::Or(Box::new(self), Box::new(rhs))
    }
}

impl MatchMaker for Combinator {
    open spec fn spec_match(&self, path: Seq<SpecElement>, kind: ParsedKind) -> bool {
        self.matches_spec(path, kind)
    }

    fn match_path(&self, path: &Path, kind: ParsedKind) -> (r: bool) {
        self.match_comb(path, kind)
    }

    fn into_combinator(self) -> (c: Combinator) {
        self
    }
}

impl vstd::std_specs::ops::NotSpecImpl for Combinator {
    open spec fn obeys_not_spec() -> bool {
        true
    }

    open spec fn not_req(self) -> bool {
        true
    }

    open spec fn not_spec(self) -> Combinator {
        Combinator::Not(Box::new(self))
    }
}

impl vstd::std_specs::ops::BitAndSpecImpl for Combinator {
    open spec fn obeys_bitand_spec() -> bool {
        true
    }

    open spec fn bitand_req(self, rhs: Combinator) -> bool {
        true
    }

    open spec fn bitand_spec(self, rhs: Combinator) -> Combinator {
        Combinator::And(Box::new(self), Box::new(rhs))
    }
}

impl vstd::std_specs::ops::BitOrSpecImpl for Combinator {
    open spec fn obeys_bitor_spec() -> bool {
        true
    }

    open spec fn bitor_req(self, rhs: Combinator) -> bool {
        true
    }

    open spec fn bitor_spec(self, rhs: Combinator) -> Combinator {
        Combinator::Or(Box::new(self), Box::new(rhs))
    }
}

impl core::ops::Not for Combinator {
    type Output = Self;

    fn not(self) -> Self {
        Combinator::Not(Box::new(self))
    }
}

impl core::ops::BitAnd for Combinator {
    type Output = Self;

    fn bitand(self, rhs: Self) -> Self {
        Combinator::And(Box::new(self), Box::new(rhs))
    }
}

impl core::ops::BitOr for Combinator {
    type Output = Self;

    fn bitor(self, rhs: Self) -> Self {
        Combinator::Or(Box::new(self), Box::new(rhs))
    }
}

} // verus!
