//! The predicate language: the query abstract syntax tree and the
//! three-valued result of matching a query against a value.

use vstd::prelude::*;

verus! {

/// Outcome of evaluating a query against a value.
///
/// `Rejected` records that a `Not` clause vetoed the value; combinators
/// propagate it so that a veto inside a collection cannot be washed out by
/// an unrelated element.
#[derive(Clone, Copy, Debug, PartialEq, Eq, Structural)]
pub enum MatchResult {
    Match,
    NoMatch,
    Rejected,
}

impl MatchResult {
    /// What negation does: a veto turns into a match, a match into a veto.
    pub open spec fn spec_negate(self) -> MatchResult {
        match self {
            MatchResult::Match => MatchResult::Rejected,
            MatchResult::NoMatch => MatchResult::Match,
            MatchResult::Rejected => MatchResult::Match,
        }
    }

    /// Conjunction: a veto wins over everything, otherwise any miss wins.
    pub open spec fn spec_bitand(self, rhs: MatchResult) -> MatchResult {
        match self {
            MatchResult::Match => rhs,
            MatchResult::NoMatch => if rhs is Rejected {
                MatchResult::Rejected
            } else {
                MatchResult::NoMatch
            },
            MatchResult::Rejected => MatchResult::Rejected,
        }
    }

    /// Disjunction: a match wins over everything, otherwise a veto sticks.
    pub open spec fn spec_bitor(self, rhs: MatchResult) -> MatchResult {
        match self {
            MatchResult::Match => MatchResult::Match,
            MatchResult::NoMatch => rhs,
            MatchResult::Rejected => if rhs is Match {
                MatchResult::Match
            } else {
                MatchResult::Rejected
            },
        }
    }

    /// Element aggregation: like disjunction, except that a veto on either
    /// side sticks even against a match on the other.
    pub open spec fn spec_bitxor(self, rhs: MatchResult) -> MatchResult {
        if self is Rejected || rhs is Rejected {
            MatchResult::Rejected
        } else {
            self.spec_bitor(rhs)
        }
    }

    pub fn negate(self) -> (r: MatchResult)
        ensures
            r == self.spec_negate(),
    {
        match self {
            MatchResult::Match => MatchResult::Rejected,
            MatchResult::NoMatch => MatchResult::Match,
            MatchResult::Rejected => MatchResult::Match,
        }
    }

    pub fn bitand(self, rhs: MatchResult) -> (r: MatchResult)
        ensures
            r == self.spec_bitand(rhs),
    {
        match self {
            MatchResult::Match => rhs,
            MatchResult::NoMatch => match rhs {
                MatchResult::Rejected => MatchResult::Rejected,
                _ => MatchResult::NoMatch,
            },
            MatchResult::Rejected => MatchResult::Rejected,
        }
    }

    pub fn bitor(self, rhs: MatchResult) -> (r: MatchResult)
        ensures
            r == self.spec_bitor(rhs),
    {
        match self {
            MatchResult::Match => MatchResult::Match,
            MatchResult::NoMatch => rhs,
            MatchResult::Rejected => match rhs {
                MatchResult::Match => MatchResult::Match,
                _ => MatchResult::Rejected,
            },
        }
    }

    pub fn bitxor(self, rhs: MatchResult) -> (r: MatchResult)
        ensures
            r == self.spec_bitxor(rhs),
    {
        if matches!(self, MatchResult::Rejected) || matches!(rhs, MatchResult::Rejected) {
            MatchResult::Rejected
        } else {
            self.bitor(rhs)
        }
    }

    /// Only `Match` selects a value; both `NoMatch` and `Rejected` leave it out.
    pub fn matches(&self) -> (r: bool)
        ensures
            r == (*self is Match),
    {
        match self {
            MatchResult::Match => true,
            _ => false,
        }
    }
}

/// A selection expression over executor metadata.
///
/// `Pattern` matches a scalar by equality, `FieldPattern` descends into a
/// map field, `Wildcard` matches anything, and the boolean forms combine
/// sub-queries under the three-valued rules of `MatchResult`.
#[derive(Debug, PartialEq, Eq)]
pub enum Query {
    Pattern(String),
    FieldPattern(String, Box<Query>),
    Wildcard,
    And(Vec<Query>),
    Or(Vec<Query>),
    Not(Box<Query>),
}

} // verus!
