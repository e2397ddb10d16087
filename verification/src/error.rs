//! Failure values and match spans. Every failure is a typed return
//! value; nothing here panics or terminates the process.

use vstd::prelude::*;

verus! {

/// The grammar category a failed parse was looking for.
#[derive(Debug, Clone, Copy, PartialEq, Eq, Structural)]
pub enum Expected {
    /// A strict `major.minor.patch` version core.
    VersionCore,
    /// A partial version: 1 to 3 dot-separated groups, each a number
    /// or a wildcard.
    PartialVersion,
    /// A range expression: a simple term, a hyphen range, or a
    /// `||`-separated list of them.
    RangeQuery,
    /// A run of decimal digits.
    Digits,
}

/// A parse failure.
#[derive(Debug, Clone, Copy, PartialEq, Eq, Structural)]
pub enum ParseError {
    /// The input does not match the grammar; `pos` is the position the
    /// failing production started from.
    Syntax { pos: usize, expected: Expected },
    /// A numeric component exceeds the representable range of a
    /// version field.
    NumericOverflow,
    /// The grammar matched only the first `matched` characters of the
    /// input, not all of it.
    IncompleteMatch { matched: usize },
}

/// The span of input matched by a successful parse, as character
/// positions `start <= end`.
#[derive(Debug, Clone, Copy, PartialEq, Eq, Structural)]
pub struct MatchSpan {
    pub start: usize,
    pub end: usize,
}

} // verus!
