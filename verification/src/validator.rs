//! The strict version validator: exactly `major.minor.patch` with
//! optional `-pre-release` and `+build` qualifiers. It reports the
//! matched span; a span shorter than the input means the input as a
//! whole is not a valid version, and callers must treat it so.

use vstd::prelude::*;

use crate::chars::{lemma_nr_bounds, lemma_parts_bounds, nr_end, parts_end, scan_nr, scan_parts};
use crate::error::{Expected, MatchSpan, ParseError};
use crate::partial::{lemma_qualifier_bounds, qualifier_at};

verus! {

/// End of a strict `major.minor.patch` core starting at `i`: three
/// numeric components with no leading zeros, separated by dots.
pub open spec fn version_core_end(s: Seq<char>, i: int) -> Option<int> {
    match nr_end(s, i) {
        Option::None => Option::None,
        Option::Some(j) => {
            if j < s.len() && s[j] == '.' {
                match nr_end(s, j + 1) {
                    Option::None => Option::None,
                    Option::Some(k) => {
                        if k < s.len() && s[k] == '.' {
                            nr_end(s, k + 1)
                        } else {
                            Option::None
                        }
                    },
                }
            } else {
                Option::None
            }
        },
    }
}

/// End of a strict version starting at `i`: the core, then an optional
/// pre-release part, then an optional build part. Greedy: trailing
/// characters the grammar cannot take are left outside the span.
pub open spec fn strict_end(s: Seq<char>, i: int) -> Option<int> {
    match version_core_end(s, i) {
        Option::None => Option::None,
        Option::Some(j) => Option::Some(qualifier_at(s, j).2),
    }
}

/// A matched core consumes at least one character and stays inside the
/// sequence.
pub proof fn lemma_version_core_bounds(s: Seq<char>, i: int)
    requires
        0 <= i <= s.len(),
        version_core_end(s, i) is Some,
    ensures
        i < version_core_end(s, i)->0 <= s.len(),
{
    lemma_nr_bounds(s, i);
    let j = nr_end(s, i)->0;
    lemma_nr_bounds(s, j + 1);
    let k = nr_end(s, j + 1)->0;
    lemma_nr_bounds(s, k + 1);
}

/// The span of an accepted strict version lies inside the input: the
/// validator never claims to have matched past the end of the string.
pub proof fn lemma_strict_span_bounds(s: Seq<char>, i: int)
    requires
        0 <= i <= s.len(),
        strict_end(s, i) is Some,
    ensures
        i < strict_end(s, i)->0 <= s.len(),
{
    lemma_version_core_bounds(s, i);
    let j = version_core_end(s, i)->0;
    lemma_qualifier_bounds(s, j);
}

/// The strict version validator.
pub struct SemVerParser;

impl SemVerParser {
    /// Matches the canonical version grammar against the start of
    /// `input` and returns the exact matched span. A span that ends
    /// before the end of the input means only a strict prefix is a
    /// valid version; callers wanting whole-string validity must
    /// reject such a result (or call [`SemVerParser::accepts`]).
    pub fn parse(input: &str) -> (r: Result<MatchSpan, ParseError>)
        ensures
            (r is Ok) <==> (strict_end(input@, 0) is Some),
            r is Ok ==> (r->Ok_0).start == 0 && (r->Ok_0).end as int == strict_end(input@, 0)->0,
            r is Err ==> (r->Err_0 matches ParseError::Syntax { pos, expected } && expected
                == Expected::VersionCore && pos <= input@.len()),
    {
        let n = input.unicode_len();
        let j = match scan_nr(input, 0) {
            Option::Some(j) => j,
            Option::None => {
                return Result::Err(
                    ParseError::Syntax { pos: 0, expected: Expected::VersionCore },
                );
            },
        };
        if !(j < n && input.get_char(j) == '.') {
            return Result::Err(ParseError::Syntax { pos: j, expected: Expected::VersionCore });
        }
        let k = match scan_nr(input, j + 1) {
            Option::Some(k) => k,
            Option::None => {
                return Result::Err(
                    ParseError::Syntax { pos: j + 1, expected: Expected::VersionCore },
                );
            },
        };
        if !(k < n && input.get_char(k) == '.') {
            return Result::Err(ParseError::Syntax { pos: k, expected: Expected::VersionCore });
        }
        let core = match scan_nr(input, k + 1) {
            Option::Some(m) => m,
            Option::None => {
                return Result::Err(
                    ParseError::Syntax { pos: k + 1, expected: Expected::VersionCore },
                );
            },
        };
        let mut end = core;
        if end < n {
            if input.get_char(end) == '-' {
                match scan_parts(input, end + 1) {
                    Option::Some(e) => {
                        end = e;
                    },
                    Option::None => {},
                }
            }
        }
        if end < n {
            if input.get_char(end) == '+' {
                match scan_parts(input, end + 1) {
                    Option::Some(e) => {
                        end = e;
                    },
                    Option::None => {},
                }
            }
        }
        Result::Ok(MatchSpan { start: 0, end })
    }

    /// Whole-string validity: the strict grammar matches the entire
    /// input, leaving no trailing characters.
    pub fn accepts(input: &str) -> (b: bool)
        ensures
            b <==> (strict_end(input@, 0) == Option::Some(input@.len() as int)),
    {
        match Self::parse(input) {
            Result::Ok(span) => span.end == input.unicode_len(),
            Result::Err(_) => false,
        }
    }
}

} // verus!
