//! The data model: version fields, versions, and range-query trees,
//! together with the mathematical views that contracts speak of.

use vstd::prelude::*;

verus! {

/// One numeric component of a partial version: a concrete number,
/// an explicit wildcard (`x`, `X` or `*`), or absent because the
/// partial had fewer than three dot-separated groups.
#[derive(Debug, Clone, Copy, PartialEq, Eq, Structural)]
pub enum SemVerField {
    Number(u16),
    Wildcard,
    Missing,
}

/// A coerced version: three fields plus the raw pre-release and build
/// qualifier substrings, kept un-decomposed.
#[derive(Debug, PartialEq)]
pub struct SemVer {
    pub major: SemVerField,
    pub minor: SemVerField,
    pub patch: SemVerField,
    pub pre_release: Option<String>,
    pub build: Option<String>,
}

/// Mathematical view of a [`SemVer`]: qualifier strings as character
/// sequences.
pub struct SemVerV {
    pub major: SemVerField,
    pub minor: SemVerField,
    pub patch: SemVerField,
    pub pre_release: Option<Seq<char>>,
    pub build: Option<Seq<char>>,
}

impl View for SemVer {
    type V = SemVerV;

    open spec fn view(&self) -> SemVerV {
        SemVerV {
            major: self.major,
            minor: self.minor,
            patch: self.patch,
            pre_release: match self.pre_release {
                Option::Some(p) => Option::Some(p@),
                Option::None => Option::None,
            },
            build: match self.build {
                Option::Some(b) => Option::Some(b@),
                Option::None => Option::None,
            },
        }
    }
}

/// A version value. `Missing` is a structural placeholder for version
/// schemes outside the semantic-version grammar; the range grammar
/// never produces it.
#[derive(Debug, PartialEq)]
pub enum Version {
    SemVer(SemVer),
    Missing,
}

/// Mathematical view of a [`Version`].
pub enum VersionV {
    SemVer(SemVerV),
    Missing,
}

impl View for Version {
    type V = VersionV;

    open spec fn view(&self) -> VersionV {
        match self {
            Version::SemVer(s) => VersionV::SemVer(s@),
            Version::Missing => VersionV::Missing,
        }
    }
}

/// A range-query tree. Leaves carry a version under a comparator or
/// range operator; internal nodes are binary combinators. `Range`
/// always joins two `Version` leaves (see
/// [`crate::reduce::range_children_are_versions`]).
#[derive(Debug, PartialEq)]
pub enum VersionQuery {
    And(Box<Self>, Box<Self>),
    Or(Box<Self>, Box<Self>),
    Range(Box<Self>, Box<Self>),
    Not(Box<Self>),
    Lt(Version),
    Lte(Version),
    Gt(Version),
    Gte(Version),
    Eq(Version),
    Approx(Version),
    Compat(Version),
    Version(Version),
}

/// Mathematical view of a [`VersionQuery`].
pub enum QueryV {
    And(Box<QueryV>, Box<QueryV>),
    Or(Box<QueryV>, Box<QueryV>),
    Range(Box<QueryV>, Box<QueryV>),
    Not(Box<QueryV>),
    Lt(VersionV),
    Lte(VersionV),
    Gt(VersionV),
    Gte(VersionV),
    Eq(VersionV),
    Approx(VersionV),
    Compat(VersionV),
    Version(VersionV),
}

/// The view of a [`VersionQuery`], written as a free function so the
/// recursion through `Box` stays a plain structural recursion.
pub open spec fn query_view(q: VersionQuery) -> QueryV
    decreases q,
{
    match q {
        VersionQuery::And(a, b) => QueryV::And(Box::new(query_view(*a)), Box::new(query_view(*b))),
        VersionQuery::Or(a, b) => QueryV::Or(Box::new(query_view(*a)), Box::new(query_view(*b))),
        VersionQuery::Range(a, b) => QueryV::Range(
            Box::new(query_view(*a)),
            Box::new(query_view(*b)),
        ),
        VersionQuery::Not(a) => QueryV::Not(Box::new(query_view(*a))),
        VersionQuery::Lt(v) => QueryV::Lt(v@),
        VersionQuery::Lte(v) => QueryV::Lte(v@),
        VersionQuery::Gt(v) => QueryV::Gt(v@),
        VersionQuery::Gte(v) => QueryV::Gte(v@),
        VersionQuery::Eq(v) => QueryV::Eq(v@),
        VersionQuery::Approx(v) => QueryV::Approx(v@),
        VersionQuery::Compat(v) => QueryV::Compat(v@),
        VersionQuery::Version(v) => QueryV::Version(v@),
    }
}

impl View for VersionQuery {
    type V = QueryV;

    open spec fn view(&self) -> QueryV {
        query_view(*self)
    }
}

/// A purely numeric version scheme: dot-separated numbers with no
/// further meaning attached.
pub struct NumVer {
    numbers: Vec<u8>,
}

/// A calendar-based version scheme.
pub struct CalVer {
    year: u8,
    month: Option<u8>,
    week: Option<u8>,
    day: Option<u8>,
    major: Option<u8>,
    minor: Option<u8>,
    micro: Option<u8>,
    build: Option<String>,
    pre_release: Option<String>,
}

} // verus!
