//! Partial versions: the `xr ('.' xr ('.' xr qualifier?)?)?` grammar,
//! the parsed node it yields, and the coercion of that node into a
//! normalized [`Version`].

use vstd::prelude::*;

use crate::chars::{
    all_digits, digits_val, is_digit, is_wildcard_char, lemma_digit_run_chars,
    lemma_digits_val_prefix_le, lemma_digits_val_push, lemma_nr_bounds, lemma_parts_bounds,
    nr_end, parts_end, scan_nr, scan_parts,
};
use crate::error::ParseError;
use crate::version::{SemVer, SemVerField, SemVerV, Version};

verus! {

/// One group of a parsed partial version, before coercion: the digit
/// characters as matched, an explicit wildcard, or an absent group.
#[derive(Debug, PartialEq)]
pub enum PartialField {
    Digits(String),
    Wildcard,
    Missing,
}

/// Mathematical view of a [`PartialField`].
pub enum PartialFieldV {
    Digits(Seq<char>),
    Wildcard,
    Missing,
}

impl View for PartialField {
    type V = PartialFieldV;

    open spec fn view(&self) -> PartialFieldV {
        match self {
            PartialField::Digits(d) => PartialFieldV::Digits(d@),
            PartialField::Wildcard => PartialFieldV::Wildcard,
            PartialField::Missing => PartialFieldV::Missing,
        }
    }
}

/// A parsed partial version: 0 to 3 groups plus the raw qualifier
/// substrings. This is the node the coercer consumes.
#[derive(Debug, PartialEq)]
pub struct Partial {
    pub major: PartialField,
    pub minor: PartialField,
    pub patch: PartialField,
    pub pre_release: Option<String>,
    pub build: Option<String>,
}

/// Mathematical view of a [`Partial`].
pub struct PartialV {
    pub major: PartialFieldV,
    pub minor: PartialFieldV,
    pub patch: PartialFieldV,
    pub pre_release: Option<Seq<char>>,
    pub build: Option<Seq<char>>,
}

impl View for Partial {
    type V = PartialV;

    open spec fn view(&self) -> PartialV {
        PartialV {
            major: self.major@,
            minor: self.minor@,
            patch: self.patch@,
            pre_release: match self.pre_release {
                Option::Some(p) => Option::Some(p@),
                Option::None => Option::None,
            },
            build: match self.build {
                Option::Some(b) => Option::Some(b@),
                Option::None => Option::None,
            },
        }
    }
}

/// One group: a wildcard character, or a numeric component.
pub open spec fn xr_at(s: Seq<char>, i: int) -> Option<(PartialFieldV, int)> {
    if 0 <= i < s.len() && is_wildcard_char(s[i]) {
        Option::Some((PartialFieldV::Wildcard, i + 1))
    } else {
        match nr_end(s, i) {
            Option::Some(j) => Option::Some((PartialFieldV::Digits(s.subrange(i, j)), j)),
            Option::None => Option::None,
        }
    }
}

/// A matched group consumes at least one character.
pub proof fn lemma_xr_bounds(s: Seq<char>, i: int)
    requires
        0 <= i <= s.len(),
        xr_at(s, i) is Some,
    ensures
        i < (xr_at(s, i)->0).1 <= s.len(),
{
    if !(i < s.len() && is_wildcard_char(s[i])) {
        lemma_nr_bounds(s, i);
    }
}

/// The optional pre-release part of a qualifier: `-` then identifiers.
pub open spec fn qualifier_pre_at(s: Seq<char>, i: int) -> (Option<Seq<char>>, int) {
    if 0 <= i < s.len() && s[i] == '-' {
        match parts_end(s, i + 1) {
            Option::Some(e) => (Option::Some(s.subrange(i + 1, e)), e),
            Option::None => (Option::None, i),
        }
    } else {
        (Option::None, i)
    }
}

/// The optional build part of a qualifier: `+` then identifiers.
pub open spec fn qualifier_build_at(s: Seq<char>, i: int) -> (Option<Seq<char>>, int) {
    if 0 <= i < s.len() && s[i] == '+' {
        match parts_end(s, i + 1) {
            Option::Some(e) => (Option::Some(s.subrange(i + 1, e)), e),
            Option::None => (Option::None, i),
        }
    } else {
        (Option::None, i)
    }
}

/// The full qualifier: an optional pre-release part then an optional
/// build part. Always matches, possibly consuming nothing.
pub open spec fn qualifier_at(s: Seq<char>, i: int) -> (Option<Seq<char>>, Option<Seq<char>>, int) {
    let (pre, j) = qualifier_pre_at(s, i);
    let (build, k) = qualifier_build_at(s, j);
    (pre, build, k)
}

/// The qualifier never moves backwards and never leaves the sequence.
pub proof fn lemma_qualifier_bounds(s: Seq<char>, i: int)
    requires
        0 <= i <= s.len(),
    ensures
        i <= qualifier_at(s, i).2 <= s.len(),
{
    let (pre, j) = qualifier_pre_at(s, i);
    if 0 <= i < s.len() && s[i] == '-' && parts_end(s, i + 1) is Some {
        lemma_parts_bounds(s, i + 1);
    }
    if 0 <= j < s.len() && s[j] == '+' && parts_end(s, j + 1) is Some {
        lemma_parts_bounds(s, j + 1);
    }
}

/// A partial version starting at `i`: one to three dot-separated
/// groups; a qualifier may follow the third group only.
pub open spec fn partial_at(s: Seq<char>, i: int) -> Option<(PartialV, int)> {
    match xr_at(s, i) {
        Option::None => Option::None,
        Option::Some((f1, j)) => {
            if j < s.len() && s[j] == '.' && xr_at(s, j + 1) is Some {
                let (f2, k) = xr_at(s, j + 1)->0;
                if k < s.len() && s[k] == '.' && xr_at(s, k + 1) is Some {
                    let (f3, m) = xr_at(s, k + 1)->0;
                    let (pre, build, e) = qualifier_at(s, m);
                    Option::Some(
                        (
                            PartialV {
                                major: f1,
                                minor: f2,
                                patch: f3,
                                pre_release: pre,
                                build: build,
                            },
                            e,
                        ),
                    )
                } else {
                    Option::Some(
                        (
                            PartialV {
                                major: f1,
                                minor: f2,
                                patch: PartialFieldV::Missing,
                                pre_release: Option::None,
                                build: Option::None,
                            },
                            k,
                        ),
                    )
                }
            } else {
                Option::Some(
                    (
                        PartialV {
                            major: f1,
                            minor: PartialFieldV::Missing,
                            patch: PartialFieldV::Missing,
                            pre_release: Option::None,
                            build: Option::None,
                        },
                        j,
                    ),
                )
            }
        },
    }
}

/// A matched partial consumes at least one character and stays inside
/// the sequence.
pub proof fn lemma_partial_bounds(s: Seq<char>, i: int)
    requires
        0 <= i <= s.len(),
        partial_at(s, i) is Some,
    ensures
        i < (partial_at(s, i)->0).1 <= s.len(),
{
    lemma_xr_bounds(s, i);
    let (f1, j) = xr_at(s, i)->0;
    if j < s.len() && s[j] == '.' && xr_at(s, j + 1) is Some {
        lemma_xr_bounds(s, j + 1);
        let (f2, k) = xr_at(s, j + 1)->0;
        if k < s.len() && s[k] == '.' && xr_at(s, k + 1) is Some {
            lemma_xr_bounds(s, k + 1);
            let (f3, m) = xr_at(s, k + 1)->0;
            lemma_qualifier_bounds(s, m);
        }
    }
}

/// A well-formed group: a wildcard, absent, or one or more digit
/// characters.
pub open spec fn wf_field(f: PartialFieldV) -> bool {
    match f {
        PartialFieldV::Digits(d) => d.len() >= 1 && all_digits(d),
        PartialFieldV::Wildcard => true,
        PartialFieldV::Missing => true,
    }
}

/// A well-formed partial node: every present group is a digit
/// sequence or a wildcard.
pub open spec fn wf_partial(p: PartialV) -> bool {
    wf_field(p.major) && wf_field(p.minor) && wf_field(p.patch)
}

/// A matched group is well formed.
pub proof fn lemma_xr_wf(s: Seq<char>, i: int)
    requires
        0 <= i <= s.len(),
        xr_at(s, i) is Some,
    ensures
        wf_field((xr_at(s, i)->0).0),
{
    if !(i < s.len() && is_wildcard_char(s[i])) {
        let j = nr_end(s, i)->0;
        lemma_nr_bounds(s, i);
        if s[i] == '0' {
            assert(s.subrange(i, j) =~= seq![s[i]]);
        } else {
            lemma_digit_run_chars(s, i);
            assert(forall|k: int|
                0 <= k < s.subrange(i, j).len() ==> is_digit(#[trigger] s.subrange(i, j)[k]));
        }
    }
}

/// A matched partial is well formed.
pub proof fn lemma_partial_wf(s: Seq<char>, i: int)
    requires
        0 <= i <= s.len(),
        partial_at(s, i) is Some,
    ensures
        wf_partial((partial_at(s, i)->0).0),
{
    lemma_xr_wf(s, i);
    lemma_xr_bounds(s, i);
    let (f1, j) = xr_at(s, i)->0;
    if j < s.len() && s[j] == '.' && xr_at(s, j + 1) is Some {
        lemma_xr_wf(s, j + 1);
        lemma_xr_bounds(s, j + 1);
        let (f2, k) = xr_at(s, j + 1)->0;
        if k < s.len() && s[k] == '.' && xr_at(s, k + 1) is Some {
            lemma_xr_wf(s, k + 1);
        }
    }
}

/// A group whose numeric value does not fit a version field.
pub open spec fn field_overflow(f: PartialFieldV) -> bool {
    match f {
        PartialFieldV::Digits(d) => digits_val(d) > 65535,
        PartialFieldV::Wildcard => false,
        PartialFieldV::Missing => false,
    }
}

/// Some group of the partial overflows a version field.
pub open spec fn partial_overflow(p: PartialV) -> bool {
    field_overflow(p.major) || field_overflow(p.minor) || field_overflow(p.patch)
}

/// Coercion of one group, meaningful when the group does not overflow:
/// digits become their numeric value, the other tags map one to one.
pub open spec fn coerce_field_spec(f: PartialFieldV) -> SemVerField {
    match f {
        PartialFieldV::Digits(d) => SemVerField::Number(digits_val(d) as u16),
        PartialFieldV::Wildcard => SemVerField::Wildcard,
        PartialFieldV::Missing => SemVerField::Missing,
    }
}

/// Coercion of a whole partial node: fields coerced left to right, the
/// qualifier substrings kept as captured.
pub open spec fn coerce_spec(p: PartialV) -> SemVerV {
    SemVerV {
        major: coerce_field_spec(p.major),
        minor: coerce_field_spec(p.minor),
        patch: coerce_field_spec(p.patch),
        pre_release: p.pre_release,
        build: p.build,
    }
}

/// Reads a digit string as a version-field number, rejecting values
/// over the field's range.
fn parse_field_number(d: &str) -> (r: Option<u16>)
    requires
        all_digits(d@),
    ensures
        (r is Some) <==> digits_val(d@) <= 65535,
        r is Some ==> r->0 == digits_val(d@),
{
    let n = d.unicode_len();
    let mut acc: u32 = 0;
    let mut j: usize = 0;
    while j < n
        invariant
            j <= n,
            n == d@.len(),
            all_digits(d@),
            acc == digits_val(d@.take(j as int)),
            acc <= 65535,
        decreases n - j,
    {
        let c = d.get_char(j);
        assert(is_digit(d@[j as int]));
        let dv: u32 = (c as u32) - ('0' as u32);
        acc = acc * 10 + dv;
        proof {
            assert(d@.take(j as int + 1) =~= d@.take(j as int).push(d@[j as int]));
            lemma_digits_val_push(d@.take(j as int), d@[j as int]);
        }
        if acc > 65535 {
            proof {
                lemma_digits_val_prefix_le(d@, j as int + 1);
            }
            return Option::None;
        }
        j += 1;
    }
    proof {
        assert(d@.take(n as int) =~= d@);
    }
    Option::Some(acc as u16)
}

/// Coercion of one group.
fn coerce_field(f: &PartialField) -> (r: Result<SemVerField, ParseError>)
    requires
        wf_field(f@),
    ensures
        (r is Ok) <==> !field_overflow(f@),
        r is Ok ==> r->Ok_0 == coerce_field_spec(f@),
        r is Err ==> r->Err_0 == ParseError::NumericOverflow,
{
    match f {
        PartialField::Digits(d) => {
            match parse_field_number(d.as_str()) {
                Option::Some(v) => Result::Ok(SemVerField::Number(v)),
                Option::None => Result::Err(ParseError::NumericOverflow),
            }
        },
        PartialField::Wildcard => Result::Ok(SemVerField::Wildcard),
        PartialField::Missing => Result::Ok(SemVerField::Missing),
    }
}

/// Coerces a parsed partial node into a normalized version record.
///
/// Each group present with digits becomes `Number`, an explicit
/// wildcard becomes `Wildcard`, an absent group becomes `Missing`; the
/// qualifier substrings are kept as captured. A numeric component
/// beyond the field range is reported as `NumericOverflow`, never a
/// panic or a wraparound.
pub fn coerce_partial(p: &Partial) -> (r: Result<Version, ParseError>)
    requires
        wf_partial(p@),
    ensures
        (r is Ok) <==> !partial_overflow(p@),
        r is Ok ==> (r->Ok_0)@ == crate::version::VersionV::SemVer(coerce_spec(p@)),
        r is Err ==> r->Err_0 == ParseError::NumericOverflow,
{
    let major = match coerce_field(&p.major) {
        Result::Ok(f) => f,
        Result::Err(e) => {
            return Result::Err(e);
        },
    };
    let minor = match coerce_field(&p.minor) {
        Result::Ok(f) => f,
        Result::Err(e) => {
            return Result::Err(e);
        },
    };
    let patch = match coerce_field(&p.patch) {
        Result::Ok(f) => f,
        Result::Err(e) => {
            return Result::Err(e);
        },
    };
    let pre_release = match &p.pre_release {
        Option::Some(s) => Option::Some(s.clone()),
        Option::None => Option::None,
    };
    let build = match &p.build {
        Option::Some(s) => Option::Some(s.clone()),
        Option::None => Option::None,
    };
    Result::Ok(Version::SemVer(SemVer { major, minor, patch, pre_release, build }))
}

/// Exec scan: one group at `i`.
fn scan_xr(s: &str, i: usize) -> (r: Option<(PartialField, usize)>)
    requires
        i <= s@.len(),
    ensures
        (r is Some) <==> (xr_at(s@, i as int) is Some),
        r is Some ==> (r->0).0@ == (xr_at(s@, i as int)->0).0 && (r->0).1 == (xr_at(
            s@,
            i as int,
        )->0).1 && i < (r->0).1 <= s@.len(),
{
    let n = s.unicode_len();
    if i < n {
        let c = s.get_char(i);
        if c == 'x' || c == 'X' || c == '*' {
            return Option::Some((PartialField::Wildcard, i + 1));
        }
    }
    match scan_nr(s, i) {
        Option::Some(j) => {
            let digits = s.substring_char(i, j).to_owned();
            Option::Some((PartialField::Digits(digits), j))
        },
        Option::None => Option::None,
    }
}

/// Exec scan: the optional qualifier at `i`.
fn scan_qualifier(s: &str, i: usize) -> (r: (Option<String>, Option<String>, usize))
    requires
        i <= s@.len(),
    ensures
        match r.0 {
            Option::Some(p) => qualifier_at(s@, i as int).0 == Option::Some(p@),
            Option::None => qualifier_at(s@, i as int).0 is None,
        },
        match r.1 {
            Option::Some(b) => qualifier_at(s@, i as int).1 == Option::Some(b@),
            Option::None => qualifier_at(s@, i as int).1 is None,
        },
        r.2 == qualifier_at(s@, i as int).2,
        i <= r.2 <= s@.len(),
{
    let n = s.unicode_len();
    let mut pre: Option<String> = Option::None;
    let mut j = i;
    if i < n {
        if s.get_char(i) == '-' {
            match scan_parts(s, i + 1) {
                Option::Some(e) => {
                    pre = Option::Some(s.substring_char(i + 1, e).to_owned());
                    j = e;
                },
                Option::None => {},
            }
        }
    }
    let mut build: Option<String> = Option::None;
    let mut k = j;
    if j < n {
        if s.get_char(j) == '+' {
            match scan_parts(s, j + 1) {
                Option::Some(e) => {
                    build = Option::Some(s.substring_char(j + 1, e).to_owned());
                    k = e;
                },
                Option::None => {},
            }
        }
    }
    (pre, build, k)
}

/// Exec scan: a partial version at `i`, as the parsed node and the end
/// of its span.
pub fn scan_partial(s: &str, i: usize) -> (r: Option<(Partial, usize)>)
    requires
        i <= s@.len(),
    ensures
        (r is Some) <==> (partial_at(s@, i as int) is Some),
        r is Some ==> (r->0).0@ == (partial_at(s@, i as int)->0).0 && (r->0).1 == (partial_at(
            s@,
            i as int,
        )->0).1 && i < (r->0).1 <= s@.len(),
{
    let n = s.unicode_len();
    let (f1, j) = match scan_xr(s, i) {
        Option::Some(p) => p,
        Option::None => {
            return Option::None;
        },
    };
    if j < n {
        if s.get_char(j) == '.' {
            match scan_xr(s, j + 1) {
                Option::Some((f2, k)) => {
                    if k < n {
                        if s.get_char(k) == '.' {
                            match scan_xr(s, k + 1) {
                                Option::Some((f3, m)) => {
                                    let (pre_release, build, e) = scan_qualifier(s, m);
                                    return Option::Some(
                                        (
                                            Partial {
                                                major: f1,
                                                minor: f2,
                                                patch: f3,
                                                pre_release,
                                                build,
                                            },
                                            e,
                                        ),
                                    );
                                },
                                Option::None => {
                                    return Option::Some(
                                        (
                                            Partial {
                                                major: f1,
                                                minor: f2,
                                                patch: PartialField::Missing,
                                                pre_release: Option::None,
                                                build: Option::None,
                                            },
                                            k,
                                        ),
                                    );
                                },
                            }
                        }
                    }
                    return Option::Some(
                        (
                            Partial {
                                major: f1,
                                minor: f2,
                                patch: PartialField::Missing,
                                pre_release: Option::None,
                                build: Option::None,
                            },
                            k,
                        ),
                    );
                },
                Option::None => {},
            }
        }
    }
    Option::Some(
        (
            Partial {
                major: f1,
                minor: PartialField::Missing,
                patch: PartialField::Missing,
                pre_release: Option::None,
                build: Option::None,
            },
            j,
        ),
    )
}

/// Parses a partial version from the start of `input`, ignoring any
/// trailing characters outside the matched span (the `1.2.3.4` form
/// keeps its first three groups and drops the rest).
pub fn parse_partial(input: &str) -> (r: Result<Partial, ParseError>)
    ensures
        (r is Ok) <==> (partial_at(input@, 0) is Some),
        r is Ok ==> (r->Ok_0)@ == (partial_at(input@, 0)->0).0 && wf_partial((r->Ok_0)@),
        r is Err ==> r->Err_0 == (ParseError::Syntax {
            pos: 0,
            expected: crate::error::Expected::PartialVersion,
        }),
{
    match scan_partial(input, 0) {
        Option::Some((p, _end)) => {
            proof {
                lemma_partial_wf(input@, 0);
            }
            Result::Ok(p)
        },
        Option::None => Result::Err(
            ParseError::Syntax { pos: 0, expected: crate::error::Expected::PartialVersion },
        ),
    }
}

} // verus!
