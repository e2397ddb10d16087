use std::collections::BTreeMap;

use semverq::error::{Expected, ParseError};
use semverq::partial::{coerce_partial, parse_partial, Partial, PartialField};
use semverq::range::{parse_range_query, scan_range_set, RangeOp};
use semverq::reduce::eval_vq;
use semverq::version::SemVerField::{Missing, Number, Wildcard};
use semverq::version::{SemVer, SemVerField, Version, VersionQuery as VQ};

fn semver(
    major: SemVerField,
    minor: SemVerField,
    patch: SemVerField,
    pre_release: Option<&str>,
    build: Option<&str>,
) -> Version {
    Version::SemVer(SemVer {
        major,
        minor,
        patch,
        pre_release: pre_release.map(String::from),
        build: build.map(String::from),
    })
}

#[test]
fn test_parse_npm_semver() {
    let inputs = vec![
        "1.2.3",
        "1.2.3-alpha",
        "1.2.3-alpha+001",
        "1.2.3+exp.46",
        "1.2.0 - 1.3.0",
        ">=1.2.3",
        "<=1.2.3",
        "1.2.3 || 1.2.4",
        ">=1.2.3 <2.0",
    ];
    for i in inputs {
        match parse_range_query(i) {
            Ok(_) => assert!(parse_range_query(i).is_ok()), // ensure complete parsing
            Err(e) => panic!("error: {:?}", e),
        }
    }
}

#[test]
fn test_coerce_partial() {
    let mut expected_io = BTreeMap::new();
    expected_io.insert("1", semver(Number(1), Missing, Missing, None, None));
    expected_io.insert("1.2", semver(Number(1), Number(2), Missing, None, None));
    expected_io.insert("1.2.3", semver(Number(1), Number(2), Number(3), None, None));
    expected_io.insert("1.2.3.4", semver(Number(1), Number(2), Number(3), None, None));
    expected_io.insert(
        "1.2.3-alpha+r77",
        semver(Number(1), Number(2), Number(3), Some("alpha"), Some("r77")),
    );
    for (k, v) in expected_io.iter() {
        let node = match parse_partial(k) {
            Ok(p) => p,
            Err(e) => panic!("error: {:?}", e),
        };
        match coerce_partial(&node) {
            Ok(coerced) => assert_eq!(*v, coerced),
            Err(e) => panic!("error: {:?}", e),
        }
    }
}

#[test]
fn test_eval_vq_gte() {
    let input = ">=5.2";
    let vq = match parse_range_query(input) {
        Ok(q) => q,
        Err(e) => panic!("error: {:?}", e),
    };
    if let VQ::Gte(Version::SemVer(v)) = vq {
        assert_eq!(v.major, Number(5));
        assert_eq!(v.minor, Number(2));
        assert_eq!(v.patch, Missing);
    } else {
        unreachable!();
    }
}

#[test]
fn test_eval_vq_compat() {
    let input = "^5.1.6";
    let vq = match parse_range_query(input) {
        Ok(q) => q,
        Err(e) => panic!("error: {:?}", e),
    };
    if let VQ::Compat(Version::SemVer(v)) = vq {
        assert_eq!(v.major, Number(5));
        assert_eq!(v.minor, Number(1));
        assert_eq!(v.patch, Number(6));
    } else {
        unreachable!();
    }
}

#[test]
fn test_eval_vq_logical() {
    let input = "^5.1.6 ^6.1.2 || <=1.*";
    let vq = match parse_range_query(input) {
        Ok(q) => q,
        Err(e) => panic!("error: {:?}", e),
    };
    let expected_vq = VQ::Or(
        Box::new(VQ::And(
            Box::new(VQ::Compat(semver(Number(5), Number(1), Number(6), None, None))),
            Box::new(VQ::Compat(semver(Number(6), Number(1), Number(2), None, None))),
        )),
        Box::new(VQ::Lte(semver(Number(1), Wildcard, Missing, None, None))),
    );
    assert_eq!(expected_vq, vq);
}

#[test]
fn test_eval_vq_range() {
    let input = "1 - 2";
    let vq = match parse_range_query(input) {
        Ok(q) => q,
        Err(e) => panic!("error: {:?}", e),
    };
    let expected_vq = VQ::Range(
        Box::new(VQ::Version(semver(Number(1), Missing, Missing, None, None))),
        Box::new(VQ::Version(semver(Number(2), Missing, Missing, None, None))),
    );
    assert_eq!(expected_vq, vq);
}

#[test]
fn test_or_is_left_associative() {
    let vq = parse_range_query(">=5.2 || 1 - 2 || ^3").unwrap();
    let expected = VQ::Or(
        Box::new(VQ::Or(
            Box::new(VQ::Gte(semver(Number(5), Number(2), Missing, None, None))),
            Box::new(VQ::Range(
                Box::new(VQ::Version(semver(Number(1), Missing, Missing, None, None))),
                Box::new(VQ::Version(semver(Number(2), Missing, Missing, None, None))),
            )),
        )),
        Box::new(VQ::Compat(semver(Number(3), Missing, Missing, None, None))),
    );
    assert_eq!(expected, vq);
}

#[test]
fn test_and_chain() {
    let vq = parse_range_query(">=1.2.3 <2.0").unwrap();
    let expected = VQ::And(
        Box::new(VQ::Gte(semver(Number(1), Number(2), Number(3), None, None))),
        Box::new(VQ::Lt(semver(Number(2), Number(0), Missing, None, None))),
    );
    assert_eq!(expected, vq);
}

#[test]
fn test_wildcard_partials() {
    let vq = parse_range_query("1.x").unwrap();
    assert_eq!(
        vq,
        VQ::Version(semver(Number(1), Wildcard, Missing, None, None))
    );
    let vq = parse_range_query("*").unwrap();
    assert_eq!(
        vq,
        VQ::Version(semver(Wildcard, Missing, Missing, None, None))
    );
    let vq = parse_range_query("1.2.X").unwrap();
    assert_eq!(
        vq,
        VQ::Version(semver(Number(1), Number(2), Wildcard, None, None))
    );
}

#[test]
fn test_qualifier_capture() {
    let vq = parse_range_query("1.2.3-alpha+r77").unwrap();
    assert_eq!(
        vq,
        VQ::Version(semver(
            Number(1),
            Number(2),
            Number(3),
            Some("alpha"),
            Some("r77")
        ))
    );
}

#[test]
fn test_numeric_bounds() {
    // The largest representable component parses exactly.
    let vq = parse_range_query("65535").unwrap();
    assert_eq!(
        vq,
        VQ::Version(semver(Number(65535), Missing, Missing, None, None))
    );
    // One past it is a typed overflow failure, not a panic.
    assert_eq!(
        parse_range_query("65536"),
        Err(ParseError::NumericOverflow)
    );
    assert_eq!(
        parse_range_query("1.2.70000"),
        Err(ParseError::NumericOverflow)
    );
}

#[test]
fn test_error_variants() {
    assert_eq!(
        parse_range_query(""),
        Err(ParseError::Syntax {
            pos: 0,
            expected: Expected::RangeQuery
        })
    );
    assert_eq!(
        parse_range_query("||"),
        Err(ParseError::Syntax {
            pos: 0,
            expected: Expected::RangeQuery
        })
    );
    // The grammar stops after "1.2.3"; the rest of the input is left
    // over, which the parser reports as an incomplete match.
    assert_eq!(
        parse_range_query("1.2.3 junk"),
        Err(ParseError::IncompleteMatch { matched: 5 })
    );
    assert_eq!(
        parse_range_query("1.2.3.4"),
        Err(ParseError::IncompleteMatch { matched: 5 })
    );
}

#[test]
fn test_scan_and_reduce_pipeline() {
    // The scanner exposes the flat sequence: terms in order with the
    // operator tokens between them.
    let (terms, ops, end) = scan_range_set("1 - 2").unwrap();
    assert_eq!(terms.len(), 2);
    assert_eq!(ops, vec![RangeOp::Hyphen]);
    assert_eq!(end, 5);
    // The reducer combines already-built leaves by precedence.
    let leaves = vec![
        VQ::Version(semver(Number(1), Missing, Missing, None, None)),
        VQ::Version(semver(Number(2), Missing, Missing, None, None)),
        VQ::Version(semver(Number(3), Missing, Missing, None, None)),
    ];
    let ops = vec![RangeOp::And, RangeOp::Or];
    let reduced = eval_vq(&leaves, &ops);
    let expected = VQ::Or(
        Box::new(VQ::And(
            Box::new(VQ::Version(semver(Number(1), Missing, Missing, None, None))),
            Box::new(VQ::Version(semver(Number(2), Missing, Missing, None, None))),
        )),
        Box::new(VQ::Version(semver(Number(3), Missing, Missing, None, None))),
    );
    assert_eq!(expected, reduced);
}

#[test]
fn test_hyphen_needs_bare_partials() {
    // A comparator term cannot be a hyphen-range half: the grammar
    // stops after the first simple and the parse is incomplete.
    assert!(parse_range_query(">=1 - 2").is_err());
    assert!(parse_range_query("1 - 2 - 3").is_err());
}

#[test]
fn test_coerce_overflow_direct() {
    let node = parse_partial("65536").unwrap();
    assert_eq!(coerce_partial(&node), Err(ParseError::NumericOverflow));
    let node = parse_partial("65535").unwrap();
    assert!(coerce_partial(&node).is_ok());
}

#[test]
fn test_coerce_hand_built_nodes() {
    // A node with no groups at all coerces to an all-Missing record.
    let node = Partial {
        major: PartialField::Missing,
        minor: PartialField::Missing,
        patch: PartialField::Missing,
        pre_release: None,
        build: None,
    };
    assert_eq!(
        coerce_partial(&node).unwrap(),
        semver(Missing, Missing, Missing, None, None)
    );
    // Leading zeros in a digit group read as their numeric value.
    let node = Partial {
        major: PartialField::Digits(String::from("007")),
        minor: PartialField::Wildcard,
        patch: PartialField::Missing,
        pre_release: Some(String::from("rc.1")),
        build: None,
    };
    assert_eq!(
        coerce_partial(&node).unwrap(),
        semver(Number(7), Wildcard, Missing, Some("rc.1"), None)
    );
}
