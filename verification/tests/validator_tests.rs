use semverq::validator::SemVerParser;

fn successful_inputs() -> Vec<&'static str> {
    vec!["1.2.3", "1.2.3-alpha", "1.2.3-alpha+001", "1.2.3+exp.46"]
}

fn unsuccessful_inputs() -> Vec<&'static str> {
    vec!["this is not a semver", "2.0", "1.2.3-+r46-a"]
}

#[test]
fn main_test_semver_successful_parse() {
    for i in successful_inputs() {
        match SemVerParser::parse(i) {
            Ok(p) => assert_eq!(p.end, i.len()), // ensure complete parsing
            Err(e) => panic!("error: {:?}", e),
        }
    }
}

#[test]
fn main_test_semver_unsuccessful_parse() {
    for i in unsuccessful_inputs() {
        match SemVerParser::parse(i) {
            Ok(p) => {
                if p.end != i.len() {
                    // dangling chars means incomplete parse, this is fine
                    continue;
                } else {
                    panic!("should not have been successful: {} => {:#?}", i, p)
                }
            }
            Err(_) => (),
        }
    }
}

#[test]
fn version_test_semver_successful_parse() {
    for i in successful_inputs() {
        match SemVerParser::parse(i) {
            Ok(p) => assert_eq!(p.end, i.len()), // ensure complete parsing
            Err(e) => panic!("error: {:?}", e),
        }
    }
}

#[test]
fn version_test_semver_unsuccessful_parse() {
    for i in unsuccessful_inputs() {
        match SemVerParser::parse(i) {
            Ok(p) => {
                if p.end != i.len() {
                    continue;
                } else {
                    panic!("should not have been successful: {} => {:#?}", i, p)
                }
            }
            Err(_) => (),
        }
    }
}

#[test]
fn test_validator_accepts_whole_input() {
    assert!(SemVerParser::accepts("1.2.3"));
    assert!(SemVerParser::accepts("1.2.3-alpha"));
    assert!(SemVerParser::accepts("1.2.3-alpha+001"));
    assert!(SemVerParser::accepts("1.2.3+exp.46"));
    assert!(!SemVerParser::accepts("this is not a semver"));
    assert!(!SemVerParser::accepts("2.0"));
    assert!(!SemVerParser::accepts("1.2.3-+r46-a"));
    assert!(!SemVerParser::accepts(""));
}

#[test]
fn test_validator_span_values() {
    // "1.2.3-+r46-a": the qualifier cannot start with "+r46-a" after
    // the bare "-", so only the core "1.2.3" is matched.
    let span = SemVerParser::parse("1.2.3-+r46-a").unwrap();
    assert_eq!(span.start, 0);
    assert_eq!(span.end, 5);
    // Leading zeros stop the numeric component after the first digit,
    // so the second component of "1.02.3" ends before its dot and the
    // core fails to match.
    assert!(SemVerParser::parse("1.02.3").is_err());
    // An outright mismatch is a syntax error, not a span.
    assert!(SemVerParser::parse("x.y.z").is_err());
}
