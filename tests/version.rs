use std::cmp::Ordering;
use tako::error::Error;
use tako::version::Version;

fn v(s: &str) -> Version {
    Version::parse(s).unwrap()
}

#[test]
fn empty_version_is_malformed() {
    assert!(matches!(Version::parse(""), Err(Error::MalformedVersion)));
}

#[test]
fn any_nonempty_version_parses() {
    assert_eq!(v("1.0").as_str(), "1.0");
    assert_eq!(v("...").as_str(), "...");
    assert_eq!(v("2021-03-01").as_str(), "2021-03-01");
}

#[test]
fn collisions_are_separator_only_differences() {
    assert!(v("1.0").collides_with(&v("1-0")));
    assert!(!v("1.0").collides_with(&v("1.0")));
    assert!(!v("1.0").collides_with(&v("1.1")));
    assert!(v("1..0").collides_with(&v("1_0")));
}

#[test]
fn compare_is_reflexive() {
    for s in ["1.0", "1-0", "abc", "0.9.rc1", "x"] {
        assert_eq!(v(s).compare(&v(s)), Ordering::Equal);
    }
}

#[test]
fn numbers_compare_by_value() {
    assert_eq!(v("1.9").compare(&v("1.10")), Ordering::Less);
    assert_eq!(v("1.10").compare(&v("1.9")), Ordering::Greater);
    assert_eq!(v("01").compare(&v("1")), Ordering::Equal);
    assert_eq!(v("100000000000000000000000").compare(&v("99999999999999999999999")), Ordering::Greater);
}

#[test]
fn missing_field_ranks_lowest() {
    assert_eq!(v("1.0").compare(&v("1.0.1")), Ordering::Less);
    assert_eq!(v("1.0.1").compare(&v("1.0")), Ordering::Greater);
}

#[test]
fn numeric_field_ranks_above_text() {
    assert_eq!(v("1.0").compare(&v("1.beta")), Ordering::Greater);
    assert_eq!(v("1.alpha").compare(&v("1.beta")), Ordering::Less);
}

#[test]
fn compare_is_antisymmetric_and_transitive_on_samples() {
    let samples = ["0.9", "1.0", "1-0", "1.2", "1.10", "1.beta", "2021-03-01", "a", "1.0.1"];
    for a in samples {
        for b in samples {
            assert_eq!(v(a).compare(&v(b)), v(b).compare(&v(a)).reverse());
            for c in samples {
                if v(a).compare(&v(b)) != Ordering::Greater && v(b).compare(&v(c)) != Ordering::Greater {
                    assert_ne!(v(a).compare(&v(c)), Ordering::Greater);
                }
            }
        }
    }
}
