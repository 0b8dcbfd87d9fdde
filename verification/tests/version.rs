use std::cmp::Ordering;

use vellum::version::{compare_versions, version_gte, version_lt};

#[test]
fn compare_equal_versions() {
    assert_eq!(compare_versions("3.10.0.0", "3.10.0.0"), Ordering::Equal);
    assert_eq!(compare_versions("1.0", "1.0"), Ordering::Equal);
    assert_eq!(compare_versions("0", "0"), Ordering::Equal);
}

#[test]
fn compare_greater_versions() {
    assert_eq!(compare_versions("3.10.0.0", "3.9.0.0"), Ordering::Greater);
    assert_eq!(compare_versions("2.0", "1.9"), Ordering::Greater);
    assert_eq!(compare_versions("1.10", "1.9"), Ordering::Greater);
}

#[test]
fn compare_lesser_versions() {
    assert_eq!(compare_versions("3.9.0.0", "3.10.0.0"), Ordering::Less);
    assert_eq!(compare_versions("1.9", "2.0"), Ordering::Less);
    assert_eq!(compare_versions("1.9", "1.10"), Ordering::Less);
}

#[test]
fn compare_different_lengths() {
    assert_eq!(compare_versions("3", "3.0"), Ordering::Less);
    assert_eq!(compare_versions("3.0", "3"), Ordering::Greater);
    assert_eq!(compare_versions("3.0.0", "3.0"), Ordering::Greater);
    assert_eq!(compare_versions("3.0", "3.0.0"), Ordering::Less);
}

#[test]
fn compare_with_prerelease() {
    assert_eq!(compare_versions("3.10.0-r1", "3.10.0"), Ordering::Equal);
    assert_eq!(compare_versions("3.10.0-r2", "3.10.0-r1"), Ordering::Equal);
    assert_eq!(compare_versions("3.10.0-r1", "3.9.0"), Ordering::Greater);
}

#[test]
fn compare_empty_strings() {
    assert_eq!(compare_versions("", ""), Ordering::Equal);
    assert_eq!(compare_versions("1", ""), Ordering::Greater);
    assert_eq!(compare_versions("", "1"), Ordering::Less);
}

#[test]
fn compare_single_component() {
    assert_eq!(compare_versions("1", "2"), Ordering::Less);
    assert_eq!(compare_versions("2", "1"), Ordering::Greater);
    assert_eq!(compare_versions("10", "9"), Ordering::Greater);
}

#[test]
fn version_gte_returns_true_when_greater_or_equal() {
    assert!(version_gte("3.10.0.0", "3.10.0.0"));
    assert!(version_gte("3.10.0.0", "3.9.0.0"));
    assert!(version_gte("4.0", "3.99"));
}

#[test]
fn version_gte_returns_false_when_less() {
    assert!(!version_gte("3.9.0.0", "3.10.0.0"));
    assert!(!version_gte("2.0", "3.0"));
}

#[test]
fn version_lt_returns_true_when_less() {
    assert!(version_lt("3.9.0.0", "3.10.0.0"));
    assert!(version_lt("2.0", "3.0"));
}

#[test]
fn version_lt_returns_false_when_greater_or_equal() {
    assert!(!version_lt("3.10.0.0", "3.10.0.0"));
    assert!(!version_lt("3.10.0.0", "3.9.0.0"));
}

#[test]
fn compare_numeric_not_lexicographic() {
    assert_eq!(compare_versions("1.100", "1.20"), Ordering::Greater);
    assert_eq!(compare_versions("0.9", "0.10"), Ordering::Less);
}

#[test]
fn compare_malformed_components_count_as_zero() {
    assert_eq!(compare_versions("1.abc", "1.0"), Ordering::Equal);
    assert_eq!(compare_versions("1.abc", "1.1"), Ordering::Less);
    assert_eq!(compare_versions("1.5000000000", "1.0"), Ordering::Equal);
}

#[test]
fn compare_agrees_with_numeric_component_order() {
    assert_eq!(compare_versions("N.12", "N.9"), Ordering::Greater);
    assert_eq!(compare_versions("N.9", "N.12"), Ordering::Less);
    assert_eq!(compare_versions("N.0", "N.0"), Ordering::Equal);
}

#[test]
fn compare_component_sign_and_zero_edges() {
    // an explicit plus sign parses; a leading dash cuts the component to
    // an empty numeral, which counts as zero
    assert_eq!(compare_versions("1.+5", "1.5"), Ordering::Equal);
    assert_eq!(compare_versions("1.-2", "1.0"), Ordering::Equal);
    assert_eq!(compare_versions("1.010", "1.10"), Ordering::Equal);
    assert_eq!(compare_versions("1.0010", "1.9"), Ordering::Greater);
}
