use vellum::util::matches_glob;

#[test]
fn matches_glob_exact_match() {
    assert!(matches_glob("foo.apk", "foo.apk"));
    assert!(matches_glob("test-package.apk", "test-package.apk"));
}

#[test]
fn matches_glob_exact_no_match() {
    assert!(!matches_glob("foo.apk", "bar.apk"));
    assert!(!matches_glob("foo.txt", "foo.apk"));
}

#[test]
fn matches_glob_wildcard_match() {
    assert!(matches_glob("remarkable-os-3.10.0.0.apk", "remarkable-os-*.apk"));
    assert!(matches_glob("remarkable-os-1.0.apk", "remarkable-os-*.apk"));
    assert!(matches_glob("prefix-anything.apk", "prefix-*.apk"));
}

#[test]
fn matches_glob_wildcard_no_match() {
    assert!(!matches_glob("other-package.apk", "remarkable-os-*.apk"));
    assert!(!matches_glob("remarkable-os-3.10.txt", "remarkable-os-*.apk"));
    assert!(!matches_glob("remarkable-os-3.10.apk.bak", "remarkable-os-*.apk"));
}

#[test]
fn matches_glob_empty_prefix() {
    assert!(matches_glob("anything.apk", "*.apk"));
    assert!(matches_glob(".apk", "*.apk"));
}
