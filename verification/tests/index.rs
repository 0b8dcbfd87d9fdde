use vellum::index::{parse_apkindex, Package};

fn make_package(name: &str, version: &str, depends: Vec<&str>) -> Package {
    Package {
        name: name.to_string(),
        version: version.to_string(),
        depends: depends.into_iter().map(|s| s.to_string()).collect(),
    }
}

#[test]
fn get_os_constraints_with_min_only() {
    let pkg = make_package("test", "1.0", vec!["remarkable-os>=3.10.0.0"]);
    let (min, max) = pkg.get_os_constraints();
    assert_eq!(min, Some("3.10.0.0".to_string()));
    assert_eq!(max, None);
}

#[test]
fn get_os_constraints_with_max_only() {
    let pkg = make_package("test", "1.0", vec!["remarkable-os<4.0.0.0"]);
    let (min, max) = pkg.get_os_constraints();
    assert_eq!(min, None);
    assert_eq!(max, Some("4.0.0.0".to_string()));
}

#[test]
fn get_os_constraints_with_both() {
    let pkg = make_package("test", "1.0", vec![
        "remarkable-os>=3.10.0.0",
        "remarkable-os<4.0.0.0",
    ]);
    let (min, max) = pkg.get_os_constraints();
    assert_eq!(min, Some("3.10.0.0".to_string()));
    assert_eq!(max, Some("4.0.0.0".to_string()));
}

#[test]
fn get_os_constraints_with_none() {
    let pkg = make_package("test", "1.0", vec!["other-dep"]);
    let (min, max) = pkg.get_os_constraints();
    assert_eq!(min, None);
    assert_eq!(max, None);
}

#[test]
fn get_os_constraints_empty_deps() {
    let pkg = make_package("test", "1.0", vec![]);
    let (min, max) = pkg.get_os_constraints();
    assert_eq!(min, None);
    assert_eq!(max, None);
}

#[test]
fn get_os_constraints_last_token_wins() {
    let pkg = make_package("test", "1.0", vec![
        "remarkable-os>=3.0.0.0",
        "remarkable-os>=3.5.0.0",
    ]);
    let (min, max) = pkg.get_os_constraints();
    assert_eq!(min, Some("3.5.0.0".to_string()));
    assert_eq!(max, None);
}

#[test]
fn is_compatible_no_constraints() {
    let pkg = make_package("test", "1.0", vec![]);
    assert!(pkg.is_compatible_with_os("3.10.0.0"));
    assert!(pkg.is_compatible_with_os("1.0.0.0"));
}

#[test]
fn is_compatible_min_constraint_satisfied() {
    let pkg = make_package("test", "1.0", vec!["remarkable-os>=3.10.0.0"]);
    assert!(pkg.is_compatible_with_os("3.10.0.0"));
    assert!(pkg.is_compatible_with_os("3.11.0.0"));
    assert!(pkg.is_compatible_with_os("4.0.0.0"));
}

#[test]
fn is_compatible_min_constraint_not_satisfied() {
    let pkg = make_package("test", "1.0", vec!["remarkable-os>=3.10.0.0"]);
    assert!(!pkg.is_compatible_with_os("3.9.0.0"));
    assert!(!pkg.is_compatible_with_os("2.0.0.0"));
}

#[test]
fn is_compatible_max_constraint_satisfied() {
    let pkg = make_package("test", "1.0", vec!["remarkable-os<4.0.0.0"]);
    assert!(pkg.is_compatible_with_os("3.10.0.0"));
    assert!(pkg.is_compatible_with_os("3.99.99.99"));
}

#[test]
fn is_compatible_max_constraint_not_satisfied() {
    let pkg = make_package("test", "1.0", vec!["remarkable-os<4.0.0.0"]);
    assert!(!pkg.is_compatible_with_os("4.0.0.0"));
    assert!(!pkg.is_compatible_with_os("5.0.0.0"));
}

#[test]
fn is_compatible_both_constraints_in_range() {
    let pkg = make_package("test", "1.0", vec![
        "remarkable-os>=3.10.0.0",
        "remarkable-os<4.0.0.0",
    ]);
    assert!(pkg.is_compatible_with_os("3.10.0.0"));
    assert!(pkg.is_compatible_with_os("3.15.0.0"));
    assert!(pkg.is_compatible_with_os("3.99.99.99"));
}

#[test]
fn is_compatible_both_constraints_out_of_range() {
    let pkg = make_package("test", "1.0", vec![
        "remarkable-os>=3.10.0.0",
        "remarkable-os<4.0.0.0",
    ]);
    assert!(!pkg.is_compatible_with_os("3.9.0.0"));
    assert!(!pkg.is_compatible_with_os("4.0.0.0"));
}

#[test]
fn empty_constraint_range_admits_nothing() {
    let pkg = make_package("test", "1.0", vec![
        "remarkable-os>=3.0.0.0",
        "remarkable-os<3.0.0.0",
    ]);
    assert!(!pkg.is_compatible_with_os("2.0.0.0"));
    assert!(!pkg.is_compatible_with_os("3.0.0.0"));
    assert!(!pkg.is_compatible_with_os("3.10.0.0"));
    assert!(!pkg.is_compatible_with_os("4.0.0.0"));
    assert!(!pkg.is_compatible_with_os(""));
}

#[test]
fn parse_apkindex_single_package() {
    let input = "P:test-pkg\nV:1.0.0\nD:dep1 dep2\n";
    let packages = parse_apkindex(input);

    assert_eq!(packages.len(), 1);
    assert_eq!(packages[0].name, "test-pkg");
    assert_eq!(packages[0].version, "1.0.0");
    assert_eq!(packages[0].depends, vec!["dep1", "dep2"]);
}

#[test]
fn parse_apkindex_multiple_packages() {
    let input = "P:pkg1\nV:1.0\n\nP:pkg2\nV:2.0\n";
    let packages = parse_apkindex(input);

    assert_eq!(packages.len(), 2);
    assert_eq!(packages[0].name, "pkg1");
    assert_eq!(packages[1].name, "pkg2");
}

#[test]
fn parse_apkindex_skips_malformed_lines() {
    let input = "P:test-pkg\nmalformed line\nV:1.0.0\nX\n";
    let packages = parse_apkindex(input);

    assert_eq!(packages.len(), 1);
    assert_eq!(packages[0].name, "test-pkg");
    assert_eq!(packages[0].version, "1.0.0");
}

#[test]
fn parse_apkindex_empty_input() {
    let input = "";
    let packages = parse_apkindex(input);

    assert!(packages.is_empty());
}

#[test]
fn parse_apkindex_no_trailing_newline() {
    let input = "P:test-pkg\nV:1.0.0";
    let packages = parse_apkindex(input);

    assert_eq!(packages.len(), 1);
    assert_eq!(packages[0].name, "test-pkg");
}

#[test]
fn parse_apkindex_ignores_unknown_fields() {
    let input = "P:test-pkg\nV:1.0.0\nA:x86_64\nS:12345\nI:67890\n";
    let packages = parse_apkindex(input);

    assert_eq!(packages.len(), 1);
    assert_eq!(packages[0].name, "test-pkg");
    assert_eq!(packages[0].version, "1.0.0");
    assert!(packages[0].depends.is_empty());
}

#[test]
fn parse_apkindex_handles_crlf_and_repeated_whitespace() {
    let input = "P:pkg\r\nV:1.0\r\nD:a  b\tc\r\n";
    let packages = parse_apkindex(input);

    assert_eq!(packages.len(), 1);
    assert_eq!(packages[0].name, "pkg");
    assert_eq!(packages[0].version, "1.0");
    assert_eq!(packages[0].depends, vec!["a", "b", "c"]);
}

#[test]
fn parse_apkindex_drops_record_without_name() {
    let input = "V:1.0.0\nD:dep1\n\nP:named\nV:2.0\n";
    let packages = parse_apkindex(input);

    assert_eq!(packages.len(), 1);
    assert_eq!(packages[0].name, "named");
    assert_eq!(packages[0].version, "2.0");
}
