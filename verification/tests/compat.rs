use vellum::compat::{check_os_compatibility, classify_os_compatibility,
    find_best_compatible_version};
use vellum::index::Package;

fn make_package(name: &str, version: &str, depends: Vec<&str>) -> Package {
    Package {
        name: name.to_string(),
        version: version.to_string(),
        depends: depends.into_iter().map(|s| s.to_string()).collect(),
    }
}

#[test]
fn all_packages_compatible() {
    let index = vec![
        make_package("pkg1", "1.0", vec!["remarkable-os>=3.0.0.0"]),
        make_package("pkg2", "1.0", vec!["remarkable-os>=3.0.0.0"]),
    ];
    let installed = vec!["pkg1".to_string(), "pkg2".to_string()];

    let result = check_os_compatibility("3.10.0.0", &installed, &index);

    assert_eq!(result.compatible, vec!["pkg1", "pkg2"]);
    assert!(result.incompatible.is_empty());
}

#[test]
fn some_packages_incompatible() {
    let index = vec![
        make_package("pkg1", "1.0", vec!["remarkable-os>=3.0.0.0"]),
        make_package("pkg2", "1.0", vec!["remarkable-os>=4.0.0.0"]),
    ];
    let installed = vec!["pkg1".to_string(), "pkg2".to_string()];

    let result = check_os_compatibility("3.10.0.0", &installed, &index);

    assert_eq!(result.compatible, vec!["pkg1"]);
    assert_eq!(result.incompatible, vec!["pkg2"]);
}

#[test]
fn package_not_in_index_skipped() {
    let index = vec![
        make_package("pkg1", "1.0", vec!["remarkable-os>=3.0.0.0"]),
    ];
    let installed = vec!["pkg1".to_string(), "unknown-pkg".to_string()];

    let result = check_os_compatibility("3.10.0.0", &installed, &index);

    assert_eq!(result.compatible, vec!["pkg1"]);
    assert!(result.incompatible.is_empty());
}

#[test]
fn package_without_os_constraints_skipped() {
    let index = vec![
        make_package("pkg1", "1.0", vec!["other-dep"]),
        make_package("pkg2", "1.0", vec!["remarkable-os>=3.0.0.0"]),
    ];
    let installed = vec!["pkg1".to_string(), "pkg2".to_string()];

    let result = check_os_compatibility("3.10.0.0", &installed, &index);

    assert_eq!(result.compatible, vec!["pkg2"]);
    assert!(result.incompatible.is_empty());
}

#[test]
fn multiple_versions_any_compatible_means_compatible() {
    let index = vec![
        make_package("pkg1", "1.0", vec!["remarkable-os>=3.0.0.0", "remarkable-os<3.5.0.0"]),
        make_package("pkg1", "2.0", vec!["remarkable-os>=3.5.0.0"]),
    ];
    let installed = vec!["pkg1".to_string()];

    let result = check_os_compatibility("3.10.0.0", &installed, &index);

    assert_eq!(result.compatible, vec!["pkg1"]);
    assert!(result.incompatible.is_empty());
}

#[test]
fn multiple_versions_none_compatible_means_incompatible() {
    let index = vec![
        make_package("pkg1", "1.0", vec!["remarkable-os>=3.0.0.0", "remarkable-os<3.5.0.0"]),
        make_package("pkg1", "2.0", vec!["remarkable-os>=3.5.0.0", "remarkable-os<4.0.0.0"]),
    ];
    let installed = vec!["pkg1".to_string()];

    let result = check_os_compatibility("4.0.0.0", &installed, &index);

    assert!(result.compatible.is_empty());
    assert_eq!(result.incompatible, vec!["pkg1"]);
}

#[test]
fn empty_installed_list() {
    let index = vec![
        make_package("pkg1", "1.0", vec!["remarkable-os>=3.0.0.0"]),
    ];
    let installed: Vec<String> = vec![];

    let result = check_os_compatibility("3.10.0.0", &installed, &index);

    assert!(result.compatible.is_empty());
    assert!(result.incompatible.is_empty());
}

#[test]
fn empty_index() {
    let index: Vec<Package> = vec![];
    let installed = vec!["pkg1".to_string()];

    let result = check_os_compatibility("3.10.0.0", &installed, &index);

    assert!(result.compatible.is_empty());
    assert!(result.incompatible.is_empty());
}

#[test]
fn single_package_compatible_scenario() {
    let index = vec![
        make_package("pkg1", "1.0", vec!["remarkable-os>=3.0.0.0"]),
    ];
    let installed = vec!["pkg1".to_string()];

    let result = check_os_compatibility("3.10.0.0", &installed, &index);

    assert_eq!(result.compatible, vec!["pkg1"]);
    assert!(result.incompatible.is_empty());
}

#[test]
fn partition_same_inputs_same_output() {
    let index = vec![
        make_package("pkg1", "1.0", vec!["remarkable-os>=3.0.0.0"]),
        make_package("pkg2", "1.0", vec!["remarkable-os>=4.0.0.0"]),
        make_package("pkg3", "1.0", vec!["other-dep"]),
    ];
    let installed = vec!["pkg1".to_string(), "pkg2".to_string(), "pkg3".to_string()];

    let first = check_os_compatibility("3.10.0.0", &installed, &index);
    let second = check_os_compatibility("3.10.0.0", &installed, &index);

    assert_eq!(first.compatible, second.compatible);
    assert_eq!(first.incompatible, second.incompatible);
}

#[test]
fn empty_constraint_range_reported_incompatible() {
    let index = vec![
        make_package("pkg1", "1.0", vec!["remarkable-os>=3.0.0.0", "remarkable-os<3.0.0.0"]),
    ];
    let installed = vec!["pkg1".to_string()];

    for target in ["2.0.0.0", "3.0.0.0", "3.10.0.0", "9.9.9.9"] {
        let result = check_os_compatibility(target, &installed, &index);
        assert!(result.compatible.is_empty());
        assert_eq!(result.incompatible, vec!["pkg1"]);
    }
}

#[test]
fn classify_reports_unconstrained_separately() {
    let index = vec![
        make_package("pkg1", "1.0", vec!["remarkable-os>=3.0.0.0"]),
        make_package("pkg2", "1.0", vec!["other-dep"]),
        make_package("pkg3", "1.0", vec!["remarkable-os>=4.0.0.0"]),
    ];
    let installed = vec![
        "pkg1".to_string(),
        "pkg2".to_string(),
        "pkg3".to_string(),
        "absent".to_string(),
    ];

    let report = classify_os_compatibility("3.10.0.0", &installed, &index);

    assert_eq!(report.compatible, vec!["pkg1"]);
    assert_eq!(report.no_constraint, vec!["pkg2"]);
    assert_eq!(report.incompatible, vec!["pkg3"]);
}

#[test]
fn best_version_picks_greatest_compatible() {
    let index = vec![
        make_package("pkg1", "1.0", vec!["remarkable-os>=3.0.0.0"]),
        make_package("pkg1", "2.0", vec!["remarkable-os>=3.0.0.0"]),
        make_package("pkg1", "3.0", vec!["remarkable-os>=4.0.0.0"]),
        make_package("other", "9.0", vec!["remarkable-os>=3.0.0.0"]),
    ];

    let best = find_best_compatible_version("pkg1", "3.10.0.0", &index);

    assert_eq!(best, Some(1));
}

#[test]
fn best_version_ties_break_to_first() {
    let index = vec![
        make_package("pkg1", "2.0", vec!["remarkable-os>=3.0.0.0"]),
        make_package("pkg1", "2.0-r1", vec!["remarkable-os>=3.0.0.0"]),
    ];

    let best = find_best_compatible_version("pkg1", "3.10.0.0", &index);

    assert_eq!(best, Some(0));
}

#[test]
fn best_version_none_when_nothing_compatible() {
    let index = vec![
        make_package("pkg1", "1.0", vec!["remarkable-os>=4.0.0.0"]),
    ];

    assert_eq!(find_best_compatible_version("pkg1", "3.10.0.0", &index), None);
    assert_eq!(find_best_compatible_version("absent", "3.10.0.0", &index), None);
}
