use vellum::apk::{parse_installed_list, parse_package_version, Apk};
use vellum::commands::{
    filter_user_packages, has_os_dependency, is_allowed_during_mismatch, is_virtual_package,
    names_own_package, parse_upgrade_flags, parse_upgrade_simulation, resolve_add_args,
    unpin_world_lines, upgrade_command_args,
};
use vellum::device::{arch_from_machine, device_type_from_machine, os_version_from_release};
use vellum::index::Package;
use vellum::pkgmeta::{device_filename, device_pkginfo, remarkable_os_filename,
    remarkable_os_pkginfo};
use vellum::state::{repo_url_from_config, State, TestingManager};

fn make_package(name: &str, version: &str, depends: Vec<&str>) -> Package {
    Package {
        name: name.to_string(),
        version: version.to_string(),
        depends: depends.into_iter().map(|s| s.to_string()).collect(),
    }
}

#[test]
fn apk_paths_and_base_args() {
    let apk = Apk::new("/home/root/.vellum");
    assert_eq!(apk.bin_path(), "/home/root/.vellum/bin/apk.vellum");
    assert_eq!(apk.config_path(), "/home/root/.vellum/etc/apk/config");
    assert_eq!(
        apk.base_args(),
        vec!["--root", "/home/root/.vellum", "--install-root", "/", "--no-logfile"]
    );
}

#[test]
fn state_dir_under_root() {
    let state = State::new("/home/root/.vellum");
    assert_eq!(state.dir(), "/home/root/.vellum/state");
}

#[test]
fn installed_list_is_one_name_per_line() {
    assert_eq!(parse_installed_list("pkg1\npkg2\npkg3"), vec!["pkg1", "pkg2", "pkg3"]);
    assert_eq!(parse_installed_list("solo\n"), vec!["solo"]);
    assert!(parse_installed_list("").is_empty());
}

#[test]
fn package_version_from_listing() {
    let out = "pkg1-1.2.3-r0 aarch64 {pkg1} (MIT) [installed]";
    assert_eq!(parse_package_version("pkg1", out), Some("1.2.3".to_string()));
    assert_eq!(parse_package_version("other", out), None);
    assert_eq!(parse_package_version("pkg1", ""), None);
    assert_eq!(parse_package_version("pkg1", "pkg1-1.2.3 aarch64"), None);
    assert_eq!(
        parse_package_version("remarkable-os", "remarkable-os-3.22.0.65-r0 noarch"),
        Some("3.22.0.65".to_string())
    );
}

#[test]
fn resolve_pins_best_compatible_version() {
    let index = vec![
        make_package("pkg1", "1.0", vec!["remarkable-os>=3.0.0.0"]),
        make_package("pkg1", "2.0", vec!["remarkable-os>=3.0.0.0"]),
        make_package("pkg2", "1.0", vec!["remarkable-os>=4.0.0.0"]),
    ];
    let args = vec![
        "pkg1".to_string(),
        "pkg2".to_string(),
        "unknown".to_string(),
        "pinned=9".to_string(),
        "--flag".to_string(),
    ];

    let r = resolve_add_args(&args, "3.10.0.0", &index);

    assert_eq!(r.args, vec!["pkg1=2.0", "unknown", "pinned=9", "--flag"]);
    assert_eq!(r.pinned, vec!["pkg1"]);
    assert_eq!(r.incompatible, vec!["pkg2"]);
}

#[test]
fn upgrade_flags_split_off() {
    let args = vec!["-y".to_string(), "pkg".to_string(), "--yes".to_string()];
    let (yes, rest) = parse_upgrade_flags(&args);
    assert!(yes);
    assert_eq!(rest, vec!["pkg"]);

    let args = vec!["pkg".to_string()];
    let (yes, rest) = parse_upgrade_flags(&args);
    assert!(!yes);
    assert_eq!(rest, vec!["pkg"]);
}

#[test]
fn upgrade_args_carry_switches() {
    let rest = vec!["extra".to_string()];
    assert_eq!(upgrade_command_args(true, false, &rest), vec!["upgrade", "--simulate", "extra"]);
    assert_eq!(
        upgrade_command_args(true, true, &rest),
        vec!["upgrade", "--simulate", "--available", "extra"]
    );
    assert_eq!(upgrade_command_args(false, true, &rest), vec!["upgrade", "--available", "extra"]);
}

#[test]
fn upgrade_simulation_lists_packages() {
    let out = "(1/2) Upgrading foo (1.0 -> 2.0)\nsomething else\n(2/2) Upgrading bar (0.1 -> 0.2)";
    assert_eq!(parse_upgrade_simulation(out), vec!["foo", "bar"]);
    assert!(parse_upgrade_simulation("nothing to do").is_empty());
    assert!(parse_upgrade_simulation("Upgrading \n").is_empty());
}

#[test]
fn world_pins_are_cleaned() {
    let content = "pkg1=1.0\npkg2\npkg3=3.0";
    let packages = vec!["pkg1".to_string(), "pkg3".to_string()];
    assert_eq!(unpin_world_lines(content, &packages), "pkg1\npkg2\npkg3");

    let untouched = unpin_world_lines("pkg1=1.0", &[]);
    assert_eq!(untouched, "pkg1=1.0");
}

#[test]
fn virtual_packages_filtered_out() {
    assert!(is_virtual_package("remarkable-os"));
    assert!(is_virtual_package("rmpp"));
    assert!(!is_virtual_package("pkg1"));
    let installed = vec![
        "pkg1".to_string(),
        "remarkable-os".to_string(),
        "rm2".to_string(),
        "pkg2".to_string(),
    ];
    assert_eq!(filter_user_packages(&installed), vec!["pkg1", "pkg2"]);
}

#[test]
fn own_package_is_protected() {
    assert!(names_own_package(&["a".to_string(), "vellum".to_string()]));
    assert!(!names_own_package(&["a".to_string(), "b".to_string()]));
}

#[test]
fn os_dependency_detected() {
    assert!(has_os_dependency(&["remarkable-os>=3.0".to_string()]));
    assert!(has_os_dependency(&["so:libc".to_string(), "remarkable-os".to_string()]));
    assert!(!has_os_dependency(&["so:libc".to_string()]));
}

#[test]
fn only_installs_blocked_during_mismatch() {
    assert!(!is_allowed_during_mismatch("add"));
    assert!(!is_allowed_during_mismatch("install"));
    assert!(is_allowed_during_mismatch("del"));
    assert!(is_allowed_during_mismatch("upgrade"));
}

#[test]
fn testing_repository_switch() {
    let mgr = TestingManager::new("/home/root/.vellum");
    assert_eq!(mgr.repos_path(), "/home/root/.vellum/etc/apk/repositories");

    let plain = "https://example.org/repo\n/home/root/.vellum/local-repo/aarch64";
    assert!(!mgr.is_enabled(plain));

    let enabled = mgr.enable(plain);
    assert_eq!(
        enabled,
        "https://example.org/repo\n/home/root/.vellum/local-repo/aarch64\n@testing https://packages.vellum.delivery/testing"
    );
    assert!(mgr.is_enabled(&enabled));

    let disabled = mgr.disable(&enabled);
    assert_eq!(disabled, "https://example.org/repo\n/home/root/.vellum/local-repo/aarch64");

    let no_local = mgr.enable("https://example.org/repo");
    assert_eq!(no_local, "@testing https://packages.vellum.delivery/testing\nhttps://example.org/repo");
}

#[test]
fn repo_url_skips_comments_and_local() {
    let content = "# comment\n\n/x/local-repo/aarch64\nhttps://example.org/repo\n";
    assert_eq!(repo_url_from_config(content), Some("https://example.org/repo".to_string()));
    assert_eq!(repo_url_from_config("# only\n/x/local-repo"), None);
}

#[test]
fn os_version_read_from_release_file() {
    let conf = "OTHER=1\nRELEASE_VERSION=\"3.22.0.65\"\n";
    assert_eq!(
        os_version_from_release(conf, "RELEASE_VERSION="),
        Some("3.22.0.65".to_string())
    );
    assert_eq!(os_version_from_release(conf, "IMG_VERSION="), None);
    assert_eq!(os_version_from_release("RELEASE_VERSION=''\n", "RELEASE_VERSION="), None);
    assert_eq!(
        os_version_from_release("IMG_VERSION='3.5.1'", "IMG_VERSION="),
        Some("3.5.1".to_string())
    );
}

#[test]
fn device_and_arch_mappings() {
    assert_eq!(device_type_from_machine("Ferrari\n"), Some("rmpp".to_string()));
    assert_eq!(device_type_from_machine("Chiappa"), Some("rmppm".to_string()));
    assert_eq!(device_type_from_machine("reMarkable 1.0"), Some("rm1".to_string()));
    assert_eq!(device_type_from_machine("reMarkable 2.0"), Some("rm2".to_string()));
    assert_eq!(device_type_from_machine("unknown"), None);

    assert_eq!(arch_from_machine("aarch64"), Some("aarch64".to_string()));
    assert_eq!(arch_from_machine("armv7l"), Some("armv7".to_string()));
    assert_eq!(arch_from_machine("x86_64"), None);
}

#[test]
fn pkginfo_templates_render() {
    let os_info = remarkable_os_pkginfo("3.22.0.65");
    let expected = "pkgname = remarkable-os\n\
        pkgver = 3.22.0.65-r0\n\
        pkgdesc = Virtual package representing reMarkable OS version\n\
        url = https://github.com/vellum-dev/vellum-cli\n\
        arch = noarch\n\
        license = MIT\n\
        provides = /bin/sh\n";
    assert_eq!(os_info, expected);

    let dev_info = device_pkginfo("rmpp");
    assert!(dev_info.starts_with("pkgname = rmpp\npkgver = 1.0.0-r0\n"));
    assert!(dev_info.contains("pkgdesc = Virtual package for reMarkable Paper Pro\n"));
    let other = device_pkginfo("mystery");
    assert!(other.contains("pkgdesc = Virtual package for reMarkable Device\n"));

    assert_eq!(remarkable_os_filename("3.22.0.65"), "remarkable-os-3.22.0.65-r0.apk");
    assert_eq!(device_filename("rm2"), "rm2-1.0.0-r0.apk");
}
