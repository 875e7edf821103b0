use bap::config::Config;
use bap::lifecycle::{
    choose_run_version, finish_install, is_version_installed, plan_install, uninstall,
    FetchOutcome, RunChoice,
};
use bap::store::VersionStore;
use bap::{format_version_line, local_override_of, resolve, Error};

#[test]
fn resolve_prefers_local_override() {
    let r = resolve(Some("A".to_string()), Some("B".to_string()));
    assert_eq!(r, Some("A".to_string()));
}

#[test]
fn resolve_falls_back_to_global_default() {
    let r = resolve(None, Some("B".to_string()));
    assert_eq!(r, Some("B".to_string()));
}

#[test]
fn resolve_with_neither_is_none() {
    assert_eq!(resolve(None, None), None);
}

#[test]
fn local_override_trims_marker_content() {
    assert_eq!(local_override_of(" 1.2.3\n"), Some("1.2.3".to_string()));
    assert_eq!(local_override_of("1.2.3"), Some("1.2.3".to_string()));
    assert_eq!(local_override_of("   \n"), None);
    assert_eq!(local_override_of(""), None);
}

#[test]
fn uninstall_clears_matching_default() {
    let mut store = VersionStore::empty();
    store.add("1.2.3");
    store.add("2.0.0");
    let mut config = Config { default_version: Some("1.2.3".to_string()) };
    let r = uninstall(&mut store, &mut config, "1.2.3", "/root/bin/1.2.3", true, true);
    assert!(r.is_ok());
    assert_eq!(store.list().clone(), vec!["2.0.0".to_string()]);
    assert_eq!(config.default_version, None);
}

#[test]
fn uninstall_keeps_unrelated_default() {
    let mut store = VersionStore::empty();
    store.add("1.2.3");
    let mut config = Config { default_version: Some("2.0.0".to_string()) };
    let r = uninstall(&mut store, &mut config, "1.2.3", "/root/bin/1.2.3", true, true);
    assert!(r.is_ok());
    assert_eq!(config.default_version, Some("2.0.0".to_string()));
}

#[test]
fn uninstall_of_absent_version_fails_and_changes_nothing() {
    let mut store = VersionStore::empty();
    store.add("1.2.3");
    let mut config = Config { default_version: Some("1.2.3".to_string()) };
    let r = uninstall(&mut store, &mut config, "9.9.9", "/root/bin/9.9.9", false, false);
    assert!(matches!(r, Err(Error::NotInstalled)));
    assert_eq!(store.list().clone(), vec!["1.2.3".to_string()]);
    assert_eq!(config.default_version, Some("1.2.3".to_string()));
}

#[test]
fn uninstall_with_failed_removal_changes_nothing() {
    let mut store = VersionStore::empty();
    store.add("1.2.3");
    let mut config = Config { default_version: Some("1.2.3".to_string()) };
    let r = uninstall(&mut store, &mut config, "1.2.3", "/root/bin/1.2.3", true, false);
    match r {
        Err(Error::Io(p)) => assert_eq!(p, "/root/bin/1.2.3"),
        _ => panic!("expected the removal failure to surface as an Io error"),
    }
    assert_eq!(store.list().clone(), vec!["1.2.3".to_string()]);
    assert_eq!(config.default_version, Some("1.2.3".to_string()));
}

#[test]
fn reinstall_keeps_a_single_entry() {
    let mut store = VersionStore::empty();
    assert!(finish_install(&mut store, "1.2.3", FetchOutcome::Fetched).is_ok());
    assert!(finish_install(&mut store, "1.2.3", FetchOutcome::Fetched).is_ok());
    assert_eq!(store.list().clone(), vec!["1.2.3".to_string()]);
}

#[test]
fn failed_fetch_registers_nothing() {
    let mut store = VersionStore::empty();
    let r = finish_install(&mut store, "1.2.3", FetchOutcome::TransportFailure);
    assert!(matches!(r, Err(Error::Download)));
    let r = finish_install(&mut store, "1.2.3", FetchOutcome::CorruptArchive);
    assert!(matches!(r, Err(Error::Archive)));
    assert!(store.list().is_empty());
}

#[test]
fn plan_install_names_artifact_and_address() {
    let plan = plan_install("v3.58.0", "linux", "x86_64").unwrap();
    assert_eq!(plan.version, "3.58.0");
    assert_eq!(plan.filename, "buildkite-agent-linux-amd64-3.58.0.tar.gz");
    assert_eq!(
        plan.url,
        "https://github.com/buildkite/agent/releases/download/v3.58.0/buildkite-agent-linux-amd64-3.58.0.tar.gz"
    );
}

#[test]
fn plan_install_maps_darwin_and_arm() {
    let plan = plan_install("3.0.0", "macos", "aarch64").unwrap();
    assert_eq!(plan.filename, "buildkite-agent-darwin-arm64-3.0.0.tar.gz");
}

#[test]
fn plan_install_rejects_unknown_platforms() {
    match plan_install("1.0.0", "windows", "x86_64") {
        Err(Error::UnsupportedOs(os)) => assert_eq!(os, "windows"),
        _ => panic!("expected the unsupported system to be reported"),
    }
    match plan_install("1.0.0", "linux", "riscv64") {
        Err(Error::UnsupportedArch(arch)) => assert_eq!(arch, "riscv64"),
        _ => panic!("expected the unsupported architecture to be reported"),
    }
}

#[test]
fn installed_check_normalizes_the_leading_v() {
    let mut store = VersionStore::empty();
    store.add("3.58.0");
    assert!(is_version_installed(&store, "v3.58.0"));
    assert!(is_version_installed(&store, "3.58.0"));
    assert!(!is_version_installed(&store, "v9.9.9"));
}

#[test]
fn run_choice_uses_resolved_version_first() {
    match choose_run_version(Some("1.2.3".to_string()), 5) {
        RunChoice::Use(v) => assert_eq!(v, "1.2.3"),
        _ => panic!("expected the resolved version to be chosen"),
    }
    assert!(matches!(choose_run_version(None, 0), RunChoice::OfferInstall));
    assert!(matches!(choose_run_version(None, 2), RunChoice::SelectInstalled));
}

#[test]
fn listing_lines_mark_current_and_default() {
    assert_eq!(format_version_line("1.2.3", false, false), "  1.2.3");
    assert_eq!(format_version_line("1.2.3", true, false), "* 1.2.3");
    assert_eq!(format_version_line("1.2.3", false, true), "  1.2.3 (default)");
    assert_eq!(format_version_line("1.2.3", true, true), "* 1.2.3 (default)");
}
