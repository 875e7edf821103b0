use bap::auth::update_token_lines;
use bap::paths::{
    agent_binary_path, bin_dir, config_file_path, ensure_bap_directories, get_config_path,
    version_dir, versions_dir, versions_file,
};
use bap::remote::{
    collect_release_tags, installed_version_action, not_installed_version_action, page_bounds,
    page_items, page_selection, total_pages, InstalledAction, NotInstalledAction, PageNav, Release,
};
use bap::store::VersionStore;
use bap::text::{is_valid_id, strip_v_str, trim_str};

#[test]
fn layout_paths_under_the_root() {
    assert_eq!(versions_dir("/home/u/.bap"), "/home/u/.bap/versions");
    assert_eq!(bin_dir("/home/u/.bap"), "/home/u/.bap/bin");
    assert_eq!(versions_file("/home/u/.bap"), "/home/u/.bap/versions/versions");
    assert_eq!(config_file_path("/home/u/.bap"), "/home/u/.bap/config.json");
    assert_eq!(version_dir("/home/u/.bap", "1.2.3"), "/home/u/.bap/bin/1.2.3");
    assert_eq!(
        agent_binary_path("/home/u/.bap", "1.2.3"),
        "/home/u/.bap/bin/1.2.3/buildkite-agent"
    );
    assert_eq!(
        get_config_path("/home/u/.bap", "1.2.3"),
        "/home/u/.bap/bin/1.2.3/buildkite-agent.cfg"
    );
}

#[test]
fn setup_plan_creates_what_is_missing() {
    let (dirs, file) = ensure_bap_directories("/r", false, false, false, false);
    assert_eq!(
        dirs,
        vec!["/r".to_string(), "/r/versions".to_string(), "/r/bin".to_string()]
    );
    assert_eq!(file, Some("/r/versions/versions".to_string()));
    let (dirs, file) = ensure_bap_directories("/r", true, true, true, true);
    assert!(dirs.is_empty());
    assert_eq!(file, None);
    let (dirs, file) = ensure_bap_directories("/r", true, false, true, false);
    assert_eq!(dirs, vec!["/r/versions".to_string()]);
    assert_eq!(file, Some("/r/versions/versions".to_string()));
}

#[test]
fn collecting_pages_appends_tags_in_order() {
    let mut acc: Vec<String> = vec!["v1".to_string()];
    let page = vec![
        Release { tag_name: "v2".to_string() },
        Release { tag_name: "v3".to_string() },
    ];
    let more = collect_release_tags(&mut acc, &page);
    assert!(more);
    assert_eq!(acc, vec!["v1".to_string(), "v2".to_string(), "v3".to_string()]);
    let empty: Vec<Release> = Vec::new();
    let more = collect_release_tags(&mut acc, &empty);
    assert!(!more);
    assert_eq!(acc.len(), 3);
}

#[test]
fn paging_window_arithmetic() {
    assert_eq!(total_pages(0, 10), 0);
    assert_eq!(total_pages(10, 10), 1);
    assert_eq!(total_pages(11, 10), 2);
    assert_eq!(page_bounds(25, 0, 10), (0, 10));
    assert_eq!(page_bounds(25, 2, 10), (20, 25));
}

#[test]
fn page_lines_mark_installed_versions() {
    let versions = vec!["v1.0.0".to_string(), "1.0.0".to_string(), "2.0.0".to_string()];
    let mut store = VersionStore::empty();
    store.add("1.0.0");
    let items = page_items(&versions, &store, 0, 3);
    assert_eq!(
        items,
        vec![
            "v1.0.0".to_string(),
            "1.0.0 (installed)".to_string(),
            "2.0.0".to_string()
        ]
    );
}

#[test]
fn menu_selection_maps_to_navigation() {
    assert!(matches!(page_selection(3, 10, true, true), PageNav::Chosen(3)));
    assert!(matches!(page_selection(10, 10, true, false), PageNav::NextPage));
    assert!(matches!(page_selection(10, 10, false, true), PageNav::PrevPage));
    assert!(matches!(page_selection(11, 10, true, true), PageNav::PrevPage));
    assert!(matches!(page_selection(10, 10, false, false), PageNav::OutOfRange));
    assert!(matches!(page_selection(11, 10, true, false), PageNav::OutOfRange));
    assert!(matches!(page_selection(12, 10, true, true), PageNav::OutOfRange));
}

#[test]
fn installed_menu_actions_by_position() {
    assert!(matches!(installed_version_action(0), Some(InstalledAction::SetLocal)));
    assert!(matches!(installed_version_action(1), Some(InstalledAction::SetGlobal)));
    assert!(matches!(installed_version_action(2), Some(InstalledAction::DoNothing)));
    assert!(installed_version_action(3).is_none());
}

#[test]
fn not_installed_confirmations_decide_the_plan() {
    assert!(matches!(
        not_installed_version_action(true, true),
        NotInstalledAction::Install { set_local: true }
    ));
    assert!(matches!(
        not_installed_version_action(true, false),
        NotInstalledAction::Install { set_local: false }
    ));
    assert!(matches!(not_installed_version_action(false, true), NotInstalledAction::DoNothing));
}

#[test]
fn token_lines_are_rewritten() {
    let content = "name=\"agent\"\ntoken=\"old\"\n  token=\"indented\"\nspawn=1\n";
    let out = update_token_lines(content, "new-token");
    assert_eq!(
        out,
        "name=\"agent\"\ntoken=\"new-token\"\ntoken=\"new-token\"\nspawn=1\n"
    );
}

#[test]
fn text_without_token_line_is_unchanged() {
    let content = "name=\"agent\"\nspawn=1";
    assert_eq!(update_token_lines(content, "x"), content);
    assert_eq!(update_token_lines("", "x"), "");
}

#[test]
fn identifier_helpers() {
    assert_eq!(strip_v_str("v1.2.3"), "1.2.3");
    assert_eq!(strip_v_str("vv2"), "2");
    assert_eq!(strip_v_str("1.2.3"), "1.2.3");
    assert_eq!(trim_str("  1.2.3 \n"), "1.2.3");
    assert!(is_valid_id("1.2.3"));
    assert!(!is_valid_id(""));
    assert!(!is_valid_id(" 1.2.3"));
    assert!(!is_valid_id("1.2.3 "));
    assert!(!is_valid_id("1.2\n3"));
}
