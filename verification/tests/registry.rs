use bap::store::VersionStore;

fn entries(store: &VersionStore) -> Vec<String> {
    store.list().clone()
}

#[test]
fn add_then_list() {
    let mut store = VersionStore::empty();
    store.add("1.0.0");
    store.add("2.0.0");
    assert_eq!(entries(&store), vec!["1.0.0".to_string(), "2.0.0".to_string()]);
}

#[test]
fn add_is_idempotent() {
    let mut once = VersionStore::empty();
    once.add("3.58.0");
    let mut twice = VersionStore::empty();
    twice.add("3.58.0");
    twice.add("3.58.0");
    assert_eq!(entries(&once), entries(&twice));
    assert_eq!(entries(&twice), vec!["3.58.0".to_string()]);
}

#[test]
fn sequence_of_ops_tracks_set() {
    let mut store = VersionStore::empty();
    store.add("1.0.0");
    store.add("2.0.0");
    store.add("1.0.0");
    store.remove("1.0.0");
    assert_eq!(entries(&store), vec!["2.0.0".to_string()]);
    store.remove("9.9.9");
    assert_eq!(entries(&store), vec!["2.0.0".to_string()]);
}

#[test]
fn parse_skips_blanks_and_duplicates() {
    let store = VersionStore::parse("1.0.0\n\n  2.0.0  \n1.0.0\n");
    assert_eq!(entries(&store), vec!["1.0.0".to_string(), "2.0.0".to_string()]);
}

#[test]
fn parse_without_trailing_newline() {
    let store = VersionStore::parse("1.0.0\n2.0.0");
    assert_eq!(entries(&store), vec!["1.0.0".to_string(), "2.0.0".to_string()]);
}

#[test]
fn parse_empty_text() {
    let store = VersionStore::parse("");
    assert!(entries(&store).is_empty());
    let blank = VersionStore::parse("\n  \n\n");
    assert!(entries(&blank).is_empty());
}

#[test]
fn render_one_per_line() {
    let mut store = VersionStore::empty();
    store.add("1.0.0");
    store.add("2.0.0");
    assert_eq!(store.render(), "1.0.0\n2.0.0\n");
}

#[test]
fn render_empty_store() {
    let store = VersionStore::empty();
    assert_eq!(store.render(), "");
}

#[test]
fn render_parse_roundtrip() {
    let mut store = VersionStore::empty();
    store.add("1.0.0");
    store.add("3.58.0");
    store.remove("1.0.0");
    store.add("2.0.0");
    let back = VersionStore::parse(&store.render());
    assert_eq!(entries(&back), entries(&store));
}

#[test]
fn contains_matches_exactly() {
    let mut store = VersionStore::empty();
    store.add("1.0.0");
    assert!(store.contains("1.0.0"));
    assert!(!store.contains("1.0"));
    assert!(!store.contains("1.0.0 "));
}
