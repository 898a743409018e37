use wzed::recent_files::{RecentFiles, MAX_RECENT_FILES};

fn make() -> RecentFiles {
    RecentFiles { entries: Vec::new(), max_entries: 3 }
}

#[test]
fn test_add_pushes_to_front() {
    let mut r = make();
    r.add("/a");
    r.add("/b");
    assert_eq!(r.entries, vec!["/b".to_string(), "/a".to_string()]);
}

#[test]
fn test_add_deduplicates() {
    let mut r = make();
    r.add("/a");
    r.add("/b");
    r.add("/a");
    assert_eq!(r.entries, vec!["/a".to_string(), "/b".to_string()]);
}

#[test]
fn test_add_truncates_at_max() {
    let mut r = make();
    r.add("/a");
    r.add("/b");
    r.add("/c");
    r.add("/d");
    assert_eq!(r.entries.len(), 3);
    assert_eq!(r.entries[0], "/d");
}

#[test]
fn test_add_same_path_moves_to_front() {
    let mut r = make();
    r.add("/a");
    r.add("/b");
    r.add("/c");
    r.add("/a");
    assert_eq!(r.entries.len(), 3);
    assert_eq!(r.entries[0], "/a");
}

#[test]
fn add_twice_is_the_same_as_once() {
    let mut once = make();
    once.add("/x");
    once.add("/y");
    let mut twice = make();
    twice.add("/x");
    twice.add("/y");
    twice.add("/y");
    assert_eq!(once.entries, twice.entries);
}

#[test]
fn add_with_zero_capacity_keeps_nothing() {
    let mut r = RecentFiles::new(0);
    r.add("/a");
    assert!(r.entries.is_empty());
}

#[test]
fn from_entries_is_cut_at_the_next_add() {
    let mut r = RecentFiles::from_entries(
        vec!["/1".to_string(), "/2".to_string(), "/3".to_string(), "/4".to_string()],
        2,
    );
    assert_eq!(r.entries.len(), 4);
    r.add("/3");
    assert_eq!(r.entries, vec!["/3".to_string(), "/1".to_string()]);
}

#[test]
fn json_round_trip() {
    let mut r = make();
    r.add("/a");
    r.add("/b \"quoted\"");
    let json = r.to_json();
    assert_eq!(json, "[\"/b \\\"quoted\\\"\",\"/a\"]");
    let back = RecentFiles::load(Some(&json));
    assert_eq!(back.entries, r.entries);
    assert_eq!(back.max_entries, MAX_RECENT_FILES);
}

#[test]
fn load_of_missing_or_bad_file_is_empty() {
    assert!(RecentFiles::load(None).entries.is_empty());
    assert!(RecentFiles::load(Some("not json")).entries.is_empty());
    assert!(RecentFiles::load(Some("{\"a\": 1}")).entries.is_empty());
    assert_eq!(RecentFiles::load(Some("[\"/z\"]")).entries, vec!["/z".to_string()]);
}

#[test]
fn add_treats_equivalent_paths_as_one() {
    let mut r = make();
    r.add("/a/b");
    r.add("/c");
    r.add("/a//b/");
    assert_eq!(r.entries, vec!["/a//b/".to_string(), "/c".to_string()]);
}
