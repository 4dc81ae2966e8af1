use google_dork_builder::history::History;

#[test]
fn append_adds_new_entries_in_order() {
    let mut h = History::new();
    assert!(h.append("site:a"));
    assert!(h.append("site:b"));
    assert_eq!(h.entries, vec!["site:a", "site:b"]);
}

#[test]
fn append_same_candidate_twice_keeps_one_copy() {
    let mut h = History::new();
    assert!(h.append("filetype:env"));
    assert!(!h.append("filetype:env"));
    assert_eq!(h.entries.iter().filter(|e| *e == "filetype:env").count(), 1);
    assert_eq!(h.entries.len(), 1);
}

#[test]
fn append_empty_never_changes_history() {
    let mut h = History::new();
    assert!(!h.append(""));
    assert_eq!(h.entries.len(), 0);
    h.append("site:a");
    assert!(!h.append(""));
    assert_eq!(h.entries, vec!["site:a"]);
}

#[test]
fn append_existing_entry_is_noop() {
    let mut h = History::new();
    h.append("a");
    h.append("b");
    assert!(!h.append("a"));
    assert_eq!(h.entries, vec!["a", "b"]);
}

#[test]
fn contains_and_get() {
    let mut h = History::new();
    h.append("x");
    assert!(h.contains("x"));
    assert!(!h.contains("y"));
    assert_eq!(h.get(0).map(|s| s.as_str()), Some("x"));
    assert!(h.get(1).is_none());
    assert_eq!(h.len(), 1);
}

#[test]
fn from_entries_keeps_first_occurrences() {
    let stored = vec!["x".to_string(), "y".to_string(), "x".to_string()];
    let h = History::from_entries(stored);
    assert_eq!(h.entries, vec!["x", "y"]);
}

#[test]
fn load_from_missing_content_is_empty() {
    let h = History::load_from(None);
    assert_eq!(h.entries.len(), 0);
}

#[test]
fn load_from_corrupt_content_is_empty() {
    let h = History::load_from(Some("not json at all"));
    assert_eq!(h.entries.len(), 0);
    let h2 = History::load_from(Some("{\"wrong\": \"shape\"}"));
    assert_eq!(h2.entries.len(), 0);
}

#[test]
fn json_round_trip_preserves_entries() {
    let mut h = History::new();
    h.append("site:example.com");
    h.append("filetype:pdf");
    let text = h.to_json();
    let back = History::load_from(Some(&text));
    assert_eq!(back.entries, h.entries);
}

#[test]
fn to_json_is_a_pretty_array() {
    let mut h = History::new();
    h.append("a");
    assert_eq!(h.to_json(), "[\n  \"a\"\n]");
}
