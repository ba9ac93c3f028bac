use qurious_shell::history::Direction;
use qurious_shell::history::HistoryStore;

#[test]
fn append_skips_empty_and_consecutive_duplicates() {
    let mut h = HistoryStore::new();
    h.append("");
    assert_eq!(h.len(), 0);
    h.append("a");
    h.append("a");
    assert_eq!(h.len(), 1);
    h.append("b");
    h.append("a");
    assert_eq!(h.len(), 3);
    assert_eq!(h.entry_at(0), "a".to_owned());
    assert_eq!(h.entry_at(1), "b".to_owned());
    assert_eq!(h.entry_at(2), "a".to_owned());
}

#[test]
fn no_two_consecutive_identical_entries_ever() {
    let mut h = HistoryStore::new();
    for text in ["x", "x", "y", "y", "y", "x", ""] {
        h.append(text);
    }
    assert_eq!(h.len(), 3);
    for i in 1..h.len() {
        assert_ne!(h.entry_at(i), h.entry_at(i - 1));
    }
}

#[test]
fn navigate_walks_older_and_newer() {
    let mut h = HistoryStore::new();
    h.append("first");
    h.append("second");
    assert_eq!(h.navigate(Direction::Older), Some("second".to_owned()));
    assert_eq!(h.navigate(Direction::Older), Some("first".to_owned()));
    assert_eq!(h.navigate(Direction::Newer), Some("second".to_owned()));
    // Newer past the newest entry: back to the live buffer.
    assert_eq!(h.navigate(Direction::Newer), None);
}

#[test]
fn navigate_is_stable_at_the_oldest_boundary() {
    let mut h = HistoryStore::new();
    h.append("only");
    assert_eq!(h.navigate(Direction::Older), Some("only".to_owned()));
    // Repeated "older" at the oldest entry: the boundary signal, and the
    // cursor is not corrupted — "newer" still walks back out.
    assert_eq!(h.navigate(Direction::Older), None);
    assert_eq!(h.navigate(Direction::Older), None);
    assert_eq!(h.navigate(Direction::Newer), None);
}

#[test]
fn navigate_on_empty_store() {
    let mut h = HistoryStore::new();
    assert_eq!(h.navigate(Direction::Older), None);
    assert_eq!(h.navigate(Direction::Newer), None);
}

#[test]
fn reset_navigation_returns_to_end() {
    let mut h = HistoryStore::new();
    h.append("a");
    h.append("b");
    assert_eq!(h.navigate(Direction::Older), Some("b".to_owned()));
    h.reset_navigation();
    assert_eq!(h.navigate(Direction::Older), Some("b".to_owned()));
}

#[test]
fn search_scans_backward_and_repeats_further_back() {
    let mut h = HistoryStore::new();
    h.append("select a");
    h.append("drop b");
    h.append("select c");
    assert_eq!(h.search("select"), Some("select c".to_owned()));
    assert_eq!(h.search("select"), Some("select a".to_owned()));
    assert_eq!(h.search("select"), None);
}

#[test]
fn search_finds_substring_anywhere() {
    let mut h = HistoryStore::new();
    h.append("insert into logs");
    assert_eq!(h.search("to lo"), Some("insert into logs".to_owned()));
    let mut h2 = HistoryStore::new();
    h2.append("abc");
    assert_eq!(h2.search("zzz"), None);
}
