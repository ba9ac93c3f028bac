use qurious_shell::highlight::styled_hint;
use qurious_shell::highlight::ShellHighlighter;

const KW: &str = "\u{1b}[1;31m";
const MATCHED: &str = "\u{1b}[1;34m";
const ERROR: &str = "\u{1b}[91m";
const RESET: &str = "\u{1b}[0m";

#[test]
fn keyword_is_decorated() {
    let h = ShellHighlighter::new();
    let out = h.highlight("from", 0);
    assert_eq!(out, format!("{KW}from{RESET}"));
}

#[test]
fn keyword_inside_longer_identifier_is_not_decorated() {
    let h = ShellHighlighter::new();
    // "from" occurs in "fromage" but is part of a longer identifier.
    assert_eq!(h.highlight("fromage", 0), "fromage".to_owned());
    assert_eq!(h.highlight("age_from", 0), "age_from".to_owned());
    assert_eq!(h.highlight("xselectx", 0), "xselectx".to_owned());
}

#[test]
fn whole_word_occurrence_in_context_is_decorated() {
    let h = ShellHighlighter::new();
    let out = h.highlight("x from y", 0);
    assert_eq!(out, format!("x {KW}from{RESET} y"));
}

#[test]
fn matched_brackets_under_cursor_are_decorated() {
    let h = ShellHighlighter::new();
    let out = h.highlight("(a)", 0);
    assert_eq!(out, format!("{MATCHED}({RESET}a{MATCHED}){RESET}"));
}

#[test]
fn unmatched_bracket_under_cursor_gets_error_style() {
    let h = ShellHighlighter::new();
    let out = h.highlight("(a", 0);
    assert_eq!(out, format!("{ERROR}({RESET}a"));
}

#[test]
fn bracket_before_cursor_counts_as_adjacent() {
    let h = ShellHighlighter::new();
    let out = h.highlight("()", 2);
    assert_eq!(out, format!("{MATCHED}({RESET}{MATCHED}){RESET}"));
}

#[test]
fn quoted_bracket_has_no_partner() {
    let h = ShellHighlighter::new();
    // The closer is inside quotes, so the opener under the cursor is
    // unmatched.
    let out = h.highlight("(')'", 0);
    assert_eq!(out, format!("{ERROR}({RESET}')'"));
}

#[test]
fn keywords_and_brackets_compose() {
    let h = ShellHighlighter::new();
    let out = h.highlight("select (x)", 7);
    assert_eq!(
        out,
        format!("{KW}select{RESET} {MATCHED}({RESET}x{MATCHED}){RESET}")
    );
}

#[test]
fn highlight_char_triggers() {
    let h = ShellHighlighter::new();
    // Forced always re-renders.
    assert!(h.highlight_char("abc", 1, true));
    // A bracket at the position re-renders.
    assert!(h.highlight_char("a(b", 1, false));
    // Within or adjacent to a keyword span.
    assert!(h.highlight_char("a from b", 3, false));
    assert!(h.highlight_char("from", 4, false));
    // A plain character nowhere near a keyword does not.
    assert!(!h.highlight_char("abc", 1, false));
    assert!(!h.highlight_char("fromage!", 2, false));
}

#[test]
fn malformed_keywords_are_dropped() {
    let h = ShellHighlighter::from_keywords(vec![
        "ok".to_owned(),
        "".to_owned(),
        "no way".to_owned(),
    ]);
    assert_eq!(h.keyword_count(), 1);
    assert_eq!(h.highlight("ok", 0), format!("{KW}ok{RESET}"));
    assert_eq!(h.highlight("no way", 0), "no way".to_owned());
}

#[test]
fn hint_is_wrapped_in_bold() {
    assert_eq!(styled_hint("tail"), "\u{1b}[1mtail\u{1b}[m".to_owned());
    assert_eq!(styled_hint(""), "\u{1b}[1m\u{1b}[m".to_owned());
}
