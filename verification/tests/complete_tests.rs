use qurious_shell::buffer::EditBuffer;
use qurious_shell::complete::ShellCompleter;

fn vocab() -> ShellCompleter {
    ShellCompleter::with_vocabulary(vec![
        "select".to_owned(),
        "set".to_owned(),
        "from".to_owned(),
        "users".to_owned(),
    ])
}

#[test]
fn completes_token_before_cursor() {
    let c = vocab();
    let (start, cands) = c.complete("se", 2);
    assert_eq!(start, 0);
    assert_eq!(cands, vec!["select".to_owned(), "set".to_owned()]);
}

#[test]
fn token_starts_after_non_word_character() {
    let c = vocab();
    let (start, cands) = c.complete("select * fr", 11);
    assert_eq!(start, 9);
    assert_eq!(cands, vec!["from".to_owned()]);
}

#[test]
fn empty_token_offers_whole_vocabulary() {
    let c = vocab();
    let (start, cands) = c.complete("select ", 7);
    assert_eq!(start, 7);
    assert_eq!(cands.len(), 4);
}

#[test]
fn no_candidate_for_unknown_prefix() {
    let c = vocab();
    let (start, cands) = c.complete("zzz", 3);
    assert_eq!(start, 0);
    assert!(cands.is_empty());
}

#[test]
fn empty_completer_offers_nothing() {
    let c = ShellCompleter::new();
    let (start, cands) = c.complete("se", 2);
    assert_eq!(start, 0);
    assert!(cands.is_empty());
}

#[test]
fn applying_candidate_places_cursor_after_it() {
    let c = vocab();
    let mut b = EditBuffer::new();
    for ch in "se * from t".chars() {
        b.insert_char(ch);
    }
    // Move the cursor back to just after "se".
    for _ in 0..9 {
        b.move_left();
    }
    assert_eq!(b.cursor(), 2);
    c.update(&mut b, 0, "select");
    assert_eq!(b.to_text(), "select * from t".to_owned());
    assert_eq!(b.cursor(), 0 + "select".chars().count());
}

#[test]
fn applying_candidate_leaves_rest_untouched() {
    let c = vocab();
    let mut b = EditBuffer::new();
    for ch in "ab XY cd".chars() {
        b.insert_char(ch);
    }
    for _ in 0..3 {
        b.move_left();
    }
    assert_eq!(b.cursor(), 5);
    c.update(&mut b, 3, "LONGER");
    assert_eq!(b.to_text(), "ab LONGER cd".to_owned());
    assert_eq!(b.cursor(), 3 + "LONGER".chars().count());
}

#[test]
fn vocabulary_candidates_come_before_history_tokens() {
    let mut c = vocab();
    c.set_history_tokens(vec!["sessions".to_owned(), "users_old".to_owned()]);
    let (start, cands) = c.complete("se", 2);
    assert_eq!(start, 0);
    // Domain keywords first, history-derived tokens after them.
    assert_eq!(
        cands,
        vec!["select".to_owned(), "set".to_owned(), "sessions".to_owned()]
    );
}

#[test]
fn history_tokens_can_change_between_calls() {
    let mut c = ShellCompleter::new();
    c.set_history_tokens(vec!["orders".to_owned()]);
    let (_, cands) = c.complete("or", 2);
    assert_eq!(cands, vec!["orders".to_owned()]);
    c.set_history_tokens(vec![]);
    let (_, cands2) = c.complete("or", 2);
    assert!(cands2.is_empty());
}

#[test]
fn vocabulary_can_change_between_calls() {
    let mut c = ShellCompleter::new();
    c.set_vocabulary(vec!["tables".to_owned()]);
    let (_, cands) = c.complete("ta", 2);
    assert_eq!(cands, vec!["tables".to_owned()]);
    c.set_vocabulary(vec!["tally".to_owned()]);
    let (_, cands2) = c.complete("ta", 2);
    assert_eq!(cands2, vec!["tally".to_owned()]);
}
