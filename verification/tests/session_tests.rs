use qurious_shell::complete::ShellCompleter;
use qurious_shell::highlight::ShellHighlighter;
use qurious_shell::keymap::default_bindings;
use qurious_shell::keymap::EditCommand;
use qurious_shell::keymap::KeyChord;
use qurious_shell::session::Session;
use qurious_shell::session::SessionState;
use qurious_shell::session::SubmitOutcome;

fn fresh() -> Session {
    Session::new(">> ", ".. ")
}

#[test]
fn balanced_single_line_submits_immediately() {
    let mut s = fresh();
    let r = s.submit_line("select (1 + 2) from t;");
    assert_eq!(r, SubmitOutcome::Evaluate("select (1 + 2) from t;".to_owned()));
    assert_eq!(s.state(), SessionState::Evaluating);
}

#[test]
fn empty_line_alone_is_complete() {
    let mut s = fresh();
    let r = s.submit_line("");
    assert_eq!(r, SubmitOutcome::Evaluate(String::new()));
}

#[test]
fn split_input_requests_exactly_n_minus_one_continuations() {
    // Three lines; only the concatenation is balanced: two continuations.
    let mut s = fresh();
    assert_eq!(s.submit_line("select ("), SubmitOutcome::Continue);
    assert_eq!(s.prompt(), ".. ".to_owned());
    assert_eq!(s.submit_line("1, 2"), SubmitOutcome::Continue);
    assert_eq!(s.prompt(), ".. ".to_owned());
    assert_eq!(
        s.submit_line(")"),
        SubmitOutcome::Evaluate("select (\n1, 2\n)".to_owned())
    );
}

#[test]
fn bracket_only_policy_submits_first_line() {
    // Both lines are bracket-balanced on their own, so under the pure
    // bracket policy implemented here the first line submits at once; the
    // continuation line is a statement of its own.
    let mut s = fresh();
    let r = s.submit_line("select * from");
    assert_eq!(r, SubmitOutcome::Evaluate("select * from".to_owned()));
    s.finish_evaluation();
    let r2 = s.submit_line("users;");
    assert_eq!(r2, SubmitOutcome::Evaluate("users;".to_owned()));
}

#[test]
fn open_paren_continues_then_submits() {
    let mut s = fresh();
    let r = s.submit_line("select (1, 2");
    assert_eq!(r, SubmitOutcome::Continue);
    assert_eq!(s.state(), SessionState::AwaitingContinuation);
    assert_eq!(s.prompt(), ".. ".to_owned());
    // The appended closers settle the statement: the extra closer is a
    // reported defect that no further line can repair, so it submits.
    let r2 = s.submit_line("));");
    assert_eq!(
        r2,
        SubmitOutcome::EvaluateDefective("select (1, 2\n));".to_owned())
    );
    assert_eq!(s.state(), SessionState::Evaluating);
}

#[test]
fn interrupt_with_pending_clears_and_returns_to_primary_prompt() {
    let mut s = fresh();
    assert_eq!(s.submit_line("select ("), SubmitOutcome::Continue);
    let exited = s.interrupt();
    assert!(!exited);
    assert_eq!(s.state(), SessionState::Reading);
    assert_eq!(s.prompt(), ">> ".to_owned());
    // Nothing was submitted: the history stayed empty.
    s.submit_line("x");
    s.finish_evaluation();
    let older = s.navigate_history(qurious_shell::history::Direction::Older);
    assert_eq!(older, Some("x".to_owned()));
    let older2 = s.navigate_history(qurious_shell::history::Direction::Older);
    assert_eq!(older2, None);
}

#[test]
fn interrupt_with_nothing_held_terminates() {
    let mut s = fresh();
    let exited = s.interrupt();
    assert!(exited);
    assert_eq!(s.state(), SessionState::Terminated);
}

#[test]
fn end_of_input_terminates() {
    let mut s = fresh();
    s.end_of_input();
    assert_eq!(s.state(), SessionState::Terminated);
}

#[test]
fn finish_evaluation_records_history_and_resets() {
    let mut s = fresh();
    s.submit_line("select 1;");
    s.finish_evaluation();
    assert_eq!(s.state(), SessionState::Reading);
    let older = s.navigate_history(qurious_shell::history::Direction::Older);
    assert_eq!(older, Some("select 1;".to_owned()));
}

#[test]
fn evaluated_statement_is_recorded_whole_not_per_line() {
    let mut s = fresh();
    s.submit_line("select (");
    s.submit_line(")");
    s.finish_evaluation();
    let older = s.navigate_history(qurious_shell::history::Direction::Older);
    assert_eq!(older, Some("select (\n)".to_owned()));
    let older2 = s.navigate_history(qurious_shell::history::Direction::Older);
    assert_eq!(older2, None);
}

#[test]
fn typing_edits_live_buffer() {
    let mut s = fresh();
    s.insert_char('a');
    s.insert_char('b');
    s.backspace();
    let (text, cursor) = s.line();
    assert_eq!(text, "a".to_owned());
    assert_eq!(cursor, 1);
}

#[test]
fn search_recalls_matching_entry() {
    let mut s = fresh();
    for stmt in ["select 1;", "insert into t;", "select 2;"] {
        s.submit_line(stmt);
        s.finish_evaluation();
    }
    assert_eq!(s.search_history("select"), Some("select 2;".to_owned()));
    assert_eq!(s.search_history("select"), Some("select 1;".to_owned()));
    assert_eq!(s.search_history("select"), None);
}

#[test]
fn session_owns_its_configuration() {
    let mut s = Session::with_config(
        "> ",
        ". ",
        ShellHighlighter::new(),
        ShellCompleter::with_vocabulary(vec!["select".to_owned()]),
        default_bindings(),
    );
    let (start, cands) = s.completer().complete("se", 2);
    assert_eq!(start, 0);
    assert_eq!(cands, vec!["select".to_owned()]);
    s.set_vocabulary(vec!["settings".to_owned()]);
    let (_, cands2) = s.completer().complete("se", 2);
    assert_eq!(cands2, vec!["settings".to_owned()]);
    s.set_history_tokens(vec!["servers".to_owned()]);
    let (_, cands3) = s.completer().complete("se", 2);
    assert_eq!(cands3, vec!["settings".to_owned(), "servers".to_owned()]);
    let submit = s.bindings().resolve(KeyChord { ctrl: false, alt: false, ch: '\n' });
    assert_eq!(submit, EditCommand::Submit);
    let out = s.highlighter().highlight("from", 0);
    assert_eq!(out, "\u{1b}[1;31mfrom\u{1b}[0m".to_owned());
}

#[test]
fn default_session_highlights_the_default_keywords() {
    let s = fresh();
    // The default configuration is pinned: exactly `select` and `from`.
    assert_eq!(s.highlighter().keyword_count(), 2);
    let out = s.highlighter().highlight("select x", 4);
    assert_eq!(out, "\u{1b}[1;31mselect\u{1b}[0m x".to_owned());
    let out2 = s.highlighter().highlight("update x", 4);
    assert_eq!(out2, "update x".to_owned());
}
