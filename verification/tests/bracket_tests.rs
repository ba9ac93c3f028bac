use qurious_shell::bracket::is_balanced;
use qurious_shell::bracket::validate;
use qurious_shell::bracket::ValidationOutcome;

#[test]
fn balanced_simple_inputs() {
    assert!(is_balanced(""));
    assert!(is_balanced("select 1;"));
    assert!(is_balanced("select (1 + 2) from t;"));
    assert!(is_balanced("f([{x}])"));
    assert!(is_balanced("'(' and \")\" are quoted"));
}

#[test]
fn unbalanced_open_brackets() {
    assert!(!is_balanced("select (1, 2"));
    assert!(!is_balanced("["));
    assert!(!is_balanced("{[("));
}

#[test]
fn unbalanced_extra_or_mismatched_closer() {
    assert!(!is_balanced(")"));
    assert!(!is_balanced("(]"));
    assert!(!is_balanced("select 1)"));
}

#[test]
fn unterminated_quote_is_unbalanced() {
    assert!(!is_balanced("select 'abc"));
    assert!(!is_balanced("\"half"));
    assert!(is_balanced("'done'"));
}

#[test]
fn brackets_inside_quotes_are_ignored() {
    assert!(is_balanced("'(['"));
    assert!(is_balanced("\"}\""));
    assert!(!is_balanced("('" ));
}

#[test]
fn validate_complete() {
    assert_eq!(validate("select 1;"), ValidationOutcome::Complete);
    assert_eq!(validate(""), ValidationOutcome::Complete);
}

#[test]
fn validate_incomplete() {
    assert_eq!(validate("select (1,"), ValidationOutcome::Incomplete);
    assert_eq!(validate("select 'ab"), ValidationOutcome::Incomplete);
}

#[test]
fn validate_defect() {
    assert_eq!(validate("select 1)"), ValidationOutcome::CompleteWithDefect);
    assert_eq!(validate("(]"), ValidationOutcome::CompleteWithDefect);
}
