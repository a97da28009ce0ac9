use jupytypst::input::{classify_input, classify_messages, is_incomplete_input, InputStatus};
use jupytypst::modes::SourceMode;
use jupytypst::repl_session;

#[test]
fn tests_classifies_complete_input() {
    assert_eq!(
        classify_input("let x = 1", SourceMode::Code),
        InputStatus::Complete
    );
}

#[test]
fn tests_classifies_incomplete_input() {
    assert!(matches!(
        classify_input("(", SourceMode::Code),
        InputStatus::Incomplete(_)
    ));
    assert!(matches!(
        classify_input("\"abc", SourceMode::Code),
        InputStatus::Incomplete(_)
    ));
}

#[test]
fn tests_classifies_invalid_input() {
    assert!(matches!(
        classify_input("let x = 1 2", SourceMode::Code),
        InputStatus::Invalid(_)
    ));
}

#[test]
fn lib_classifies_complete_input() {
    assert_eq!(repl_session::classify_input("let x = 1"), InputStatus::Complete);
}

#[test]
fn lib_classifies_incomplete_input() {
    assert!(matches!(
        repl_session::classify_input("("),
        InputStatus::Incomplete(_)
    ));
    assert!(matches!(
        repl_session::classify_input("\"abc"),
        InputStatus::Incomplete(_)
    ));
}

#[test]
fn lib_classifies_invalid_input() {
    assert!(matches!(
        repl_session::classify_input("let x = 1 2"),
        InputStatus::Invalid(_)
    ));
}

#[test]
fn markup_input_is_classified_as_markup() {
    assert_eq!(
        classify_input("Hello *world*", SourceMode::Markup),
        InputStatus::Complete
    );
    assert!(matches!(
        classify_input("#let x = (", SourceMode::Markup),
        InputStatus::Incomplete(_)
    ));
}

#[test]
fn incomplete_prefixes_are_recognised_after_trimming() {
    assert!(is_incomplete_input("  unclosed delimiter"));
    assert!(is_incomplete_input("expected colon"));
    assert!(!is_incomplete_input("expected expression"));
    assert!(repl_session::is_incomplete_input("expected expression"));
    assert!(!is_incomplete_input("unexpected end"));
}

#[test]
fn messages_are_joined_by_lines() {
    let status = classify_messages(&vec!["unclosed string".to_string(), "x".to_string()]);
    assert_eq!(status, InputStatus::Incomplete("unclosed string\nx".to_string()));
    let status = classify_messages(&vec!["x".to_string(), "unclosed string".to_string()]);
    assert_eq!(status, InputStatus::Invalid("x\nunclosed string".to_string()));
    assert_eq!(classify_messages(&vec![]), InputStatus::Complete);
}
