use jupytypst::input::InputStatus;
use jupytypst::capture::{anonymous_show_warning, rule_move, CaptureMove, CapturePolicy, RuleKind};
use jupytypst::layout::{layout_step, round_step, LayoutStep, RoundStep};
use jupytypst::persist::{is_transient_page_property, persistent_style_mask};
use jupytypst::repl::{
    handle_command, handle_line, help_lines, prompt, settle_buffer, unknown_command_message,
    ReplAction,
};

#[test]
fn lines_gather_until_complete() {
    let mut buffer = String::new();
    assert_eq!(handle_line(&mut buffer, "let f(a, b) = {"), ReplAction::Continue);
    assert_eq!(buffer, "let f(a, b) = {\n");
    assert_eq!(
        handle_line(&mut buffer, "a + b }"),
        ReplAction::Execute("let f(a, b) = {\na + b }\n".to_string())
    );
    assert_eq!(buffer, "");
}

#[test]
fn invalid_input_runs_to_show_its_error() {
    let mut buffer = String::new();
    assert_eq!(
        handle_line(&mut buffer, "let x = 1 2"),
        ReplAction::Execute("let x = 1 2\n".to_string())
    );
    assert_eq!(buffer, "");
}

#[test]
fn commands() {
    let mut buffer = "(\n".to_string();
    assert_eq!(handle_line(&mut buffer, ".help"), ReplAction::ShowHelp);
    assert_eq!(
        handle_line(&mut buffer, ".run"),
        ReplAction::Execute("(\n".to_string())
    );
    assert_eq!(buffer, "");
    assert_eq!(handle_command(".run", &mut buffer), ReplAction::Continue);
    buffer.push_str("x\n");
    assert_eq!(handle_command(".clear", &mut buffer), ReplAction::Continue);
    assert_eq!(buffer, "");
    assert_eq!(handle_command(".quit", &mut buffer), ReplAction::Exit);
    assert_eq!(handle_command(".exit", &mut buffer), ReplAction::Exit);
    assert_eq!(
        handle_command(".nope", &mut buffer),
        ReplAction::UnknownCommand(".nope".to_string())
    );
    assert_eq!(unknown_command_message(".nope"), "unknown command `.nope`");
    assert_eq!(help_lines().len(), 4);
}

#[test]
fn settle_keeps_unfinished_buffers() {
    let mut buffer = "(\n".to_string();
    assert_eq!(
        settle_buffer(&mut buffer, &InputStatus::Incomplete("unclosed".into())),
        ReplAction::Continue
    );
    assert_eq!(buffer, "(\n");
    assert_eq!(
        settle_buffer(&mut buffer, &InputStatus::Invalid("bad".into())),
        ReplAction::Execute("(\n".to_string())
    );
    assert_eq!(buffer, "");
}

#[test]
fn prompts() {
    assert_eq!(prompt(false), "typst> ");
    assert_eq!(prompt(true), "....> ");
}

#[test]
fn layout_rounds() {
    assert_eq!(layout_step(0, true), LayoutStep::Done);
    assert_eq!(layout_step(0, false), LayoutStep::Again);
    assert_eq!(layout_step(4, false), LayoutStep::DoneUnconverged);
    assert_eq!(round_step(1, false, true), RoundStep::Fail);
    assert_eq!(round_step(1, true, false), RoundStep::Retry);
    assert_eq!(round_step(4, true, false), RoundStep::Finish);
    assert_eq!(round_step(2, true, true), RoundStep::Finish);
}

#[test]
fn show_rules_and_set_rules() {
    let shown = |anonymous| RuleKind::ShowRule { anonymous };
    assert_eq!(rule_move(CapturePolicy::Persistent, shown(true)), CaptureMove::Warn);
    assert_eq!(rule_move(CapturePolicy::Persistent, shown(false)), CaptureMove::Keep);
    assert_eq!(rule_move(CapturePolicy::Persistent, RuleKind::SetRule), CaptureMove::KeepFiltered);
    assert_eq!(rule_move(CapturePolicy::Local, shown(true)), CaptureMove::Keep);
    assert_eq!(rule_move(CapturePolicy::Local, RuleKind::SetRule), CaptureMove::Keep);
    assert_eq!(rule_move(CapturePolicy::Cells, shown(true)), CaptureMove::Keep);
    assert_eq!(rule_move(CapturePolicy::Cells, RuleKind::SetRule), CaptureMove::KeepFiltered);
    assert_eq!(rule_move(CapturePolicy::Off, RuleKind::SetRule), CaptureMove::Nothing);
    assert_eq!(rule_move(CapturePolicy::Off, shown(true)), CaptureMove::Nothing);
    assert_eq!(
        anonymous_show_warning(),
        "jupytypst: anonymous `show: ...` rules are cell-local and are not persisted"
    );
}

#[test]
fn page_sizing_is_transient() {
    assert!(is_transient_page_property("page", "width"));
    assert!(is_transient_page_property("page", "paper"));
    assert!(is_transient_page_property("page", "height"));
    assert!(!is_transient_page_property("page", "fill"));
    assert!(!is_transient_page_property("text", "width"));
    let mask = persistent_style_mask(&vec![
        Some(("page".to_string(), "width".to_string())),
        Some(("page".to_string(), "fill".to_string())),
        None,
    ]);
    assert_eq!(mask, vec![false, true, true]);
}
