use jupytypst::kernel::{
    error_report, language_metadata, next_execution_count, shell_reply, traceback_lines,
    warning_text, IsCompleteStatus, ShellReply, ShellRequest, JUPYTER_PROTOCOL_VERSION,
};
use jupytypst::modes::SourceMode;
use jupytypst::output::{format_diagnostics, svg_pages_html, OutputKind};

#[test]
fn traceback_splits_lines() {
    assert_eq!(traceback_lines("a\nb\r\nc\n"), vec!["a", "b", "c"]);
    assert_eq!(traceback_lines(""), vec![""]);
    assert_eq!(traceback_lines("one"), vec!["one"]);
    assert_eq!(traceback_lines("\n"), vec![""]);
}

#[test]
fn error_report_names_typst_error() {
    let report = error_report("first\nsecond");
    assert_eq!(report.ename, "TypstError");
    assert_eq!(report.evalue, "first\nsecond");
    assert_eq!(report.traceback, vec!["first", "second"]);
}

#[test]
fn language_metadata_per_mode() {
    let code = language_metadata(SourceMode::Code);
    assert_eq!(code.name, "typst-code");
    assert_eq!(code.display_name, "Typst (Code Mode)");
    assert_eq!(code.mimetype, "text/x-typst-code");
    assert_eq!(code.file_extension, ".typc");
    let markup = language_metadata(SourceMode::Markup);
    assert_eq!(markup.name, "typst");
    assert_eq!(markup.display_name, "Typst");
    assert_eq!(markup.mimetype, "text/x-typst");
    assert_eq!(markup.file_extension, ".typ");
    assert_eq!(JUPYTER_PROTOCOL_VERSION, "5.3");
}

#[test]
fn shell_replies() {
    assert!(matches!(
        shell_reply(ShellRequest::Complete(7), SourceMode::Code),
        ShellReply::Complete {
            cursor_start: 7,
            cursor_end: 7
        }
    ));
    assert!(matches!(
        shell_reply(ShellRequest::IsComplete("(".to_string()), SourceMode::Code),
        ShellReply::IsComplete(IsCompleteStatus::Incomplete)
    ));
    assert!(matches!(
        shell_reply(ShellRequest::IsComplete("let x = 1".to_string()), SourceMode::Code),
        ShellReply::IsComplete(IsCompleteStatus::Complete)
    ));
    assert!(matches!(
        shell_reply(ShellRequest::IsComplete("let x = 1 2".to_string()), SourceMode::Code),
        ShellReply::IsComplete(IsCompleteStatus::Invalid)
    ));
    assert!(matches!(
        shell_reply(ShellRequest::Shutdown(true), SourceMode::Markup),
        ShellReply::Shutdown(true)
    ));
    assert!(matches!(
        shell_reply(ShellRequest::KernelInfo, SourceMode::Markup),
        ShellReply::KernelInfo(SourceMode::Markup)
    ));
    assert!(matches!(
        shell_reply(ShellRequest::Other, SourceMode::Markup),
        ShellReply::NoReply
    ));
    assert!(matches!(
        shell_reply(ShellRequest::History, SourceMode::Markup),
        ShellReply::History
    ));
}

#[test]
fn execution_count_and_warnings() {
    assert_eq!(next_execution_count(0), 1);
    assert_eq!(next_execution_count(41), 42);
    assert_eq!(warning_text("careful"), "careful\n");
}

#[test]
fn diagnostics_are_one_per_line() {
    assert_eq!(
        format_diagnostics(&vec!["a".to_string(), "b".to_string()]),
        "a\nb"
    );
    assert_eq!(format_diagnostics(&vec![]), "");
}

#[test]
fn svg_pages_are_wrapped_one_by_one() {
    let html = svg_pages_html(&vec!["<svg>1</svg>".to_string(), "<svg>2</svg>".to_string()]);
    assert!(html.starts_with("<style>\n.jupytypst-pages {"));
    assert!(html.ends_with(
        "<div class=\"jupytypst-pages\"><div class=\"jupytypst-page\"><svg>1</svg></div><div class=\"jupytypst-page\"><svg>2</svg></div></div>"
    ));
    assert_eq!(html.matches("<svg").count(), 2);
    assert!(html.contains(".jupytypst-page > svg {\n  display: block;\n  max-width: 100%;\n  height: auto;\n}\n</style>\n"));
}

#[test]
fn plain_labels() {
    assert_eq!(OutputKind::Paged.plain_label(), "<svg>");
    assert_eq!(OutputKind::Html.plain_label(), "<html>");
}
