use jupytypst::cell::{parse_cell, CellError, ParsedCell};
use jupytypst::modes::RenderMode;
use jupytypst::notebook::{self, Mode};

#[test]
fn parses_comment_mode_directive() {
    let cell = notebook::parse_cell("// jupytypst: mode=svg\n[Test]", Mode::Svg).unwrap();
    assert_eq!(cell.mode, Mode::Svg);
    assert_eq!(cell.body, "[Test]");
}

#[test]
fn rejects_eval_mode() {
    let error = notebook::parse_cell("// jupytypst: mode=eval\n1 + 2", Mode::Svg).unwrap_err();
    assert!(error.message().contains("mode=eval"));
}

#[test]
fn default_mode_is_svg() {
    let cell = notebook::parse_cell("[Test]", Mode::Svg).unwrap();
    assert_eq!(cell.mode, Mode::Svg);
}

#[test]
fn legacy_mode_directive_selects_html() {
    let cell = notebook::parse_cell("// jupytypst: mode=html\n[x]", Mode::Svg).unwrap();
    assert_eq!(cell.mode, Mode::Html);
    assert_eq!(cell.body, "[x]");
}

#[test]
fn legacy_unknown_mode_is_refused() {
    let error = notebook::parse_cell("// jupytypst: mode=pdf\n[x]", Mode::Svg).unwrap_err();
    assert_eq!(error, CellError::UnsupportedMode("pdf".to_string()));
    assert_eq!(error.message(), "unsupported jupytypst mode `pdf`");
}

#[test]
fn legacy_format_directive_is_unsupported() {
    let error = notebook::parse_cell("// jupytypst: format=svg\n[x]", Mode::Svg).unwrap_err();
    assert_eq!(error.message(), "unsupported jupytypst directive `format=svg`");
}

#[test]
fn format_directive_switches_to_html() {
    let cell = parse_cell("// jupytypst: format=html\ntest", RenderMode::Svg).unwrap();
    assert_eq!(
        cell,
        ParsedCell {
            mode: RenderMode::Html,
            body: "test".to_string()
        }
    );
}

#[test]
fn format_directive_switches_to_svg() {
    let cell = parse_cell("// jupytypst: format=svg\ntest", RenderMode::Html).unwrap();
    assert_eq!(cell.mode, RenderMode::Svg);
    assert_eq!(cell.body, "test");
}

#[test]
fn cell_without_directive_keeps_default_and_whole_source() {
    let cell = parse_cell("let x = 1\n// jupytypst: format=html\n", RenderMode::Html).unwrap();
    assert_eq!(cell.mode, RenderMode::Html);
    assert_eq!(cell.body, "let x = 1\n// jupytypst: format=html\n");
}

#[test]
fn leading_blank_lines_and_spaces_are_consumed() {
    let cell = parse_cell("\n  \n\t// jupytypst:   format=  html  \r\n  body\n", RenderMode::Svg)
        .unwrap();
    assert_eq!(cell.mode, RenderMode::Html);
    assert_eq!(cell.body, "  body\n");
}

#[test]
fn last_directive_wins() {
    let cell = parse_cell(
        "// jupytypst: format=html\n// jupytypst: format=svg\n[x]",
        RenderMode::Html,
    )
    .unwrap();
    assert_eq!(cell.mode, RenderMode::Svg);
    assert_eq!(cell.body, "[x]");
}

#[test]
fn unsupported_format_is_refused() {
    let error = parse_cell("// jupytypst: format=pdf\n[x]", RenderMode::Svg).unwrap_err();
    assert_eq!(error, CellError::UnsupportedFormat("pdf".to_string()));
    assert_eq!(error.message(), "unsupported jupytypst format `pdf`");
}

#[test]
fn unsupported_directive_is_refused() {
    let error = parse_cell("// jupytypst:  theme=dark \n[x]", RenderMode::Svg).unwrap_err();
    assert_eq!(error, CellError::UnsupportedDirective("theme=dark".to_string()));
    assert_eq!(error.message(), "unsupported jupytypst directive `theme=dark`");
}

#[test]
fn blank_cell_has_empty_body() {
    let cell = parse_cell("\n\u{3000}\n", RenderMode::Svg).unwrap();
    assert_eq!(cell.mode, RenderMode::Svg);
    assert_eq!(cell.body, "");
    let cell = parse_cell("", RenderMode::Html).unwrap();
    assert_eq!(cell.mode, RenderMode::Html);
    assert_eq!(cell.body, "");
}

#[test]
fn directive_only_cell_has_empty_body() {
    let cell = parse_cell("// jupytypst: format=html", RenderMode::Svg).unwrap();
    assert_eq!(cell.mode, RenderMode::Html);
    assert_eq!(cell.body, "");
}

#[test]
fn reparsing_a_body_gives_the_same_cell() {
    let source = "\n// jupytypst: format=html\n  \n= Title\n// jupytypst: format=svg\n";
    let cell = parse_cell(source, RenderMode::Svg).unwrap();
    assert_eq!(cell.mode, RenderMode::Html);
    assert_eq!(cell.body, "= Title\n// jupytypst: format=svg\n");
    assert!(source.ends_with(cell.body.as_str()));
    let again = parse_cell(&cell.body, cell.mode).unwrap();
    assert_eq!(again, ParsedCell { mode: RenderMode::Html, body: cell.body.clone() });
}
