use jupytypst::notebook::{cell_source, PageSetup};
use jupytypst::repl_session::{normalize_code_statement, parse_page_setup};

#[test]
fn page_setup_default_is_injected() {
    let source = cell_source(&PageSetup::Default, "[Test]");
    assert!(source.starts_with("set page(width: auto, height: auto, margin: 16pt)"));
}

#[test]
fn page_setup_none_is_not_injected() {
    let source = cell_source(&PageSetup::Disabled, "[Test]");
    assert_eq!(source, "[Test]");
}

#[test]
fn page_setup_custom_is_injected() {
    let source = cell_source(
        &PageSetup::Custom("#set page(paper: \"a4\")".into()),
        "[Test]",
    );
    assert!(source.starts_with("set page(paper: \"a4\")"));
    assert_eq!(source, "set page(paper: \"a4\")\n[Test]");
}

#[test]
fn page_setup_parse_reads_keywords_and_code() {
    assert_eq!(PageSetup::parse(" default "), Ok(PageSetup::Default));
    assert_eq!(PageSetup::parse("none"), Ok(PageSetup::Disabled));
    assert_eq!(
        PageSetup::parse("  set page(fill: red) "),
        Ok(PageSetup::Custom("set page(fill: red)".to_string()))
    );
    let error = PageSetup::parse(" \t ").unwrap_err();
    assert_eq!(error.message(), "page setup cannot be empty");
}

#[test]
fn page_setup_option_defaults() {
    assert_eq!(parse_page_setup(None), Ok(PageSetup::Default));
    assert_eq!(parse_page_setup(Some("none")), Ok(PageSetup::Disabled));
    assert!(parse_page_setup(Some("")).is_err());
}

#[test]
fn page_setup_code_per_variant() {
    assert_eq!(
        PageSetup::Default.code(),
        Some("set page(width: auto, height: auto, margin: 16pt)")
    );
    assert_eq!(PageSetup::Disabled.code(), None);
    assert_eq!(PageSetup::Custom("x".into()).code(), Some("x"));
}

#[test]
fn code_statements_drop_hashes_then_spaces() {
    assert_eq!(normalize_code_statement("##  set page()"), "set page()");
    assert_eq!(normalize_code_statement(" #set"), "#set");
    assert_eq!(normalize_code_statement(""), "");
}
