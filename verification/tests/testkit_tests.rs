use jupytypst::modes::{RenderMode, SourceMode, WorldOptions};
use jupytypst::output::OutputKind;
use jupytypst::testkit::{
    normalize_snapshot, normalize_workspace_packages, write_block, write_execute,
    write_execute_raw, write_execution_result, write_init, write_request_header,
    ExecutionSnapshot, Fixture, KernelCase, KernelInit, Request,
};

#[test]
fn kernel_init_builders() {
    let init = KernelInit::new(RenderMode::Html, SourceMode::Code);
    assert_eq!(init.default_format, RenderMode::Html);
    assert_eq!(init.source_mode, SourceMode::Code);
    assert_eq!(init.page_setup, "set page(width: auto, height: auto, margin: 16pt)");
    let init = init.with_page_setup("".to_string());
    assert_eq!(init.page_setup, "");
    let mut options = WorldOptions::default();
    options.inputs.push(("name".to_string(), "typst".to_string()));
    let init = init.with_world_options(options);
    assert_eq!(init.world_options.inputs.len(), 1);
    let default = KernelInit::default();
    assert_eq!(default.default_format, RenderMode::Svg);
    assert_eq!(default.source_mode, SourceMode::Markup);
}

#[test]
fn blocks_are_fenced_and_indented() {
    let mut s = String::new();
    write_block(&mut s, "input", "typ", "a\nb");
    assert_eq!(s, "input: |\n  ```typ\n  a\n  b\n  ```\n");
    let mut s = String::new();
    write_block(&mut s, "input", "typ", "a\n");
    assert_eq!(s, "input: |\n  ```typ\n  a\n\n  ```\n");
    let mut s = String::new();
    write_block(&mut s, "x", "text", "");
    assert_eq!(s, "x: |\n  ```text\n  ```\n");
}

#[test]
fn init_header_lists_configuration_and_fixtures() {
    let case = KernelCase {
        init: KernelInit::new(RenderMode::Svg, SourceMode::Markup).with_page_setup("p".to_string()),
        fixtures: vec![Fixture {
            path: "defs.typ",
            contents: "#let f() = 1",
        }],
        requests: vec![Request::Execute { input: "x" }],
    };
    let mut s = String::new();
    write_init(&mut s, &case);
    assert_eq!(
        s,
        "init:\n  default_format: Svg\n  source_mode: Markup\n  page_setup: |\n  ```typc\n  p\n  ```\n  inputs: []\nfixtures:\n  - path: defs.typ\n    contents: |\n  ```typ\n  #let f() = 1\n  ```\n"
    );
}

#[test]
fn execute_records_effective_format_or_error() {
    let mut s = String::new();
    write_request_header(&mut s, 0);
    let cell = write_execute(&mut s, RenderMode::Svg, "// jupytypst: format=html\ntest");
    assert_eq!(cell.unwrap().body, "test");
    assert_eq!(
        s,
        "\n--- request 1 ---\nkind: execute\ninput: |\n  ```typ\n  // jupytypst: format=html\n  test\n  ```\neffective_format: Html\n"
    );
    let mut s = String::new();
    assert!(write_execute(&mut s, RenderMode::Svg, "// jupytypst: format=pdf").is_none());
    assert!(s.ends_with(
        "status: error\ntraceback: |\n  ```text\n  unsupported jupytypst format `pdf`\n  ```\n"
    ));
    let mut s = String::new();
    write_execute_raw(&mut s, "[x]", RenderMode::Html);
    assert_eq!(s, "kind: execute_raw\nformat: Html\ninput: |\n  ```typ\n  [x]\n  ```\n");
}

#[test]
fn execution_results_are_recorded() {
    let mut s = String::new();
    write_execution_result(
        &mut s,
        &ExecutionSnapshot::Ran {
            warnings: vec![],
            kind: OutputKind::Html,
            rendered: Ok("<p>x</p>".to_string()),
        },
    );
    assert_eq!(
        s,
        "status: ok\nwarnings: []\noutput_kind: html\noutput: |\n  ```html\n  <p>x</p>\n  ```\n"
    );
    let mut s = String::new();
    write_execution_result(
        &mut s,
        &ExecutionSnapshot::Ran {
            warnings: vec!["w1".to_string()],
            kind: OutputKind::Paged,
            rendered: Err("bad".to_string()),
        },
    );
    assert_eq!(
        s,
        "status: ok\nwarnings:\n  - w1\noutput_kind: svg\ntraceback: |\n  ```text\n  bad\n  ```\n"
    );
    let mut s = String::new();
    write_execution_result(
        &mut s,
        &ExecutionSnapshot::Failed {
            traceback: "panicked".to_string(),
        },
    );
    assert_eq!(s, "status: error\ntraceback: |\n  ```text\n  panicked\n  ```\n");
}

#[test]
fn snapshots_are_normalized() {
    assert_eq!(
        normalize_snapshot("a\r\nb C:\\root\\x C:/root/y".to_string(), Some("C:\\root")),
        "a\nb <ROOT>\\x <ROOT>/y"
    );
    assert_eq!(normalize_snapshot("x\r\n".to_string(), None), "x\n");
}

#[test]
fn workspace_packages_are_normalized() {
    assert_eq!(
        normalize_workspace_packages("@ws/p12:0.0.0/a and @ws/p3:0.0.0/b".to_string()),
        "@ws/root:0.0.0/a and @ws/root:0.0.0/b"
    );
    assert_eq!(
        normalize_workspace_packages("@ws/px:0.0.0 @ws/p1:0.0.0".to_string()),
        "@ws/px:0.0.0 @ws/p1:0.0.0"
    );
    assert_eq!(
        normalize_workspace_packages("@ws/p1:0.1.0".to_string()),
        "@ws/p1:0.1.0"
    );
    assert_eq!(normalize_workspace_packages("plain".to_string()), "plain");
}

#[test]
fn init_header_shows_inputs_with_debug_formatting() {
    let mut options = WorldOptions::default();
    options.inputs.push(("name".to_string(), "ty\"pst".to_string()));
    let case = KernelCase {
        init: KernelInit::new(RenderMode::Html, SourceMode::Code)
            .with_page_setup("".to_string())
            .with_world_options(options),
        fixtures: vec![],
        requests: vec![],
    };
    let mut s = String::new();
    write_init(&mut s, &case);
    assert_eq!(
        s,
        "init:\n  default_format: Html\n  source_mode: Code\n  page_setup: |\n  ```typc\n  ```\n  inputs: [(\"name\", \"ty\\\"pst\")]\n"
    );
}
