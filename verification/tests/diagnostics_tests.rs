use jupytypst::diagnostics::{
    diagnostic_source_name, remap_span, remap_span_for_source, DiagnosticSourceMap,
    SourceRegistry,
};
use jupytypst::eval::{span_offset, wrapped_source};
use jupytypst::modes::SourceMode;

fn map(id: u16, offset: usize, len: usize) -> DiagnosticSourceMap {
    DiagnosticSourceMap {
        display_id: id,
        offset,
        source_len: len,
    }
}

#[test]
fn range_inside_user_text_moves_by_offset() {
    assert_eq!(remap_span_for_source(Some((5, 8)), &map(7, 3, 10)), Some((7, 2, 5)));
    assert_eq!(remap_span_for_source(Some((3, 13)), &map(7, 3, 10)), Some((7, 0, 10)));
}

#[test]
fn range_outside_user_text_stays() {
    assert_eq!(remap_span_for_source(Some((2, 5)), &map(7, 3, 10)), None);
    assert_eq!(remap_span_for_source(Some((5, 14)), &map(7, 3, 10)), None);
    assert_eq!(remap_span_for_source(None, &map(7, 3, 10)), None);
}

#[test]
fn primary_map_is_asked_first() {
    let maps = vec![map(1, 0, 20), map(2, 3, 20)];
    let ranges = vec![Some((4, 6)), Some((4, 6))];
    assert_eq!(remap_span(&ranges, &maps, 1), Some((2, 1, 3)));
    assert_eq!(remap_span(&ranges, &maps, 0), Some((1, 4, 6)));
}

#[test]
fn other_maps_answer_in_order_when_primary_cannot() {
    let maps = vec![map(1, 0, 2), map(2, 0, 20), map(3, 0, 20)];
    let ranges = vec![None, Some((4, 6)), Some((1, 2))];
    assert_eq!(remap_span(&ranges, &maps, 0), Some((2, 4, 6)));
    assert_eq!(remap_span(&ranges, &maps, 1), Some((2, 4, 6)));
    assert_eq!(remap_span(&vec![None, None, None], &maps, 0), None);
    assert_eq!(remap_span(&ranges, &maps, 9), Some((2, 4, 6)));
}

#[test]
fn inputs_are_numbered_and_named() {
    let mut registry = SourceRegistry::new();
    let first = registry.begin_input();
    assert_eq!(first.index, 0);
    assert_eq!(first.source_path, ".jupytypst-input-0.typ");
    assert_eq!(first.display_path, "/jupytypst-input-0.typ");
    let map_index = registry.record_input(first.index, 41, "let x = 1", SourceMode::Code);
    assert_eq!(map_index, 0);
    let second = registry.begin_input();
    assert_eq!(second.index, 1);
    assert_eq!(second.source_path, ".jupytypst-input-1.typ");
    registry.record_input(second.index, 42, "#x", SourceMode::Markup);
    assert_eq!(registry.sources[0].name, "<stdin:1>");
    assert_eq!(registry.sources[1].name, "<stdin:2>");
    assert_eq!(registry.sources[1].source, "#x");
    assert_eq!(registry.maps[0], map(41, 3, 9));
    assert_eq!(registry.maps[1], map(42, 0, 2));
    assert_eq!(registry.next_source_index, 2);
}

#[test]
fn input_numbers_go_past_nine() {
    let mut registry = SourceRegistry::new();
    registry.next_source_index = 10;
    let slot = registry.begin_input();
    assert_eq!(slot.source_path, ".jupytypst-input-10.typ");
    registry.record_input(slot.index, 5, "", SourceMode::Code);
    assert_eq!(registry.sources[0].name, "<stdin:11>");
}

#[test]
fn world_sources_are_recorded_once() {
    let mut registry = SourceRegistry::new();
    assert!(registry.record_world_source(9, "/defs.typ".to_string(), "#let f() = 1"));
    assert!(registry.has_source(9));
    assert!(!registry.record_world_source(9, "/other.typ".to_string(), "x"));
    assert_eq!(registry.sources.len(), 1);
    assert_eq!(registry.sources[0].name, "/defs.typ");
    assert_eq!(registry.maps[0], map(9, 0, 12));
    assert!(!registry.has_source(10));
}

#[test]
fn source_names_put_the_package_first() {
    assert_eq!(diagnostic_source_name(None, "/defs.typ"), "/defs.typ");
    assert_eq!(
        diagnostic_source_name(Some("@preview/pkg:0.1.0"), "/lib.typ"),
        "@preview/pkg:0.1.0/lib.typ"
    );
}

#[test]
fn code_is_wrapped_and_offset_matches() {
    assert_eq!(wrapped_source("1 + 2", SourceMode::Code), "#{\n1 + 2\n}");
    assert_eq!(wrapped_source("*hi*", SourceMode::Markup), "*hi*");
    assert_eq!(span_offset(SourceMode::Code), 3);
    assert_eq!(span_offset(SourceMode::Markup), 0);
    let wrapped = wrapped_source("abc", SourceMode::Code);
    assert_eq!(&wrapped[span_offset(SourceMode::Code)..span_offset(SourceMode::Code) + 3], "abc");
}
