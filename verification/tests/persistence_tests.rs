use jupytypst::introspection::collect_introspection_updates;
use jupytypst::persist::filter_persistent_styles;
use typst::foundations::{Content, Property, Smart, Style, Styles, Value};
use typst::introspection::{State, StateUpdate};
use typst::layout::PageElem;
use typst::syntax::Span;
use typst::text::TextElem;
use typst::visualize::Color;

fn styles_of(property: Property) -> Styles {
    Styles::from(Style::from(property))
}

#[test]
fn filter_drops_page_sizing_and_keeps_fill() {
    let mut styles = styles_of(Property::new(PageElem::width, Smart::Auto));
    styles.apply(styles_of(Property::new(
        PageElem::fill,
        Smart::Custom(Some(Color::RED.into())),
    )));
    styles.apply(styles_of(Property::new(PageElem::height, Smart::Auto)));
    assert_eq!(styles.iter().count(), 3);
    let kept = filter_persistent_styles(styles);
    assert_eq!(kept.iter().count(), 1);
    let fill = styles_of(Property::new(PageElem::fill, Smart::Custom(Some(Color::RED.into()))));
    assert_eq!(kept, fill);
}

#[test]
fn filter_keeps_text_styles() {
    let styles = styles_of(Property::new(TextElem::fill, Color::RED.into()));
    let kept = filter_persistent_styles(styles.clone());
    assert_eq!(kept, styles);
}

#[test]
fn only_state_updates_are_collected() {
    let update = State::new("k".into(), Value::None).update(Span::detached(), StateUpdate::Set(Value::None));
    let content = Content::sequence([TextElem::packed("a"), update.clone(), TextElem::packed("b")]);
    let updates = collect_introspection_updates(&content);
    assert_eq!(updates.len(), 1);
    assert_eq!(updates[0], update);
    assert!(collect_introspection_updates(&TextElem::packed("x")).is_empty());
}
