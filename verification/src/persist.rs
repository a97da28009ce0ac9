//! Which style properties outlive the cell that set them: everything but the
//! page's paper and size, so that each cell returns to the configured sizing;
//! and the filter that drops the others from a cell's styles.

use crate::capture::style_entries;
use crate::text::str_eq;
use typst::foundations::{Element, Style, Styles};
use typst::utils::LazyHash;
use vstd::prelude::*;

verus! {

/// Whether the property `element.field` is one of the page's sizing fields,
/// which apply only to the cell that sets them.
pub open spec fn transient_page_property(element: Seq<char>, field: Seq<char>) -> bool {
    element == "page"@ && (field == "paper"@ || field == "width"@ || field == "height"@)
}

/// Whether `element.field` is `page.paper`, `page.width` or `page.height`.
pub fn is_transient_page_property(element: &str, field: &str) -> (b: bool)
    ensures
        b == transient_page_property(element@, field@),
        b == (element@ == "page"@ && set!["paper"@, "width"@, "height"@].contains(field@)),
{
    str_eq(element, "page") && (str_eq(field, "paper") || str_eq(field, "width") || str_eq(
        field,
        "height",
    ))
}

/// Only the page's paper, width and height are transient: every other
/// property, of the page (its margin, its fill) or of any other element,
/// survives into later cells, as does every style that sets no property.
pub proof fn lemma_only_page_sizing_is_transient(element: Seq<char>, field: Seq<char>)
    ensures
        transient_page_property(element, field) == (element == "page"@ && set![
            "paper"@,
            "width"@,
            "height"@,
        ].contains(field)),
        persists(Some((element, field))) == !(element == "page"@ && set![
            "paper"@,
            "width"@,
            "height"@,
        ].contains(field)),
        persists(None),
{
}

/// Whether a style survives into later cells: a style that is no property
/// (a show rule, for one) always does, a property unless it sizes the page.
pub open spec fn persists(property: Option<(Seq<char>, Seq<char>)>) -> bool {
    match property {
        Some((e, f)) => !transient_page_property(e, f),
        None => true,
    }
}

/// For each style, given as the element and field of the property it sets,
/// or `None` when it sets no property, whether it is kept for later cells.
pub fn persistent_style_mask(properties: &Vec<Option<(String, String)>>) -> (keep: Vec<bool>)
    ensures
        keep.len() == properties.len(),
        forall|i: int|
            0 <= i < properties.len() ==> keep@[i] == persists(
                match #[trigger] properties@[i] {
                    Some((e, f)) => Some((e@, f@)),
                    None => None,
                },
            ),
{
    let mut keep: Vec<bool> = Vec::new();
    let mut i: usize = 0;
    while i < properties.len()
        invariant
            i <= properties.len(),
            keep.len() == i,
            forall|j: int|
                0 <= j < i ==> keep@[j] == persists(
                    match #[trigger] properties@[j] {
                        Some((e, f)) => Some((e@, f@)),
                        None => None,
                    },
                ),
        decreases properties.len() - i,
    {
        let k = match &properties[i] {
            Some((e, f)) => !is_transient_page_property(e.as_str(), f.as_str()),
            None => true,
        };
        keep.push(k);
        i += 1;
    }
    keep
}

#[verifier::external_type_specification]
#[verifier::external_body]
pub struct ExElement(Element);

/// The element of an entry that is a property (`Style::property` is
/// `Some`), as `Style::element` gives it; `None` for any other entry.
pub uninterp spec fn property_elem(entry: LazyHash<Style>) -> Option<Element>;

/// Whether the entry is a property with field `id` of `elem` (`Property::is`).
pub uninterp spec fn property_is(entry: LazyHash<Style>, elem: Element, id: u8) -> bool;

/// `Element::field_name`: the name of field `id` of `elem`, if it has one.
pub uninterp spec fn field_name_of(elem: Element, id: u8) -> Option<Seq<char>>;

/// `Element::name`: the element's name.
pub uninterp spec fn element_name_of(elem: Element) -> Seq<char>;

/// `Style::property` and then `Style::element` of an entry.
#[verifier::external_body]
fn entry_property_elem(entry: &LazyHash<Style>) -> (r: Option<Element>)
    ensures
        r == property_elem(*entry),
{
    match entry.property() {
        Some(_) => entry.element(),
        None => None,
    }
}

/// `Property::is` of an entry that is a property; `false` for any other.
#[verifier::external_body]
fn entry_property_is(entry: &LazyHash<Style>, elem: Element, id: u8) -> (b: bool)
    ensures
        b == property_is(*entry, elem, id),
{
    match entry.property() {
        Some(property) => property.is(elem, id),
        None => false,
    }
}

/// `Element::field_name`.
#[verifier::external_body]
fn element_field_name(elem: Element, id: u8) -> (r: Option<String>)
    ensures
        match r {
            Some(n) => field_name_of(elem, id) == Some(n@),
            None => field_name_of(elem, id) is None,
        },
{
    match elem.field_name(id) {
        Some(name) => Some(name.to_string()),
        None => None,
    }
}

/// `Element::name`.
#[verifier::external_body]
fn element_name(elem: Element) -> (r: String)
    ensures
        r@ == element_name_of(elem),
{
    elem.name().to_string()
}

/// The entries of `styles`, taken out in order (`Styles::into_iter`).
#[verifier::external_body]
fn entries_of(styles: Styles) -> (r: Vec<LazyHash<Style>>)
    ensures
        r@ == style_entries(styles),
{
    styles.into_iter().collect()
}

/// Styles holding `entries`, in order (`Styles::from_iter`).
#[verifier::external_body]
fn styles_of(entries: Vec<LazyHash<Style>>) -> (r: Styles)
    ensures
        style_entries(r) == entries@,
{
    entries.into_iter().collect()
}

/// The name of the first field, from `id` on, that the property entry is
/// (with `elem` its element) and that has a name.
pub open spec fn field_from(entry: LazyHash<Style>, elem: Element, id: nat) -> Option<Seq<char>>
    decreases 256 - id,
{
    if id >= 256 {
        None
    } else if property_is(entry, elem, id as u8) && field_name_of(elem, id as u8) is Some {
        field_name_of(elem, id as u8)
    } else {
        field_from(entry, elem, id + 1)
    }
}

/// The element and field of the property an entry sets, if it sets one.
pub open spec fn style_key(entry: LazyHash<Style>) -> Option<(Seq<char>, Seq<char>)> {
    match property_elem(entry) {
        Some(elem) => match field_from(entry, elem, 0) {
            Some(field) => Some((element_name_of(elem), field)),
            None => None,
        },
        None => None,
    }
}

/// The entries that survive into later cells, in order.
pub open spec fn persistent_entries(entries: Seq<LazyHash<Style>>) -> Seq<LazyHash<Style>>
    decreases entries.len(),
{
    if entries.len() == 0 {
        Seq::empty()
    } else if persists(style_key(entries.last())) {
        persistent_entries(entries.drop_last()).push(entries.last())
    } else {
        persistent_entries(entries.drop_last())
    }
}

/// The element and field of the property `entry` sets, if it sets one.
fn property_key(entry: &LazyHash<Style>) -> (k: Option<(String, String)>)
    ensures
        match k {
            Some((e, f)) => style_key(*entry) == Some((e@, f@)),
            None => style_key(*entry) is None,
        },
{
    let elem = match entry_property_elem(entry) {
        Some(elem) => elem,
        None => return None,
    };
    let mut id: u16 = 0;
    while id < 256
        invariant
            id <= 256,
            property_elem(*entry) == Some(elem),
            field_from(*entry, elem, 0) == field_from(*entry, elem, id as nat),
        decreases 256 - id,
    {
        let i = id as u8;
        if entry_property_is(entry, elem, i) {
            match element_field_name(elem, i) {
                Some(field) => return Some((element_name(elem), field)),
                None => {},
            }
        }
        id = id + 1;
    }
    None
}

/// Keeps of `styles` what survives into later cells: every entry but the
/// properties that set the page's paper, width or height, in order.
pub fn filter_persistent_styles(styles: Styles) -> (r: Styles)
    ensures
        style_entries(r) == persistent_entries(style_entries(styles)),
{
    let entries = entries_of(styles);
    let mut keys: Vec<Option<(String, String)>> = Vec::new();
    let mut i: usize = 0;
    while i < entries.len()
        invariant
            i <= entries.len(),
            keys.len() == i,
            forall|j: int|
                0 <= j < i ==> style_key(entries@[j]) == match #[trigger] keys@[j] {
                    Some((e, f)) => Some((e@, f@)),
                    None => None,
                },
        decreases entries.len() - i,
    {
        let k = property_key(&entries[i]);
        keys.push(k);
        i += 1;
    }
    let keep = persistent_style_mask(&keys);
    let ghost all = entries@;
    assert forall|j: int| 0 <= j < all.len() implies #[trigger] keep@[j] == persists(style_key(all[j])) by {
        assert(style_key(all[j]) == match keys@[j] {
            Some((e, f)) => Some((e@, f@)),
            None => None,
        });
    }
    let mut rest = entries;
    let mut kept: Vec<LazyHash<Style>> = Vec::new();
    let mut k: usize = 0;
    assert(all.subrange(0, 0) =~= Seq::<LazyHash<Style>>::empty());
    assert(rest@ =~= all.subrange(0, all.len() as int));
    while rest.len() > 0
        invariant
            k + rest.len() == all.len(),
            keep.len() == all.len(),
            rest@ == all.subrange(k as int, all.len() as int),
            kept@ == persistent_entries(all.subrange(0, k as int)),
            forall|j: int| 0 <= j < all.len() ==> #[trigger] keep@[j] == persists(style_key(all[j])),
        decreases rest.len(),
    {
        let entry = rest.remove(0);
        proof {
            assert(all.subrange(0, k + 1).drop_last() =~= all.subrange(0, k as int));
            assert(entry == all[k as int]);
            assert(keep@[k as int] == persists(style_key(all[k as int])));
        }
        if keep[k] {
            kept.push(entry);
        }
        k = k + 1;
        proof {
            assert(rest@ =~= all.subrange(k as int, all.len() as int));
        }
    }
    assert(all.subrange(0, k as int) =~= all);
    styles_of(kept)
}

/// What the filter keeps sets none of the page's paper, width or height.
pub proof fn lemma_filtered_keeps_no_page_sizing(entries: Seq<LazyHash<Style>>)
    ensures
        forall|k: int| 0 <= k < persistent_entries(entries).len() ==> persists(
            style_key(#[trigger] persistent_entries(entries)[k]),
        ),
    decreases entries.len(),
{
    if entries.len() > 0 {
        lemma_filtered_keeps_no_page_sizing(entries.drop_last());
        let rest = persistent_entries(entries.drop_last());
        if persists(style_key(entries.last())) {
            assert forall|k: int| 0 <= k < rest.push(entries.last()).len() implies persists(
                style_key(#[trigger] rest.push(entries.last())[k]),
            ) by {
                if k < rest.len() {
                    assert(rest.push(entries.last())[k] == rest[k]);
                }
            }
        }
    }
}

} // verus!
