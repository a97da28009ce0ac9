//! State and counter updates: a cell's updates are carried into later
//! cells, so that `state` and `counter` values persist across cells.

use ecow::EcoVec;
use std::ops::ControlFlow;
use typst::foundations::{Content, Selector};
use typst::introspection::{Counter, State};
use vstd::prelude::*;

verus! {

/// The elements of `content`, in the order `Content::traverse` visits them.
pub uninterp spec fn content_elements(content: Content) -> Seq<Content>;

/// Whether `element` is a state or a counter update: it matches
/// `State::select_any()` or `Counter::select_any()`.
pub uninterp spec fn is_update(element: Content) -> bool;

/// Every element of `content`, collected by `Content::traverse`.
#[verifier::external_body]
fn traverse_elements(content: &Content) -> (r: Vec<Content>)
    ensures
        r@ == content_elements(*content),
{
    let mut elements = Vec::new();
    let _ = content.traverse(&mut |element| {
        elements.push(element);
        ControlFlow::<()>::Continue(())
    });
    elements
}

/// `Selector::matches` of `State::select_any()` or `Counter::select_any()`,
/// without styles.
#[verifier::external_body]
fn is_introspection_update(element: &Content) -> (b: bool)
    ensures
        b == is_update(*element),
{
    Selector::Or(EcoVec::from([State::select_any(), Counter::select_any()])).matches(element, None)
}

/// The elements whose flag is set, in order.
pub open spec fn selected(elements: Seq<Content>, flags: Seq<bool>) -> Seq<Content>
    decreases elements.len(),
{
    if elements.len() == 0 || flags.len() == 0 {
        Seq::empty()
    } else if flags[0] {
        seq![elements[0]] + selected(elements.drop_first(), flags.drop_first())
    } else {
        selected(elements.drop_first(), flags.drop_first())
    }
}

/// The elements whose flag is set, in order.
pub fn select_updates(elements: Vec<Content>, flags: Vec<bool>) -> (r: Vec<Content>)
    requires
        elements.len() == flags.len(),
    ensures
        r@ == selected(elements@, flags@),
{
    let ghost e0 = elements@;
    let ghost f0 = flags@;
    let mut elements = elements;
    let mut flags = flags;
    let mut r: Vec<Content> = Vec::new();
    while elements.len() > 0
        invariant
            elements.len() == flags.len(),
            r@ + selected(elements@, flags@) == selected(e0, f0),
        decreases elements.len(),
    {
        let ghost es = elements@;
        let ghost fs = flags@;
        let e = elements.remove(0);
        let f = flags.remove(0);
        assert(es.drop_first() =~= elements@);
        assert(fs.drop_first() =~= flags@);
        if f {
            r.push(e);
            assert(r@ + selected(elements@, flags@) =~= r@.drop_last() + (seq![e] + selected(
                elements@,
                flags@,
            )));
        }
    }
    assert(selected(elements@, flags@) =~= Seq::<Content>::empty());
    assert(r@ + Seq::<Content>::empty() =~= r@);
    r
}

/// The state and counter updates in `content`, in the order of a traversal.
pub fn collect_introspection_updates(content: &Content) -> (r: Vec<Content>)
    ensures
        r@ == selected(
            content_elements(*content),
            content_elements(*content).map_values(|e: Content| is_update(e)),
        ),
{
    let elements = traverse_elements(content);
    let mut flags: Vec<bool> = Vec::new();
    let mut i: usize = 0;
    while i < elements.len()
        invariant
            i <= elements.len(),
            flags@ == elements@.subrange(0, i as int).map_values(|e: Content| is_update(e)),
        decreases elements.len() - i,
    {
        flags.push(is_introspection_update(&elements[i]));
        i += 1;
        assert(flags@ =~= elements@.subrange(0, i as int).map_values(|e: Content| is_update(e)));
    }
    assert(elements@.subrange(0, i as int) =~= elements@);
    select_updates(elements, flags)
}

} // verus!
