//! How a cell's result is shown: diagnostics as lines of text, rendered SVG
//! pages inside one HTML fragment, and the plain-text stand-in for each kind.

use crate::text::{join_lines, join_newline, push_str};
use vstd::prelude::*;

verus! {

/// What a cell rendered to.
#[derive(Debug, Clone, Copy, PartialEq, Eq, Structural)]
pub enum OutputKind {
    /// Paged output, shown as one SVG per page.
    Paged,
    /// An HTML document.
    Html,
}

impl OutputKind {
    pub open spec fn plain_spec(self) -> Seq<char> {
        match self {
            OutputKind::Paged => "<svg>"@,
            OutputKind::Html => "<html>"@,
        }
    }

    /// The `text/plain` stand-in that accompanies the HTML of this output.
    pub fn plain_label(&self) -> (s: &'static str)
        ensures
            s@ == self.plain_spec(),
    {
        match self {
            OutputKind::Paged => "<svg>",
            OutputKind::Html => "<html>",
        }
    }
}

/// The diagnostics' messages, one per line.
pub fn format_diagnostics(messages: &Vec<String>) -> (s: String)
    ensures
        s@ == join_newline(messages.deep_view()),
{
    join_lines(messages)
}

pub open spec fn pages_style_head() -> Seq<char> {
    "<style>\n.jupytypst-pages {\n  display: flex;\n  flex-direction: column;\n  gap: 12px;\n  align-items: flex-start;\n}\n.jupytypst-page {\n  max-width: 100%;\n  overflow: auto;\n}\n.jupytypst-page > svg {\n  display: block;\n  max-width: 100%;\n  height: auto;\n}\n</style>\n<div class=\"jupytypst-pages\">"@
}

pub open spec fn page_open() -> Seq<char> {
    "<div class=\"jupytypst-page\">"@
}

pub open spec fn div_close() -> Seq<char> {
    "</div>"@
}

/// Each page's SVG in its own `jupytypst-page` block, in page order.
pub open spec fn page_blocks(svgs: Seq<Seq<char>>) -> Seq<char>
    decreases svgs.len(),
{
    if svgs.len() == 0 {
        Seq::empty()
    } else {
        page_blocks(svgs.drop_last()) + page_open() + svgs.last() + div_close()
    }
}

pub open spec fn pages_html(svgs: Seq<Seq<char>>) -> Seq<char> {
    pages_style_head() + page_blocks(svgs) + div_close()
}

/// The notebook HTML for a paged document whose pages rendered to `page_svgs`:
/// a style block and a column of pages, each page's SVG on its own.
pub fn svg_pages_html(page_svgs: &Vec<String>) -> (s: String)
    ensures
        s@ == pages_html(page_svgs.deep_view()),
{
    let mut s = String::new();
    push_str(
        &mut s,
        "<style>\n.jupytypst-pages {\n  display: flex;\n  flex-direction: column;\n  gap: 12px;\n  align-items: flex-start;\n}\n.jupytypst-page {\n  max-width: 100%;\n  overflow: auto;\n}\n.jupytypst-page > svg {\n  display: block;\n  max-width: 100%;\n  height: auto;\n}\n</style>\n<div class=\"jupytypst-pages\">",
    );
    let ghost dv = page_svgs.deep_view();
    let mut i: usize = 0;
    assert(dv.take(0) =~= Seq::<Seq<char>>::empty());
    while i < page_svgs.len()
        invariant
            i <= page_svgs.len(),
            dv == page_svgs.deep_view(),
            dv.len() == page_svgs.len(),
            s@ == pages_style_head() + page_blocks(dv.take(i as int)),
        decreases page_svgs.len() - i,
    {
        assert(dv.take(i + 1).drop_last() =~= dv.take(i as int));
        assert(dv[i as int] == page_svgs[i as int]@);
        push_str(&mut s, "<div class=\"jupytypst-page\">");
        push_str(&mut s, page_svgs[i].as_str());
        push_str(&mut s, "</div>");
        assert(s@ =~= pages_style_head() + page_blocks(dv.take(i + 1)));
        i += 1;
    }
    assert(dv.take(page_svgs.len() as int) =~= dv);
    push_str(&mut s, "</div>");
    s
}

} // verus!
