//! Markdown rendering through `pulldown_cmark`.
use vstd::prelude::*;

verus! {

/// The HTML that `pulldown_cmark` writes for a Markdown text read with the
/// default options (CommonMark, no extensions).
pub uninterp spec fn commonmark_html(md: Seq<char>) -> Seq<char>;

/// Calls `pulldown_cmark::Parser::new` on the text and `pulldown_cmark::html::push_html`
/// on the events into an empty string. Claimed: the result is a function of
/// the text alone.
#[verifier::external_body]
pub(crate) fn render_markdown(md: &str) -> (html: String)
    ensures
        html@ == commonmark_html(md@),
{
    let mut html = String::new();
    pulldown_cmark::html::push_html(&mut html, pulldown_cmark::Parser::new(md));
    html
}

} // verus!
