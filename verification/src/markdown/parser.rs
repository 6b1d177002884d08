//! Markdown to HTML, by pulldown-cmark.

use vstd::prelude::*;

verus! {

/// The HTML that pulldown-cmark renders for a Markdown text, with tables,
/// strikethrough, task lists and footnotes enabled.
pub uninterp spec fn cmark_html(markdown: Seq<char>) -> Seq<char>;

/// Renders Markdown to HTML with `pulldown_cmark::Parser::new_ext` (tables,
/// strikethrough, task lists and footnotes enabled) and `pulldown_cmark::html::push_html`
/// into an empty string.  Trusted: the result is the rendering of the input and of
/// nothing else; what that rendering is, is pulldown-cmark's and is not stated here.
#[verifier::external_body]
pub fn parse_markdown(input: &str) -> (html: String)
    ensures
        html@ == cmark_html(input@),
{
    let parser = pulldown_cmark::Parser::new_ext(
        input,
        pulldown_cmark::Options::ENABLE_TABLES | pulldown_cmark::Options::ENABLE_STRIKETHROUGH
            | pulldown_cmark::Options::ENABLE_TASKLISTS | pulldown_cmark::Options::ENABLE_FOOTNOTES,
    );
    let mut html = String::new();
    pulldown_cmark::html::push_html(&mut html, parser);
    html
}

} // verus!
