//! Rendering Markdown to HTML with `comrak`.
use vstd::prelude::*;

verus! {

/// The HTML that `comrak` renders for a Markdown text with its default
/// options.
pub uninterp spec fn markdown_html(md: Seq<char>) -> Seq<char>;

/// `comrak::markdown_to_html` with the default options. The rendering is
/// left to `comrak` and named `markdown_html`.
#[verifier::external_body]
pub(crate) fn markdown_to_html(md: &str) -> (r: String)
    ensures
        r@ == markdown_html(md@),
{
    comrak::markdown_to_html(md, &comrak::Options::default())
}

} // verus!
