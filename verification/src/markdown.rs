//! Markdown rendering, delegated to an outside converter. What the
//! converter returns is a pure function of the markdown text; the library
//! gives that result a name and never restates the conversion itself.

use vstd::prelude::*;

use crate::publication::Publication;

verus! {

/// The HTML that the markdown converter yields for a markdown text.
pub uninterp spec fn markdown_html_of(s: Seq<char>) -> Seq<char>;

/// Relies on `comrak::markdown_to_html` with default options: it renders
/// Markdown to HTML, and its result depends on the markdown text alone.
#[verifier::external_body]
fn markdown_to_html_via_comrak(md: &str) -> (r: String)
    ensures
        r@ == markdown_html_of(md@),
{
    comrak::markdown_to_html(md, &comrak::Options::default())
}

/// Renders a markdown text to HTML through the converter.
pub fn render_markdown(md: &str) -> (r: String)
    ensures
        r@ == markdown_html_of(md@),
{
    markdown_to_html_via_comrak(md)
}

impl Publication {
    /// The publication's body rendered to HTML.
    pub fn to_html(&self) -> (r: String)
        ensures
            r@ == markdown_html_of(self@.markdown),
    {
        markdown_to_html_via_comrak(self.markdown.as_str())
    }
}

} // verus!
