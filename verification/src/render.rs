//! Markup rendering: converts a post body written in a restricted
//! markdown dialect into display markup. Rendering is best-effort: a
//! body that cannot be rendered yields a fixed fallback text instead of
//! an error.

use vstd::prelude::*;

use hoedown::renderer::html::Flags;
use hoedown::{Html, Markdown, Render};

verus! {

/// The display markup that the renderer produces for a markup source.
/// It is a function of the source characters alone.
pub uninterp spec fn html_of(s: Seq<char>) -> Seq<char>;

/// Whether rendering a markup source succeeds: the renderer's output
/// bytes are a function of the source characters alone, so whether they
/// decode as text is too.
pub uninterp spec fn render_ok(s: Seq<char>) -> bool;

/// The fixed fallback text shown when a body cannot be rendered.
pub open spec fn fallback_text() -> Seq<char> {
    "Unable to render body"@
}

/// What rendering a source hands to the presentation layer: the display
/// markup when rendering the source succeeds, the fallback text when it
/// does not.
pub open spec fn render_result(src: Seq<char>, out: Seq<char>) -> bool {
    if render_ok(src) {
        out == html_of(src)
    } else {
        out == fallback_text()
    }
}

/// Relies on hoedown's `Html` renderer over a `Markdown` document with
/// the tables, fenced-code, autolink, strikethrough and
/// no-intra-emphasis extensions: the rendered markup depends on the
/// source characters alone, and `Buffer::to_str` yields text exactly
/// when the output bytes are valid UTF-8 — which likewise depends on
/// the source alone.
#[verifier::external_body]
fn render_html_raw(source: &str) -> (r: Option<String>)
    ensures
        r is Some <==> render_ok(source@),
        r matches Some(h) ==> h@ == html_of(source@),
{
    let mut renderer = Html::new(Flags::empty(), 0);
    let extensions = hoedown::TABLES | hoedown::FENCED_CODE | hoedown::AUTOLINK
        | hoedown::STRIKETHROUGH | hoedown::NO_INTRA_EMPHASIS;
    let doc = Markdown::new(source).extensions(extensions);
    let output = renderer.render(&doc);
    match output.to_str() {
        Ok(s) => Some(s.to_string()),
        Err(_) => None,
    }
}

/// How a rendering attempt ended: display markup, or the fallback.
#[derive(Debug)]
pub enum RenderOutcome {
    /// The renderer produced display markup.
    Rendered(String),
    /// The renderer's output was unusable; show the fallback text.
    Fallback,
}

/// Classifies a raw rendering result: text becomes `Rendered`, absence
/// of text the `Fallback`.
pub fn outcome_of(raw: Option<String>) -> (r: RenderOutcome)
    ensures
        match raw {
            Some(h) => r == RenderOutcome::Rendered(h),
            None => r is Fallback,
        },
{
    match raw {
        Some(h) => RenderOutcome::Rendered(h),
        None => RenderOutcome::Fallback,
    }
}

impl RenderOutcome {
    /// The text to display: the rendered markup, or the fixed fallback.
    pub fn into_text(self) -> (r: String)
        ensures
            match self {
                RenderOutcome::Rendered(h) => r@ == h@,
                RenderOutcome::Fallback => r@ == fallback_text(),
            },
    {
        match self {
            RenderOutcome::Rendered(h) => h,
            RenderOutcome::Fallback => String::from_str("Unable to render body"),
        }
    }
}

/// Renders a markup source into display markup, falling back to a fixed
/// text when rendering fails — rendering never aborts the request.
pub fn markdown_to_html(source: &str) -> (r: RenderOutcome)
    ensures
        r is Rendered <==> render_ok(source@),
        r matches RenderOutcome::Rendered(h) ==> h@ == html_of(source@),
{
    outcome_of(render_html_raw(source))
}

/// Renders a markup source to the text a page will embed: the display
/// markup where rendering succeeded, the fallback text where not.
pub fn render_to_text(source: &str) -> (r: String)
    ensures
        render_result(source@, r@),
{
    markdown_to_html(source).into_text()
}

} // verus!
