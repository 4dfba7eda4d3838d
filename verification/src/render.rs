//! The markup-rendering stage: every page's body goes through the
//! external markdown engine, and the heading tags receive the site's
//! styling classes.

use vstd::prelude::*;

use crate::model::{Page, PageV};
use crate::text::{replace_all, replace_str};

verus! {

/// What the markdown engine returns for this text; the result depends on
/// the text alone.
pub uninterp spec fn html_of(s: Seq<char>) -> Seq<char>;

/// Relies on markdown::to_html_with_options with the GFM options and
/// dangerous HTML allowed; per its documentation it cannot fail without
/// MDX, so the error arm is unreachable in practice.
#[verifier::external_body]
fn markdown2html(content: &str) -> (r: String)
    ensures
        r@ == html_of(content@),
{
    let options = markdown::Options {
        compile: markdown::CompileOptions {
            allow_dangerous_html: true,
            ..markdown::CompileOptions::default()
        },
        ..markdown::Options::gfm()
    };
    match markdown::to_html_with_options(content, &options) {
        Ok(html) => html,
        Err(_) => String::new(),
    }
}

/// The heading rewrites applied to rendered markup.
pub open spec fn class_inject(s: Seq<char>) -> Seq<char> {
    replace_all(
        replace_all(
            replace_all(s, "<h1>"@, "<h1 class=\"title\">"@),
            "<h2>"@,
            "<h2 class=\"title is-4\">"@,
        ),
        "<h3>"@,
        "<h3 class=\"title is-5\">"@,
    )
}

/// The rendered form of one body: the engine's markup with the heading
/// classes injected.
pub open spec fn rendered(s: Seq<char>) -> Seq<char> {
    class_inject(html_of(s))
}

/// Renders one body and injects the heading classes; public so that a
/// caller can check a single document's rendering on its own.
pub fn render_content(content: &str) -> (r: String)
    ensures
        r@ == rendered(content@),
{
    proof {
        reveal_strlit("<h1>");
        reveal_strlit("<h2>");
        reveal_strlit("<h3>");
    }
    let html = markdown2html(content);
    let a = replace_str(html.as_str(), "<h1>", "<h1 class=\"title\">");
    let b = replace_str(a.as_str(), "<h2>", "<h2 class=\"title is-4\">");
    replace_str(b.as_str(), "<h3>", "<h3 class=\"title is-5\">")
}

/// Renders every page's content to markup; nothing else about any page
/// changes.
pub fn markdown_pages(pages: Vec<Page>) -> (r: Vec<Page>)
    ensures
        r@.len() == pages@.len(),
        forall|k: int|
            0 <= k < pages@.len() ==> #[trigger] r@[k]@ == (PageV {
                content: rendered(pages@[k].content@),
                ..pages@[k]@
            }),
{
    let ghost pv = pages@;
    let mut out: Vec<Page> = Vec::new();
    let mut k: usize = 0;
    while k < pages.len()
        invariant
            k <= pages@.len(),
            pv == pages@,
            out@.len() == k,
            forall|l: int|
                0 <= l < k ==> #[trigger] out@[l]@ == (PageV {
                    content: rendered(pv[l].content@),
                    ..pv[l]@
                }),
        decreases pages@.len() - k,
    {
        let mut updated = pages[k].duplicate();
        updated.content = render_content(pages[k].content.as_str());
        out.push(updated);
        k += 1;
    }
    out
}

} // verus!
