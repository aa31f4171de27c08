use vstd::prelude::*;
use crate::ssr::RenderResult;

verus! {

/// The constructed page up to the inline styles: a head that links the
/// static stylesheet and opens a `<style>` block.
pub open spec fn page_head() -> Seq<char> {
    "<html><head><link href='/static/index.css' rel='stylesheet'></link><style>"@
}

/// Between the inline styles and the body fragment.
pub open spec fn page_middle() -> Seq<char> {
    "</style></head><body>"@
}

/// After the body fragment: the static module script and the closing tags.
pub open spec fn page_tail() -> Seq<char> {
    "<script type='module' src='/static/index.js'></script></body></html>"@
}

/// The page built from the renderer's styles and body fragment.
pub open spec fn constructed_page(styles: Seq<char>, body: Seq<char>) -> Seq<char> {
    page_head() + styles + page_middle() + body + page_tail()
}

/// The two pages served: the renderer's own document, and the page built
/// around its body fragment and styles.
#[derive(Debug, PartialEq, Eq)]
pub struct ComposedPages {
    /// The renderer's document, verbatim.
    pub primary: String,
    /// The page built around the body fragment and styles.
    pub constructed: String,
}

/// Composes the two pages from a render result: `primary` is the document
/// verbatim; `constructed` holds the styles inline in its head (an empty
/// `<style>` block when there are none) and the body fragment followed by the
/// static script in its body.
pub fn compose(result: &RenderResult) -> (r: ComposedPages)
    ensures
        r.primary@ == result.document@,
        r.constructed@ == constructed_page(result.styles@, result.body@),
{
    let primary = result.document.clone();
    let mut constructed = String::from_str(
        "<html><head><link href='/static/index.css' rel='stylesheet'></link><style>",
    );
    constructed.append(result.styles.as_str());
    constructed.append("</style></head><body>");
    constructed.append(result.body.as_str());
    constructed.append("<script type='module' src='/static/index.js'></script></body></html>");
    ComposedPages { primary, constructed }
}

/// Composition depends on the render result alone: equal results give equal
/// pages.
pub proof fn lemma_compose_deterministic(a: RenderResult, b: RenderResult)
    requires
        a.document@ == b.document@,
        a.body@ == b.body@,
        a.styles@ == b.styles@,
    ensures
        constructed_page(a.styles@, a.body@) == constructed_page(b.styles@, b.body@),
{
}

/// With empty styles the constructed page still holds an empty `<style>`
/// block, right after the stylesheet link, and the body fragment in its body.
pub proof fn lemma_empty_styles_block(body: Seq<char>)
    ensures
        ({
            let p = constructed_page(Seq::empty(), body);
            let at = page_head().len() - 7;
            &&& p.subrange(at, at + 15) == "<style></style>"@
            &&& p.subrange(at + 22, at + 28) == "<body>"@
            &&& p.subrange(at + 28, at + 28 + body.len()) == body
        }),
{
    reveal_strlit("<html><head><link href='/static/index.css' rel='stylesheet'></link><style>");
    reveal_strlit("</style></head><body>");
    reveal_strlit("<style></style>");
    reveal_strlit("<body>");
    let p = constructed_page(Seq::empty(), body);
    let at = page_head().len() - 7;
    assert(p.subrange(at, at + 15) =~= "<style></style>"@);
    assert(p.subrange(at + 22, at + 28) =~= "<body>"@);
    assert(p.subrange(at + 28, at + 28 + body.len()) =~= body);
}

} // verus!
