use vstd::prelude::*;
use crate::key::{extension_of, file_extension, file_name, name_of};

verus! {

/// How the content of an element file enters the registry.
#[derive(Clone, Copy, Debug, PartialEq, Eq, Structural)]
pub enum ElementKind {
    /// A `.js` or `.mjs` file: its content is taken verbatim.
    Script,
    /// An `.html` file: its content is wrapped into a template function.
    Markup,
}

/// The kind of element that a file with extension `ext` holds, if any.
pub open spec fn kind_of_extension(ext: Seq<char>) -> Option<ElementKind> {
    if ext == "js"@ || ext == "mjs"@ {
        Some(ElementKind::Script)
    } else if ext == "html"@ {
        Some(ElementKind::Markup)
    } else {
        None
    }
}

/// The kind of element that the file at relative path `p` holds, if any.
pub open spec fn kind_of(p: Seq<char>) -> Option<ElementKind> {
    match extension_of(name_of(p)) {
        Some(ext) => kind_of_extension(ext),
        None => None,
    }
}

/// What a template function starts with, up to the opening backtick.
pub open spec fn template_head() -> Seq<char> {
    "function ({html, state}){return html`"@
}

/// What a template function ends with, from the closing backtick.
pub open spec fn template_tail() -> Seq<char> {
    "`}"@
}

/// The template function for markup `content`: it takes an object holding
/// `html` and `state`, and returns `html` applied as a tagged template to the
/// content exactly as it is.
pub open spec fn wrapped(content: Seq<char>) -> Seq<char> {
    template_head() + content + template_tail()
}

/// The template literal of a template function: the text between its head
/// and its tail, or `None` when `source` is no template function.
pub open spec fn template_literal_of(source: Seq<char>) -> Option<Seq<char>> {
    let h = template_head().len();
    let t = template_tail().len();
    if source.len() >= h + t && source.subrange(0, h as int) == template_head()
        && source.subrange(source.len() - t, source.len() as int) == template_tail() {
        Some(source.subrange(h as int, source.len() - t))
    } else {
        None
    }
}

/// The registry source of an element of kind `kind` with file content `content`.
pub open spec fn source_of(kind: ElementKind, content: Seq<char>) -> Seq<char> {
    match kind {
        ElementKind::Script => content,
        ElementKind::Markup => wrapped(content),
    }
}

/// Wrapping markup and then reading back the template literal gives the
/// markup unchanged: rendering the template with an identity `html` yields
/// the content as it was.
pub proof fn lemma_wrap_round_trip(content: Seq<char>)
    ensures
        template_literal_of(wrapped(content)) == Some(content),
{
    let w = wrapped(content);
    let h = template_head().len();
    let t = template_tail().len();
    assert(w.subrange(0, h as int) =~= template_head());
    assert(w.subrange(w.len() - t, w.len() as int) =~= template_tail());
    assert(w.subrange(h as int, w.len() - t) =~= content);
}

/// Whether `s` and `lit` hold the same characters.
fn same_chars(s: &str, lit: &str) -> (r: bool)
    ensures
        r == (s@ == lit@),
{
    let n = s.unicode_len();
    let m = lit.unicode_len();
    if n != m {
        return false;
    }
    let mut i: usize = 0;
    while i < n
        invariant
            i <= n,
            n == s@.len(),
            m == lit@.len(),
            n == m,
            s@.subrange(0, i as int) == lit@.subrange(0, i as int),
        decreases n - i,
    {
        if s.get_char(i) != lit.get_char(i) {
            assert(s@[i as int] != lit@[i as int]);
            return false;
        }
        assert(s@.subrange(0, i + 1) =~= s@.subrange(0, i as int).push(s@[i as int]));
        assert(lit@.subrange(0, i + 1) =~= lit@.subrange(0, i as int).push(lit@[i as int]));
        i = i + 1;
    }
    assert(s@ =~= s@.subrange(0, n as int));
    assert(lit@ =~= lit@.subrange(0, n as int));
    true
}

/// The element kind of a file with extension `ext`: `js` and `mjs` are
/// scripts, `html` is markup, any other extension holds no element.
pub fn kind_for_extension(ext: &str) -> (r: Option<ElementKind>)
    ensures
        r == kind_of_extension(ext@),
{
    if same_chars(ext, "js") || same_chars(ext, "mjs") {
        Some(ElementKind::Script)
    } else if same_chars(ext, "html") {
        Some(ElementKind::Markup)
    } else {
        None
    }
}

/// The element kind of the file at `relative`, a path relative to the
/// registry root, or `None` when the file is not an element.
pub fn classify(relative: &str) -> (r: Option<ElementKind>)
    ensures
        r == kind_of(relative@),
{
    let name = file_name(relative);
    match file_extension(name) {
        Some(ext) => kind_for_extension(ext),
        None => None,
    }
}

/// Wraps markup into a template function over `html` and `state` whose
/// tagged template is the markup verbatim, nothing escaped.
pub fn wrap_template(content: &str) -> (r: String)
    ensures
        r@ == wrapped(content@),
{
    let mut r = String::from_str("function ({html, state}){return html`");
    r.append(content);
    r.append("`}");
    r
}

/// The registry source of an element: a script verbatim, markup wrapped.
pub fn element_source(kind: ElementKind, content: String) -> (r: String)
    ensures
        r@ == source_of(kind, content@),
{
    match kind {
        ElementKind::Script => content,
        ElementKind::Markup => wrap_template(content.as_str()),
    }
}

} // verus!
