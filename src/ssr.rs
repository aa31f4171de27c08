use vstd::prelude::*;
use crate::registry::ElementRegistry;

verus! {

/// The lowercase hexadecimal digit for `n` (below 16).
pub open spec fn hex_digit(n: u32) -> char {
    "0123456789abcdef"@[n as int]
}

/// How serde_json writes the character `c` inside a JSON string: `"` and `\`
/// behind a backslash; below U+0020 the short escapes `\b \t \n \f \r`, or
/// else `\u00` and two lowercase hex digits; every other character as it is.
pub open spec fn escape_char(c: char) -> Seq<char> {
    let n = c as u32;
    if c == '"' {
        seq!['\\', '"']
    } else if c == '\\' {
        seq!['\\', '\\']
    } else if n == 8 {
        seq!['\\', 'b']
    } else if n == 9 {
        seq!['\\', 't']
    } else if n == 10 {
        seq!['\\', 'n']
    } else if n == 12 {
        seq!['\\', 'f']
    } else if n == 13 {
        seq!['\\', 'r']
    } else if n < 32 {
        seq!['\\', 'u', '0', '0', hex_digit(n / 16), hex_digit(n % 16)]
    } else {
        seq![c]
    }
}

/// The characters of `s`, each written as `escape_char` says.
pub open spec fn escaped(s: Seq<char>) -> Seq<char>
    decreases s.len(),
{
    if s.len() == 0 {
        Seq::empty()
    } else {
        escaped(s.drop_last()) + escape_char(s.last())
    }
}

/// The JSON string literal for the text `s`.
pub open spec fn json_quoted(s: Seq<char>) -> Seq<char> {
    seq!['"'] + escaped(s) + seq!['"']
}

/// What serde_json reads from `text` when it is the JSON text of an object:
/// for each member name, `Some(t)` where the member is the string `t` and
/// `None` where it is some other value. `None` for any other text.
pub uninterp spec fn json_object_of(text: Seq<char>) -> Option<Map<Seq<char>, Option<Seq<char>>>>;

/// Relies on `serde_json::to_string` on a `str`: it writes the JSON string
/// literal of the text, escaping as `escape_char` says; serializing a `str`
/// into memory does not fail.
#[verifier::external_body]
fn json_string(s: &str) -> (r: String)
    ensures
        r@ == json_quoted(s@),
{
    serde_json::to_string(s).unwrap()
}

/// Relies on `serde_json::from_str` into a `serde_json::Value` and on
/// `Value::is_object`: whether `text` is the JSON text of an object.
#[verifier::external_body]
fn json_text_is_object(text: &str) -> (r: bool)
    ensures
        r == json_object_of(text@) is Some,
{
    match serde_json::from_str::<serde_json::Value>(text) {
        Ok(v) => v.is_object(),
        Err(_) => false,
    }
}

/// Relies on `serde_json::from_str` into a `serde_json::Value`, then
/// `Value::get` with a string index and `Value::as_str`: the member `name` of
/// the object that `text` holds, as it was found.
#[verifier::external_body]
fn json_text_member(text: &str, name: &str) -> (r: Option<Option<String>>)
    requires
        json_object_of(text@) is Some,
    ensures
        found_view(r) == member_in(json_object_of(text@)->Some_0, name@),
{
    match serde_json::from_str::<serde_json::Value>(text) {
        Ok(v) => v.get(name).map(|m| m.as_str().map(String::from)),
        Err(_) => None,
    }
}

/// The member `name` of an object as serde_json read it: `None` when absent,
/// `Some(None)` when present but no string, `Some(Some(t))` for the string `t`.
pub open spec fn member_in(m: Map<Seq<char>, Option<Seq<char>>>, name: Seq<char>) -> Option<
    Option<Seq<char>>,
> {
    if m.contains_key(name) {
        Some(m[name])
    } else {
        None
    }
}

/// A member as found, with its text as a sequence of characters.
pub open spec fn found_view(f: Option<Option<String>>) -> Option<Option<Seq<char>>> {
    match f {
        None => None,
        Some(None) => Some(None),
        Some(Some(t)) => Some(Some(t@)),
    }
}

/// A member is acceptable unless it is present but no string.
pub open spec fn seen_ok(f: Option<Option<Seq<char>>>) -> bool {
    !(f matches Some(None))
}

/// The text of a member that is a string, or empty.
pub open spec fn seen_text(f: Option<Option<Seq<char>>>) -> Seq<char> {
    match f {
        Some(Some(t)) => t,
        _ => Seq::empty(),
    }
}

/// `"key":"source"`, one member of the encoded registry.
pub open spec fn member_json(e: (Seq<char>, Seq<char>)) -> Seq<char> {
    json_quoted(e.0) + seq![':'] + json_quoted(e.1)
}

/// The members of the encoded registry, separated by commas.
pub open spec fn members_json(s: Seq<(Seq<char>, Seq<char>)>) -> Seq<char>
    decreases s.len(),
{
    if s.len() == 0 {
        Seq::empty()
    } else if s.len() == 1 {
        member_json(s[0])
    } else {
        members_json(s.drop_last()) + seq![','] + member_json(s.last())
    }
}

/// The JSON object that maps each key of `s` to its source.
pub open spec fn object_json(s: Seq<(Seq<char>, Seq<char>)>) -> Seq<char> {
    seq!['{'] + members_json(s) + seq!['}']
}

/// The JSON text handed to the renderer for markup `markup`, the JSON text
/// `state` of the initial state, and the registry entries `elements`.
pub open spec fn request_json(
    markup: Seq<char>,
    state: Seq<char>,
    elements: Seq<(Seq<char>, Seq<char>)>,
) -> Seq<char> {
    "{\"markup\":"@ + json_quoted(markup) + ",\"initialState\":"@ + state + ",\"elements\":"@
        + object_json(elements) + "}"@
}

/// What the renderer is asked to render.
pub struct RenderRequest {
    /// The markup to expand.
    pub markup: String,
    /// The initial state, as the JSON text of an object.
    pub initial_state: String,
    /// The elements that the markup may use.
    pub elements: ElementRegistry,
}

impl RenderRequest {
    /// Puts a request together; nothing in it is checked.
    pub fn assemble(markup: String, initial_state: String, elements: ElementRegistry) -> (r:
        RenderRequest)
        ensures
            r.markup == markup,
            r.initial_state == initial_state,
            r.elements == elements,
    {
        RenderRequest { markup, initial_state, elements }
    }

    /// The JSON text of the request, with the members `markup`,
    /// `initialState` and `elements`.
    pub fn to_json(&self) -> (r: String)
        ensures
            r@ == request_json(self.markup@, self.initial_state@, self.elements.entry_seq()),
    {
        let mut r = String::from_str("{\"markup\":");
        let m = json_string(self.markup.as_str());
        r.append(m.as_str());
        r.append(",\"initialState\":");
        r.append(self.initial_state.as_str());
        r.append(",\"elements\":");
        let o = elements_json(&self.elements);
        r.append(o.as_str());
        r.append("}");
        r
    }
}

/// The JSON object that maps each key of `elements` to its source.
pub fn elements_json(elements: &ElementRegistry) -> (r: String)
    ensures
        r@ == object_json(elements.entry_seq()),
{
    let s = Ghost(elements.entry_seq());
    let n = elements.len();
    let mut r = String::from_str("{");
    proof {
        reveal_strlit("{");
    }
    let mut i: usize = 0;
    while i < n
        invariant
            i <= n,
            n == s@.len(),
            s@ == elements.entry_seq(),
            r@ == seq!['{'] + members_json(s@.subrange(0, i as int)),
        decreases n - i,
    {
        let (k, v) = elements.entry(i);
        if i > 0 {
            r.append(",");
            proof {
                reveal_strlit(",");
            }
        }
        let qk = json_string(k.as_str());
        r.append(qk.as_str());
        r.append(":");
        proof {
            reveal_strlit(":");
        }
        let qv = json_string(v.as_str());
        r.append(qv.as_str());
        proof {
            let t = s@.subrange(0, i + 1);
            assert(t.drop_last() =~= s@.subrange(0, i as int));
            assert(t.last() == s@[i as int]);
            assert(r@ =~= seq!['{'] + members_json(t));
        }
        i = i + 1;
    }
    r.append("}");
    proof {
        reveal_strlit("}");
        assert(s@.subrange(0, n as int) =~= s@);
    }
    r
}

/// What the renderer returned: a whole document, a body fragment and the
/// styles that the body needs.
#[derive(Debug, PartialEq, Eq)]
pub struct RenderResult {
    /// The whole page as the renderer wrote it.
    pub document: String,
    /// The rendered body fragment.
    pub body: String,
    /// The styles that the body fragment needs.
    pub styles: String,
}

/// Why the rendering pipeline stopped.
#[derive(Debug, PartialEq, Eq)]
pub enum PipelineError {
    /// The renderer failed, with its message.
    RenderInvocation(String),
    /// The renderer's answer is not a JSON object whose `document`, `body`
    /// and `styles` members, where present, are strings.
    MalformedRenderResult,
}

/// The text of a member that may be absent: absent reads as empty.
pub open spec fn or_empty(s: Option<String>) -> Seq<char> {
    match s {
        Some(t) => t@,
        None => Seq::empty(),
    }
}

impl RenderResult {
    /// A result from its three members as the renderer gave them; each one
    /// that is absent is empty.
    pub fn from_fields(document: Option<String>, body: Option<String>, styles: Option<String>) -> (r:
        RenderResult)
        ensures
            r.document@ == or_empty(document),
            r.body@ == or_empty(body),
            r.styles@ == or_empty(styles),
    {
        RenderResult {
            document: text_or_empty(document),
            body: text_or_empty(body),
            styles: text_or_empty(styles),
        }
    }
}

fn text_or_empty(s: Option<String>) -> (r: String)
    ensures
        r@ == or_empty(s),
{
    match s {
        Some(t) => t,
        None => String::new(),
    }
}

/// Decides the render result from the shape of the renderer's answer: whether
/// it is an object, and what stands under `document`, `body` and `styles`.
/// An answer that is no object, or has one of these members but not as a
/// string, is malformed; a member that is absent is empty.
pub fn result_from_members(
    is_object: bool,
    document: Option<Option<String>>,
    body: Option<Option<String>>,
    styles: Option<Option<String>>,
) -> (r: Result<RenderResult, PipelineError>)
    ensures
        r is Ok <==> (is_object && seen_ok(found_view(document)) && seen_ok(found_view(body))
            && seen_ok(found_view(styles))),
        r is Err ==> r == Err::<RenderResult, PipelineError>(PipelineError::MalformedRenderResult),
        r matches Ok(res) ==> res.document@ == seen_text(found_view(document)) && res.body@
            == seen_text(found_view(body)) && res.styles@ == seen_text(found_view(styles)),
{
    if !is_object {
        return Err(PipelineError::MalformedRenderResult);
    }
    let document = match document {
        Some(None) => return Err(PipelineError::MalformedRenderResult),
        Some(Some(t)) => Some(t),
        None => None,
    };
    let body = match body {
        Some(None) => return Err(PipelineError::MalformedRenderResult),
        Some(Some(t)) => Some(t),
        None => None,
    };
    let styles = match styles {
        Some(None) => return Err(PipelineError::MalformedRenderResult),
        Some(Some(t)) => Some(t),
        None => None,
    };
    Ok(RenderResult::from_fields(document, body, styles))
}

/// What decoding the renderer's answer `text` gives: `Ok` exactly when the
/// text is a JSON object whose `document`, `body` and `styles` members, where
/// present, are strings, with each member's text (empty where absent);
/// otherwise the answer is malformed.
pub open spec fn decoded(text: Seq<char>, r: Result<RenderResult, PipelineError>) -> bool {
    match json_object_of(text) {
        Some(m) => {
            let d = member_in(m, "document"@);
            let b = member_in(m, "body"@);
            let s = member_in(m, "styles"@);
            if seen_ok(d) && seen_ok(b) && seen_ok(s) {
                r matches Ok(res) && res.document@ == seen_text(d) && res.body@ == seen_text(b)
                    && res.styles@ == seen_text(s)
            } else {
                r == Err::<RenderResult, PipelineError>(PipelineError::MalformedRenderResult)
            }
        },
        None => r == Err::<RenderResult, PipelineError>(PipelineError::MalformedRenderResult),
    }
}

/// What the pipeline gives for the renderer's answer: a failure with the
/// renderer's message, or the decoded answer.
pub open spec fn rendered(answer: Result<String, String>, r: Result<RenderResult, PipelineError>) -> bool {
    match answer {
        Ok(text) => decoded(text@, r),
        Err(msg) => r == Err::<RenderResult, PipelineError>(PipelineError::RenderInvocation(msg)),
    }
}

/// Reads the renderer's answer, the JSON text of an object with the string
/// members `document`, `body` and `styles`; a member that is absent is empty.
/// Text that is no JSON object, or a member that is there but no string, is
/// malformed.
pub fn decode_render_result(text: &str) -> (r: Result<RenderResult, PipelineError>)
    ensures
        decoded(text@, r),
{
    if !json_text_is_object(text) {
        return Err(PipelineError::MalformedRenderResult);
    }
    let document = json_text_member(text, "document");
    let body = json_text_member(text, "body");
    let styles = json_text_member(text, "styles");
    result_from_members(true, document, body, styles)
}

/// Decides the render result from the renderer's answer: a failure comes
/// back with the renderer's message; an answer is decoded.
pub fn finish_render(answer: Result<String, String>) -> (r: Result<RenderResult, PipelineError>)
    ensures
        rendered(answer, r),
{
    match answer {
        Ok(text) => decode_render_result(text.as_str()),
        Err(msg) => Err(PipelineError::RenderInvocation(msg)),
    }
}

/// The rendering engine: it takes the JSON text of a request at its `ssr`
/// entry point and answers with JSON text, or fails with a message.
pub trait Renderer {
    fn ssr(&mut self, input: &str) -> Result<String, String>;
}

/// Renders `request`: hands its JSON text to the renderer and decides the
/// result from the answer with `finish_render`. The request text is the one
/// that `RenderRequest::to_json` gives.
pub fn enhance<R: Renderer>(renderer: &mut R, request: &RenderRequest) -> (r: Result<
    RenderResult,
    PipelineError,
>)
    ensures
        exists|answer: Result<String, String>| #[trigger] rendered(answer, r),
{
    let input = request.to_json();
    let answer = renderer.ssr(input.as_str());
    let ghost a = answer;
    let r = finish_render(answer);
    assert(rendered(a, r));
    r
}

} // verus!
