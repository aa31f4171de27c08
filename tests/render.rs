use enhance_ssr::ssr::elements_json;
use enhance_ssr::{
    compose, decode_render_result, enhance, finish_render, read_elements, result_from_members,
    ElementRegistry, PipelineError,
    RenderRequest, RenderResult, Renderer,
};

struct FakeRenderer {
    answer: Result<String, String>,
    seen: Vec<String>,
}

impl Renderer for FakeRenderer {
    fn ssr(&mut self, input: &str) -> Result<String, String> {
        self.seen.push(input.to_string());
        self.answer.clone()
    }
}

fn fake(answer: Result<&str, &str>) -> FakeRenderer {
    FakeRenderer { answer: answer.map(String::from).map_err(String::from), seen: Vec::new() }
}

fn sample_request() -> RenderRequest {
    let files = vec![("header.html".to_string(), "Hello".to_string())];
    RenderRequest::assemble(
        "<my-header>Hi</my-header>".to_string(),
        "{\"count\":42,\"message\":\"m\"}".to_string(),
        read_elements(&files),
    )
}

fn result(document: &str, body: &str, styles: &str) -> RenderResult {
    RenderResult { document: document.to_string(), body: body.to_string(), styles: styles.to_string() }
}

#[test]
fn request_json_exact() {
    let r = sample_request();
    assert_eq!(
        r.to_json(),
        "{\"markup\":\"<my-header>Hi</my-header>\",\"initialState\":{\"count\":42,\"message\":\"m\"},\
         \"elements\":{\"header\":\"function ({html, state}){return html`Hello`}\"}}"
    );
}

#[test]
fn request_json_escapes_strings() {
    let mut reg = ElementRegistry::new();
    reg.insert("q".to_string(), "say \"hi\"\n".to_string());
    let r = RenderRequest::assemble("a\"b\\c".to_string(), "{}".to_string(), reg);
    assert_eq!(
        r.to_json(),
        "{\"markup\":\"a\\\"b\\\\c\",\"initialState\":{},\"elements\":{\"q\":\"say \\\"hi\\\"\\n\"}}"
    );
}

#[test]
fn request_json_is_well_formed() {
    let files = vec![
        ("a.html".to_string(), "<b>`${x}`</b>".to_string()),
        ("d/e.js".to_string(), "let s = \"\\\\\";".to_string()),
    ];
    let r = RenderRequest::assemble("<a-x></a-x>".to_string(), "{\"n\":1}".to_string(), read_elements(&files));
    let v: serde_json::Value = serde_json::from_str(&r.to_json()).unwrap();
    assert_eq!(v["markup"].as_str(), Some("<a-x></a-x>"));
    assert_eq!(v["initialState"]["n"].as_i64(), Some(1));
    assert_eq!(v["elements"]["d-e"].as_str(), Some("let s = \"\\\\\";"));
    assert_eq!(
        v["elements"]["a"].as_str(),
        Some("function ({html, state}){return html`<b>`${x}`</b>`}")
    );
}

#[test]
fn empty_registry_encodes_as_empty_object() {
    assert_eq!(elements_json(&ElementRegistry::new()), "{}");
    let mut reg = ElementRegistry::new();
    reg.insert("a".to_string(), "1".to_string());
    reg.insert("b".to_string(), "2".to_string());
    assert_eq!(elements_json(&reg), "{\"a\":\"1\",\"b\":\"2\"}");
}

#[test]
fn decode_all_members() {
    let r = decode_render_result("{\"document\":\"<html>A</html>\",\"body\":\"<p>B</p>\",\"styles\":\"p{}\"}");
    assert_eq!(r, Ok(result("<html>A</html>", "<p>B</p>", "p{}")));
}

#[test]
fn decode_missing_members_are_empty() {
    assert_eq!(decode_render_result("{\"body\":\"x\"}"), Ok(result("", "x", "")));
    assert_eq!(decode_render_result("{}"), Ok(result("", "", "")));
}

#[test]
fn decode_rejects_bad_text() {
    assert_eq!(decode_render_result("not json"), Err(PipelineError::MalformedRenderResult));
    assert_eq!(decode_render_result(""), Err(PipelineError::MalformedRenderResult));
}

#[test]
fn decode_rejects_wrong_shape() {
    assert_eq!(decode_render_result("[1,2]"), Err(PipelineError::MalformedRenderResult));
    assert_eq!(decode_render_result("{\"body\":5}"), Err(PipelineError::MalformedRenderResult));
}

#[test]
fn from_fields_defaults() {
    let r = RenderResult::from_fields(Some("d".to_string()), None, None);
    assert_eq!(r, result("d", "", ""));
}

#[test]
fn enhance_hands_request_json_to_renderer() {
    let req = sample_request();
    let mut f = fake(Ok("{\"document\":\"<html>A</html>\",\"body\":\"<p>B</p>\",\"styles\":\"\"}"));
    let r = enhance(&mut f, &req).unwrap();
    assert_eq!(f.seen, vec![req.to_json()]);
    assert_eq!(r, result("<html>A</html>", "<p>B</p>", ""));
}

#[test]
fn enhance_reports_renderer_failure() {
    let mut f = fake(Err("trap"));
    assert_eq!(enhance(&mut f, &sample_request()), Err(PipelineError::RenderInvocation("trap".to_string())));
}

#[test]
fn enhance_reports_malformed_answer() {
    let mut f = fake(Ok("<html>"));
    assert_eq!(enhance(&mut f, &sample_request()), Err(PipelineError::MalformedRenderResult));
}

#[test]
fn renderer_output_composes_into_pages() {
    let mut f = fake(Ok("{\"document\":\"<html>A</html>\",\"body\":\"<p>B</p>\",\"styles\":\"\"}"));
    let pages = compose(&enhance(&mut f, &sample_request()).unwrap());
    assert_eq!(pages.primary, "<html>A</html>");
    assert!(pages.constructed.contains("<body><p>B</p>"));
    assert!(pages.constructed.contains("<style></style>"));
}

#[test]
fn constructed_page_exact() {
    let pages = compose(&result("doc", "<p>B</p>", "p{color:red}"));
    assert_eq!(pages.primary, "doc");
    assert_eq!(
        pages.constructed,
        "<html><head><link href='/static/index.css' rel='stylesheet'></link><style>p{color:red}</style>\
         </head><body><p>B</p><script type='module' src='/static/index.js'></script></body></html>"
    );
}

#[test]
fn compose_is_deterministic() {
    let r = result("d", "b", "s");
    assert_eq!(compose(&r), compose(&r));
}

#[test]
fn compose_of_empty_result() {
    let pages = compose(&result("", "", ""));
    assert_eq!(pages.primary, "");
    assert!(pages.constructed.contains("<style></style>"));
}

#[test]
fn members_decide_result() {
    let s = |t: &str| Some(Some(t.to_string()));
    assert_eq!(result_from_members(true, s("d"), None, s("c")), Ok(result("d", "", "c")));
    assert_eq!(result_from_members(false, s("d"), None, None), Err(PipelineError::MalformedRenderResult));
    assert_eq!(result_from_members(true, None, Some(None), None), Err(PipelineError::MalformedRenderResult));
    assert_eq!(result_from_members(true, None, None, None), Ok(result("", "", "")));
}

#[test]
fn finish_render_cases() {
    assert_eq!(finish_render(Err("boom".to_string())), Err(PipelineError::RenderInvocation("boom".to_string())));
    assert_eq!(finish_render(Ok("{\"styles\":\"s\"}".to_string())), Ok(result("", "", "s")));
    assert_eq!(finish_render(Ok("{".to_string())), Err(PipelineError::MalformedRenderResult));
}

#[test]
fn request_json_escapes_control_characters() {
    let r = RenderRequest::assemble("a\u{1}b\u{1f}\t\r\u{8}\u{c}é".to_string(), "{}".to_string(), ElementRegistry::new());
    assert_eq!(
        r.to_json(),
        "{\"markup\":\"a\\u0001b\\u001f\\t\\r\\b\\fé\",\"initialState\":{},\"elements\":{}}"
    );
}

#[test]
fn decode_ignores_other_members() {
    assert_eq!(
        decode_render_result("{\"document\":\"d\",\"extra\":3,\"body\":\"b\",\"styles\":\"\"}"),
        Ok(result("d", "b", ""))
    );
    assert_eq!(decode_render_result("{\"styles\":null}"), Err(PipelineError::MalformedRenderResult));
}
