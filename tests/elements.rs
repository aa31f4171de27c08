use enhance_ssr::{element_source, read_elements, wrap_template, ElementKind, ElementRegistry};

const HEAD: &str = "function ({html, state}){return html`";
const TAIL: &str = "`}";

fn files(list: &[(&str, &str)]) -> Vec<(String, String)> {
    list.iter().map(|(p, c)| (p.to_string(), c.to_string())).collect()
}

#[test]
fn wrap_markup_exactly() {
    assert_eq!(wrap_template("<p>Hi</p>"), "function ({html, state}){return html`<p>Hi</p>`}");
}

#[test]
fn wrap_then_identity_render_gives_content() {
    let w = wrap_template("<p>Hi</p>");
    let inner = w.strip_prefix(HEAD).and_then(|r| r.strip_suffix(TAIL));
    assert_eq!(inner, Some("<p>Hi</p>"));
}

#[test]
fn wrap_keeps_template_syntax() {
    let src = "<p>${state.count} `x` \\n</p>";
    assert_eq!(wrap_template(src), format!("{}{}{}", HEAD, src, TAIL));
}

#[test]
fn element_source_by_kind() {
    assert_eq!(element_source(ElementKind::Script, "let a=1;".to_string()), "let a=1;");
    assert_eq!(element_source(ElementKind::Markup, "Hi".to_string()), format!("{}Hi{}", HEAD, TAIL));
}

#[test]
fn end_to_end_registry() {
    let r = read_elements(&files(&[("header.html", "Hello"), ("utils/format.js", "export const x=1;")]));
    assert_eq!(r.len(), 2);
    assert_eq!(
        r.get("header").map(|s| s.as_str()),
        Some("function ({html, state}){return html`Hello`}")
    );
    assert_eq!(r.get("utils-format").map(|s| s.as_str()), Some("export const x=1;"));
}

#[test]
fn scripts_pass_through_byte_for_byte() {
    let content = "export default function x() { return `a${1}`; }\r\n\t\"q\"";
    let r = read_elements(&files(&[("a/b.mjs", content)]));
    assert_eq!(r.get("a-b").map(|s| s.as_str()), Some(content));
}

#[test]
fn other_files_are_skipped() {
    let r = read_elements(&files(&[("notes.txt", "x"), ("img/logo.png", "y"), ("README", "z")]));
    assert_eq!(r.len(), 0);
    assert_eq!(r.get("notes"), None);
}

#[test]
fn empty_scan_gives_empty_registry() {
    let r = read_elements(&Vec::new());
    assert_eq!(r.len(), 0);
}

#[test]
fn same_stem_same_directory_last_wins() {
    let r = read_elements(&files(&[("d/x.html", "A"), ("d/x.js", "B")]));
    assert_eq!(r.len(), 1);
    assert_eq!(r.get("d-x").map(|s| s.as_str()), Some("B"));
    let r = read_elements(&files(&[("d/x.js", "B"), ("d/x.html", "A")]));
    assert_eq!(r.len(), 1);
    assert_eq!(r.get("d-x").map(|s| s.as_str()), Some(format!("{}A{}", HEAD, TAIL).as_str()));
}

#[test]
fn add_file_reports_elements() {
    let mut r = ElementRegistry::new();
    assert!(r.add_file("x/y.html", "Y".to_string()));
    assert!(!r.add_file("x/y.css", "Z".to_string()));
    assert_eq!(r.len(), 1);
    let (k, v) = r.entry(0);
    assert_eq!(k, "x-y");
    assert_eq!(v, &format!("{}Y{}", HEAD, TAIL));
}

#[test]
fn insert_replaces_existing_key() {
    let mut r = ElementRegistry::new();
    r.insert("a".to_string(), "1".to_string());
    r.insert("b".to_string(), "2".to_string());
    r.insert("a".to_string(), "3".to_string());
    assert_eq!(r.len(), 2);
    assert_eq!(r.get("a").map(|s| s.as_str()), Some("3"));
    assert_eq!(r.get("b").map(|s| s.as_str()), Some("2"));
    assert_eq!(r.get("c"), None);
}
