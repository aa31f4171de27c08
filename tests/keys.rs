use enhance_ssr::{classify, file_extension, file_name, file_stem, generate_key, ElementKind};

#[test]
fn nested_file_key_joins_directories() {
    assert_eq!(generate_key("sub/dir/name.html"), "sub-dir-name");
}

#[test]
fn root_file_key_is_base_name() {
    assert_eq!(generate_key("name.js"), "name");
}

#[test]
fn single_directory_key() {
    assert_eq!(generate_key("utils/format.js"), "utils-format");
}

#[test]
fn backslash_separators_become_dashes() {
    assert_eq!(generate_key("a\\b\\c.mjs"), "a-b-c");
}

#[test]
fn only_last_extension_is_dropped() {
    assert_eq!(generate_key("x/my.header.html"), "x-my.header");
}

#[test]
fn file_name_and_stem() {
    assert_eq!(file_name("a/b/c.html"), "c.html");
    assert_eq!(file_name("c.html"), "c.html");
    assert_eq!(file_stem("c.html"), "c");
    assert_eq!(file_stem(".hidden"), ".hidden");
    assert_eq!(file_stem("plain"), "plain");
}

#[test]
fn file_extension_cases() {
    assert_eq!(file_extension("c.html"), Some("html"));
    assert_eq!(file_extension("a.b.mjs"), Some("mjs"));
    assert_eq!(file_extension(".html"), None);
    assert_eq!(file_extension("plain"), None);
}

#[test]
fn classify_by_extension() {
    assert_eq!(classify("a/x.js"), Some(ElementKind::Script));
    assert_eq!(classify("x.mjs"), Some(ElementKind::Script));
    assert_eq!(classify("a/b/x.html"), Some(ElementKind::Markup));
    assert_eq!(classify("x.txt"), None);
    assert_eq!(classify("x.htm"), None);
    assert_eq!(classify("dir.html/readme"), None);
    assert_eq!(classify(".html"), None);
}

#[test]
fn distinct_directories_give_distinct_keys() {
    assert_ne!(generate_key("a/x.html"), generate_key("b/x.html"));
    assert_ne!(generate_key("x.html"), generate_key("a/x.html"));
    assert_eq!(generate_key("a/x.html"), generate_key("a/x.js"));
}
