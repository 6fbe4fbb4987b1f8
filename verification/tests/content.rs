use stage_runtime::content::{percent_decode, safe_content_path_pub, url_to_content_path, hex_val, join_path};
use stage_runtime::html::{extract_scripts_from_html, link_stylesheet_hrefs, script_sources_of, ScriptSource};
use std::path::Path;

fn scripts(html: &str) -> String {
    // External scripts cannot be read here: their code is absent.
    let n = script_sources_of(html).len();
    extract_scripts_from_html(html, &vec![None; n])
}

#[test]
fn test_url_to_content_path() {
    let dir = "/data/stages/abc/content";
    assert_eq!(
        Path::new(&url_to_content_path("http://127.0.0.1:8080/x9f7a3b1c/index.html", dir)),
        Path::new(dir).join("index.html")
    );
    assert_eq!(
        Path::new(&url_to_content_path("http://127.0.0.1:8080/nonce123/bundle.js", dir)),
        Path::new(dir).join("bundle.js")
    );
    assert_eq!(
        Path::new(&url_to_content_path("http://127.0.0.1:8080/nonce/", dir)),
        Path::new(dir).join("index.html")
    );
}

#[test]
fn test_extract_scripts() {
    let html = r#"
            <html><body>
            <script>console.log("inline");</script>
            <script src="app.js"></script>
            </body></html>
        "#;
    let result = scripts(html);
    assert!(result.contains("console.log"));
}

#[test]
fn test_url_no_scheme() {
    let dir = "/data";
    let result = url_to_content_path("/nonce/file.js", dir);
    assert_eq!(Path::new(&result), Path::new(dir).join("file.js"));
}

#[test]
fn test_url_bare_path() {
    let dir = "/data";
    let result = url_to_content_path("index.html", dir);
    assert_eq!(Path::new(&result), Path::new(dir).join("index.html"));
}

#[test]
fn test_multiple_inline_scripts() {
    let html = r#"
            <script>var a = 1;</script>
            <script>var b = 2;</script>
            <script>var c = 3;</script>
        "#;
    let result = scripts(html);
    assert!(result.contains("var a = 1"));
    assert!(result.contains("var b = 2"));
    assert!(result.contains("var c = 3"));
}

#[test]
fn test_empty_script_tag() {
    let html = "<script></script>";
    let result = scripts(html);
    assert!(result.is_empty() || result.trim().is_empty());
}

#[test]
fn test_no_scripts() {
    let html = "<html><body><p>Hello</p></body></html>";
    let result = scripts(html);
    assert!(result.is_empty());
}

#[test]
fn test_script_with_type_attribute() {
    let html = r#"<script type="text/javascript">var x = 1;</script>"#;
    let result = scripts(html);
    assert!(result.contains("var x = 1"));
}

#[test]
fn test_safe_content_path_rejects_dotdot() {
    let dir = "/tmp/content-dir";
    assert!(safe_content_path_pub(dir, "../etc/passwd").is_none());
    assert!(safe_content_path_pub(dir, "../../etc/shadow").is_none());
    assert!(safe_content_path_pub(dir, "subdir/../../etc/passwd").is_none());
}

#[test]
fn test_safe_content_path_allows_valid() {
    let dir = "/tmp/content-dir";
    assert_eq!(safe_content_path_pub(dir, "app.js").as_deref(), Some("/tmp/content-dir/app.js"));
    assert_eq!(safe_content_path_pub(dir, "subdir/file.js").as_deref(), Some("/tmp/content-dir/subdir/file.js"));
}

#[test]
fn test_url_to_content_path_traversal_blocked() {
    let dir = "/tmp/content-dir";
    let result = url_to_content_path("http://127.0.0.1:8080/nonce/../../etc/passwd", dir);
    assert_eq!(Path::new(&result), Path::new(dir).join("index.html"));
}

#[test]
fn encoded_traversal_is_rejected() {
    assert!(safe_content_path_pub("/c", "%2e%2e/secret.js").is_none());
    assert!(safe_content_path_pub("/c", "%2E%2E%2Fsecret.js").is_none());
    assert_eq!(safe_content_path_pub("/c", "///a%20b.js").as_deref(), Some("/c/a b.js"));
}

#[test]
fn percent_decode_escapes_and_partial_escapes() {
    assert_eq!(percent_decode("a%41b"), "aAb");
    assert_eq!(percent_decode("%4"), "%4");
    assert_eq!(percent_decode("%zz%2f"), "%zz/");
    assert_eq!(percent_decode("plain"), "plain");
    assert_eq!(hex_val(b'f'), Some(15));
    assert_eq!(hex_val(b'G'), None);
}

#[test]
fn join_path_separators() {
    assert_eq!(join_path("/a/", "b"), "/a/b");
    assert_eq!(join_path("/a", "b"), "/a/b");
    assert_eq!(join_path("", "b"), "b");
    assert_eq!(join_path("/a", "/b"), "/b");
}

#[test]
fn external_script_code_is_inserted_in_order() {
    let html = r#"<script>one();</script><SCRIPT SRC='lib.js'></SCRIPT><!-- <script>hidden();</script> --><script>two();</script>"#;
    let srcs = script_sources_of(html);
    assert_eq!(srcs.len(), 3);
    match &srcs[1] {
        ScriptSource::External(u) => assert_eq!(u, "lib.js"),
        ScriptSource::Inline(_) => panic!("expected an external script"),
    }
    let out = extract_scripts_from_html(html, &[None, Some("lib();".to_string()), None]);
    assert_eq!(out, "one();\nlib();\ntwo();\n");
}

#[test]
fn stylesheet_links_are_found() {
    let html = r#"<link rel="stylesheet" href="../secret.css"><link rel=icon href=x.png><LINK REL="StyleSheet" href='a.css'/>"#;
    assert_eq!(link_stylesheet_hrefs(html), vec!["../secret.css".to_string(), "a.css".to_string()]);
}

#[test]
fn percent_decoding_reads_utf8() {
    assert_eq!(percent_decode("café.js"), "café.js");
    assert_eq!(percent_decode("%C3%A9"), "é");
    assert_eq!(percent_decode("%2e%2E/x%41"), "../xA");
    assert_eq!(percent_decode("%zz%4"), "%zz%4");
    assert_eq!(percent_decode("%FF"), "\u{FFFD}");
    assert_eq!(safe_content_path_pub("/c", "caf%C3%A9.js").as_deref(), Some("/c/café.js"));
}
