use stage_runtime::cascade::cascade_declarations;
use stage_runtime::html::extract_scripts_from_html;
use stage_runtime::kv::TextMap;
use stage_runtime::matching::{Document, DomNode, ElementData};
use stage_runtime::style::{Display, KeywordStyle};
use stage_runtime::tree::{extract_and_parse_styles, extract_style_text, find_body, find_html};

fn el(tag: &str, parent: Option<usize>, children: &[usize]) -> DomNode {
    DomNode {
        element: Some(ElementData { tag: tag.to_string(), id: None, classes: vec![], attrs: vec![] }),
        text: None,
        parent,
        children: children.to_vec(),
    }
}

fn text(t: &str, parent: usize) -> DomNode {
    DomNode { element: None, text: Some(t.to_string()), parent: Some(parent), children: vec![] }
}

/// document > html > (head > style > text, body > (style > text, p > text))
fn page() -> Document {
    Document {
        nodes: vec![
            DomNode { element: None, text: None, parent: None, children: vec![1] },
            el("html", Some(0), &[2, 5]),
            el("head", Some(1), &[3]),
            el("style", Some(2), &[4]),
            text("p { color: red; }", 3),
            el("BODY", Some(1), &[6, 8]),
            el("style", Some(5), &[7]),
            text("div{display:none}", 6),
            el("p", Some(5), &[9]),
            text("not css", 8),
        ],
    }
}

/// A chain of `n` nested `div`s under node 0, with a `style` element and its
/// text below the last.
fn deep(n: usize, tag: &str) -> Document {
    let mut nodes = Vec::new();
    for i in 0..n {
        nodes.push(el("div", if i == 0 { None } else { Some(i - 1) }, &[i + 1]));
    }
    nodes.push(el(tag, Some(n - 1), &[n + 1]));
    nodes.push(text("a{}", n));
    Document { nodes }
}

#[test]
fn style_text_in_document_order() {
    let d = page();
    assert_eq!(extract_style_text(&d, 0), "p { color: red; }\ndiv{display:none}\n");
    assert_eq!(extract_style_text(&d, 5), "div{display:none}\n");
    assert_eq!(extract_style_text(&d, 8), "");
    assert_eq!(extract_style_text(&d, 99), "");
}

#[test]
fn styles_parse_into_rules() {
    let rules = extract_and_parse_styles(&page(), 0);
    assert_eq!(rules.len(), 2);
    assert_eq!(rules[0].declarations[0].property, "color");
    assert_eq!(rules[0].declarations[0].value, "red");
    assert_eq!(rules[1].declarations[0].property, "display");
    assert_eq!(rules[1].declarations[0].value, "none");
}

#[test]
fn html_and_body_are_found() {
    let d = page();
    assert_eq!(find_html(&d, 0), Some(1));
    assert_eq!(find_body(&d, 0), Some(5));
    assert_eq!(find_body(&d, 2), None);
    assert_eq!(find_html(&d, 5), None);
}

#[test]
fn walks_stop_at_their_depth() {
    // The style element stands 512 levels below the start: it is read.
    assert_eq!(extract_style_text(&deep(512, "style"), 0), "a{}\n");
    // One level deeper it is not.
    assert_eq!(extract_style_text(&deep(513, "style"), 0), "");
    assert_eq!(find_body(&deep(256, "body"), 0), Some(256));
    assert_eq!(find_body(&deep(257, "body"), 0), None);
    assert_eq!(find_html(&deep(512, "html"), 0), Some(512));
    assert_eq!(find_html(&deep(513, "html"), 0), None);
}

#[test]
fn cyclic_documents_end() {
    let d = Document {
        nodes: vec![el("div", None, &[1]), el("style", Some(0), &[0, 2]), text("x", 1)],
    };
    let s = extract_style_text(&d, 0);
    assert!(s.starts_with("x\n"));
    assert_eq!(find_body(&d, 0), None);
}

/// The style-side steps of rendering a page: its style text and rules, the
/// body, and the declarations that reach each element, applied.
fn style_page(d: &Document) -> Vec<KeywordStyle> {
    let rules = extract_and_parse_styles(d, 0);
    let mut out = Vec::new();
    for n in 0..d.nodes.len() {
        if d.nodes[n].element.is_some() {
            let mut s = KeywordStyle::initial();
            let mut props = TextMap::new();
            for decl in cascade_declarations(d, n, &rules) {
                let _ = s.apply_declaration(&mut props, &decl.property, &decl.value);
            }
            out.push(s);
        }
    }
    out
}

#[test]
fn empty_html_does_not_panic() {
    let d = Document { nodes: vec![] };
    assert_eq!(extract_style_text(&d, 0), "");
    assert_eq!(find_body(&d, 0), None);
    assert!(style_page(&d).is_empty());
    assert_eq!(extract_scripts_from_html("", &[]), "");
}

#[test]
fn malformed_css_does_not_panic() {
    let css = "\n            body { width: ????px; height: NaN; margin: -999999px }\n            div { display: flex; flex: invalid }\n        ";
    let d = Document {
        nodes: vec![
            DomNode { element: None, text: None, parent: None, children: vec![1] },
            el("html", Some(0), &[2, 5]),
            el("head", Some(1), &[3]),
            el("style", Some(2), &[4]),
            text(css, 3),
            el("body", Some(1), &[6]),
            el("div", Some(5), &[7]),
            text("test", 6),
        ],
    };
    let styles = style_page(&d);
    // html, head, style, body, div
    assert_eq!(styles.len(), 5);
    // The div's display still applies.
    assert_eq!(styles[4].display, Display::Flex);
}

#[test]
fn nested_flexbox_does_not_panic() {
    // body > 50 nested divs with style='display:flex' > "content"
    let mut nodes = vec![el("body", None, &[1])];
    for i in 1..=50 {
        let mut n = el("div", Some(i - 1), &[i + 1]);
        if let Some(e) = n.element.as_mut() {
            e.attrs.push(("style".to_string(), "display:flex".to_string()));
        }
        nodes.push(n);
    }
    nodes.push(text("content", 50));
    let d = Document { nodes };
    let styles = style_page(&d);
    assert_eq!(styles.len(), 51);
    assert!(styles[1..].iter().all(|s| s.display == Display::Flex));
    assert_eq!(find_body(&d, 0), Some(0));
}
