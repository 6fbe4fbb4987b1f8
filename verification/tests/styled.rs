use stage_runtime::kv::TextMap;
use stage_runtime::matching::{Document, DomNode, ElementData};
use stage_runtime::sheet::parse_css_rules;
use stage_runtime::style::{AlignItems, Display, KeywordStyle, TextAlign, VerticalAlign};
use stage_runtime::styled::{build_styled_tree, inline_flow, StyledNode};

fn el(tag: &str, attrs: &[(&str, &str)], parent: Option<usize>, children: &[usize]) -> DomNode {
    DomNode {
        element: Some(ElementData {
            tag: tag.to_string(),
            id: None,
            classes: vec![],
            attrs: attrs.iter().map(|(k, v)| (k.to_string(), v.to_string())).collect(),
        }),
        text: None,
        parent,
        children: children.to_vec(),
    }
}

fn text(t: &str, parent: usize) -> DomNode {
    DomNode { element: None, text: Some(t.to_string()), parent: Some(parent), children: vec![] }
}

/// document > html > (head, body > (p[style] > "  hello ", script, span > "   ", "tail"))
fn page() -> Document {
    Document {
        nodes: vec![
            DomNode { element: None, text: None, parent: None, children: vec![1] },
            el("html", &[], Some(0), &[2, 3]),
            el("head", &[], Some(1), &[]),
            el("body", &[], Some(1), &[4, 6, 7, 9]),
            el("p", &[("style", "display: flex")], Some(3), &[5]),
            text("  hello ", 4),
            el("script", &[], Some(3), &[]),
            el("span", &[], Some(3), &[8]),
            text("   ", 7),
            text("tail", 3),
        ],
    }
}

#[test]
fn styled_tree_of_a_page() {
    let rules = parse_css_rules(
        "p { font-weight: bold; --gap: 4px } p::before { content: '> ' } \
         span::after { content: '!' } body { text-align: center }",
    );
    let root = build_styled_tree(&page(), 0, &rules, &KeywordStyle::initial(), &TextMap::new(), 0);
    assert_eq!(root.node, 0);
    assert_eq!(root.children.len(), 1);
    let html = &root.children[0];
    assert_eq!(html.node, 1);
    // The head is not rendered.
    assert_eq!(html.children.len(), 1);
    let body = &html.children[0];
    assert_eq!(body.node, 3);
    assert_eq!(body.style.text_align, TextAlign::Center);
    // p, span and the text; the script is dropped.
    let kids: Vec<usize> = body.children.iter().map(|c| c.node).collect();
    assert_eq!(kids, vec![4, 7, 9]);
    let p = &body.children[0];
    assert_eq!(p.style.display, Display::Flex);
    assert!(p.style.font_weight.is_bold());
    assert_eq!(p.style.text_align, TextAlign::Center);
    assert_eq!(p.props.get("--gap").map(|s| s.as_str()), Some("4px"));
    // The inline ::before joins the text of the first child.
    assert_eq!(p.children.len(), 1);
    assert_eq!(p.children[0].text.as_deref(), Some("> hello"));
    // The span's blank text is dropped; its ::after stands alone.
    let span = &body.children[1];
    assert_eq!(span.style.display, Display::Inline);
    assert_eq!(span.children.len(), 1);
    assert_eq!(span.children[0].text.as_deref(), Some("!"));
    assert_eq!(span.children[0].style.display, Display::Inline);
    assert!(span.children[0].style.content.is_none());
    let tail = &body.children[2];
    assert_eq!(tail.text.as_deref(), Some("tail"));
    assert_eq!(tail.style.text_align, TextAlign::Center);
}

#[test]
fn too_deep_or_gone_nodes_are_hidden() {
    let rules = parse_css_rules("");
    let d = page();
    let n = build_styled_tree(&d, 4, &rules, &KeywordStyle::initial(), &TextMap::new(), 257);
    assert_eq!(n.style.display, Display::NoDisplay);
    assert!(n.children.is_empty());
    let g = build_styled_tree(&d, 99, &rules, &KeywordStyle::initial(), &TextMap::new(), 0);
    assert_eq!(g.style.display, Display::NoDisplay);
}

fn node(display: Display, va: VerticalAlign, children: Vec<StyledNode>) -> StyledNode {
    let mut style = KeywordStyle::initial();
    style.display = display;
    style.vertical_align = va;
    StyledNode { node: 0, style, props: TextMap::new(), text: None, children }
}

#[test]
fn block_with_inline_children_flows_as_a_line() {
    let kids = vec![
        node(Display::Block, VerticalAlign::Top, vec![]),
        node(Display::Inline, VerticalAlign::Baseline, vec![]),
        node(Display::InlineBlock, VerticalAlign::Middle, vec![]),
        node(Display::Inline, VerticalAlign::Bottom, vec![]),
    ];
    assert_eq!(inline_flow(&node(Display::Block, VerticalAlign::Baseline, kids)), Some(AlignItems::Center));
    let kids = vec![node(Display::Inline, VerticalAlign::Baseline, vec![])];
    assert_eq!(inline_flow(&node(Display::Block, VerticalAlign::Top, kids)), Some(AlignItems::FlexEnd));
    let kids = vec![node(Display::InlineBlock, VerticalAlign::Top, vec![])];
    assert_eq!(inline_flow(&node(Display::Block, VerticalAlign::Baseline, kids)), Some(AlignItems::FlexStart));
}

#[test]
fn other_nodes_do_not_flow_as_a_line() {
    let kids = vec![node(Display::Block, VerticalAlign::Middle, vec![])];
    assert_eq!(inline_flow(&node(Display::Block, VerticalAlign::Baseline, kids)), None);
    let kids = vec![node(Display::Inline, VerticalAlign::Middle, vec![])];
    assert_eq!(inline_flow(&node(Display::Flex, VerticalAlign::Baseline, kids)), None);
    assert_eq!(inline_flow(&node(Display::Block, VerticalAlign::Baseline, vec![])), None);
}
