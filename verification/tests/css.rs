use stage_runtime::cascade::{cascade_declarations, pseudo_declarations};
use stage_runtime::css::{CssRule, Declaration};
use stage_runtime::matching::{matches_selector, prev_sibling_element, Document, DomNode, ElementData};
use stage_runtime::selector::{calc_specificity, parse_selector, PseudoElement, Selector};
use stage_runtime::sheet::{parse_css_rules, parse_declarations};

fn decls(d: &[Declaration]) -> Vec<(String, String)> {
    d.iter().map(|x| (x.property.clone(), x.value.clone())).collect()
}

fn pair(p: &str, v: &str) -> (String, String) {
    (p.to_string(), v.to_string())
}

fn sel_text(r: &CssRule) -> String {
    format!("{:?}", r.selector)
}

#[test]
fn parses_simple_rules_in_order() {
    let rules = parse_css_rules("div { color: red; margin: 0 } .a { display: none; }");
    assert_eq!(rules.len(), 2);
    assert!(matches!(rules[0].selector, Selector::Tag(ref t) if t == "div"));
    assert_eq!(decls(&rules[0].declarations), vec![pair("color", "red"), pair("margin", "0")]);
    assert_eq!(rules[0].specificity, 1);
    assert!(matches!(rules[1].selector, Selector::Class(ref c) if c == "a"));
    assert_eq!(rules[1].specificity, 10);
}

#[test]
fn selector_lists_share_declarations() {
    let rules = parse_css_rules("h1, .title , #main{font-weight:bold}");
    assert_eq!(rules.len(), 3);
    assert_eq!(rules[0].specificity, 1);
    assert_eq!(rules[1].specificity, 10);
    assert_eq!(rules[2].specificity, 100);
    for r in &rules {
        assert_eq!(decls(&r.declarations), vec![pair("font-weight", "bold")]);
    }
}

#[test]
fn comments_strings_and_blocks_are_skipped() {
    let css = "/* a { color: blue } */ p { content: \"}{;\"; background: url(data:x;y) } /* end";
    let rules = parse_css_rules(css);
    assert_eq!(rules.len(), 1);
    assert_eq!(
        decls(&rules[0].declarations),
        vec![pair("content", "\"}{;\""), pair("background", "url(data:x;y)")]
    );
}

#[test]
fn important_is_stripped_and_names_lowercased() {
    let rules = parse_css_rules("a { COLOR: Red !important; width: 5px ! important }");
    assert_eq!(decls(&rules[0].declarations), vec![pair("color", "Red"), pair("width", "5px")]);
}

#[test]
fn media_blocks_follow_the_viewport() {
    let css = "@media (min-width: 768px) { .wide { display: block } } \
               @media print { .p { display: none } } \
               @media screen and (max-width: 600px) { .narrow { color: red } } \
               b { color: green }";
    let rules = parse_css_rules(css);
    let names: Vec<String> = rules.iter().map(sel_text).collect();
    assert_eq!(rules.len(), 2, "{:?}", names);
    assert!(matches!(rules[0].selector, Selector::Class(ref c) if c == "wide"));
    assert!(matches!(rules[1].selector, Selector::Tag(ref t) if t == "b"));
}

#[test]
fn other_at_rules_give_nothing() {
    let css = "@charset \"utf-8\"; @import url(x.css); @keyframes spin { from { top: 0 } to { top: 1px } } \
               @font-face { font-family: X } i { color: blue }";
    let rules = parse_css_rules(css);
    assert_eq!(rules.len(), 1);
    assert!(matches!(rules[0].selector, Selector::Tag(ref t) if t == "i"));
}

#[test]
fn malformed_css_does_not_break_later_rules() {
    let css = "body { width: ????px; height: NaN; margin: -999999px } \
               div { display: flex; flex: invalid } 123 { } { x } span { color: red";
    let rules = parse_css_rules(css);
    let kept: Vec<String> = rules.iter().map(sel_text).collect();
    assert!(kept.iter().any(|s| s.contains("body")), "{:?}", kept);
    assert!(kept.iter().any(|s| s.contains("div")), "{:?}", kept);
    let span = rules.iter().find(|r| sel_text(r).contains("span")).expect("unterminated block kept");
    assert_eq!(decls(&span.declarations), vec![pair("color", "red")]);
}

#[test]
fn custom_property_prelude_is_skipped() {
    let rules = parse_css_rules("--x: red { color: blue } p { --gap: 4px; margin: var(--gap) }");
    assert_eq!(rules.len(), 1);
    assert_eq!(decls(&rules[0].declarations), vec![pair("--gap", "4px"), pair("margin", "var(--gap)")]);
}

#[test]
fn declaration_lists_skip_junk() {
    let d = parse_declarations("color: red; ; 12px; @media x { a: b } width : 3px; no-colon; top:1px");
    assert_eq!(decls(&d), vec![pair("color", "red"), pair("width", "3px"), pair("top", "1px")]);
    assert!(parse_declarations("").is_empty());
}

#[test]
fn specificity_adds_up() {
    let s = parse_selector("div.a > #b p::before").unwrap();
    assert_eq!(calc_specificity(&s), 11 + 100 + 1 + 1);
    assert!(matches!(s, Selector::WithPseudo(_, PseudoElement::Before)));
    let s = parse_selector("ul li a[href^=\"http\"]").unwrap();
    assert_eq!(calc_specificity(&s), 1 + 1 + 11);
}

fn elem(tag: &str, id: Option<&str>, classes: &[&str], attrs: &[(&str, &str)]) -> Option<ElementData> {
    Some(ElementData {
        tag: tag.to_string(),
        id: id.map(|s| s.to_string()),
        classes: classes.iter().map(|c| c.to_string()).collect(),
        attrs: attrs.iter().map(|(k, v)| (k.to_string(), v.to_string())).collect(),
    })
}

fn node(element: Option<ElementData>, parent: Option<usize>, children: &[usize]) -> DomNode {
    DomNode { element, text: None, parent, children: children.to_vec() }
}

/// body > div#main.box > (text, p.first, span, p.last[data-x="yes"])
fn sample() -> Document {
    Document {
        nodes: vec![
            node(elem("body", None, &[], &[]), None, &[1]),
            node(elem("DIV", Some("main"), &["box"], &[]), Some(0), &[2, 3, 4, 5]),
            node(None, Some(1), &[]),
            node(elem("p", None, &["first"], &[("style", "color: red")]), Some(1), &[]),
            node(elem("span", None, &[], &[]), Some(1), &[]),
            node(elem("p", None, &["last"], &[("data-x", "yes")]), Some(1), &[]),
        ],
    }
}

fn matches(doc: &Document, n: usize, sel: &str) -> bool {
    matches_selector(doc, n, &parse_selector(sel).unwrap())
}

#[test]
fn matching_simple_and_compound() {
    let d = sample();
    assert!(matches(&d, 1, "div"));
    assert!(matches(&d, 1, "#main"));
    assert!(matches(&d, 1, "div.box"));
    assert!(!matches(&d, 1, "p"));
    assert!(matches(&d, 5, "p[data-x=\"yes\"]"));
    assert!(matches(&d, 5, "[data-x^=\"y\"]"));
    assert!(!matches(&d, 5, "[data-x$=\"no\"]"));
    assert!(!matches(&d, 2, "*"));
    assert!(matches(&d, 4, "*"));
}

#[test]
fn matching_combinators() {
    let d = sample();
    assert!(matches(&d, 3, "body p"));
    assert!(matches(&d, 3, "div > p"));
    assert!(!matches(&d, 3, "body > p"));
    assert!(matches(&d, 4, "p + span"));
    assert!(matches(&d, 5, "span + p"));
    assert!(matches(&d, 5, ".first ~ p"));
    assert!(!matches(&d, 3, ".last ~ p"));
    assert!(!matches(&d, 3, "p::before"));
    assert_eq!(prev_sibling_element(&d, 3), None);
    assert_eq!(prev_sibling_element(&d, 4), Some(3));
}

#[test]
fn child_match_implies_descendant_match() {
    let d = sample();
    for n in 0..d.nodes.len() {
        if matches(&d, n, "div > p") {
            assert!(matches(&d, n, "div p"));
        }
        if matches(&d, n, "p + span") {
            assert!(matches(&d, n, "p ~ span"));
        }
    }
}

#[test]
fn cascade_orders_by_specificity_then_source() {
    let d = sample();
    let rules = parse_css_rules(
        "#main p { color: blue } p { color: green } .first { color: yellow } p { margin: 0 } span { x: y }",
    );
    let order = decls(&cascade_declarations(&d, 3, &rules));
    assert_eq!(
        order,
        vec![
            pair("color", "green"),
            pair("margin", "0"),
            pair("color", "yellow"),
            pair("color", "blue"),
            pair("color", "red"),
        ]
    );
    assert!(cascade_declarations(&d, 2, &rules).is_empty());
}

#[test]
fn pseudo_element_rules_in_source_order() {
    let d = sample();
    let rules = parse_css_rules(
        "p.first::before { content: 'a' } p::after { content: 'z' } .first:before { color: red } p { color: blue }",
    );
    let before = pseudo_declarations(&d, 3, &rules, PseudoElement::Before).unwrap();
    assert_eq!(decls(&before), vec![pair("content", "'a'"), pair("color", "red")]);
    let after = pseudo_declarations(&d, 3, &rules, PseudoElement::After).unwrap();
    assert_eq!(decls(&after), vec![pair("content", "'z'")]);
    assert!(pseudo_declarations(&d, 4, &rules, PseudoElement::Before).is_none());
    // Pseudo-element rules take no part in the ordinary cascade.
    assert_eq!(decls(&cascade_declarations(&d, 4, &rules)), Vec::<(String, String)>::new());
}
