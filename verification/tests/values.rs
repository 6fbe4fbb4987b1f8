use stage_runtime::kv::TextMap;
use stage_runtime::media::evaluate_media_query;
use stage_runtime::style::GridRepeatKind;
use stage_runtime::values::{
    parse_grid_line, parse_shorthand_4, parse_track_list, split_css_values, split_gradient_args,
    split_track_tokens, strip_outer_parens, try_split_track_tokens, TrackList,
};
use stage_runtime::vars::{resolve_var, MAX_VAR_OUTPUT_LEN};

fn chars(s: &str) -> Vec<char> {
    s.chars().collect()
}

fn strings(v: Vec<Vec<char>>) -> Vec<String> {
    v.into_iter().map(|c| c.into_iter().collect()).collect()
}

#[test]
fn media_types_and_lists() {
    assert!(evaluate_media_query(""));
    assert!(evaluate_media_query("screen"));
    assert!(evaluate_media_query("all"));
    assert!(!evaluate_media_query("print"));
    assert!(evaluate_media_query("not print"));
    assert!(!evaluate_media_query("not screen"));
    assert!(evaluate_media_query("print, screen"));
    assert!(!evaluate_media_query("print, tv"));
    assert!(evaluate_media_query("something-unknown"));
}

#[test]
fn media_features_against_the_viewport() {
    assert!(evaluate_media_query("(min-width: 768px)"));
    assert!(!evaluate_media_query("(max-width: 600px)"));
    assert!(evaluate_media_query("(min-width: 1280px)"));
    assert!(evaluate_media_query("(max-width: 1280px)"));
    assert!(!evaluate_media_query("(min-width: 1281px)"));
    assert!(evaluate_media_query("(min-height: 720px)"));
    assert!(!evaluate_media_query("(min-height: 721px)"));
    assert!(evaluate_media_query("(max-height: 800)"));
    assert!(evaluate_media_query("screen and (min-width: 1000px) and (orientation: landscape)"));
    assert!(!evaluate_media_query("screen and (max-width: 600px)"));
    assert!(evaluate_media_query("(prefers-color-scheme: light)"));
    assert!(!evaluate_media_query("(prefers-color-scheme: dark)"));
    assert!(evaluate_media_query("(prefers-reduced-motion: no-preference)"));
    assert!(!evaluate_media_query("(prefers-reduced-motion)"));
    assert!(evaluate_media_query("(hover)"));
    assert!(!evaluate_media_query("(orientation: portrait)"));
}

#[test]
fn media_lengths_read_as_f32() {
    // em lengths are sixteen pixels each.
    assert!(evaluate_media_query("(min-width: 80em)"));
    assert!(!evaluate_media_query("(min-width: 81em)"));
    // A rem suffix ends in "em" and leaves "2r", which is no number.
    assert!(!evaluate_media_query("(min-width: 2rem)"));
    // Values within half an f32 step of the viewport round onto it.
    assert!(evaluate_media_query("(min-width: 1280.00006px)"));
    assert!(!evaluate_media_query("(min-width: 1280.0001px)"));
    assert!(evaluate_media_query("(max-width: 1279.99995px)"));
    assert!(!evaluate_media_query("(max-width: 1279.9999px)"));
    // Float literal forms.
    assert!(evaluate_media_query("(min-width: 1e3px)"));
    assert!(evaluate_media_query("(min-width: .5px)"));
    assert!(!evaluate_media_query("(min-width: inf)"));
    assert!(evaluate_media_query("(max-width: INF)"));
    assert!(!evaluate_media_query("(max-width: NaN)"));
    assert!(!evaluate_media_query("(min-width: NaN)"));
    assert!(!evaluate_media_query("(max-width: -5px)"));
    assert!(!evaluate_media_query("(min-width: abc)"));
    assert_eq!(
        evaluate_media_query(&format!("(min-width: 0.{}1px)", "0".repeat(400))),
        true
    );
}

#[test]
fn css_values_split_outside_parentheses() {
    assert_eq!(
        strings(split_css_values(&chars("  1px  rgba(0, 0, 0, 0.5) solid "))),
        vec!["1px", "rgba(0, 0, 0, 0.5)", "solid"]
    );
    assert_eq!(strings(split_css_values(&chars(""))), Vec::<String>::new());
}

#[test]
fn box_shorthand_expands_to_four() {
    assert_eq!(parse_shorthand_4("1px"), vec!["1px", "1px", "1px", "1px"]);
    assert_eq!(parse_shorthand_4("1px 2px"), vec!["1px", "2px", "1px", "2px"]);
    assert_eq!(parse_shorthand_4("1px 2px 3px"), vec!["1px", "2px", "3px", "2px"]);
    assert_eq!(parse_shorthand_4("1px 2px 3px 4px"), vec!["1px", "2px", "3px", "4px"]);
}

#[test]
fn gradient_arguments_split_on_outer_commas() {
    assert_eq!(
        split_gradient_args("to right, rgba(0,0,0,1) 10%, #fff"),
        vec!["to right", "rgba(0,0,0,1) 10%", "#fff"]
    );
}

#[test]
fn outer_parentheses_come_off_when_they_wrap_everything() {
    let inner: String = strip_outer_parens(&chars("(a + (b))")).unwrap().into_iter().collect();
    assert_eq!(inner, "a + (b)");
    assert!(strip_outer_parens(&chars("(a) + (b)")).is_none());
}

#[test]
fn grid_lines() {
    assert_eq!(parse_grid_line("2"), Some(2));
    assert_eq!(parse_grid_line(" -1 "), Some(-1));
    assert_eq!(parse_grid_line("auto"), None);
    assert_eq!(parse_grid_line("span 2"), None);
    assert_eq!(parse_grid_line("40000"), None);
}

#[test]
fn track_tokens_respect_parentheses() {
    assert_eq!(
        split_track_tokens("minmax(40px, 1fr) 2fr minmax(40px, 1fr)"),
        vec!["minmax(40px, 1fr)", "2fr", "minmax(40px, 1fr)"]
    );
    assert_eq!(split_track_tokens("  1fr\t 2fr "), vec!["1fr", "2fr"]);
    assert!(split_track_tokens("").is_empty());
    // A wide space before a parenthesis would cut a character in two.
    assert!(try_split_track_tokens("1fr\u{3000}(2fr)").is_none());
    assert_eq!(try_split_track_tokens("1fr\u{3000}2fr").unwrap(), vec!["1fr", "2fr"]);
}

#[test]
fn track_lists_with_repeat() {
    match parse_track_list("repeat(3, 1fr)") {
        TrackList::Repeat(GridRepeatKind::Count(3), def) => assert_eq!(def, "1fr"),
        _ => panic!("expected a counted repeat"),
    }
    match parse_track_list("repeat(auto-fill, minmax(100px, 1fr))") {
        TrackList::Repeat(GridRepeatKind::AutoFill, def) => assert_eq!(def, "minmax(100px, 1fr)"),
        _ => panic!("expected auto-fill"),
    }
    match parse_track_list("repeat(500, 10px)") {
        TrackList::Repeat(GridRepeatKind::Count(100), _) => {},
        _ => panic!("count is capped at 100"),
    }
    match parse_track_list("repeat(x, 10px)") {
        TrackList::Repeat(GridRepeatKind::Count(1), _) => {},
        _ => panic!("a count that is no number is 1"),
    }
    match parse_track_list("100px 1fr") {
        TrackList::Tokens(t) => assert_eq!(t, vec!["100px", "1fr"]),
        _ => panic!("expected tokens"),
    }
}

fn props(pairs: &[(&str, &str)]) -> TextMap {
    let mut m = TextMap::new();
    for (k, v) in pairs {
        m.insert(k.to_string(), v.to_string());
    }
    m
}

#[test]
fn var_references_resolve() {
    let p = props(&[("--gap", "4px"), ("--pad", "var(--gap) var(--gap)"), ("--loop", "var(--loop)")]);
    assert_eq!(resolve_var("var(--gap)", &p), "4px");
    assert_eq!(resolve_var("calc(var(--gap) * 2)", &p), "calc(4px * 2)");
    assert_eq!(resolve_var("var(--pad)", &p), "4px 4px");
    assert_eq!(resolve_var("var(--none, 1em)", &p), "1em");
    assert_eq!(resolve_var("var(--none, var(--gap))", &p), "4px");
    assert_eq!(resolve_var("a var(--none) b", &p), "a  b");
    assert_eq!(resolve_var("no references", &p), "no references");
    assert_eq!(resolve_var("var(--gap", &p), "");
    // A reference to itself stops at the depth limit, keeping the text there.
    assert_eq!(resolve_var("var(--loop)", &p), "var(--loop)");
}

#[test]
fn var_resolution_stops_growing_past_the_limit() {
    let big = "x".repeat(MAX_VAR_OUTPUT_LEN);
    let p = props(&[("--big", big.as_str())]);
    let out = resolve_var("var(--big)var(--big)var(--big)", &p);
    assert_eq!(out.len(), 2 * MAX_VAR_OUTPUT_LEN);
    let long = format!("{}var(--big)", "y".repeat(MAX_VAR_OUTPUT_LEN));
    assert_eq!(resolve_var(&long, &p), long);
}
