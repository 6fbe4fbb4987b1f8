use stage_runtime::json::{custom_event_script, event_dispatch_script};

#[test]
fn event_json_is_passed_to_the_handler() {
    assert_eq!(
        event_dispatch_script("{\"type\":\"click\",\"x\":3}").as_deref(),
        Some("if (typeof __dz_dispatch_event === 'function') __dz_dispatch_event({\"type\":\"click\",\"x\":3});")
    );
}

#[test]
fn event_text_that_is_not_json_is_refused() {
    assert_eq!(event_dispatch_script("1); alert(1); (2"), None);
    assert_eq!(event_dispatch_script(""), None);
    assert_eq!(event_dispatch_script("{\"a\":"), None);
}

#[test]
fn custom_event_quotes_the_name() {
    assert_eq!(
        custom_event_script("tick", "{\"n\":1}").as_deref(),
        Some("window.dispatchEvent(new CustomEvent(\"tick\", { detail: {\"n\":1} }));")
    );
    assert_eq!(
        custom_event_script("a\"b", "null").as_deref(),
        Some("window.dispatchEvent(new CustomEvent(\"a\\\"b\", { detail: null }));")
    );
}

#[test]
fn custom_event_detail_that_is_not_json_is_refused() {
    assert_eq!(custom_event_script("tick", "})); alert(1); (({"), None);
    assert_eq!(custom_event_script("tick", "undefined"), None);
}
