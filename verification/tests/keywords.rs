use stage_runtime::canvas::{ImageRegistry, PathOp, SaveStack, MAX_STATE_STACK_DEPTH};
use stage_runtime::keywords::{BlendMode, BorderStyle, CompositeOp, FontWeight};
use stage_runtime::kv::TextMap;
use stage_runtime::net::{
    check_ws_url, classify_fetch_url, data_uri_bytes, decode_data_uri, guess_mime, plan_fetch, v8_safe_prefix, FetchKind,
    FetchPlan,
};
use stage_runtime::style::{
    Display, FlexDirection, JustifyContent, KeywordStyle, Position, TextAlign, MAX_CUSTOM_PROPERTIES,
    MAX_CUSTOM_PROPERTY_LEN,
};

#[test]
fn font_weights() {
    assert_eq!(FontWeight::parse("bold").value(), 700);
    assert_eq!(FontWeight::parse("bolder").value(), 700);
    assert_eq!(FontWeight::parse("normal").value(), 400);
    assert_eq!(FontWeight::parse("lighter").value(), 300);
    assert_eq!(FontWeight::parse("650").value(), 650);
    assert_eq!(FontWeight::parse("50").value(), 100);
    assert_eq!(FontWeight::parse("1000").value(), 900);
    assert_eq!(FontWeight::parse("heavy").value(), 400);
    assert!(FontWeight::parse("600").is_bold());
    assert!(!FontWeight::parse("599").is_bold());
    assert!(FontWeight::bold().is_bold());
    assert!(!FontWeight::normal().is_bold());
    assert_eq!(FontWeight::new(2000).value(), 900);
}

#[test]
fn composite_operations() {
    assert_eq!(CompositeOp::parse("destination-out"), CompositeOp::DestinationOut);
    assert_eq!(CompositeOp::parse("no-such-op"), CompositeOp::SourceOver);
    assert_eq!(CompositeOp::default_op(), CompositeOp::SourceOver);
    assert!(CompositeOp::parse("source-in").needs_masking());
    assert!(!CompositeOp::parse("multiply").needs_masking());
    for name in ["source-over", "xor", "lighter", "color-dodge", "luminosity", "copy"] {
        assert_eq!(CompositeOp::parse(name).as_str(), name);
    }
}

#[test]
fn border_styles_and_blend_modes() {
    assert_eq!(BorderStyle::parse("dashed"), BorderStyle::Dashed);
    assert_eq!(BorderStyle::parse("hidden"), BorderStyle::NoBorder);
    assert_eq!(BorderStyle::parse("groove"), BorderStyle::Solid);
    assert_eq!(BlendMode::parse("multiply"), BlendMode::Multiply);
    assert_eq!(BlendMode::parse("hue"), BlendMode::Normal);
}

#[test]
fn path_operations() {
    assert_eq!(PathOp::from_str("moveTo"), Some(PathOp::MoveTo));
    assert_eq!(PathOp::from_str("rect_path"), Some(PathOp::Rect));
    assert_eq!(PathOp::from_str("closePath"), Some(PathOp::ClosePath));
    assert_eq!(PathOp::from_str("moveto"), None);
}

#[test]
fn keyword_declarations_apply() {
    let mut s = KeywordStyle::initial();
    let mut props = TextMap::new();
    assert!(s.apply_declaration(&mut props, "display", "  flex ").is_none());
    assert_eq!(s.display, Display::Flex);
    assert!(s.apply_declaration(&mut props, "position", "absolute").is_none());
    assert_eq!(s.position, Position::Absolute);
    assert!(s.apply_declaration(&mut props, "flex-direction", "column").is_none());
    assert_eq!(s.flex_direction, FlexDirection::Column);
    assert!(s.apply_declaration(&mut props, "justify-content", "space-between").is_none());
    assert_eq!(s.justify_content, JustifyContent::SpaceBetween);
    assert!(s.apply_declaration(&mut props, "font-weight", "bold").is_none());
    assert!(s.font_weight.is_bold());
    assert!(s.apply_declaration(&mut props, "z-index", "-3").is_none());
    assert_eq!(s.z_index, -3);
    assert!(s.apply_declaration(&mut props, "grid-column", "2 / 4").is_none());
    assert_eq!((s.grid_column_start, s.grid_column_end), (Some(2), Some(4)));
    assert!(s.apply_declaration(&mut props, "content", "'hi'").is_none());
    assert_eq!(s.content.as_deref(), Some("hi"));
    assert!(s.apply_declaration(&mut props, "font-family", "\"Inter\", sans-serif").is_none());
    assert_eq!(s.font_family.as_deref(), Some("Inter"));
    assert!(s.apply_declaration(&mut props, "font-family", "serif").is_none());
    assert_eq!(s.font_family, None);
}

#[test]
fn custom_properties_and_var_substitution() {
    let mut s = KeywordStyle::initial();
    let mut props = TextMap::new();
    assert!(s.apply_declaration(&mut props, "--align", " center ").is_none());
    assert!(s.apply_declaration(&mut props, "text-align", "var(--align)").is_none());
    assert_eq!(s.text_align, TextAlign::Center);
    assert!(s.apply_declaration(&mut props, "--w", "10px").is_none());
    assert_eq!(s.apply_declaration(&mut props, "width", " calc(var(--w) + 1px) ").as_deref(), Some("calc(10px + 1px)"));
    assert_eq!(s.apply_declaration(&mut props, "color", "red").as_deref(), Some("red"));
}

#[test]
fn custom_property_limits() {
    let mut s = KeywordStyle::initial();
    let mut props = TextMap::new();
    let long = "x".repeat(MAX_CUSTOM_PROPERTY_LEN + 1);
    s.apply_declaration(&mut props, "--long", &long);
    assert_eq!(props.len(), 0);
    for i in 0..MAX_CUSTOM_PROPERTIES {
        s.apply_declaration(&mut props, &format!("--p{}", i), "1");
    }
    assert_eq!(props.len(), MAX_CUSTOM_PROPERTIES);
    s.apply_declaration(&mut props, "--extra", "1");
    assert_eq!(props.len(), MAX_CUSTOM_PROPERTIES);
    assert!(props.get("--extra").is_none());
    s.apply_declaration(&mut props, "--p0", "2");
    assert_eq!(props.get("--p0").map(|v| v.as_str()), Some("2"));
}

#[test]
fn fetch_urls() {
    assert_eq!(classify_fetch_url("data:text/plain,hi"), FetchKind::Data);
    assert_eq!(classify_fetch_url("https://example.com/a"), FetchKind::Network);
    assert_eq!(classify_fetch_url("blob:abc"), FetchKind::Network);
    assert_eq!(classify_fetch_url("assets/a.json"), FetchKind::Local);
    assert_eq!(decode_data_uri("data:text/plain,hello%20world").as_deref(), Some("hello%20world"));
    assert_eq!(decode_data_uri("data:;base64,@@@").as_deref(), Some("@@@"));
    assert_eq!(decode_data_uri("data:text/plain;base64,aGVsbG8=").as_deref(), Some("hello"));
    assert_eq!(decode_data_uri("data:no-comma"), None);
}

#[test]
fn fetch_plans() {
    match plan_fetch("/assets/a.json", Some("/srv/content")) {
        FetchPlan::ReadFile { path, shown } => {
            assert_eq!(path, "/srv/content/assets/a.json");
            assert_eq!(shown, "assets/a.json");
        },
        _ => panic!("expected a file read"),
    }
    match plan_fetch("../secret", Some("/srv/content")) {
        FetchPlan::Reject(m) => assert_eq!(m, "Path traversal blocked: ../secret"),
        _ => panic!("expected a rejection"),
    }
    match plan_fetch("a.json", None) {
        FetchPlan::Reject(m) => assert_eq!(m, "No content directory configured"),
        _ => panic!("expected a rejection"),
    }
    match plan_fetch("data:,x", None) {
        FetchPlan::Respond(b) => assert_eq!(b, "x"),
        _ => panic!("expected a response"),
    }
    match plan_fetch("http://h/x", None) {
        FetchPlan::Network(u) => assert_eq!(u, "http://h/x"),
        _ => panic!("expected a network fetch"),
    }
}

#[test]
fn mime_types() {
    assert_eq!(guess_mime("data.json"), "application/json");
    assert_eq!(guess_mime("a/b/pic.PNG"), guess_mime("pic.PNG"));
    assert_eq!(guess_mime("noext"), "application/octet-stream");
}

#[test]
fn websocket_urls() {
    assert!(check_ws_url("ws://localhost:9000/x").is_ok());
    assert!(check_ws_url("wss://example.com").is_ok());
    assert_eq!(
        check_ws_url("http://example.com").unwrap_err(),
        "Invalid WebSocket scheme: 'http' (expected ws:// or wss://)"
    );
    assert_eq!(check_ws_url("not a url").unwrap_err(), "Invalid WebSocket URL");
}

#[test]
fn v8_prefix_keeps_short_text() {
    assert_eq!(v8_safe_prefix("hello"), "hello");
    assert_eq!(v8_safe_prefix(""), "");
}

#[test]
fn save_beyond_limit_then_restore_stays_paired() {
    let mut st: SaveStack<u32, String> = SaveStack::new();
    for i in 0..MAX_STATE_STACK_DEPTH {
        assert!(st.save(i as u32, format!("mask{}", i)));
    }
    assert!(!st.save(9999, "extra".to_string()));
    assert_eq!(st.len(), MAX_STATE_STACK_DEPTH);
    let (s, m) = st.restore().unwrap();
    assert_eq!((s, m.as_str()), (MAX_STATE_STACK_DEPTH as u32 - 1, "mask511"));
    assert_eq!(st.len(), MAX_STATE_STACK_DEPTH - 1);
    st.clear();
    assert!(st.restore().is_none());
}

#[test]
fn save_beyond_limit_then_restore_no_desync() {
    // Each saved state is kept with its clip mask, so the two cannot drift
    // apart: 520 saves keep the first 512, and 600 restores give back those
    // 512 and then nothing.
    let mut st: SaveStack<String, Option<u32>> = SaveStack::new();
    for i in 0..520u32 {
        st.save("#000000".to_string(), Some(i));
    }
    assert_eq!(st.len(), MAX_STATE_STACK_DEPTH);
    let mut restored = 0;
    for _ in 0..600 {
        if let Some((fill, mask)) = st.restore() {
            restored += 1;
            assert_eq!(fill, "#000000");
            assert_eq!(mask, Some((MAX_STATE_STACK_DEPTH - restored) as u32));
        }
    }
    assert_eq!(restored, MAX_STATE_STACK_DEPTH);
    assert_eq!(st.len(), 0);
}

#[test]
fn save_restore_state() {
    // fillStyle red, save, fillStyle green, restore: red again.
    let mut st: SaveStack<String, Option<u32>> = SaveStack::new();
    let mut fill = "#ff0000".to_string();
    assert!(st.save(fill.clone(), None));
    fill = "#00ff00".to_string();
    assert_eq!(fill, "#00ff00");
    let (saved, _) = st.restore().expect("one state was saved");
    fill = saved;
    assert_eq!(fill, "#ff0000");
}

#[test]
fn tag_defaults() {
    let mut s = KeywordStyle::initial();
    s.display = Display::Flex;
    s.apply_tag_defaults("h2");
    assert_eq!(s.display, Display::Block);
    assert!(s.font_weight.is_bold());
    let mut s = KeywordStyle::initial();
    s.apply_tag_defaults("br");
    assert_eq!(s.display, Display::NoDisplay);
    s.apply_tag_defaults("img");
    assert_eq!(s.display, Display::InlineBlock);
    s.apply_tag_defaults("strong");
    assert_eq!(s.display, Display::Inline);
    assert!(!s.font_weight.is_bold());
    s.apply_tag_defaults("section");
    assert_eq!(s.display, Display::Block);
    s.apply_tag_defaults("H1");
    assert!(!s.font_weight.is_bold());
}

#[test]
fn mime_by_path_extension() {
    assert_eq!(guess_mime("/c/dir.js/"), "application/javascript");
    assert_eq!(guess_mime("/c/.css"), "application/octet-stream");
    assert_eq!(guess_mime("/c/a.tar.css"), "text/css");
    assert_eq!(guess_mime("/c/a.css/."), "text/css");
    assert_eq!(guess_mime("/c/.."), "application/octet-stream");
    assert_eq!(guess_mime("a.b\\c"), "application/octet-stream");
    assert_eq!(guess_mime("x.wasm"), "application/wasm");
}

#[test]
fn lone_quote_content_is_empty_text() {
    let mut s = KeywordStyle::initial();
    let mut props = TextMap::new();
    assert!(s.apply_declaration(&mut props, "content", "\"").is_none());
    assert_eq!(s.content.as_deref(), Some(""));
    assert!(s.apply_declaration(&mut props, "content", " 'ab ").is_none());
    assert_eq!(s.content.as_deref(), Some("ab"));
}

#[test]
fn data_uri_image_bytes() {
    assert_eq!(data_uri_bytes("data:image/png;base64,iVBORw=="), Some(vec![0x89, 0x50, 0x4e, 0x47]));
    assert_eq!(data_uri_bytes("data:image/svg+xml,<svg/>"), Some(b"<svg/>".to_vec()));
    assert_eq!(data_uri_bytes("data:text/plain,\u{e9}"), Some("\u{e9}".as_bytes().to_vec()));
    assert_eq!(data_uri_bytes("data:base64,@@@"), None);
    assert_eq!(data_uri_bytes("data:image/png;base64"), None);
}

#[test]
fn image_registry_refuses_new_ids_when_full() {
    let mut reg = ImageRegistry::new();
    assert_eq!(reg.image_count(), 0);
    for id in 0..512u32 {
        reg.register_image(id, 1, 1, vec![0, 0, 0, 255]);
    }
    assert_eq!(reg.image_count(), 512);
    reg.register_image(9999, 2, 2, vec![0; 16]);
    assert_eq!(reg.image_count(), 512);
    assert_eq!(reg.image_size(9999), None);
    reg.register_image(7, 3, 4, vec![0; 48]);
    assert_eq!(reg.image_count(), 512);
    assert_eq!(reg.image_size(7), Some((3, 4)));
}
