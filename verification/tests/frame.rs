use stage_runtime::frame::{
    creates_analyser, plan_composite, plan_dom_update, plan_image_load, Base, Composite, DomCommand,
    DomUpdate, MAX_IMAGES,
};

fn style(node: usize, p: &str, v: &str) -> DomCommand {
    DomCommand { opcode: 1, arity: 4, node, property: p.to_string(), value: v.to_string() }
}

fn cmd(opcode: i32, arity: u32) -> DomCommand {
    DomCommand { opcode, arity, node: 0, property: String::new(), value: String::new() }
}

#[test]
fn image_loads_read_inside_the_content_directory() {
    assert_eq!(plan_image_load("img/a.png", Some("/c"), 0).as_deref(), Some("/c/img/a.png"));
    assert_eq!(plan_image_load("/img/a.png", Some("/c"), MAX_IMAGES - 1).as_deref(), Some("/c/img/a.png"));
    assert_eq!(plan_image_load("../a.png", Some("/c"), 0), None);
    assert_eq!(plan_image_load("img/a.png", None, 0), None);
    assert_eq!(plan_image_load("img/a.png", Some("/c"), MAX_IMAGES), None);
}

#[test]
fn clean_page_is_left_alone() {
    assert_eq!(plan_dom_update(false, true, &vec![cmd(2, 2)]), DomUpdate::Unchanged);
}

#[test]
fn structure_change_renders_in_full() {
    let cmds = vec![style(3, "color", "red"), cmd(2, 2)];
    assert_eq!(plan_dom_update(true, true, &cmds), DomUpdate::FullRender);
    // Without a page kept from an earlier render, style changes render in full too.
    assert_eq!(plan_dom_update(true, false, &vec![style(1, "color", "red")]), DomUpdate::FullRender);
    assert_eq!(plan_dom_update(true, false, &vec![]), DomUpdate::FullRender);
}

#[test]
fn style_changes_restyle_in_order() {
    let cmds = vec![
        style(3, "color", "red"),
        cmd(1, 3),
        cmd(2, 1),
        cmd(7, 9),
        style(4, "width", "10px"),
    ];
    assert_eq!(
        plan_dom_update(true, true, &cmds),
        DomUpdate::Restyle(vec![
            (3, "color".to_string(), "red".to_string()),
            (4, "width".to_string(), "10px".to_string()),
        ])
    );
    assert_eq!(plan_dom_update(true, true, &vec![cmd(1, 3)]), DomUpdate::Unchanged);
}

#[test]
fn analyser_creation_is_noticed() {
    let names = vec![Some("osc_create".to_string()), None, Some("analyser_create".to_string())];
    assert!(creates_analyser(&names));
    assert!(!creates_analyser(&vec![Some("analyser".to_string()), None]));
    assert!(!creates_analyser(&vec![]));
}

#[test]
fn frame_layers() {
    assert_eq!(
        plan_composite(true, true, false, true),
        Composite { base: Base::Page, webgl: true, canvas: true }
    );
    assert_eq!(
        plan_composite(false, true, false, false),
        Composite { base: Base::Clear, webgl: false, canvas: true }
    );
    assert_eq!(
        plan_composite(false, false, true, false),
        Composite { base: Base::Clear, webgl: false, canvas: false }
    );
    assert_eq!(
        plan_composite(false, false, false, true),
        Composite { base: Base::Page, webgl: false, canvas: false }
    );
    assert_eq!(
        plan_composite(false, false, false, false),
        Composite { base: Base::Last, webgl: false, canvas: false }
    );
}
