use openflow::ax_text::{collect_static_text, is_chrome_role, AxNode};

fn node(role: &str, value: Option<&str>, title: Option<&str>, children: Vec<AxNode>) -> AxNode {
    AxNode {
        role: Some(role.into()),
        value: value.map(|s| s.into()),
        title: title.map(|s| s.into()),
        description: None,
        children,
    }
}

fn tree() -> AxNode {
    let mut details = node("AXGroup", None, None, vec![node("AXStaticText", None, Some("Nested"), vec![])]);
    details.description = Some("Details".into());
    node(
        "AXGroup",
        None,
        None,
        vec![
            node("AXStaticText", Some("Hello world"), None, vec![]),
            node("AXButton", None, Some("Send"), vec![node("AXStaticText", Some("inside button"), None, vec![])]),
            node("AXStaticText", Some("  x "), None, vec![]),
            node("AXStaticText", Some("Hello world"), None, vec![]),
            node("AXTextArea", Some("Draft\u{200b} text "), None, vec![]),
            node("AXStaticText", Some("a"), Some("Title"), vec![]),
            details,
        ],
    )
}

#[test]
fn collects_text_and_skips_chrome() {
    assert_eq!(collect_static_text(&tree(), 1200), "Hello world\nDraft text\nTitle\nDetails\nNested");
}

#[test]
fn stops_at_the_character_budget() {
    assert_eq!(collect_static_text(&tree(), 8), "Hello wo");
    assert_eq!(collect_static_text(&tree(), 0), "");
}

#[test]
fn chrome_roles() {
    assert!(is_chrome_role(&Some("AXButton".into())));
    assert!(is_chrome_role(&Some("AXTabGroup".into())));
    assert!(!is_chrome_role(&Some("AXStaticText".into())));
    assert!(!is_chrome_role(&None));
}

#[test]
fn chrome_root_yields_nothing() {
    let t = node("AXToolbar", Some("Toolbar text"), None, vec![]);
    assert_eq!(collect_static_text(&t, 100), "");
}

#[test]
fn deep_trees_stop_at_the_depth_limit() {
    let mut n = node("AXStaticText", Some("bottom"), None, vec![]);
    for _ in 0..30 {
        n = node("AXGroup", None, None, vec![n]);
    }
    assert_eq!(collect_static_text(&n, 100), "");
    let mut m = node("AXStaticText", Some("bottom"), None, vec![]);
    for _ in 0..25 {
        m = node("AXGroup", None, None, vec![m]);
    }
    assert_eq!(collect_static_text(&m, 100), "bottom");
}
