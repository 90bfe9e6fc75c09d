use vdom_runtime::cssom::StyleMount;
use vdom_runtime::counter::CounterHandler;
use vdom_runtime::html::{Attribute, Html, Mailbox, Style};

fn styled_el(
    tag: &str,
    id: &str,
    attributes: Vec<Attribute>,
    styling: Vec<Style>,
    children: Vec<Html<CounterHandler>>,
) -> Html<CounterHandler> {
    Html::Node {
        tag: tag.to_string(),
        id: id.to_string(),
        attributes,
        styling,
        events: vec![],
        mailbox: Mailbox(vec![]),
        children,
    }
}

fn sdecl(property: &str, value: &str) -> Style {
    Style::Style { property: property.to_string(), value: value.to_string() }
}

#[test]
fn render_serializes_markup_and_mounts_rules() {
    let span = styled_el("span", "_8", vec![], vec![], vec![]);
    let tree = styled_el(
        "div",
        "_7",
        vec![
            Attribute::Pair { key: "class".to_string(), value: "box".to_string() },
            Attribute::Toggle { key: "hidden".to_string(), value: true },
            Attribute::Toggle { key: "gone".to_string(), value: false },
            Attribute::Pair { key: "id".to_string(), value: "duplicate".to_string() },
        ],
        vec![
            sdecl("background_color", "red"),
            Style::PseudoClass("hover".to_string(), vec![sdecl("color", "blue")]),
        ],
        vec![Html::Text { value: "hi".to_string() }, span],
    );
    let mut mount = StyleMount::new();
    let markup = tree.render(&mut mount);
    assert_eq!(markup, "<div id=\"_7\" class=\"box\" hidden>hi<span id=\"_8\"></span></div>");
    assert_eq!(
        mount.rules,
        vec![
            "#_7 {background-color: red;}".to_string(),
            "#_7:hover {color: blue;}".to_string(),
            "#_8 {}".to_string(),
        ]
    );
}

#[test]
fn render_without_attributes_has_only_the_id() {
    let tree = styled_el("p", "_3", vec![], vec![], vec![]);
    let mut mount = StyleMount::new();
    assert_eq!(tree.render(&mut mount), "<p id=\"_3\"></p>");
}

#[test]
fn render_text_leaf_is_its_text() {
    let t: Html<CounterHandler> = Html::Text { value: "plain words".to_string() };
    let mut mount = StyleMount::new();
    assert_eq!(t.render(&mut mount), "plain words");
    assert!(mount.rules.is_empty());
}

#[test]
fn style_mount_delete_removes_rules_of_one_node() {
    let mut mount = StyleMount::new();
    mount.insert("#_7 {background-color: red;}".to_string());
    mount.insert("#_7:hover {color: blue;}".to_string());
    mount.insert("#_8 {}".to_string());
    mount.delete(&"_7".to_string());
    assert_eq!(mount.rules, vec!["#_8 {}".to_string()]);
    mount.delete(&"_8".to_string());
    assert!(mount.rules.is_empty());
}

#[test]
fn style_mount_delete_reads_the_selector_only() {
    // An id mentioned inside a rule's body does not make the rule that
    // node's rule; only the selector text counts.
    let mut mount = StyleMount::new();
    mount.insert("#_8 {content: \"_7\";}".to_string());
    mount.insert("#_7 {color: red;}".to_string());
    mount.delete(&"_7".to_string());
    assert_eq!(mount.rules, vec!["#_8 {content: \"_7\";}".to_string()]);
}
