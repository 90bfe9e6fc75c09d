use vdom_runtime::css::{hex, rgb, CssValue};
use vdom_runtime::html::Style;

fn d(property: &str, value: &str) -> Style {
    Style::Style { property: property.to_string(), value: value.to_string() }
}

#[test]
fn render_decl_dashes_underscores() {
    let s = d("font_size", "2em");
    assert_eq!(s.render_decl(), Some("font-size: 2em;".to_string()));
}

#[test]
fn render_decl_plain_property() {
    let s = d("color", "#444");
    assert_eq!(s.render_decl(), Some("color: #444;".to_string()));
}

#[test]
fn render_decl_none_for_pseudo_class() {
    let s = Style::PseudoClass("hover".to_string(), vec![d("color", "red")]);
    assert_eq!(s.render_decl(), None);
}

#[test]
fn render_decls_one_entry_per_declaration() {
    let styles = vec![
        d("display", "flex"),
        Style::PseudoClass("hover".to_string(), vec![d("color", "red")]),
        d("flex_direction", "column"),
    ];
    let block = Style::render_decls(&"#_1".to_string(), &styles);
    assert_eq!(block, "#_1 {display: flex; flex-direction: column;}");
}

#[test]
fn render_decls_empty_list() {
    let block = Style::render_decls(&"#_9".to_string(), &vec![]);
    assert_eq!(block, "#_9 {}");
}

#[test]
fn render_pseudo_selector_builds_scoped_rule() {
    let s = Style::PseudoClass(
        "hover".to_string(),
        vec![d("font_size", "8em"), d("color", "#848484")],
    );
    let rendered = s.render_pseudo_selector(&"_42".to_string());
    assert_eq!(rendered, Some("#_42:hover {font-size: 8em; color: #848484;}".to_string()));
}

#[test]
fn render_pseudo_selector_none_for_declaration() {
    let s = d("color", "red");
    assert_eq!(s.render_pseudo_selector(&"_42".to_string()), None);
}

#[test]
fn rgb_formats_components() {
    assert_eq!(rgb(1, 22, 255), "rgb(1,22,255)");
    assert_eq!(rgb(0, 0, 0), "rgb(0,0,0)");
}

#[test]
fn hex_passes_through() {
    assert_eq!(hex("#676767"), "#676767");
}

#[test]
fn stringify_on_string_and_str() {
    assert_eq!("flex".stringify(), "flex");
    assert_eq!("0 auto".to_string().stringify(), "0 auto");
}
