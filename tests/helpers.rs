use dictator_datastar::{base_attr_name, extract_modifiers, is_datastar_attr, parse_tags};

#[test]
fn test_parse_simple_tag() {
    let html = r#"<div data-show="$visible">Hello</div>"#;
    let tags = parse_tags(html);
    assert_eq!(tags.len(), 2); // div and /div
    assert_eq!(tags[0].name, "div");
    assert_eq!(tags[0].attributes.len(), 1);
    assert_eq!(tags[0].attributes[0].name, "data-show");
    assert_eq!(tags[0].attributes[0].value, Some("$visible"));
}

#[test]
fn test_parse_multiple_attributes() {
    let html = r#"<button data-on:click="$foo = 1" data-class:active="$bar">"#;
    let tags = parse_tags(html);
    assert_eq!(tags[0].attributes.len(), 2);
}

#[test]
fn test_base_attr_name() {
    assert_eq!(
        base_attr_name("data-on:click__debounce.500ms"),
        "data-on:click"
    );
    assert_eq!(base_attr_name("data-show"), "data-show");
}

#[test]
fn test_extract_modifiers() {
    let mods = extract_modifiers("data-on:click__debounce.500ms__once");
    assert_eq!(mods, vec!["debounce.500ms", "once"]);
}

#[test]
fn test_is_datastar_attr() {
    assert!(is_datastar_attr("data-show"));
    assert!(is_datastar_attr("data-on:click"));
    assert!(!is_datastar_attr("class"));
    assert!(!is_datastar_attr("id"));
}
