use dictator_datastar::{check_modifiers, parse_tags, Diagnostics};

#[test]
fn test_valid_event_modifiers() {
    let html = r#"<div data-on:click__debounce.500ms__once="handle()">"#;
    let tags = parse_tags(html);
    let mut diags = Diagnostics::new();
    check_modifiers(&tags[0], &mut diags);
    assert!(diags.is_empty());
}

#[test]
fn test_invalid_event_modifier() {
    let html = r#"<div data-on:click__invalid="handle()">"#;
    let tags = parse_tags(html);
    let mut diags = Diagnostics::new();
    check_modifiers(&tags[0], &mut diags);
    assert_eq!(diags.len(), 1);
    assert!(diags[0].message.contains("invalid"));
}

#[test]
fn test_valid_persist_modifier() {
    let html = r#"<div data-persist__session>"#;
    let tags = parse_tags(html);
    let mut diags = Diagnostics::new();
    check_modifiers(&tags[0], &mut diags);
    assert!(diags.is_empty());
}

#[test]
fn test_valid_case_modifier() {
    let html = r#"<div data-signals:my-var__case.kebab="1">"#;
    let tags = parse_tags(html);
    let mut diags = Diagnostics::new();
    check_modifiers(&tags[0], &mut diags);
    assert!(diags.is_empty());
}

#[test]
fn test_invalid_case_modifier() {
    let html = r#"<div data-signals:my-var__case.invalid="1">"#;
    let tags = parse_tags(html);
    let mut diags = Diagnostics::new();
    check_modifiers(&tags[0], &mut diags);
    assert_eq!(diags.len(), 1);
    assert!(diags[0].message.contains("Invalid case modifier"));
}
