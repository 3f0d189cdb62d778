use dictator_datastar::{check_actions, parse_tags, Diagnostics};

#[test]
fn test_valid_sse_action() {
    let html = r#"<button data-on:click="@get('/api/data')">"#;
    let tags = parse_tags(html);
    let mut diags = Diagnostics::new();
    check_actions(&tags[0], &mut diags);
    assert!(diags.is_empty());
}

#[test]
fn test_action_missing_parens() {
    let html = r#"<button data-on:click="@get">"#;
    let tags = parse_tags(html);
    let mut diags = Diagnostics::new();
    check_actions(&tags[0], &mut diags);
    assert_eq!(diags.len(), 1);
    assert!(diags[0].message.contains("requires parentheses"));
}

#[test]
fn test_action_empty_url() {
    let html = r#"<button data-on:click="@get()">"#;
    let tags = parse_tags(html);
    let mut diags = Diagnostics::new();
    check_actions(&tags[0], &mut diags);
    assert_eq!(diags.len(), 1);
    assert!(diags[0].message.contains("requires a URL"));
}

#[test]
fn test_action_with_expression() {
    let html = r#"<button data-on:click="@get('/api/' + $endpoint)">"#;
    let tags = parse_tags(html);
    let mut diags = Diagnostics::new();
    check_actions(&tags[0], &mut diags);
    assert!(diags.is_empty());
}

#[test]
fn test_multiple_actions() {
    let html = r#"<div data-init="@get('/init')" data-on:click="@post('/submit')">"#;
    let tags = parse_tags(html);
    let mut diags = Diagnostics::new();
    check_actions(&tags[0], &mut diags);
    assert!(diags.is_empty());
}
