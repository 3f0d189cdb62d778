use dictator_datastar::{check_typos, parse_tags, Diagnostics};


#[test]
fn test_detect_intersects_typo() {
    let html = r#"<div data-intersects="@get('/foo')">"#;
    let tags = parse_tags(html);
    let mut diags = Diagnostics::new();
    check_typos(&tags[0], &mut diags);
    assert_eq!(diags.len(), 1);
    assert!(diags[0].message.contains("data-on-intersect"));
}

#[test]
fn test_detect_wrong_separator() {
    let html = r#"<div data-on-click="$foo = 1">"#;
    let tags = parse_tags(html);
    let mut diags = Diagnostics::new();
    check_typos(&tags[0], &mut diags);
    assert_eq!(diags.len(), 1);
    assert!(diags[0].message.contains("data-on:click"));
}

#[test]
fn test_valid_hyphen_events() {
    let html = r#"<div data-on-intersect="@get('/foo')" data-on-interval="tick()">"#;
    let tags = parse_tags(html);
    let mut diags = Diagnostics::new();
    check_typos(&tags[0], &mut diags);
    assert!(diags.is_empty());
}

#[test]
fn test_correct_attributes() {
    let html = r#"<div data-on:click="$foo = 1" data-show="$visible">"#;
    let tags = parse_tags(html);
    let mut diags = Diagnostics::new();
    check_typos(&tags[0], &mut diags);
    assert!(diags.is_empty());
}
