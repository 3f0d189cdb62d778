use dictator_datastar::{
    check_alpine_vue, check_for_on_template, check_required_values, parse_tags, Diagnostics,
};

#[test]
fn test_alpine_vue_detection() {
    let html = r#"<div x-show="visible" v-if="test" @click="handle" :class="foo">"#;
    let tags = parse_tags(html);
    let mut diags = Diagnostics::new();
    check_alpine_vue(&tags[0], &mut diags);
    assert_eq!(diags.len(), 4);
}

#[test]
fn test_required_value_missing() {
    let html = r#"<div data-show data-text="">"#;
    let tags = parse_tags(html);
    let mut diags = Diagnostics::new();
    check_required_values(&tags[0], &mut diags);
    assert_eq!(diags.len(), 2);
}

#[test]
fn test_for_on_template() {
    let html = r#"<div data-for="item in $items">"#;
    let tags = parse_tags(html);
    let mut diags = Diagnostics::new();
    check_for_on_template(&tags[0], &mut diags);
    assert_eq!(diags.len(), 1);
    assert!(diags[0].message.contains("template"));
}

#[test]
fn test_for_on_template_valid() {
    let html = r#"<template data-for="item in $items">"#;
    let tags = parse_tags(html);
    let mut diags = Diagnostics::new();
    check_for_on_template(&tags[0], &mut diags);
    assert!(diags.is_empty());
}
