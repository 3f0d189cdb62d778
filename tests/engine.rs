use dictator_datastar::actions::{
    expression_shaped, first_argument_message, looks_like_url, resembles_action, url_shaped,
};
use dictator_datastar::number::is_float_text;
use dictator_datastar::{
    base_attr_name, check_actions, check_alpine_vue, check_for_on_template, check_modifiers,
    check_required_values, check_typos, extract_modifiers, parse_tags, DatastarConfig,
    DatastarHygiene, Diagnostic, Diagnostics, ParsedTag,
};

fn lint(html: &str) -> Vec<Diagnostic> {
    DatastarHygiene::new().lint("test.html", html)
}

fn run(check: fn(&ParsedTag<'_>, &mut Diagnostics), html: &str) -> Vec<Diagnostic> {
    let tags = parse_tags(html);
    let mut diags = Diagnostics::new();
    for tag in &tags {
        check(tag, &mut diags);
    }
    diags
}

#[test]
fn example_valid_get_has_no_findings() {
    assert!(lint(r#"<button data-on:click="@get('/api/data')">"#).is_empty());
}

#[test]
fn example_get_without_parens() {
    let diags = lint(r#"<button data-on:click="@get">"#);
    assert_eq!(diags.len(), 1);
    assert_eq!(diags[0].rule, "datastar/action-syntax");
    assert!(diags[0].message.contains("requires parentheses"));
    assert_eq!(diags[0].message, "Action '@get' requires parentheses, e.g., @get('/path')");
    assert_eq!((diags[0].span.start, diags[0].span.end), (23, 27));
    assert!(!diags[0].enforced);
}

#[test]
fn example_alpine_and_vue_attributes() {
    let diags = lint(r#"<div x-show="visible" @click="handle()">"#);
    assert_eq!(diags.len(), 2);
    assert!(diags.iter().all(|d| d.rule == "datastar/no-alpine-vue-attrs"));
    assert_eq!(diags[0].message, "Disallowed Alpine/Vue-style attribute: x-show");
    assert_eq!((diags[1].span.start, diags[1].span.end), (22, 28));
}

#[test]
fn example_intersects_typo() {
    let diags = lint(r#"<div data-intersects="@get('/foo')">"#);
    assert!(diags
        .iter()
        .any(|d| d.rule == "datastar/typo" && d.message.contains("data-on-intersect")));
}

#[test]
fn example_valid_event_modifiers_lint_clean() {
    assert!(lint(r#"<div data-on:click__debounce.500ms__once="handle()">"#).is_empty());
}

#[test]
fn example_for_outside_template() {
    let diags = lint(r#"<div data-for="item in $items">"#);
    assert_eq!(diags.len(), 1);
    assert_eq!(diags[0].rule, "datastar/for-template");
    assert_eq!(
        diags[0].message,
        "data-for must be on a <template> element, found on <div>"
    );
}

#[test]
fn for_on_uppercase_template_is_fine() {
    assert!(run(check_for_on_template, r#"<TEMPLATE data-for="x in $xs">"#).is_empty());
}

#[test]
fn tokenizer_empty_and_malformed_inputs() {
    assert!(parse_tags("").is_empty());
    assert!(parse_tags("< >").is_empty());
    assert!(parse_tags("<").is_empty());
    let tags = parse_tags(r#"<div a="1"><!-- <span b>"#);
    assert_eq!(tags.len(), 1);
    assert_eq!(tags[0].name, "div");
    let tags = parse_tags("<!DOCTYPE html><p></p>");
    assert_eq!(tags.len(), 2);
    assert_eq!(tags[0].name, "p");
    assert_eq!(tags[1].name, "p");
}

#[test]
fn tokenizer_unterminated_quote_runs_to_end() {
    let src = r#"<div data-show="abc"#;
    let tags = parse_tags(src);
    assert_eq!(tags.len(), 1);
    let a = &tags[0].attributes[0];
    assert_eq!((a.name_start, a.name_end), (5, 14));
    assert_eq!(a.value, Some("abc"));
    assert_eq!((a.value_start, a.value_end), (Some(16), Some(19)));
}

#[test]
fn tokenizer_spans_match_source() {
    let src = "<a href=/x data-show = '$v' hidden/>\u{e9}<b c=\u{e9}>";
    let tags = parse_tags(src);
    assert_eq!(tags.len(), 2);
    for tag in &tags {
        for a in &tag.attributes {
            assert_eq!(&src[a.name_start..a.name_end], a.name);
            if let Some(v) = a.value {
                assert_eq!(&src[a.value_start.unwrap()..a.value_end.unwrap()], v);
            }
        }
    }
    let names: Vec<&str> = tags[0].attributes.iter().map(|a| a.name).collect();
    assert_eq!(names, vec!["href", "data-show", "hidden"]);
    assert_eq!(tags[0].attributes[0].value, Some("/x"));
    assert_eq!(tags[0].attributes[1].value, Some("$v"));
    assert_eq!(tags[0].attributes[2].value, None);
    assert_eq!(tags[1].attributes[0].value, Some("\u{e9}"));
}

#[test]
fn decomposition_edge_cases() {
    assert_eq!(extract_modifiers("a____b"), vec!["", "b"]);
    assert!(extract_modifiers("a__").is_empty());
    assert_eq!(extract_modifiers("a__x__"), vec!["x"]);
    assert!(extract_modifiers("data-show").is_empty());
    assert_eq!(base_attr_name("__x"), "");
}

#[test]
fn decomposition_round_trip_example() {
    let name = "data-on:click___x__y";
    let base = base_attr_name(name);
    let mods = extract_modifiers(name);
    let mut rebuilt = String::from(base);
    for m in &mods {
        rebuilt.push_str("__");
        rebuilt.push_str(m);
    }
    assert_eq!(base_attr_name(&rebuilt), base);
    assert_eq!(extract_modifiers(&rebuilt), mods);
    assert_eq!(mods, vec!["_x", "y"]);
}

#[test]
fn checks_repeat_identically() {
    let html = r#"<div x-on="1" data-on-foo__bad="@Get" data-for="x" data-show>"#;
    let checks: [fn(&ParsedTag<'_>, &mut Diagnostics); 6] = [
        check_alpine_vue,
        check_required_values,
        check_for_on_template,
        check_typos,
        check_modifiers,
        check_actions,
    ];
    for check in checks {
        assert_eq!(run(check, html), run(check, html));
    }
}

#[test]
fn quoted_parens_do_not_count() {
    assert!(run(check_actions, r#"<a data-on:click="@get('/a)b')">"#).is_empty());
    assert!(run(check_actions, r#"<a data-on:click="@get('/a\')')">"#).is_empty());
    assert!(run(check_actions, r#"<a data-on:click="@clipboard('x')">"#).is_empty());
}

#[test]
fn unclosed_quote_is_not_balanced() {
    let diags = run(check_actions, r#"<a data-on:click="@get('/a)">"#);
    assert_eq!(diags.len(), 1);
    assert_eq!(diags[0].message, "Unclosed parentheses in '@get' call");
    let diags = run(check_actions, r#"<a data-on:click="@post('/x'">"#);
    assert_eq!(diags[0].message, "Unclosed parentheses in '@post' call");
}

#[test]
fn single_quote_argument_does_not_panic() {
    let diags = run(check_actions, r#"<a data-on:click="@get(',')">"#);
    assert_eq!(diags.len(), 1);
    assert_eq!(
        diags[0].message,
        "SSE action '@get' URL should start with '/' or be a string/expression, got: '"
    );
}

#[test]
fn url_argument_is_trimmed() {
    assert!(run(check_actions, r#"<a data-on:click="@get(  '/x'  , {})">"#).is_empty());
    let diags = run(check_actions, r#"<a data-on:click="@get(foo)">"#);
    assert_eq!(
        diags[0].message,
        "SSE action '@get' URL should start with '/' or be a string/expression, got: foo"
    );
    assert!(run(check_actions, r#"<a data-on:click="@get(`/x/${id}`)">"#).is_empty());
}

#[test]
fn unknown_actions_get_suggestions() {
    let diags = run(check_actions, r#"<a data-on:click="@Get('/x') @foo @budget">"#);
    assert_eq!(diags.len(), 2);
    assert_eq!(diags[0].message, "Unknown action '@Get'. Did you mean '@get'?");
    assert_eq!(diags[1].message, "Unknown action '@budget'. Did you mean '@get'?");
    assert!(run(check_actions, r#"<a data-on:click="@ @">"#).is_empty());
    assert!(run(check_actions, r#"<a onclick="@get">"#).is_empty());
}

#[test]
fn required_value_messages() {
    let diags = run(check_required_values, r#"<div data-show data-on:click="" data-attr:x="1">"#);
    assert_eq!(diags.len(), 2);
    assert_eq!(diags[0].message, "Datastar attribute 'data-show' requires a value");
    assert_eq!((diags[0].span.start, diags[0].span.end), (5, 14));
    assert_eq!(diags[1].rule, "datastar/require-value");
}

#[test]
fn typo_messages() {
    let diags = run(check_typos, r#"<div data-bind-value="x">"#);
    assert_eq!(diags.len(), 1);
    assert_eq!(
        diags[0].message,
        "Possible typo: 'data-bind-value' - did you mean 'data-bind:value'?"
    );
    let diags = run(check_typos, r#"<div data-bind-foo__x="x">"#);
    assert_eq!(diags.len(), 1);
    assert_eq!(
        diags[0].message,
        "Use colon separator: 'data-bind:foo' instead of 'data-bind-foo'"
    );
    let diags = run(check_typos, r#"<div data-on-foo="x">"#);
    assert_eq!(
        diags[0].message,
        "Use colon for events: 'data-on:foo' instead of 'data-on-foo'"
    );
    assert!(run(check_typos, r#"<div x-bind-foo="x">"#).is_empty());
}

#[test]
fn modifier_numbers_and_lists() {
    assert!(run(check_modifiers, r#"<div data-on:click__1e3__inf__-2__leading__2s="x">"#).is_empty());
    let diags = run(check_modifiers, r#"<div data-on:click__12x="x">"#);
    assert_eq!(diags.len(), 1);
    assert_eq!(
        diags[0].message,
        "Invalid modifier '12x' for 'data-on:click'. Valid modifiers: once, passive, capture, case, delay, debounce, throttle, viewtransition, window, outside, prevent, stop"
    );
    let diags = run(check_modifiers, r#"<div data-foo__bar>"#);
    assert_eq!(diags[0].message, "Invalid modifier 'bar' for 'data-foo'. Valid modifiers: ");
    assert!(run(check_modifiers, r#"<div data-signals:x__case>"#).is_empty());
    let diags = run(check_modifiers, r#"<div data-ref__case.upper>"#);
    assert_eq!(
        diags[0].message,
        "Invalid case modifier 'upper'. Valid options: camel, kebab, snake, pascal"
    );
}

#[test]
fn config_switches_checks_off() {
    let config = DatastarConfig {
        check_alpine_vue: false,
        check_required_values: true,
        check_typos: true,
        check_modifiers: true,
        check_actions: true,
        check_for_template: true,
    };
    let hygiene = DatastarHygiene::with_config(config);
    assert!(hygiene.lint("a.html", r#"<div x-show="visible">"#).is_empty());
    assert_eq!(hygiene.name(), "datastar");
    assert!(DatastarConfig::default().check_actions);
}

#[test]
fn resemblance_of_lowercased_names() {
    assert!(resembles_action("@get", "@get", "@get"));
    assert!(resembles_action("@budget", "@get", "@get"));
    assert!(!resembles_action("@foo", "@get", "@get"));
    assert!(resembles_action("@fitness", "@fit", "@fit"));
}

#[test]
fn float_text_grammar() {
    for ok in ["1", "-2.5", "+.5", "5.", "1e3", "1E-3", "inf", "-Infinity", "NaN"] {
        assert!(is_float_text(ok.as_bytes()), "{}", ok);
    }
    for bad in ["", ".", "e3", "1e", "1.2.3", "12x", "infinit", "+", "1_000"] {
        assert!(!is_float_text(bad.as_bytes()), "{}", bad);
    }
}

#[test]
fn shape_checks_on_trimmed_text() {
    assert!(url_shaped("/x"));
    assert!(url_shaped("'/x'"));
    assert!(!url_shaped("'/x\""));
    assert!(!url_shaped("'"));
    assert!(!url_shaped(" /x"));
    assert!(looks_like_url(" /x "));
    assert!(expression_shaped("a + b"));
    assert!(expression_shaped("$x"));
    assert!(!expression_shaped("x"));
}

#[test]
fn for_with_modifier_outside_template() {
    let diags = run(check_for_on_template, r#"<div data-for__x="item in $items">"#);
    assert_eq!(diags.len(), 1);
    assert_eq!(diags[0].rule, "datastar/for-template");
    assert!(run(check_for_on_template, r#"<template data-for__x="item in $items">"#).is_empty());
}

#[test]
fn first_argument_messages() {
    assert_eq!(
        first_argument_message("@get", "", "").as_deref(),
        Some("SSE action '@get' requires a URL argument, e.g., @get('/api/endpoint')")
    );
    assert_eq!(
        first_argument_message("@post", "foo", "foo").as_deref(),
        Some("SSE action '@post' URL should start with '/' or be a string/expression, got: foo")
    );
    assert_eq!(first_argument_message("@get", "'/x'", "'/x'"), None);
    assert_eq!(first_argument_message("@get", "$url", "$url"), None);
}
