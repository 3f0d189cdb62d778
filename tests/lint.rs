use dictator_datastar::{Capability, DatastarHygiene};

#[test]
fn test_full_lint() {
    let decree = DatastarHygiene::default();
    let html = r#"
            <div data-signals:count="0"
                 data-show="$count > 0"
                 data-on:click="$count++">
                Count: <span data-text="$count"></span>
            </div>
        "#;
    let diags = decree.lint("test.html", html);
    assert!(
        diags.is_empty(),
        "Expected no diagnostics, got: {:?}",
        diags
    );
}

#[test]
fn test_detects_alpine_attrs() {
    let decree = DatastarHygiene::default();
    let html = r#"<div x-show="visible" @click="handle()">"#;
    let diags = decree.lint("test.html", html);
    assert_eq!(diags.len(), 2);
    assert!(diags
        .iter()
        .all(|d| d.rule == "datastar/no-alpine-vue-attrs"));
}

#[test]
fn test_detects_typo() {
    let decree = DatastarHygiene::default();
    let html = r#"<div data-intersects="@get('/foo')">"#;
    let diags = decree.lint("test.html", html);
    assert!(diags.iter().any(|d| d.rule == "datastar/typo"));
}

#[test]
fn test_metadata() {
    let decree = DatastarHygiene::default();
    let meta = decree.metadata();
    assert_eq!(meta.supported_extensions, vec!["html", "htm"]);
    assert!(meta
        .capabilities
        .contains(&Capability::Lint));
}
