//! Typo detection for Datastar attributes.

use vstd::prelude::*;
use vstd::string::*;
use crate::diagnostics::{
    at_name, concat_map, diag_views, lemma_concat_map_empty, lemma_concat_map_step, push_diag, DiagView, Diagnostics,
};
use crate::helpers::{base_attr_name, base_of, ParsedAttribute, ParsedTag};
use crate::text::{bytes_of, is_prefix, starts_with_str, str_eq, strip_prefix_str};
use vstd::utf8::decode_utf8;

verus! {

broadcast use vstd::utf8::encode_utf8_decode_utf8;

/// The known misspelling that a base name is, with its correction.
#[verifier::opaque]
pub open spec fn typo_entry(b: Seq<u8>) -> Option<(&'static str, &'static str)> {
    if b == bytes_of("data-on-click") {
        Some(("data-on-click", "data-on:click"))
    } else if b == bytes_of("data-on-submit") {
        Some(("data-on-submit", "data-on:submit"))
    } else if b == bytes_of("data-on-input") {
        Some(("data-on-input", "data-on:input"))
    } else if b == bytes_of("data-on-change") {
        Some(("data-on-change", "data-on:change"))
    } else if b == bytes_of("data-on-keydown") {
        Some(("data-on-keydown", "data-on:keydown"))
    } else if b == bytes_of("data-on-keyup") {
        Some(("data-on-keyup", "data-on:keyup"))
    } else if b == bytes_of("data-on-focus") {
        Some(("data-on-focus", "data-on:focus"))
    } else if b == bytes_of("data-on-blur") {
        Some(("data-on-blur", "data-on:blur"))
    } else if b == bytes_of("data-on-mouseenter") {
        Some(("data-on-mouseenter", "data-on:mouseenter"))
    } else if b == bytes_of("data-on-mouseleave") {
        Some(("data-on-mouseleave", "data-on:mouseleave"))
    } else if b == bytes_of("data-bind-value") {
        Some(("data-bind-value", "data-bind:value"))
    } else if b == bytes_of("data-bind-checked") {
        Some(("data-bind-checked", "data-bind:checked"))
    } else if b == bytes_of("data-attr-disabled") {
        Some(("data-attr-disabled", "data-attr:disabled"))
    } else if b == bytes_of("data-attr-href") {
        Some(("data-attr-href", "data-attr:href"))
    } else if b == bytes_of("data-class-active") {
        Some(("data-class-active", "data-class:active"))
    } else if b == bytes_of("data-style-color") {
        Some(("data-style-color", "data-style:color"))
    } else if b == bytes_of("data-intersects") {
        Some(("data-intersects", "data-on-intersect"))
    } else if b == bytes_of("data-intersect") {
        Some(("data-intersect", "data-on-intersect"))
    } else if b == bytes_of("data-onload") {
        Some(("data-onload", "data-on:load or data-init"))
    } else if b == bytes_of("data-onclick") {
        Some(("data-onclick", "data-on:click"))
    } else if b == bytes_of("data-onsubmit") {
        Some(("data-onsubmit", "data-on:submit"))
    } else if b == bytes_of("data-signal") {
        Some(("data-signal", "data-signals"))
    } else if b == bytes_of("data-visible") {
        Some(("data-visible", "data-show"))
    } else if b == bytes_of("data-hidden") {
        Some(("data-hidden", "data-show (with negation)"))
    } else if b == bytes_of("data-content") {
        Some(("data-content", "data-text or data-html"))
    } else if b == bytes_of("data-value") {
        Some(("data-value", "data-bind"))
    } else if b == bytes_of("data-model") {
        Some(("data-model", "data-bind"))
    } else if b == bytes_of("data-if") {
        Some(("data-if", "data-show"))
    } else if b == bytes_of("data-else") {
        Some(("data-else", "data-show (with negation)"))
    } else if b == bytes_of("data-v-show") {
        Some(("data-v-show", "data-show"))
    } else if b == bytes_of("data-v-if") {
        Some(("data-v-if", "data-show"))
    } else if b == bytes_of("data-x-show") {
        Some(("data-x-show", "data-show"))
    } else if b == bytes_of("data-x-if") {
        Some(("data-x-if", "data-show"))
    } else {
        None
    }
}

/// Common typos and their corrections.
fn known_typo(base: &str) -> (r: Option<(&'static str, &'static str)>)
    ensures
        r == typo_entry(bytes_of(base)),
{
    reveal(typo_entry);
    if str_eq(base, "data-on-click") {
        Some(("data-on-click", "data-on:click"))
    } else if str_eq(base, "data-on-submit") {
        Some(("data-on-submit", "data-on:submit"))
    } else if str_eq(base, "data-on-input") {
        Some(("data-on-input", "data-on:input"))
    } else if str_eq(base, "data-on-change") {
        Some(("data-on-change", "data-on:change"))
    } else if str_eq(base, "data-on-keydown") {
        Some(("data-on-keydown", "data-on:keydown"))
    } else if str_eq(base, "data-on-keyup") {
        Some(("data-on-keyup", "data-on:keyup"))
    } else if str_eq(base, "data-on-focus") {
        Some(("data-on-focus", "data-on:focus"))
    } else if str_eq(base, "data-on-blur") {
        Some(("data-on-blur", "data-on:blur"))
    } else if str_eq(base, "data-on-mouseenter") {
        Some(("data-on-mouseenter", "data-on:mouseenter"))
    } else if str_eq(base, "data-on-mouseleave") {
        Some(("data-on-mouseleave", "data-on:mouseleave"))
    } else if str_eq(base, "data-bind-value") {
        Some(("data-bind-value", "data-bind:value"))
    } else if str_eq(base, "data-bind-checked") {
        Some(("data-bind-checked", "data-bind:checked"))
    } else if str_eq(base, "data-attr-disabled") {
        Some(("data-attr-disabled", "data-attr:disabled"))
    } else if str_eq(base, "data-attr-href") {
        Some(("data-attr-href", "data-attr:href"))
    } else if str_eq(base, "data-class-active") {
        Some(("data-class-active", "data-class:active"))
    } else if str_eq(base, "data-style-color") {
        Some(("data-style-color", "data-style:color"))
    } else if str_eq(base, "data-intersects") {
        Some(("data-intersects", "data-on-intersect"))
    } else if str_eq(base, "data-intersect") {
        Some(("data-intersect", "data-on-intersect"))
    } else if str_eq(base, "data-onload") {
        Some(("data-onload", "data-on:load or data-init"))
    } else if str_eq(base, "data-onclick") {
        Some(("data-onclick", "data-on:click"))
    } else if str_eq(base, "data-onsubmit") {
        Some(("data-onsubmit", "data-on:submit"))
    } else if str_eq(base, "data-signal") {
        Some(("data-signal", "data-signals"))
    } else if str_eq(base, "data-visible") {
        Some(("data-visible", "data-show"))
    } else if str_eq(base, "data-hidden") {
        Some(("data-hidden", "data-show (with negation)"))
    } else if str_eq(base, "data-content") {
        Some(("data-content", "data-text or data-html"))
    } else if str_eq(base, "data-value") {
        Some(("data-value", "data-bind"))
    } else if str_eq(base, "data-model") {
        Some(("data-model", "data-bind"))
    } else if str_eq(base, "data-if") {
        Some(("data-if", "data-show"))
    } else if str_eq(base, "data-else") {
        Some(("data-else", "data-show (with negation)"))
    } else if str_eq(base, "data-v-show") {
        Some(("data-v-show", "data-show"))
    } else if str_eq(base, "data-v-if") {
        Some(("data-v-if", "data-show"))
    } else if str_eq(base, "data-x-show") {
        Some(("data-x-show", "data-show"))
    } else if str_eq(base, "data-x-if") {
        Some(("data-x-if", "data-show"))
    } else {
        None
    }
}

/// Hyphenated `data-on-` attributes that Datastar defines as such.
pub open spec fn hyphen_event(b: Seq<u8>) -> bool {
    b == bytes_of("data-on-intersect") || b == bytes_of("data-on-interval") || b == bytes_of("data-on-signal-patch") || b == bytes_of("data-on-raf") || b == bytes_of("data-on-resize") || b == bytes_of("data-on-load")
}

/// Check if a data-on-* attribute is a valid hyphenated event (not a typo).
pub fn is_valid_hyphen_event(name: &str) -> (r: bool)
    ensures
        r == hyphen_event(bytes_of(name)),
{
    str_eq(name, "data-on-intersect") || str_eq(name, "data-on-interval") || str_eq(name, "data-on-signal-patch") || str_eq(name, "data-on-raf") || str_eq(name, "data-on-resize") || str_eq(name, "data-on-load")
}

/// The text of `b` after its first `k` bytes.
pub open spec fn text_after(b: Seq<u8>, k: nat) -> Seq<char> {
    decode_utf8(b.subrange(k as int, b.len() as int))
}

/// The finding for a base name that uses `wrong` where `correct` is meant.
pub open spec fn separator_one(
    b: Seq<u8>,
    wrong: &str,
    correct: &str,
    a: ParsedAttribute<'_>,
) -> Seq<DiagView> {
    if is_prefix(bytes_of(wrong), b) {
        let suffix = text_after(b, bytes_of(wrong).len());
        seq![
            at_name(
                "datastar/typo"@,
                "Use colon separator: '"@ + correct@ + suffix + "' instead of '"@ + wrong@ + suffix
                    + "'"@,
                a,
            ),
        ]
    } else {
        seq![]
    }
}

/// The findings of the typo check for one attribute.
pub open spec fn typo_one(a: ParsedAttribute<'_>) -> Seq<DiagView> {
    let n = bytes_of(a.name);
    let b = base_of(n);
    if !is_prefix(bytes_of("data-"), n) {
        seq![]
    } else if typo_entry(b) is Some {
        let t = typo_entry(b).unwrap();
        seq![
            at_name(
                "datastar/typo"@,
                "Possible typo: '"@ + t.0@ + "' - did you mean '"@ + t.1@ + "'?"@,
                a,
            ),
        ]
    } else {
        let ev = text_after(b, bytes_of("data-on-").len());
        let events = if is_prefix(bytes_of("data-on-"), b) && !hyphen_event(b) {
            seq![
                at_name(
                    "datastar/typo"@,
                    "Use colon for events: 'data-on:"@ + ev + "' instead of 'data-on-"@ + ev
                        + "'"@,
                    a,
                ),
            ]
        } else {
            seq![]
        };
        events + separator_one(b, "data-bind-", "data-bind:", a) + separator_one(b, "data-attr-", "data-attr:", a) + separator_one(b, "data-class-", "data-class:", a) + separator_one(b, "data-style-", "data-style:", a) + separator_one(b, "data-indicator-", "data-indicator:", a)
    }
}

/// The typo check, attribute by attribute.
pub open spec fn typo_f<'a>() -> spec_fn(ParsedAttribute<'a>) -> Seq<DiagView> {
    |a: ParsedAttribute<'a>| typo_one(a)
}

/// Check for common typos in Datastar attribute names.
pub fn check_typos(tag: &ParsedTag<'_>, diags: &mut Diagnostics)
    ensures
        diag_views(final(diags)@) == diag_views(old(diags)@) + concat_map(tag.attributes@, typo_f()),
{
    proof {
        lemma_concat_map_empty(tag.attributes@, typo_f(), diag_views(diags@));
    }
    let mut k: usize = 0;
    while k < tag.attributes.len()
        invariant
            k <= tag.attributes.len(),
            diag_views(diags@) == diag_views(old(diags)@) + concat_map(
                tag.attributes@.subrange(0, k as int),
                typo_f(),
            ),
        decreases tag.attributes.len() - k,
    {
        let attr = &tag.attributes[k];
        proof {
            lemma_concat_map_step(tag.attributes@, typo_f(), k as int);
        }
        check_attr_typos(attr, diags);
        k += 1;
    }
    proof {
        assert(tag.attributes@.subrange(0, k as int) =~= tag.attributes@);
    }
}


fn check_attr_typos(attr: &ParsedAttribute<'_>, diags: &mut Diagnostics)
    ensures
        diag_views(final(diags)@) == diag_views(old(diags)@) + typo_one(*attr),
{
    // Only check data- prefixed attributes
    if !starts_with_str(attr.name, "data-") {
        return;
    }
    let base_name = base_attr_name(attr.name);
    // Check against known typos
    match known_typo(base_name) {
        Some((typo, suggestion)) => {
            let mut message = String::from_str("Possible typo: '");
            message.append(typo);
            message.append("' - did you mean '");
            message.append(suggestion);
            message.append("'?");
            push_diag(diags, "datastar/typo", message, attr.name_start, attr.name_end);
            return;
        },
        None => {},
    }
    // Check for hyphen where colon expected (data-on-* should be data-on:*)
    if starts_with_str(base_name, "data-on-") && !is_valid_hyphen_event(base_name) {
        let event_name = strip_prefix_str(base_name, "data-on-");
        let mut message = String::from_str("Use colon for events: 'data-on:");
        message.append(event_name);
        message.append("' instead of 'data-on-");
        message.append(event_name);
        message.append("'");
        push_diag(diags, "datastar/typo", message, attr.name_start, attr.name_end);
    }
    // Check for hyphen where colon expected in other prefixes
    check_prefix_separator(attr, base_name, "data-bind-", "data-bind:", diags);
    check_prefix_separator(attr, base_name, "data-attr-", "data-attr:", diags);
    check_prefix_separator(attr, base_name, "data-class-", "data-class:", diags);
    check_prefix_separator(attr, base_name, "data-style-", "data-style:", diags);
    check_prefix_separator(attr, base_name, "data-indicator-", "data-indicator:", diags);
}

/// Check for wrong separator in prefixed attributes.
fn check_prefix_separator(
    attr: &ParsedAttribute<'_>,
    base_name: &str,
    wrong_prefix: &str,
    correct_prefix: &str,
    diags: &mut Diagnostics,
)
    ensures
        diag_views(final(diags)@) == diag_views(old(diags)@) + separator_one(
            bytes_of(base_name),
            wrong_prefix,
            correct_prefix,
            *attr,
        ),
{
    if starts_with_str(base_name, wrong_prefix) {
        let suffix = strip_prefix_str(base_name, wrong_prefix);
        let mut message = String::from_str("Use colon separator: '");
        message.append(correct_prefix);
        message.append(suffix);
        message.append("' instead of '");
        message.append(wrong_prefix);
        message.append(suffix);
        message.append("'");
        push_diag(diags, "datastar/typo", message, attr.name_start, attr.name_end);
    }
}

} // verus!
