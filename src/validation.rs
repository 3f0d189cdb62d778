//! Value and placement checks for Datastar attributes.

use vstd::prelude::*;
use vstd::string::*;
use crate::diagnostics::{
    at_name, concat_map, diag_views, lemma_concat_map_empty, lemma_concat_map_step, push_diag, DiagView, Diagnostics,
};
use crate::helpers::{base_attr_name, base_of, ParsedAttribute, ParsedTag};
use crate::text::{bytes_of, is_prefix, lowercase_of, starts_with_str, str_eq, to_lower};

verus! {

/// Alpine.js or Vue.js attribute syntax.
pub open spec fn alpine_or_vue(n: Seq<u8>) -> bool {
    is_prefix(bytes_of("x-"), n) || is_prefix(bytes_of("x:"), n) || is_prefix(bytes_of("v-"), n)
        || is_prefix(bytes_of("@"), n) || is_prefix(bytes_of(":"), n)
}

/// The finding of the Alpine/Vue check for one attribute.
pub open spec fn alpine_vue_one(a: ParsedAttribute<'_>) -> Seq<DiagView> {
    if alpine_or_vue(bytes_of(a.name)) {
        seq![
            at_name(
                "datastar/no-alpine-vue-attrs"@,
                "Disallowed Alpine/Vue-style attribute: "@ + a.name@,
                a,
            ),
        ]
    } else {
        seq![]
    }
}

/// The Alpine/Vue check, attribute by attribute.
pub open spec fn alpine_vue_f<'a>() -> spec_fn(ParsedAttribute<'a>) -> Seq<DiagView> {
    |a: ParsedAttribute<'a>| alpine_vue_one(a)
}

/// Check for Alpine.js or Vue.js style attributes.
pub fn check_alpine_vue(tag: &ParsedTag<'_>, diags: &mut Diagnostics)
    ensures
        diag_views(final(diags)@) == diag_views(old(diags)@) + concat_map(
            tag.attributes@,
            alpine_vue_f(),
        ),
{
    proof {
        lemma_concat_map_empty(tag.attributes@, alpine_vue_f(), diag_views(diags@));
    }
    let mut k: usize = 0;
    while k < tag.attributes.len()
        invariant
            k <= tag.attributes.len(),
            diag_views(diags@) == diag_views(old(diags)@) + concat_map(
                tag.attributes@.subrange(0, k as int),
                alpine_vue_f(),
            ),
        decreases tag.attributes.len() - k,
    {
        let attr = &tag.attributes[k];
        proof {
            lemma_concat_map_step(tag.attributes@, alpine_vue_f(), k as int);
        }
        if is_alpine_or_vue_attr(attr.name) {
            let mut message = String::from_str("Disallowed Alpine/Vue-style attribute: ");
            message.append(attr.name);
            push_diag(diags, "datastar/no-alpine-vue-attrs", message, attr.name_start, attr.name_end);
        }
        k += 1;
    }
    proof {
        assert(tag.attributes@.subrange(0, k as int) =~= tag.attributes@);
    }
}

/// Check if an attribute looks like Alpine.js or Vue.js syntax.
pub fn is_alpine_or_vue_attr(name: &str) -> (r: bool)
    ensures
        r == alpine_or_vue(bytes_of(name)),
{
    starts_with_str(name, "x-") || starts_with_str(name, "x:") || starts_with_str(name, "v-")
        || starts_with_str(name, "@") || starts_with_str(name, ":")
}

/// Attributes whose base name is an expression that must not be empty.
pub open spec fn needs_value(n: Seq<u8>) -> bool {
    let b = base_of(n);
    b == bytes_of("data-show") || b == bytes_of("data-text") || b == bytes_of("data-html") || b
        == bytes_of("data-class") || b == bytes_of("data-effect") || b == bytes_of("data-computed")
        || b == bytes_of("data-replace-url") || is_prefix(bytes_of("data-on:"), b) || is_prefix(
        bytes_of("data-attr:"),
        b,
    ) || is_prefix(bytes_of("data-class:"), b) || is_prefix(bytes_of("data-style:"), b)
        || is_prefix(bytes_of("data-computed:"), b)
}

/// The attribute has a non-empty value.
pub open spec fn has_value(a: ParsedAttribute<'_>) -> bool {
    match a.value {
        Some(v) => bytes_of(v).len() > 0,
        None => false,
    }
}

/// The finding of the required-value check for one attribute.
pub open spec fn required_value_one(a: ParsedAttribute<'_>) -> Seq<DiagView> {
    if needs_value(bytes_of(a.name)) && !has_value(a) {
        seq![
            at_name(
                "datastar/require-value"@,
                "Datastar attribute '"@ + a.name@ + "' requires a value"@,
                a,
            ),
        ]
    } else {
        seq![]
    }
}

/// The required-value check, attribute by attribute.
pub open spec fn required_value_f<'a>() -> spec_fn(ParsedAttribute<'a>) -> Seq<DiagView> {
    |a: ParsedAttribute<'a>| required_value_one(a)
}

/// Check that required Datastar attributes have values.
pub fn check_required_values(tag: &ParsedTag<'_>, diags: &mut Diagnostics)
    ensures
        diag_views(final(diags)@) == diag_views(old(diags)@) + concat_map(
            tag.attributes@,
            required_value_f(),
        ),
{
    proof {
        lemma_concat_map_empty(tag.attributes@, required_value_f(), diag_views(diags@));
    }
    let mut k: usize = 0;
    while k < tag.attributes.len()
        invariant
            k <= tag.attributes.len(),
            diag_views(diags@) == diag_views(old(diags)@) + concat_map(
                tag.attributes@.subrange(0, k as int),
                required_value_f(),
            ),
        decreases tag.attributes.len() - k,
    {
        let attr = &tag.attributes[k];
        proof {
            lemma_concat_map_step(tag.attributes@, required_value_f(), k as int);
        }
        if requires_value(attr.name) {
            let present = match attr.value {
                Some(v) => v.as_bytes().len() > 0,
                None => false,
            };
            if !present {
                let mut message = String::from_str("Datastar attribute '");
                message.append(attr.name);
                message.append("' requires a value");
                push_diag(diags, "datastar/require-value", message, attr.name_start, attr.name_end);
            }
        }
        k += 1;
    }
    proof {
        assert(tag.attributes@.subrange(0, k as int) =~= tag.attributes@);
    }
}

/// Check if an attribute requires a value.
pub fn requires_value(name: &str) -> (r: bool)
    ensures
        r == needs_value(bytes_of(name)),
{
    let base = base_attr_name(name);
    str_eq(base, "data-show") || str_eq(base, "data-text") || str_eq(base, "data-html") || str_eq(
        base,
        "data-class",
    ) || str_eq(base, "data-effect") || str_eq(base, "data-computed") || str_eq(
        base,
        "data-replace-url",
    ) || starts_with_str(base, "data-on:") || starts_with_str(base, "data-attr:")
        || starts_with_str(base, "data-class:") || starts_with_str(base, "data-style:")
        || starts_with_str(base, "data-computed:")
}

/// The finding of the template check for one attribute of a tag named `tag_name`.
pub open spec fn for_template_one(tag_name: Seq<char>, a: ParsedAttribute<'_>) -> Seq<DiagView> {
    if base_of(bytes_of(a.name)) == bytes_of("data-for") && lowercase_of(tag_name) != "template"@ {
        seq![
            at_name(
                "datastar/for-template"@,
                "data-for must be on a <template> element, found on <"@ + tag_name + ">"@,
                a,
            ),
        ]
    } else {
        seq![]
    }
}

/// The template check on a tag named `tag_name`, attribute by attribute.
pub open spec fn for_template_f<'a>(tag_name: Seq<char>) -> spec_fn(ParsedAttribute<'a>) -> Seq<
    DiagView,
> {
    |a: ParsedAttribute<'a>| for_template_one(tag_name, a)
}

/// Check that data-for is on a template element.
pub fn check_for_on_template(tag: &ParsedTag<'_>, diags: &mut Diagnostics)
    ensures
        diag_views(final(diags)@) == diag_views(old(diags)@) + concat_map(
            tag.attributes@,
            for_template_f(tag.name@),
        ),
{
    proof {
        lemma_concat_map_empty(tag.attributes@, for_template_f(tag.name@), diag_views(diags@));
    }
    let mut k: usize = 0;
    while k < tag.attributes.len()
        invariant
            k <= tag.attributes.len(),
            diag_views(diags@) == diag_views(old(diags)@) + concat_map(
                tag.attributes@.subrange(0, k as int),
                for_template_f(tag.name@),
            ),
        decreases tag.attributes.len() - k,
    {
        let attr = &tag.attributes[k];
        proof {
            lemma_concat_map_step(tag.attributes@, for_template_f(tag.name@), k as int);
        }
        if str_eq(base_attr_name(attr.name), "data-for") {
            let lower = to_lower(tag.name);
            if !is_template_name(lower.as_str()) {
                let mut message = String::from_str(
                    "data-for must be on a <template> element, found on <",
                );
                message.append(tag.name);
                message.append(">");
                push_diag(diags, "datastar/for-template", message, attr.name_start, attr.name_end);
            }
        }
        k += 1;
    }
    proof {
        assert(tag.attributes@.subrange(0, k as int) =~= tag.attributes@);
    }
}

/// Whether a lowercased tag name is the template element's.
pub fn is_template_name(lowered: &str) -> (r: bool)
    ensures
        r == (lowered@ == "template"@),
{
    let r = str_eq(lowered, "template");
    proof {
        vstd::utf8::encode_utf8_decode_utf8(lowered@);
        vstd::utf8::encode_utf8_decode_utf8("template"@);
    }
    r
}

} // verus!
