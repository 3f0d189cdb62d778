//! Modifier validation for Datastar attributes.

use vstd::prelude::*;
use vstd::string::*;
use vstd::utf8::decode_utf8;
use crate::diagnostics::{
    at_name, concat_map, diag_views, lemma_concat_map_empty, lemma_concat_map_step, push_diag, DiagView, Diagnostics,
};
use crate::helpers::{
    base_attr_name, base_of, extract_modifiers, is_datastar_attr, modifiers_of, views_of,
    ParsedAttribute, ParsedTag,
};
use crate::number::{find_in, first_where, float_text, is_dot, is_float_text};
use crate::text::{
    bytes_of, ends_with_str, is_prefix, is_suffix, slice_str, starts_with_str, str_eq,
    strip_prefix_str, lemma_ascii_boundary,
};

verus! {

broadcast use vstd::utf8::encode_utf8_decode_utf8, vstd::utf8::encode_utf8_valid_utf8;

/// Modifiers of the event family.
pub open spec fn event_modifiers() -> Seq<&'static str> {
    seq!["once", "passive", "capture", "case", "delay", "debounce", "throttle", "viewtransition", "window", "outside", "prevent", "stop"]
}

/// Modifiers of the intersect family.
pub open spec fn intersect_modifiers() -> Seq<&'static str> {
    seq!["once", "exit", "half", "full", "threshold", "delay", "debounce", "throttle", "viewtransition"]
}

/// Modifiers of the persist family.
pub open spec fn persist_modifiers() -> Seq<&'static str> {
    seq!["session"]
}

/// Modifiers of the init family.
pub open spec fn init_modifiers() -> Seq<&'static str> {
    seq!["delay", "viewtransition"]
}

/// Modifiers of the interval family.
pub open spec fn interval_modifiers() -> Seq<&'static str> {
    seq!["delay", "debounce", "throttle", "viewtransition"]
}

/// Modifiers of the frame family.
pub open spec fn frame_modifiers() -> Seq<&'static str> {
    seq!["debounce", "throttle"]
}

/// Modifiers of the effect family.
pub open spec fn effect_modifiers() -> Seq<&'static str> {
    seq!["viewtransition"]
}

/// Modifiers of the casing family.
pub open spec fn casing_modifiers() -> Seq<&'static str> {
    seq!["case"]
}

/// The modifiers that an attribute family accepts, by base name.
pub open spec fn allowed_for(b: Seq<u8>) -> Seq<&'static str> {
    if is_prefix(bytes_of("data-on:"), b) {
        event_modifiers()
    } else if b == bytes_of("data-on-intersect") {
        intersect_modifiers()
    } else if b == bytes_of("data-persist") {
        persist_modifiers()
    } else if b == bytes_of("data-init") {
        init_modifiers()
    } else if b == bytes_of("data-on-interval") || b == bytes_of("data-on-signal-patch") {
        interval_modifiers()
    } else if b == bytes_of("data-on-raf") || b == bytes_of("data-on-resize") {
        frame_modifiers()
    } else if b == bytes_of("data-effect") {
        effect_modifiers()
    } else if is_prefix(bytes_of("data-signals"), b) || is_prefix(bytes_of("data-computed"), b)
        || is_prefix(bytes_of("data-ref"), b) || is_prefix(bytes_of("data-bind"), b) || is_prefix(
        bytes_of("data-indicator"),
        b,
    ) {
        casing_modifiers()
    } else {
        seq![]
    }
}

fn event_list() -> (r: Vec<&'static str>)
    ensures
        r@ == event_modifiers(),
{
    let mut v: Vec<&'static str> = Vec::new();
    v.push("once");
    v.push("passive");
    v.push("capture");
    v.push("case");
    v.push("delay");
    v.push("debounce");
    v.push("throttle");
    v.push("viewtransition");
    v.push("window");
    v.push("outside");
    v.push("prevent");
    v.push("stop");
    proof {
        assert(v@ =~= event_modifiers());
    }
    v
}

fn intersect_list() -> (r: Vec<&'static str>)
    ensures
        r@ == intersect_modifiers(),
{
    let mut v: Vec<&'static str> = Vec::new();
    v.push("once");
    v.push("exit");
    v.push("half");
    v.push("full");
    v.push("threshold");
    v.push("delay");
    v.push("debounce");
    v.push("throttle");
    v.push("viewtransition");
    proof {
        assert(v@ =~= intersect_modifiers());
    }
    v
}

fn persist_list() -> (r: Vec<&'static str>)
    ensures
        r@ == persist_modifiers(),
{
    let mut v: Vec<&'static str> = Vec::new();
    v.push("session");
    proof {
        assert(v@ =~= persist_modifiers());
    }
    v
}

fn init_list() -> (r: Vec<&'static str>)
    ensures
        r@ == init_modifiers(),
{
    let mut v: Vec<&'static str> = Vec::new();
    v.push("delay");
    v.push("viewtransition");
    proof {
        assert(v@ =~= init_modifiers());
    }
    v
}

fn interval_list() -> (r: Vec<&'static str>)
    ensures
        r@ == interval_modifiers(),
{
    let mut v: Vec<&'static str> = Vec::new();
    v.push("delay");
    v.push("debounce");
    v.push("throttle");
    v.push("viewtransition");
    proof {
        assert(v@ =~= interval_modifiers());
    }
    v
}

fn frame_list() -> (r: Vec<&'static str>)
    ensures
        r@ == frame_modifiers(),
{
    let mut v: Vec<&'static str> = Vec::new();
    v.push("debounce");
    v.push("throttle");
    proof {
        assert(v@ =~= frame_modifiers());
    }
    v
}

fn effect_list() -> (r: Vec<&'static str>)
    ensures
        r@ == effect_modifiers(),
{
    let mut v: Vec<&'static str> = Vec::new();
    v.push("viewtransition");
    proof {
        assert(v@ =~= effect_modifiers());
    }
    v
}

fn casing_list() -> (r: Vec<&'static str>)
    ensures
        r@ == casing_modifiers(),
{
    let mut v: Vec<&'static str> = Vec::new();
    v.push("case");
    proof {
        assert(v@ =~= casing_modifiers());
    }
    v
}

/// Get valid modifiers for an attribute.
pub fn get_valid_modifiers(base_attr: &str) -> (r: Vec<&'static str>)
    ensures
        r@ == allowed_for(bytes_of(base_attr)),
{
    if starts_with_str(base_attr, "data-on:") {
        event_list()
    } else if str_eq(base_attr, "data-on-intersect") {
        intersect_list()
    } else if str_eq(base_attr, "data-persist") {
        persist_list()
    } else if str_eq(base_attr, "data-init") {
        init_list()
    } else if str_eq(base_attr, "data-on-interval") || str_eq(base_attr, "data-on-signal-patch") {
        interval_list()
    } else if str_eq(base_attr, "data-on-raf") || str_eq(base_attr, "data-on-resize") {
        frame_list()
    } else if str_eq(base_attr, "data-effect") {
        effect_list()
    } else if starts_with_str(base_attr, "data-signals") || starts_with_str(base_attr, "data-computed")
        || starts_with_str(base_attr, "data-ref") || starts_with_str(base_attr, "data-bind")
        || starts_with_str(base_attr, "data-indicator") {
        casing_list()
    } else {
        Vec::new()
    }
}

/// A timing or ordering value: a duration, an edge, or a number.
pub open spec fn timing(m: Seq<u8>) -> bool {
    is_suffix(bytes_of("ms"), m) || is_suffix(bytes_of("s"), m) || m == bytes_of("leading") || m
        == bytes_of("trailing") || m == bytes_of("notrailing") || m == bytes_of("noleading")
        || float_text(m)
}

/// Check if a modifier is a timing value (e.g., "500ms", "1s", "leading", "trailing").
pub fn is_timing_modifier(modifier: &str) -> (r: bool)
    ensures
        r == timing(bytes_of(modifier)),
{
    ends_with_str(modifier, "ms") || ends_with_str(modifier, "s") || str_eq(modifier, "leading")
        || str_eq(modifier, "trailing") || str_eq(modifier, "notrailing") || str_eq(
        modifier,
        "noleading",
    ) || is_float_text(modifier.as_bytes())
}

/// `m` is one of the entries of `l`.
pub open spec fn listed(l: Seq<&'static str>, m: Seq<u8>) -> bool {
    exists|j: int| 0 <= j < l.len() && bytes_of(#[trigger] l[j]) == m
}

/// The entries of `l`, separated by ", ".
pub open spec fn joined(l: Seq<&'static str>) -> Seq<char>
    decreases l.len(),
{
    if l.len() == 0 {
        seq![]
    } else if l.len() == 1 {
        l[0]@
    } else {
        joined(l.drop_last()) + ", "@ + l.last()@
    }
}

/// A modifier's name: the part before its first `.`.
pub open spec fn name_part(m: Seq<u8>) -> Seq<u8> {
    m.subrange(0, first_where(m, is_dot(), 0))
}

/// The values that a `case` modifier accepts.
pub open spec fn case_value_ok(v: Seq<u8>) -> bool {
    v == bytes_of("camel") || v == bytes_of("kebab") || v == bytes_of("snake") || v == bytes_of(
        "pascal",
    )
}

/// The finding for one modifier `m` of an attribute with base name `base`.
pub open spec fn modifier_diag(m: Seq<u8>, base: Seq<u8>, a: ParsedAttribute<'_>) -> Seq<DiagView> {
    let mb = name_part(m);
    if mb == bytes_of("case") {
        let v = m.subrange(bytes_of("case.").len() as int, m.len() as int);
        if is_prefix(bytes_of("case."), m) && !case_value_ok(v) {
            seq![
                at_name(
                    "datastar/invalid-modifier"@,
                    "Invalid case modifier '"@ + decode_utf8(v)
                        + "'. Valid options: camel, kebab, snake, pascal"@,
                    a,
                ),
            ]
        } else {
            seq![]
        }
    } else if !listed(allowed_for(base), mb) && !timing(mb) {
        seq![
            at_name(
                "datastar/invalid-modifier"@,
                "Invalid modifier '"@ + decode_utf8(m) + "' for '"@ + decode_utf8(base)
                    + "'. Valid modifiers: "@ + joined(allowed_for(base)),
                a,
            ),
        ]
    } else {
        seq![]
    }
}

/// The findings for the modifiers `ms`, one after the other.
pub open spec fn modifiers_diags(ms: Seq<Seq<u8>>, base: Seq<u8>, a: ParsedAttribute<'_>) -> Seq<
    DiagView,
>
    decreases ms.len(),
{
    if ms.len() == 0 {
        seq![]
    } else {
        modifiers_diags(ms.drop_last(), base, a) + modifier_diag(ms.last(), base, a)
    }
}

/// The findings of the modifier check for one attribute.
pub open spec fn modifier_one(a: ParsedAttribute<'_>) -> Seq<DiagView> {
    let n = bytes_of(a.name);
    if !is_prefix(bytes_of("data-"), n) {
        seq![]
    } else {
        modifiers_diags(modifiers_of(n), base_of(n), a)
    }
}

/// The modifier check, attribute by attribute.
pub open spec fn modifier_f<'a>() -> spec_fn(ParsedAttribute<'a>) -> Seq<DiagView> {
    |a: ParsedAttribute<'a>| modifier_one(a)
}

/// Check modifier validity for Datastar attributes.
pub fn check_modifiers(tag: &ParsedTag<'_>, diags: &mut Diagnostics)
    ensures
        diag_views(final(diags)@) == diag_views(old(diags)@) + concat_map(tag.attributes@, modifier_f()),
{
    proof {
        lemma_concat_map_empty(tag.attributes@, modifier_f(), diag_views(diags@));
    }
    let mut k: usize = 0;
    while k < tag.attributes.len()
        invariant
            k <= tag.attributes.len(),
            diag_views(diags@) == diag_views(old(diags)@) + concat_map(
                tag.attributes@.subrange(0, k as int),
                modifier_f(),
            ),
        decreases tag.attributes.len() - k,
    {
        let attr = &tag.attributes[k];
        proof {
            lemma_concat_map_step(tag.attributes@, modifier_f(), k as int);
        }
        check_attr_modifiers(attr, diags);
        k += 1;
    }
    proof {
        assert(tag.attributes@.subrange(0, k as int) =~= tag.attributes@);
    }
}

fn check_attr_modifiers(attr: &ParsedAttribute<'_>, diags: &mut Diagnostics)
    ensures
        diag_views(final(diags)@) == diag_views(old(diags)@) + modifier_one(*attr),
{
    if !is_datastar_attr(attr.name) {
        return;
    }
    let modifiers = extract_modifiers(attr.name);
    let base = base_attr_name(attr.name);
    let valid_modifiers = get_valid_modifiers(base);
    let ghost ms = views_of(modifiers@);
    let mut k: usize = 0;
    while k < modifiers.len()
        invariant
            k <= modifiers.len(),
            ms == views_of(modifiers@),
            ms == modifiers_of(bytes_of(attr.name)),
            bytes_of(base) == base_of(bytes_of(attr.name)),
            valid_modifiers@ == allowed_for(bytes_of(base)),
            diag_views(diags@) == diag_views(old(diags)@) + modifiers_diags(
                ms.subrange(0, k as int),
                bytes_of(base),
                *attr,
            ),
        decreases modifiers.len() - k,
    {
        let modifier = modifiers[k];
        proof {
            assert(ms.subrange(0, k + 1).drop_last() =~= ms.subrange(0, k as int));
            assert(ms[k as int] == bytes_of(modifier));
        }
        check_one_modifier(modifier, base, &valid_modifiers, attr, diags);
        k += 1;
    }
    proof {
        assert(ms.subrange(0, k as int) =~= ms);
    }
}

fn check_one_modifier(
    modifier: &str,
    base: &str,
    valid_modifiers: &Vec<&'static str>,
    attr: &ParsedAttribute<'_>,
    diags: &mut Diagnostics,
)
    requires
        valid_modifiers@ == allowed_for(bytes_of(base)),
    ensures
        diag_views(final(diags)@) == diag_views(old(diags)@) + modifier_diag(
            bytes_of(modifier),
            bytes_of(base),
            *attr,
        ),
{
    // Extract base modifier name (without timing value like .500ms)
    let mb = modifier.as_bytes();
    let dot = find_in(mb, 0, mb.len(), true);
    proof {
        assert(mb@.subrange(0, mb@.len() as int) =~= mb@);
        crate::number::lemma_first_where(mb@, is_dot(), 0);
        if dot < mb.len() {
            lemma_ascii_boundary(mb@, dot as int);
        } else {
            vstd::utf8::is_char_boundary_start_end_of_seq(mb@);
        }
        vstd::utf8::is_char_boundary_start_end_of_seq(mb@);
    }
    let mod_base = slice_str(modifier, 0, dot);
    if str_eq(mod_base, "case") {
        // Validate case modifier value
        if starts_with_str(modifier, "case.") {
            let case_value = strip_prefix_str(modifier, "case.");
            if !(str_eq(case_value, "camel") || str_eq(case_value, "kebab") || str_eq(
                case_value,
                "snake",
            ) || str_eq(case_value, "pascal")) {
                let mut message = String::from_str("Invalid case modifier '");
                message.append(case_value);
                message.append("'. Valid options: camel, kebab, snake, pascal");
                push_diag(
                    diags,
                    "datastar/invalid-modifier",
                    message,
                    attr.name_start,
                    attr.name_end,
                );
            }
        }
        return;
    }
    // Check if modifier is valid for this attribute
    if !list_contains(valid_modifiers, mod_base) && !is_timing_modifier(mod_base) {
        let mut message = String::from_str("Invalid modifier '");
        message.append(modifier);
        message.append("' for '");
        message.append(base);
        message.append("'. Valid modifiers: ");
        append_joined(&mut message, valid_modifiers);
        push_diag(diags, "datastar/invalid-modifier", message, attr.name_start, attr.name_end);
    }
}

fn list_contains(l: &Vec<&'static str>, m: &str) -> (r: bool)
    ensures
        r == listed(l@, bytes_of(m)),
{
    let mut k: usize = 0;
    while k < l.len()
        invariant
            k <= l.len(),
            forall|j: int| 0 <= j < k ==> bytes_of(#[trigger] l@[j]) != bytes_of(m),
        decreases l.len() - k,
    {
        if str_eq(l[k], m) {
            proof {
                assert(bytes_of(l@[k as int]) == bytes_of(m));
            }
            return true;
        }
        k += 1;
    }
    false
}

fn append_joined(out: &mut String, l: &Vec<&'static str>)
    ensures
        final(out)@ == old(out)@ + joined(l@),
{
    let mut k: usize = 0;
    while k < l.len()
        invariant
            k <= l.len(),
            out@ == old(out)@ + joined(l@.subrange(0, k as int)),
        decreases l.len() - k,
    {
        proof {
            assert(l@.subrange(0, k + 1).drop_last() =~= l@.subrange(0, k as int));
            assert(l@.subrange(0, k + 1).last() == l@[k as int]);
        }
        if k > 0 {
            out.append(", ");
        }
        out.append(l[k]);
        proof {
            if k == 0 {
                assert(joined(l@.subrange(0, 0)) =~= seq![]);
            }
        }
        k += 1;
    }
    proof {
        assert(l@.subrange(0, k as int) =~= l@);
    }
}

} // verus!
