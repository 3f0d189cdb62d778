//! Action syntax validation for Datastar expressions.
//!
//! Validates @get, @post, @patch, @put, @delete SSE actions
//! and Pro actions like @clipboard, @fit.

use vstd::prelude::*;
use vstd::string::*;
use vstd::utf8::decode_utf8;
use crate::diagnostics::{
    advisory, concat_map, diag_views, lemma_concat_map_empty, lemma_concat_map_step, push_diag, DiagView, Diagnostics,
};
use crate::helpers::{is_datastar_attr, ParsedAttribute, ParsedTag};
use crate::number::{first_where, lemma_first_where};
use crate::text::{
    bytes_of, contains_byte, has_byte, is_prefix, lemma_ascii_boundary, lemma_boundary_at,
    lowercase_of, slice_str, starts_with_str, str_eq, strip_prefix_str, to_lower, contains_str, occurs_in, trim_str,
    trimmed_of,
};

verus! {

broadcast use vstd::utf8::encode_utf8_decode_utf8, vstd::utf8::encode_utf8_valid_utf8;

/// Bytes of an action name.
pub open spec fn letter(b: u8) -> bool {
    (0x61 <= b <= 0x7a) || (0x41 <= b <= 0x5a)
}

/// Bytes that open a quoted span in an expression.
pub open spec fn quote_byte(b: u8) -> bool {
    b == 0x22 || b == 0x27 || b == 0x60
}

pub open spec fn not_letter() -> spec_fn(u8) -> bool {
    |b: u8| !letter(b)
}

pub open spec fn not_blank() -> spec_fn(u8) -> bool {
    |b: u8| b != 0x20
}

pub open spec fn is_comma() -> spec_fn(u8) -> bool {
    |b: u8| b == 0x2c
}

/// Offset of the closing quote `q` of a quoted span whose content starts at
/// `i`; a backslash escapes the byte after it. The length when unterminated.
pub open spec fn quote_end(v: Seq<u8>, i: int, q: u8) -> int
    decreases v.len() - i,
{
    if i >= v.len() || v[i] == q {
        if i >= v.len() {
            v.len() as int
        } else {
            i
        }
    } else if v[i] == 0x5c && i + 1 < v.len() {
        quote_end(v, i + 2, q)
    } else {
        quote_end(v, i + 1, q)
    }
}

/// Scanning for the parenthesis that closes a call, from `i` at nesting
/// depth `d`: the offset where the scan stops and the depth left there.
/// Quoted spans are skipped whole.
pub open spec fn paren_scan(v: Seq<u8>, i: int, d: int) -> (int, int)
    decreases v.len() - i,
    via paren_scan_decreases
{
    if i < 0 || i >= v.len() || d <= 0 {
        (i, d)
    } else if v[i] == 0x28 {
        paren_scan(v, i + 1, d + 1)
    } else if v[i] == 0x29 {
        paren_scan(v, i + 1, d - 1)
    } else if quote_byte(v[i]) {
        let j = quote_end(v, i + 1, v[i]);
        if j >= v.len() {
            (v.len() as int, d)
        } else {
            paren_scan(v, j + 1, d)
        }
    } else {
        paren_scan(v, i + 1, d)
    }
}

#[via_fn]
pub proof fn paren_scan_decreases(v: Seq<u8>, i: int, d: int) {
    if 0 <= i < v.len() {
        lemma_quote_end(v, i + 1, v[i]);
    }
}

/// Where a quoted span ends: at its closing quote, or at the end.
pub proof fn lemma_quote_end(v: Seq<u8>, i: int, q: u8)
    requires
        0 <= i,
    ensures
        i <= quote_end(v, i, q) || (i > v.len() && quote_end(v, i, q) == v.len()),
        quote_end(v, i, q) <= v.len(),
        quote_end(v, i, q) < v.len() ==> v[quote_end(v, i, q)] == q,
    decreases v.len() - i,
{
    if i < v.len() && v[i] != q {
        if v[i] == 0x5c && i + 1 < v.len() {
            lemma_quote_end(v, i + 2, q);
        } else {
            lemma_quote_end(v, i + 1, q);
        }
    }
}

/// Where a balanced scan stops: past a `)` that it reached at depth one.
pub proof fn lemma_paren_scan(v: Seq<u8>, i: int, d: int)
    requires
        0 <= i <= v.len(),
        d > 0,
    ensures
        i <= paren_scan(v, i, d).0 <= v.len(),
        paren_scan(v, i, d).1 == 0 ==> i < paren_scan(v, i, d).0 && v[paren_scan(v, i, d).0 - 1]
            == 0x29,
    decreases v.len() - i,
{
    if i < v.len() {
        if v[i] == 0x28 {
            lemma_paren_scan(v, i + 1, d + 1);
        } else if v[i] == 0x29 {
            if d - 1 > 0 {
                lemma_paren_scan(v, i + 1, d - 1);
            } else {
                assert(paren_scan(v, i + 1, d - 1) == (i + 1, 0int));
            }
        } else if quote_byte(v[i]) {
            lemma_quote_end(v, i + 1, v[i]);
            let j = quote_end(v, i + 1, v[i]);
            if j < v.len() {
                lemma_paren_scan(v, j + 1, d);
            }
        } else {
            lemma_paren_scan(v, i + 1, d);
        }
    }
}

/// Check if a byte is valid in an action name.
fn is_action_char(b: u8) -> (r: bool)
    ensures
        r == letter(b),
{
    (0x61 <= b && b <= 0x7a) || (0x41 <= b && b <= 0x5a)
}

fn name_end(b: &[u8], i: usize) -> (r: usize)
    requires
        i <= b@.len(),
    ensures
        r == first_where(b@, not_letter(), i as int),
{
    let mut k = i;
    while k < b.len() && is_action_char(b[k])
        invariant
            i <= k <= b@.len(),
            first_where(b@, not_letter(), i as int) == first_where(b@, not_letter(), k as int),
        decreases b@.len() - k,
    {
        k += 1;
    }
    k
}

fn skip_blanks(b: &[u8], i: usize) -> (r: usize)
    requires
        i <= b@.len(),
    ensures
        r == first_where(b@, not_blank(), i as int),
{
    let mut k = i;
    while k < b.len() && b[k] == 0x20
        invariant
            i <= k <= b@.len(),
            first_where(b@, not_blank(), i as int) == first_where(b@, not_blank(), k as int),
        decreases b@.len() - k,
    {
        k += 1;
    }
    k
}

fn find_comma(b: &[u8], i: usize) -> (r: usize)
    requires
        i <= b@.len(),
    ensures
        r == first_where(b@, is_comma(), i as int),
{
    let mut k = i;
    while k < b.len() && b[k] != 0x2c
        invariant
            i <= k <= b@.len(),
            first_where(b@, is_comma(), i as int) == first_where(b@, is_comma(), k as int),
        decreases b@.len() - k,
    {
        k += 1;
    }
    k
}

fn skip_quoted(b: &[u8], i: usize, q: u8) -> (r: usize)
    requires
        i <= b@.len(),
    ensures
        r == quote_end(b@, i as int, q),
{
    let mut k = i;
    while k < b.len() && b[k] != q
        invariant
            i <= k <= b@.len(),
            quote_end(b@, i as int, q) == quote_end(b@, k as int, q),
        decreases b@.len() - k,
    {
        if b[k] == 0x5c && b.len() - k > 1 {
            k += 1;
        }
        k += 1;
    }
    k
}

/// Find the parenthesis that closes a call whose `(` is just before `i`.
fn scan_parens(b: &[u8], i: usize) -> (r: (usize, usize))
    requires
        1 <= i <= b@.len(),
    ensures
        (r.0 as int, r.1 as int) == paren_scan(b@, i as int, 1),
{
    let mut k = i;
    let mut depth: usize = 1;
    while k < b.len() && depth > 0
        invariant
            1 <= i <= k <= b@.len(),
            depth <= k - i + 1,
            paren_scan(b@, i as int, 1) == paren_scan(b@, k as int, depth as int),
        decreases b@.len() - k,
    {
        let c = b[k];
        if c == 0x28 {
            depth += 1;
        } else if c == 0x29 {
            depth -= 1;
        } else if c == 0x22 || c == 0x27 || c == 0x60 {
            // Skip string content
            let j = skip_quoted(b, k + 1, c);
            proof {
                lemma_quote_end(b@, k + 1, c);
            }
            if j >= b.len() {
                return (b.len(), depth);
            }
            k = j;
        }
        k += 1;
    }
    (k, depth)
}

/// The bytes of `s` once `str::trim` has run on it.
pub open spec fn trimmed_bytes(s: Seq<char>) -> Seq<u8> {
    vstd::utf8::encode_utf8(trimmed_of(s))
}

/// A URL: starts with `/`, or is a string literal, closed by the quote that
/// opens it, whose content starts with `/`.
pub open spec fn url_shape(t: Seq<u8>) -> bool {
    (t.len() > 0 && t[0] == 0x2f) || (t.len() >= 3 && quote_byte(t[0]) && t[t.len() - 1] == t[0]
        && t[1] == 0x2f)
}

/// An expression: refers to a signal, concatenates, or is a template literal.
pub open spec fn expression_shape(t: Seq<u8>) -> bool {
    has_byte(t, 0x24) || has_byte(t, 0x2b) || (t.len() > 0 && t[0] == 0x60)
}

/// Whether already-trimmed text has the shape of a URL.
pub fn url_shaped(trimmed: &str) -> (r: bool)
    ensures
        r == url_shape(bytes_of(trimmed)),
{
    let t = trimmed.as_bytes();
    let n = t.len();
    if n > 0 && t[0] == 0x2f {
        return true;
    }
    // Check quoted strings
    n >= 3 && (t[0] == 0x22 || t[0] == 0x27 || t[0] == 0x60) && t[n - 1] == t[0] && t[1] == 0x2f
}

/// Check if a value looks like a URL (starts with / or is a quoted string starting with /).
pub fn looks_like_url(value: &str) -> (r: bool)
    ensures
        r == url_shape(trimmed_bytes(value@)),
{
    url_shaped(trim_str(value))
}

/// Whether already-trimmed text has the shape of an expression.
pub fn expression_shaped(trimmed: &str) -> (r: bool)
    ensures
        r == expression_shape(bytes_of(trimmed)),
{
    // Contains $ (signal reference), + (string concatenation), or is a template literal
    let t = trimmed.as_bytes();
    contains_byte(trimmed, 0x24) || contains_byte(trimmed, 0x2b) || (t.len() > 0 && t[0] == 0x60)
}

/// Check if a value looks like a JavaScript expression (variable, concatenation, etc.).
pub fn looks_like_expression(value: &str) -> (r: bool)
    ensures
        r == expression_shape(trimmed_bytes(value@)),
{
    expression_shaped(trim_str(value))
}

/// A lowercased unknown action name `l` resembles a known action: equal to
/// it lowercased, or containing the known name without its `@`.
pub open spec fn resembles(l: Seq<char>, action: &str) -> bool {
    lowercase_of(action@) == l || (is_prefix(bytes_of("@"), bytes_of(action)) && occurs_in(
        bytes_of(action).subrange(bytes_of("@").len() as int, bytes_of(action).len() as int),
        vstd::utf8::encode_utf8(l),
    ))
}

/// The first known action that an unknown name resembles.
pub open spec fn similar_action(n: Seq<char>) -> Option<&'static str> {
    if resembles(lowercase_of(n), "@get") {
        Some("@get")
    } else if resembles(lowercase_of(n), "@post") {
        Some("@post")
    } else if resembles(lowercase_of(n), "@patch") {
        Some("@patch")
    } else if resembles(lowercase_of(n), "@put") {
        Some("@put")
    } else if resembles(lowercase_of(n), "@delete") {
        Some("@delete")
    } else if resembles(lowercase_of(n), "@clipboard") {
        Some("@clipboard")
    } else if resembles(lowercase_of(n), "@fit") {
        Some("@fit")
    } else {
        None
    }
}

/// Whether an unknown name resembles a known action, given both lowercased:
/// they are equal, or the name contains the action without its `@`.
pub fn resembles_action(lower_name: &str, lower_action: &str, action: &str) -> (r: bool)
    ensures
        r == (lower_action@ == lower_name@ || (is_prefix(bytes_of("@"), bytes_of(action))
            && occurs_in(
            bytes_of(action).subrange(bytes_of("@").len() as int, bytes_of(action).len() as int),
            bytes_of(lower_name),
        ))),
{
    if str_eq(lower_action, lower_name) {
        proof {
            vstd::utf8::encode_utf8_decode_utf8(lower_action@);
            vstd::utf8::encode_utf8_decode_utf8(lower_name@);
        }
        return true;
    }
    // Check for common typos
    if starts_with_str(action, "@") {
        contains_str(lower_name, strip_prefix_str(action, "@"))
    } else {
        false
    }
}

fn resembles_known(lower: &String, action: &'static str) -> (r: bool)
    ensures
        r == resembles(lower@, action),
{
    let lower_action = to_lower(action);
    resembles_action(lower.as_str(), lower_action.as_str(), action)
}

/// Find a similar action name for typo suggestions.
fn find_similar_action(name: &str) -> (r: Option<&'static str>)
    ensures
        r == similar_action(name@),
{
    let lower = to_lower(name);
    if resembles_known(&lower, "@get") {
        Some("@get")
    } else if resembles_known(&lower, "@post") {
        Some("@post")
    } else if resembles_known(&lower, "@patch") {
        Some("@patch")
    } else if resembles_known(&lower, "@put") {
        Some("@put")
    } else if resembles_known(&lower, "@delete") {
        Some("@delete")
    } else if resembles_known(&lower, "@clipboard") {
        Some("@clipboard")
    } else if resembles_known(&lower, "@fit") {
        Some("@fit")
    } else {
        None
    }
}

/// SSE action names that require a URL argument.
pub open spec fn sse_action(n: Seq<u8>) -> bool {
    n == bytes_of("@get") || n == bytes_of("@post") || n == bytes_of("@patch") || n == bytes_of(
        "@put",
    ) || n == bytes_of("@delete")
}

/// Pro actions.
pub open spec fn pro_action(n: Seq<u8>) -> bool {
    n == bytes_of("@clipboard") || n == bytes_of("@fit")
}

/// Action findings are located at the attribute's value, or at its name
/// when it has none.
pub open spec fn action_finding(message: Seq<char>, a: ParsedAttribute<'_>) -> DiagView {
    advisory(
        "datastar/action-syntax"@,
        message,
        match a.value_start {
            Some(s) => s as int,
            None => a.name_start as int,
        },
        match a.value_end {
            Some(e) => e as int,
            None => a.name_end as int,
        },
    )
}

/// The findings on the arguments `args` of an SSE action `name`: its first
/// argument, up to the first comma and trimmed, must be a URL or an
/// expression.
pub open spec fn url_findings(args: Seq<u8>, name: Seq<char>, a: ParsedAttribute<'_>) -> Seq<
    DiagView,
> {
    let first = args.subrange(0, first_where(args, is_comma(), 0));
    let fa = trimmed_of(decode_utf8(first));
    match first_arg_message(name, fa, trimmed_bytes(fa)) {
        Some(m) => seq![action_finding(m, a)],
        None => seq![],
    }
}

/// The message on the trimmed first argument `fa` of an SSE action `name`,
/// judged by the shape of `shape` (the argument trimmed once more): it must
/// not be empty, and must be a URL or an expression.
pub open spec fn first_arg_message(name: Seq<char>, fa: Seq<char>, shape: Seq<u8>) -> Option<
    Seq<char>,
> {
    if fa.len() == 0 {
        Some(
            "SSE action '"@ + name + "' requires a URL argument, e.g., "@ + name
                + "('/api/endpoint')"@,
        )
    } else if !url_shape(shape) && !expression_shape(shape) {
        Some(
            "SSE action '"@ + name
                + "' URL should start with '/' or be a string/expression, got: "@ + fa,
        )
    } else {
        None
    }
}

/// The message, if any, on the trimmed first argument `first_arg` of an SSE
/// action, where `shape_text` is that argument trimmed once more.
pub fn first_argument_message(action_name: &str, first_arg: &str, shape_text: &str) -> (r: Option<
    String,
>)
    ensures
        r.is_some() == first_arg_message(action_name@, first_arg@, bytes_of(shape_text)).is_some(),
        r.is_some() ==> r.unwrap()@ == first_arg_message(
            action_name@,
            first_arg@,
            bytes_of(shape_text),
        ).unwrap(),
{
    if first_arg.is_empty() {
        let mut message = String::from_str("SSE action '");
        message.append(action_name);
        message.append("' requires a URL argument, e.g., ");
        message.append(action_name);
        message.append("('/api/endpoint')");
        Some(message)
    } else if !url_shaped(shape_text) && !expression_shaped(shape_text) {
        let mut message = String::from_str("SSE action '");
        message.append(action_name);
        message.append("' URL should start with '/' or be a string/expression, got: ");
        message.append(first_arg);
        Some(message)
    } else {
        None
    }
}

/// The findings of the action scan of value bytes `v` from offset `i` on.
pub open spec fn action_diags(v: Seq<u8>, i: int, a: ParsedAttribute<'_>) -> Seq<DiagView>
    decreases v.len() - i,
    via action_diags_decreases
{
    if i < 0 || i >= v.len() {
        seq![]
    } else if v[i] != 0x40 {
        action_diags(v, i + 1, a)
    } else {
        let e = first_where(v, not_letter(), i + 1);
        let nb = v.subrange(i, e);
        let name = decode_utf8(nb);
        if e - i <= 1 {
            action_diags(v, e, a)
        } else if !sse_action(nb) && !pro_action(nb) {
            let hint = match similar_action(name) {
                Some(s) => seq![
                    action_finding(
                        "Unknown action '"@ + name + "'. Did you mean '"@ + s@ + "'?"@,
                        a,
                    ),
                ],
                None => seq![],
            };
            hint + action_diags(v, e, a)
        } else {
            let p = first_where(v, not_blank(), e);
            if p >= v.len() || v[p] != 0x28 {
                seq![
                    action_finding(
                        "Action '"@ + name + "' requires parentheses, e.g., "@ + name
                            + "('/path')"@,
                        a,
                    ),
                ] + action_diags(v, p, a)
            } else {
                let c = paren_scan(v, p + 1, 1).0;
                let d = paren_scan(v, p + 1, 1).1;
                if d != 0 {
                    seq![
                        action_finding("Unclosed parentheses in '"@ + name + "' call"@, a),
                    ] + action_diags(v, c, a)
                } else if sse_action(nb) {
                    url_findings(v.subrange(p + 1, c - 1), name, a) + action_diags(v, c, a)
                } else {
                    action_diags(v, c, a)
                }
            }
        }
    }
}

#[via_fn]
pub proof fn action_diags_decreases(v: Seq<u8>, i: int, a: ParsedAttribute<'_>) {
    if 0 <= i < v.len() {
        lemma_first_where(v, not_letter(), i + 1);
        let e = first_where(v, not_letter(), i + 1);
        lemma_first_where(v, not_blank(), e);
        let p = first_where(v, not_blank(), e);
        if p < v.len() {
            lemma_paren_scan(v, p + 1, 1);
        }
    }
}

/// The findings of the action check for one attribute.
pub open spec fn action_one(a: ParsedAttribute<'_>) -> Seq<DiagView> {
    if !is_prefix(bytes_of("data-"), bytes_of(a.name)) {
        seq![]
    } else {
        match a.value {
            Some(v) => action_diags(bytes_of(v), 0, a),
            None => seq![],
        }
    }
}

/// The action check, attribute by attribute.
pub open spec fn action_f<'a>() -> spec_fn(ParsedAttribute<'a>) -> Seq<DiagView> {
    |a: ParsedAttribute<'a>| action_one(a)
}

/// Check action syntax in Datastar expressions.
pub fn check_actions(tag: &ParsedTag<'_>, diags: &mut Diagnostics)
    ensures
        diag_views(final(diags)@) == diag_views(old(diags)@) + concat_map(tag.attributes@, action_f()),
{
    proof {
        lemma_concat_map_empty(tag.attributes@, action_f(), diag_views(diags@));
    }
    let mut k: usize = 0;
    while k < tag.attributes.len()
        invariant
            k <= tag.attributes.len(),
            diag_views(diags@) == diag_views(old(diags)@) + concat_map(
                tag.attributes@.subrange(0, k as int),
                action_f(),
            ),
        decreases tag.attributes.len() - k,
    {
        let attr = &tag.attributes[k];
        proof {
            lemma_concat_map_step(tag.attributes@, action_f(), k as int);
        }
        k += 1;
        if !is_datastar_attr(attr.name) {
            continue;
        }
        if let Some(value) = attr.value {
            check_action_syntax(value, attr, diags);
        }
    }
    proof {
        assert(tag.attributes@.subrange(0, k as int) =~= tag.attributes@);
    }
}

fn push_action_diag(diags: &mut Diagnostics, message: String, attr: &ParsedAttribute<'_>)
    ensures
        diag_views(final(diags)@) == diag_views(old(diags)@) + seq![
            action_finding(message@, *attr),
        ],
{
    let start = match attr.value_start {
        Some(s) => s,
        None => attr.name_start,
    };
    let end = match attr.value_end {
        Some(e) => e,
        None => attr.name_end,
    };
    push_diag(diags, "datastar/action-syntax", message, start, end);
}

/// Check the arguments of an SSE action whose parentheses balance.
fn check_url_argument(args: &str, action_name: &str, attr: &ParsedAttribute<'_>, diags: &mut Diagnostics)
    ensures
        diag_views(final(diags)@) == diag_views(old(diags)@) + url_findings(
            bytes_of(args),
            action_name@,
            *attr,
        ),
{
    let ab = args.as_bytes();
    let comma = find_comma(ab, 0);
    proof {
        lemma_first_where(ab@, is_comma(), 0);
        vstd::utf8::is_char_boundary_start_end_of_seq(ab@);
        lemma_boundary_at(ab@, comma as int);
    }
    let first = slice_str(args, 0, comma);
    let first_arg = trim_str(first);
    let shape_text = trim_str(first_arg);
    if let Some(message) = first_argument_message(action_name, first_arg, shape_text) {
        push_action_diag(diags, message, attr);
    }
}

/// Check action syntax in a value expression.
fn check_action_syntax(value: &str, attr: &ParsedAttribute<'_>, diags: &mut Diagnostics)
    ensures
        diag_views(final(diags)@) == diag_views(old(diags)@) + action_diags(
            bytes_of(value),
            0,
            *attr,
        ),
{
    let bytes = value.as_bytes();
    let n = bytes.len();
    let ghost v = bytes@;
    let mut i: usize = 0;
    while i < n
        invariant
            v == bytes@,
            v == bytes_of(value),
            n == v.len(),
            i <= n,
            diag_views(old(diags)@) + action_diags(v, 0, *attr) == diag_views(diags@)
                + action_diags(v, i as int, *attr),
        decreases n - i,
    {
        if bytes[i] != 0x40 {
            i += 1;
            continue;
        }
        // Extract action name
        let action_start = i;
        let e = name_end(bytes, i + 1);
        proof {
            lemma_first_where(v, not_letter(), i + 1);
        }
        i = e;
        if e - action_start <= 1 {
            // Just @ without name
            continue;
        }
        proof {
            lemma_ascii_boundary(v, action_start as int);
            lemma_ascii_boundary(v, e - 1);
        }
        let action_name = slice_str(value, action_start, e);
        let is_sse = str_eq(action_name, "@get") || str_eq(action_name, "@post") || str_eq(
            action_name,
            "@patch",
        ) || str_eq(action_name, "@put") || str_eq(action_name, "@delete");
        let is_pro = str_eq(action_name, "@clipboard") || str_eq(action_name, "@fit");
        if !is_sse && !is_pro {
            // Unknown action - could be a typo
            if let Some(suggestion) = find_similar_action(action_name) {
                let mut message = String::from_str("Unknown action '");
                message.append(action_name);
                message.append("'. Did you mean '");
                message.append(suggestion);
                message.append("'?");
                push_action_diag(diags, message, attr);
            }
            continue;
        }
        // Skip spaces
        let p = skip_blanks(bytes, e);
        proof {
            lemma_first_where(v, not_blank(), e as int);
        }
        i = p;
        // Check for parentheses
        if p >= n || bytes[p] != 0x28 {
            let mut message = String::from_str("Action '");
            message.append(action_name);
            message.append("' requires parentheses, e.g., ");
            message.append(action_name);
            message.append("('/path')");
            push_action_diag(diags, message, attr);
            continue;
        }
        // Find matching closing paren
        let (c, depth) = scan_parens(bytes, p + 1);
        proof {
            lemma_paren_scan(v, p + 1, 1);
        }
        i = c;
        if depth != 0 {
            let mut message = String::from_str("Unclosed parentheses in '");
            message.append(action_name);
            message.append("' call");
            push_action_diag(diags, message, attr);
            continue;
        }
        // For SSE actions, check that the first argument looks like a URL
        if is_sse {
            proof {
                lemma_ascii_boundary(v, p as int);
                lemma_ascii_boundary(v, c - 1);
            }
            let args = slice_str(value, p + 1, c - 1);
            check_url_argument(args, action_name, attr, diags);
        }
    }
    proof {
        assert(action_diags(v, i as int, *attr) == Seq::<DiagView>::empty());
        assert(diag_views(diags@) + Seq::<DiagView>::empty() =~= diag_views(diags@));
    }
}

} // verus!
