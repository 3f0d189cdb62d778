//! Tokenizing HTML into tags and attributes, and splitting attribute names
//! into a base name and modifiers.

use vstd::prelude::*;
use vstd::utf8::*;
use crate::number::{first_where, lemma_first_where, lemma_first_where_unique};
use crate::text::{bytes_of, is_prefix, lemma_ascii_boundary, lemma_boundary_at, slice_str, starts_with_str};

verus! {

broadcast use vstd::utf8::encode_utf8_valid_utf8;

/// Parsed HTML attribute with position information.
#[derive(Debug, Clone, Copy)]
pub struct ParsedAttribute<'a> {
    /// Attribute name (e.g., "data-show", "data-on:click")
    pub name: &'a str,
    /// Attribute value if present
    pub value: Option<&'a str>,
    /// Byte offset of attribute name start
    pub name_start: usize,
    /// Byte offset of attribute name end
    pub name_end: usize,
    /// Byte offset of value start (if present)
    pub value_start: Option<usize>,
    /// Byte offset of value end (if present)
    pub value_end: Option<usize>,
}

/// Parsed HTML tag with its attributes.
#[derive(Debug)]
pub struct ParsedTag<'a> {
    /// Tag name (e.g., "div", "button", "template")
    pub name: &'a str,
    /// Parsed attributes
    pub attributes: Vec<ParsedAttribute<'a>>,
}

/// Whitespace bytes: space, newline, tab, carriage return and form feed.
pub open spec fn space_byte(b: u8) -> bool {
    b == 0x20 || b == 0x0a || b == 0x09 || b == 0x0d || b == 0x0c
}

/// Bytes of a tag name: ASCII letters and digits, `-`, `:` and `_`.
pub open spec fn tag_name_byte(b: u8) -> bool {
    (0x61 <= b <= 0x7a) || (0x41 <= b <= 0x5a) || (0x30 <= b <= 0x39) || b == 0x2d || b == 0x3a
        || b == 0x5f
}

/// Bytes that end an attribute name: whitespace, `=`, `>` and `/`.
pub open spec fn attr_name_stop(b: u8) -> bool {
    space_byte(b) || b == 0x3d || b == 0x3e || b == 0x2f
}

/// Check if byte is whitespace.
pub fn is_space(b: u8) -> (r: bool)
    ensures
        r == space_byte(b),
{
    b == 0x20 || b == 0x0a || b == 0x09 || b == 0x0d || b == 0x0c
}

/// Check if byte is valid in a tag name.
pub fn is_tag_name_char(b: u8) -> (r: bool)
    ensures
        r == tag_name_byte(b),
{
    (0x61 <= b && b <= 0x7a) || (0x41 <= b && b <= 0x5a) || (0x30 <= b && b <= 0x39) || b == 0x2d
        || b == 0x3a || b == 0x5f
}

/// What the tokenizer guarantees of each attribute it reports: its spans lie
/// inside the source, in order, and the texts are exactly the bytes there.
pub open spec fn attr_well_formed(src: Seq<u8>, a: ParsedAttribute<'_>) -> bool {
    &&& a.name_start < a.name_end <= src.len()
    &&& bytes_of(a.name) == src.subrange(a.name_start as int, a.name_end as int)
    &&& forall|j: int| a.name_start <= j < a.name_end ==> !attr_name_stop(#[trigger] src[j])
    &&& a.value.is_some() == a.value_start.is_some()
    &&& a.value.is_some() == a.value_end.is_some()
    &&& a.value.is_some() ==> {
        &&& a.name_end <= a.value_start.unwrap() <= a.value_end.unwrap() <= src.len()
        &&& bytes_of(a.value.unwrap()) == src.subrange(
            a.value_start.unwrap() as int,
            a.value_end.unwrap() as int,
        )
    }
}

/// What the tokenizer guarantees of each tag it reports.
pub open spec fn tag_well_formed(src: Seq<u8>, t: ParsedTag<'_>) -> bool {
    &&& bytes_of(t.name).len() > 0
    &&& forall|j: int| 0 <= j < bytes_of(t.name).len() ==> tag_name_byte(#[trigger] bytes_of(t.name)[j])
    &&& forall|k: int| 0 <= k < t.attributes.len() ==> attr_well_formed(src, #[trigger] t.attributes@[k])
}

fn skip_spaces(b: &[u8], i: usize) -> (r: usize)
    requires
        i <= b@.len(),
        valid_utf8(b@),
        is_char_boundary(b@, i as int),
    ensures
        i <= r <= b@.len(),
        r < b@.len() ==> !space_byte(b@[r as int]),
        forall|j: int| i <= j < r ==> space_byte(#[trigger] b@[j]),
        is_char_boundary(b@, r as int),
        r == first_where(b@, not_space(), i as int),
{
    let mut k = i;
    while k < b.len() && is_space(b[k])
        invariant
            i <= k <= b@.len(),
            forall|j: int| i <= j < k ==> space_byte(#[trigger] b@[j]),
            valid_utf8(b@),
            is_char_boundary(b@, k as int),
        decreases b@.len() - k,
    {
        proof {
            lemma_ascii_boundary(b@, k as int);
        }
        k += 1;
    }
    proof {
        lemma_first_where_unique(b@, not_space(), i as int, k as int);
    }
    k
}

/// Offset of the first `-->` at or after `from`.
fn find_comment_end(b: &[u8], from: usize) -> (r: Option<usize>)
    requires
        from <= b@.len(),
    ensures
        r matches Some(p) ==> p == comment_close(b@, from as int) && from <= p && p + 3 <= b@.len(),
        r is None ==> comment_close(b@, from as int) + 3 > b@.len(),
{
    let mut k = from;
    while 3 <= b.len() - k
        invariant
            from <= k <= b@.len(),
            comment_close(b@, from as int) == comment_close(b@, k as int),
        decreases b@.len() - k,
    {
        if b[k] == 0x2d && b[k + 1] == 0x2d && b[k + 2] == 0x3e {
            return Some(k);
        }
        k += 1;
    }
    None
}

/// Offset of the first byte `c` at or after `from`.
fn find_byte(b: &[u8], from: usize, c: u8) -> (r: Option<usize>)
    requires
        from <= b@.len(),
    ensures
        r matches Some(p) ==> p == first_where(b@, byte_is(c), from as int) && from <= p < b@.len(),
        r is None ==> first_where(b@, byte_is(c), from as int) >= b@.len(),
{
    let mut k = from;
    while k < b.len()
        invariant
            from <= k <= b@.len(),
            first_where(b@, byte_is(c), from as int) == first_where(b@, byte_is(c), k as int),
        decreases b@.len() - k,
    {
        if b[k] == c {
            return Some(k);
        }
        k += 1;
    }
    None
}

/// Where an attribute and its value lie in the source.
pub struct AttrSpan {
    pub name_start: int,
    pub name_end: int,
    /// The span of the value, when an `=` was followed by one
    pub value: Option<(int, int)>,
}

/// Where a tag's name lies in the source, and its attributes.
pub struct TagSpan {
    pub name_start: int,
    pub name_end: int,
    pub attrs: Seq<AttrSpan>,
}

pub open spec fn not_space() -> spec_fn(u8) -> bool {
    |b: u8| !space_byte(b)
}

pub open spec fn not_tag_name() -> spec_fn(u8) -> bool {
    |b: u8| !tag_name_byte(b)
}

pub open spec fn attr_stop() -> spec_fn(u8) -> bool {
    |b: u8| attr_name_stop(b)
}

pub open spec fn value_stop() -> spec_fn(u8) -> bool {
    |b: u8| space_byte(b) || b == 0x3e
}

pub open spec fn byte_is(c: u8) -> spec_fn(u8) -> bool {
    |b: u8| b == c
}

/// Offset of the first `-->` at or after `j`, or the length when there is none.
pub open spec fn comment_close(v: Seq<u8>, j: int) -> int
    decreases v.len() - j,
{
    if j < 0 || j + 3 > v.len() {
        v.len() as int
    } else if v[j] == 0x2d && v[j + 1] == 0x2d && v[j + 2] == 0x3e {
        j
    } else {
        comment_close(v, j + 1)
    }
}

/// The value that follows an `=` whose next byte is at `x` (after
/// whitespace): its span, and where the scan goes on.
pub open spec fn scan_value(v: Seq<u8>, x: int) -> (Option<(int, int)>, int) {
    if x >= v.len() {
        (None, x)
    } else if v[x] == 0x22 || v[x] == 0x27 {
        let q = first_where(v, byte_is(v[x]), x + 1);
        (Some((x + 1, q)), if q < v.len() { q + 1 } else { q })
    } else {
        let u = first_where(v, value_stop(), x);
        (Some((x, u)), u)
    }
}

/// The attributes of a tag from offset `idx` on, and the offset just past
/// the tag.
pub open spec fn scan_attrs(v: Seq<u8>, idx: int) -> (Seq<AttrSpan>, int)
    decreases v.len() - idx,
    via scan_attrs_decreases
{
    let k = first_where(v, not_space(), idx);
    if idx < 0 || k >= v.len() {
        (seq![], k)
    } else if v[k] == 0x3e {
        (seq![], k + 1)
    } else if v[k] == 0x2f {
        (seq![], if k + 1 < v.len() && v[k + 1] == 0x3e { k + 2 } else { k + 1 })
    } else {
        let e = first_where(v, attr_stop(), k);
        if e == k {
            scan_attrs(v, k + 1)
        } else {
            let w = first_where(v, not_space(), e);
            let val = if w < v.len() && v[w] == 0x3d {
                scan_value(v, first_where(v, not_space(), w + 1))
            } else {
                (None, w)
            };
            let rest = scan_attrs(v, val.1);
            (seq![AttrSpan { name_start: k, name_end: e, value: val.0 }] + rest.0, rest.1)
        }
    }
}

#[via_fn]
pub proof fn scan_attrs_decreases(v: Seq<u8>, idx: int) {
    if 0 <= idx <= v.len() {
        crate::number::lemma_first_where(v, not_space(), idx);
        let k = first_where(v, not_space(), idx);
        if k < v.len() {
            crate::number::lemma_first_where(v, attr_stop(), k);
            let e = first_where(v, attr_stop(), k);
            crate::number::lemma_first_where(v, not_space(), e);
            let w = first_where(v, not_space(), e);
            if w < v.len() {
                crate::number::lemma_first_where(v, not_space(), w + 1);
                let x = first_where(v, not_space(), w + 1);
                if x < v.len() {
                    crate::number::lemma_first_where(v, byte_is(v[x]), x + 1);
                    crate::number::lemma_first_where(v, value_stop(), x);
                }
            }
        }
    } else if idx > v.len() {
        assert(first_where(v, not_space(), idx) == v.len());
    }
}

/// The tags of the source from offset `i` on.
pub open spec fn scan_tags(v: Seq<u8>, i: int) -> Seq<TagSpan>
    decreases v.len() - i,
    via scan_tags_decreases
{
    if i < 0 || i >= v.len() {
        seq![]
    } else if v[i] != 0x3c {
        scan_tags(v, i + 1)
    } else if i + 3 < v.len() && v[i + 1] == 0x21 && v[i + 2] == 0x2d && v[i + 3] == 0x2d {
        let c = comment_close(v, i + 4);
        if c + 3 <= v.len() {
            scan_tags(v, c + 3)
        } else {
            seq![]
        }
    } else {
        let a = if i + 1 < v.len() && v[i + 1] == 0x2f { i + 2 } else { i + 1 };
        let s = first_where(v, not_space(), a);
        if s < v.len() && (v[s] == 0x21 || v[s] == 0x3f) {
            let g = first_where(v, byte_is(0x3e), s);
            if g < v.len() {
                scan_tags(v, g + 1)
            } else {
                seq![]
            }
        } else {
            let ne = first_where(v, not_tag_name(), s);
            if ne == s {
                scan_tags(v, i + 1)
            } else {
                let at = scan_attrs(v, ne);
                seq![TagSpan { name_start: s, name_end: ne, attrs: at.0 }] + scan_tags(v, at.1)
            }
        }
    }
}

pub proof fn lemma_comment_close(v: Seq<u8>, j: int)
    requires
        0 <= j,
    ensures
        comment_close(v, j) + 3 <= v.len() ==> j <= comment_close(v, j),
    decreases v.len() - j,
{
    if j + 3 <= v.len() && !(v[j] == 0x2d && v[j + 1] == 0x2d && v[j + 2] == 0x3e) {
        lemma_comment_close(v, j + 1);
    }
}

pub proof fn lemma_scan_attrs_end(v: Seq<u8>, idx: int)
    requires
        0 <= idx <= v.len(),
    ensures
        idx <= scan_attrs(v, idx).1 <= v.len(),
    decreases v.len() - idx,
{
    lemma_first_where(v, not_space(), idx);
    let k = first_where(v, not_space(), idx);
    if k < v.len() && v[k] != 0x3e && v[k] != 0x2f {
        lemma_first_where(v, attr_stop(), k);
        let e = first_where(v, attr_stop(), k);
        lemma_first_where(v, not_space(), e);
        let w0 = first_where(v, not_space(), e);
        if w0 < v.len() {
            lemma_first_where(v, not_space(), w0 + 1);
            let x = first_where(v, not_space(), w0 + 1);
            if x < v.len() {
                lemma_first_where(v, byte_is(v[x]), x + 1);
                lemma_first_where(v, value_stop(), x);
            }
        }
        if e == k {
            lemma_scan_attrs_end(v, k + 1);
        } else {
            let w = first_where(v, not_space(), e);
            let val = if w < v.len() && v[w] == 0x3d {
                scan_value(v, first_where(v, not_space(), w + 1))
            } else {
                (None, w)
            };
            if val.1 <= v.len() {
                lemma_scan_attrs_end(v, val.1);
            }
        }
    }
}

#[via_fn]
pub proof fn scan_tags_decreases(v: Seq<u8>, i: int) {
    if 0 <= i < v.len() {
        lemma_comment_close(v, i + 4);
        let a = if i + 1 < v.len() && v[i + 1] == 0x2f { i + 2 } else { i + 1 };
        crate::number::lemma_first_where(v, not_space(), a);
        let s = first_where(v, not_space(), a);
        crate::number::lemma_first_where(v, byte_is(0x3e), s);
        crate::number::lemma_first_where(v, not_tag_name(), s);
        let ne = first_where(v, not_tag_name(), s);
        assert(a <= s <= ne <= v.len());
        lemma_scan_attrs_end(v, ne);
    }
}

/// A reported attribute is the one the scan describes: same spans, and the
/// texts are the bytes at those spans.
pub open spec fn attr_matches(v: Seq<u8>, a: ParsedAttribute<'_>, s: AttrSpan) -> bool {
    &&& a.name_start as int == s.name_start
    &&& a.name_end as int == s.name_end
    &&& bytes_of(a.name) == v.subrange(s.name_start, s.name_end)
    &&& match s.value {
        Some(span) => {
            &&& a.value.is_some() && a.value_start.is_some() && a.value_end.is_some()
            &&& a.value_start.unwrap() as int == span.0
            &&& a.value_end.unwrap() as int == span.1
            &&& bytes_of(a.value.unwrap()) == v.subrange(span.0, span.1)
        },
        None => a.value.is_none() && a.value_start.is_none() && a.value_end.is_none(),
    }
}

/// A reported tag is the one the scan describes.
pub open spec fn tag_matches(v: Seq<u8>, t: ParsedTag<'_>, s: TagSpan) -> bool {
    &&& bytes_of(t.name) == v.subrange(s.name_start, s.name_end)
    &&& t.attributes.len() == s.attrs.len()
    &&& forall|k: int| 0 <= k < s.attrs.len() ==> attr_matches(v, #[trigger] t.attributes@[k], s.attrs[k])
}

/// The tags are, one for one, those that the scan of `v` describes.
pub open spec fn tokenized(v: Seq<u8>, tags: Seq<ParsedTag<'_>>) -> bool {
    &&& tags.len() == scan_tags(v, 0).len()
    &&& forall|k: int| 0 <= k < tags.len() ==> tag_matches(v, #[trigger] tags[k], scan_tags(v, 0)[k])
}

/// Parse all HTML tags from source, yielding tags with their attributes.
///
/// The scan never fails: malformed or truncated markup yields fewer or
/// partial tags. The result is exactly what `scan_tags` describes, and every
/// reported span lies inside the source, with the reported texts exactly
/// the bytes at those spans.
pub fn parse_tags(source: &str) -> (tags: Vec<ParsedTag<'_>>)
    ensures
        tokenized(bytes_of(source), tags@),
        forall|k: int|
            0 <= k < tags.len() ==> tag_well_formed(bytes_of(source), #[trigger] tags@[k]),
{
    let bytes = source.as_bytes();
    let n = bytes.len();
    let ghost src = bytes_of(source);
    let ghost mut done: Seq<TagSpan> = seq![];
    let mut tags: Vec<ParsedTag<'_>> = Vec::new();
    let mut i: usize = 0;
    proof {
        assert(done + scan_tags(src, 0) =~= scan_tags(src, 0));
    }
    while i < n
        invariant
            n == src.len(),
            bytes@ == src,
            src == bytes_of(source),
            valid_utf8(src),
            i <= n,
            done + scan_tags(src, i as int) == scan_tags(src, 0),
            tags.len() == done.len(),
            forall|k: int| 0 <= k < tags.len() ==> tag_matches(src, #[trigger] tags@[k], done[k]),
            forall|k: int| 0 <= k < tags.len() ==> tag_well_formed(src, #[trigger] tags@[k]),
        decreases n - i,
    {
        if bytes[i] != 0x3c {
            i += 1;
            continue;
        }
        // Skip HTML comments
        if n - i > 3 && bytes[i + 1] == 0x21 && bytes[i + 2] == 0x2d && bytes[i + 3] == 0x2d {
            match find_comment_end(bytes, i + 4) {
                Some(end) => {
                    i = end + 3;
                },
                None => {
                    // An unterminated comment ends the scan
                    i = n;
                },
            }
            continue;
        }
        proof {
            lemma_ascii_boundary(src, i as int);
        }
        let mut idx: usize = i + 1;
        // Skip closing tag slash
        if idx < n && bytes[idx] == 0x2f {
            proof {
                lemma_ascii_boundary(src, idx as int);
            }
            idx += 1;
        }
        idx = skip_spaces(bytes, idx);
        // Skip DOCTYPE, CDATA, etc.
        if idx < n && (bytes[idx] == 0x21 || bytes[idx] == 0x3f) {
            match find_byte(bytes, idx, 0x3e) {
                Some(end) => {
                    i = end + 1;
                },
                None => {
                    i = n;
                },
            }
            continue;
        }
        // Parse tag name
        let tag_name_start = idx;
        while idx < n && is_tag_name_char(bytes[idx])
            invariant
                n == src.len(),
                bytes@ == src,
                valid_utf8(src),
                tag_name_start <= idx <= n,
                is_char_boundary(src, tag_name_start as int),
                is_char_boundary(src, idx as int),
                forall|j: int| tag_name_start <= j < idx ==> tag_name_byte(#[trigger] src[j]),
            decreases n - idx,
        {
            proof {
                lemma_ascii_boundary(src, idx as int);
            }
            idx += 1;
        }
        proof {
            lemma_first_where_unique(src, not_tag_name(), tag_name_start as int, idx as int);
        }
        if idx == tag_name_start {
            i += 1;
            continue;
        }
        let tag_name = slice_str(source, tag_name_start, idx);
        proof {
            assert forall|j: int| 0 <= j < bytes_of(tag_name).len() implies tag_name_byte(
                #[trigger] bytes_of(tag_name)[j],
            ) by {
                assert(bytes_of(tag_name)[j] == src[tag_name_start + j]);
            }
        }
        let ghost ne = idx as int;
        let mut attributes: Vec<ParsedAttribute<'_>> = Vec::new();
        let ghost mut found: Seq<AttrSpan> = seq![];
        proof {
            assert(found + scan_attrs(src, ne).0 =~= scan_attrs(src, ne).0);
        }
        loop
            invariant_except_break
                is_char_boundary(src, idx as int),
                found + scan_attrs(src, idx as int).0 == scan_attrs(src, ne).0,
                scan_attrs(src, idx as int).1 == scan_attrs(src, ne).1,
            invariant
                n == src.len(),
                bytes@ == src,
                src == bytes_of(source),
                valid_utf8(src),
                i < idx <= n,
                attributes.len() == found.len(),
                forall|k: int|
                    0 <= k < attributes.len() ==> attr_matches(
                        src,
                        #[trigger] attributes@[k],
                        found[k],
                    ),
                forall|k: int|
                    0 <= k < attributes.len() ==> attr_well_formed(src, #[trigger] attributes@[k]),
            ensures
                found == scan_attrs(src, ne).0,
                idx == scan_attrs(src, ne).1,
            decreases n - idx,
        {
            let ghost at = idx as int;
            idx = skip_spaces(bytes, idx);
            if idx >= n {
                break;
            }
            let b = bytes[idx];
            // End of tag
            if b == 0x3e {
                idx += 1;
                break;
            }
            // Self-closing
            if b == 0x2f {
                idx += 1;
                if idx < n && bytes[idx] == 0x3e {
                    idx += 1;
                }
                break;
            }
            // Parse attribute name
            let attr_start = idx;
            while idx < n && !is_space(bytes[idx]) && bytes[idx] != 0x3d && bytes[idx] != 0x3e
                && bytes[idx] != 0x2f
                invariant
                    n == src.len(),
                    bytes@ == src,
                    attr_start <= idx <= n,
                    forall|j: int| attr_start <= j < idx ==> !attr_name_stop(#[trigger] src[j]),
                decreases n - idx,
            {
                idx += 1;
            }
            let attr_end = idx;
            proof {
                lemma_first_where_unique(src, attr_stop(), attr_start as int, attr_end as int);
            }
            if attr_end == attr_start {
                proof {
                    lemma_ascii_boundary(src, idx as int);
                }
                idx += 1;
                continue;
            }
            proof {
                lemma_boundary_at(src, attr_end as int);
            }
            let name = slice_str(source, attr_start, attr_end);
            // Skip whitespace before =
            idx = skip_spaces(bytes, idx);
            let mut value: Option<&str> = None;
            let mut value_start: Option<usize> = None;
            let mut value_end: Option<usize> = None;
            let ghost mut val: (Option<(int, int)>, int) = (None, idx as int);
            if idx < n && bytes[idx] == 0x3d {
                proof {
                    lemma_ascii_boundary(src, idx as int);
                }
                idx += 1;
                // Skip whitespace after =
                idx = skip_spaces(bytes, idx);
                proof {
                    val = (None, idx as int);
                }
                if idx < n {
                    if bytes[idx] == 0x22 || bytes[idx] == 0x27 {
                        let quote = bytes[idx];
                        proof {
                            lemma_ascii_boundary(src, idx as int);
                        }
                        idx += 1;
                        let val_start = idx;
                        while idx < n && bytes[idx] != quote
                            invariant
                                n == src.len(),
                                bytes@ == src,
                                val_start <= idx <= n,
                                forall|j: int| val_start <= j < idx ==> src[j] != quote,
                            decreases n - idx,
                        {
                            idx += 1;
                        }
                        proof {
                            lemma_first_where_unique(src, byte_is(quote), val_start as int, idx as int);
                            lemma_boundary_at(src, idx as int);
                        }
                        value = Some(slice_str(source, val_start, idx));
                        value_start = Some(val_start);
                        value_end = Some(idx);
                        if idx < n && bytes[idx] == quote {
                            proof {
                                lemma_ascii_boundary(src, idx as int);
                            }
                            idx += 1;
                        }
                    } else {
                        // Unquoted value
                        let val_start = idx;
                        while idx < n && !is_space(bytes[idx]) && bytes[idx] != 0x3e
                            invariant
                                n == src.len(),
                                bytes@ == src,
                                val_start <= idx <= n,
                                forall|j: int|
                                    val_start <= j < idx ==> !(space_byte(#[trigger] src[j])
                                        || src[j] == 0x3e),
                            decreases n - idx,
                        {
                            idx += 1;
                        }
                        proof {
                            lemma_first_where_unique(src, value_stop(), val_start as int, idx as int);
                            lemma_boundary_at(src, idx as int);
                        }
                        value = Some(slice_str(source, val_start, idx));
                        value_start = Some(val_start);
                        value_end = Some(idx);
                    }
                    proof {
                        val = (Some((value_start.unwrap() as int, value_end.unwrap() as int)), idx as int);
                    }
                }
            }
            let attr = ParsedAttribute {
                name,
                value,
                name_start: attr_start,
                name_end: attr_end,
                value_start,
                value_end,
            };
            attributes.push(attr);
            proof {
                let sp = AttrSpan {
                    name_start: attr_start as int,
                    name_end: attr_end as int,
                    value: val.0,
                };
                assert(scan_attrs(src, at).0 == seq![sp] + scan_attrs(src, idx as int).0);
                found = found.push(sp);
                assert(found + scan_attrs(src, idx as int).0 =~= scan_attrs(src, ne).0);
            }
        }
        tags.push(ParsedTag { name: tag_name, attributes });
        proof {
            done = done.push(
                TagSpan { name_start: tag_name_start as int, name_end: ne, attrs: found },
            );
        }
        i = idx;
    }
    proof {
        assert(done =~= scan_tags(src, 0));
    }
    tags
}

/// A modifier delimiter `__` starts at offset `i` of `s`.
pub open spec fn delim_at(s: Seq<u8>, i: int) -> bool {
    0 <= i && i + 1 < s.len() && s[i] == 0x5f && s[i + 1] == 0x5f
}

/// Offset of the first modifier delimiter at or after `i`, or the length of
/// `s` when there is none.
pub open spec fn find_delim(s: Seq<u8>, i: int) -> int
    decreases s.len() - i,
{
    if i + 1 >= s.len() {
        s.len() as int
    } else if delim_at(s, i) {
        i
    } else {
        find_delim(s, i + 1)
    }
}

/// Where the search for a delimiter stops.
pub proof fn lemma_find_delim(s: Seq<u8>, i: int)
    requires
        0 <= i,
    ensures
        i <= find_delim(s, i) <= s.len() || (i > s.len() && find_delim(s, i) == s.len()),
        find_delim(s, i) < s.len() ==> delim_at(s, find_delim(s, i)),
        forall|j: int| i <= j < find_delim(s, i) ==> !delim_at(s, j),
    decreases s.len() - i,
{
    if i + 1 < s.len() && !delim_at(s, i) {
        lemma_find_delim(s, i + 1);
    }
}

/// The base name: everything before the first `__`.
pub open spec fn base_of(s: Seq<u8>) -> Seq<u8> {
    s.subrange(0, find_delim(s, 0))
}

/// The modifier tokens of the text that follows a delimiter: up to the next
/// delimiter each, and the rest at the end unless it is empty.
pub open spec fn tokens_of(rest: Seq<u8>) -> Seq<Seq<u8>>
    decreases rest.len(),
    via tokens_of_decreases
{
    let q = find_delim(rest, 0);
    if q >= rest.len() {
        if rest.len() == 0 {
            seq![]
        } else {
            seq![rest]
        }
    } else {
        seq![rest.subrange(0, q)] + tokens_of(rest.subrange(q + 2, rest.len() as int))
    }
}

#[via_fn]
pub proof fn tokens_of_decreases(rest: Seq<u8>) {
    lemma_find_delim(rest, 0);
}

/// The modifiers of an attribute name, in order.
pub open spec fn modifiers_of(s: Seq<u8>) -> Seq<Seq<u8>> {
    let p = find_delim(s, 0);
    if p >= s.len() {
        seq![]
    } else {
        tokens_of(s.subrange(p + 2, s.len() as int))
    }
}

/// Searching a suffix finds what searching the whole finds, shifted.
proof fn lemma_find_delim_shift(s: Seq<u8>, k: int, i: int)
    requires
        0 <= k <= i <= s.len(),
    ensures
        find_delim(s, i) == find_delim(s.subrange(k, s.len() as int), i - k) + k,
    decreases s.len() - i,
{
    let t = s.subrange(k, s.len() as int);
    if i + 1 < s.len() {
        assert(delim_at(s, i) == delim_at(t, i - k));
        if !delim_at(s, i) {
            lemma_find_delim_shift(s, k, i + 1);
        }
    }
}

fn find_delim_exec(b: &[u8], i: usize) -> (r: usize)
    requires
        i <= b@.len(),
    ensures
        r == find_delim(b@, i as int),
{
    let mut j = i;
    while j < b.len() && b.len() - j > 1
        invariant
            i <= j <= b@.len(),
            find_delim(b@, i as int) == find_delim(b@, j as int),
        decreases b@.len() - j,
    {
        if b[j] == 0x5f && b[j + 1] == 0x5f {
            return j;
        }
        j += 1;
    }
    b.len()
}

/// Check if an attribute is a Datastar attribute.
pub fn is_datastar_attr(name: &str) -> (r: bool)
    ensures
        r == is_prefix(bytes_of("data-"), bytes_of(name)),
{
    starts_with_str(name, "data-")
}

/// Extract the base attribute name without modifiers.
/// e.g., "data-on:click__debounce.500ms" -> "data-on:click"
pub fn base_attr_name(name: &str) -> (r: &str)
    ensures
        bytes_of(r) == base_of(bytes_of(name)),
{
    let b = name.as_bytes();
    let pos = find_delim_exec(b, 0);
    proof {
        lemma_find_delim(b@, 0);
    }
    if pos < b.len() {
        proof {
            is_char_boundary_start_end_of_seq(b@);
            lemma_ascii_boundary(b@, pos as int);
        }
        slice_str(name, 0, pos)
    } else {
        proof {
            assert(b@.subrange(0, b@.len() as int) =~= b@);
        }
        name
    }
}

/// The views of a list of slices.
pub open spec fn views_of(v: Seq<&str>) -> Seq<Seq<u8>> {
    v.map_values(|m: &str| bytes_of(m))
}

/// Extract modifiers from attribute name.
/// e.g., "data-on:click__debounce.500ms__once" -> ["debounce.500ms", "once"]
pub fn extract_modifiers(name: &str) -> (r: Vec<&str>)
    ensures
        views_of(r@) == modifiers_of(bytes_of(name)),
{
    let b = name.as_bytes();
    let n = b.len();
    let ghost s = b@;
    let mut modifiers: Vec<&str> = Vec::new();
    let p = find_delim_exec(b, 0);
    proof {
        lemma_find_delim(s, 0);
    }
    if p >= n {
        proof {
            assert(views_of(modifiers@) =~= seq![]);
        }
        return modifiers;
    }
    proof {
        lemma_ascii_boundary(s, p + 1);
    }
    let mut start: usize = p + 2;
    loop
        invariant
            s == b@,
            s == bytes_of(name),
            n == s.len(),
            start <= n,
            is_char_boundary(s, start as int),
            views_of(modifiers@) + tokens_of(s.subrange(start as int, n as int))
                == modifiers_of(s),
        decreases n - start,
    {
        let ghost rest = s.subrange(start as int, n as int);
        let q = find_delim_exec(b, start);
        proof {
            lemma_find_delim(s, start as int);
            lemma_find_delim_shift(s, start as int, start as int);
        }
        if q < n {
            proof {
                lemma_ascii_boundary(s, q as int);
                lemma_ascii_boundary(s, q + 1);
                assert(rest.subrange(0, q - start) =~= s.subrange(start as int, q as int));
                assert(rest.subrange(q - start + 2, rest.len() as int) =~= s.subrange(
                    q + 2,
                    n as int,
                ));
            }
            let m = slice_str(name, start, q);
            let ghost before = modifiers@;
            modifiers.push(m);
            proof {
                assert(views_of(modifiers@) =~= views_of(before) + seq![bytes_of(m)]);
            }
            start = q + 2;
        } else {
            let ghost before = modifiers@;
            if start < n {
                proof {
                    lemma_boundary_at(s, n as int);
                }
                let m = slice_str(name, start, n);
                modifiers.push(m);
                proof {
                    assert(views_of(modifiers@) =~= views_of(before) + seq![bytes_of(m)]);
                }
            } else {
                proof {
                    assert(rest.len() == 0);
                }
            }
            proof {
                assert(views_of(modifiers@) + tokens_of(s.subrange(n as int, n as int))
                    =~= views_of(modifiers@));
            }
            return modifiers;
        }
    }
}

} // verus!
