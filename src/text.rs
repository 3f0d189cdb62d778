//! Byte-level facts about UTF-8 text and slicing of `&str` at byte offsets.

use vstd::prelude::*;
use vstd::utf8::*;
use vstd::string::*;

verus! {

broadcast use vstd::utf8::encode_utf8_valid_utf8;

/// The UTF-8 bytes of a string slice.
pub open spec fn bytes_of(s: &str) -> Seq<u8> {
    s.spec_bytes()
}

/// An ASCII byte is never inside a multi-byte character, so both the offset
/// of that byte and the offset just after it are character boundaries.
pub proof fn lemma_ascii_boundary(b: Seq<u8>, i: int)
    requires
        valid_utf8(b),
        0 <= i < b.len(),
        b[i] < 0x80,
    ensures
        is_char_boundary(b, i),
        is_char_boundary(b, i + 1),
{
    is_char_boundary_iff_not_is_continuation_byte(b, i);
    if i + 1 < b.len() {
        valid_utf8_split(b, i);
        let t = b.subrange(i, b.len() as int);
        assert(t[0] == b[i]);
        let r = pop_first_scalar(t);
        assert(r =~= b.subrange(i + 1, b.len() as int));
        assert(valid_utf8(r));
        is_char_boundary_start_end_of_seq(r);
        is_char_boundary_iff_not_is_continuation_byte(r, 0);
        assert(r[0] == b[i + 1]);
        is_char_boundary_iff_not_is_continuation_byte(b, i + 1);
    } else {
        is_char_boundary_start_end_of_seq(b);
    }
}

/// An offset that is the end of the bytes or holds an ASCII byte is a
/// character boundary.
pub proof fn lemma_boundary_at(b: Seq<u8>, i: int)
    requires
        valid_utf8(b),
        0 <= i <= b.len(),
        i < b.len() ==> b[i] < 0x80,
    ensures
        is_char_boundary(b, i),
{
    if i == b.len() {
        is_char_boundary_start_end_of_seq(b);
    } else {
        lemma_ascii_boundary(b, i);
    }
}

proof fn lemma_boundary_in_tail(b: Seq<u8>, a: int, c: int)
    requires
        valid_utf8(b),
        0 <= a <= c <= b.len(),
        is_char_boundary(b, a),
        is_char_boundary(b, c),
    ensures
        valid_utf8(b.subrange(a, b.len() as int)),
        is_char_boundary(b.subrange(a, b.len() as int), c - a),
{
    valid_utf8_split(b, a);
    let t = b.subrange(a, b.len() as int);
    if c == b.len() {
        is_char_boundary_start_end_of_seq(t);
        assert(t.len() == c - a);
    } else {
        is_char_boundary_iff_not_is_continuation_byte(b, c);
        is_char_boundary_iff_not_is_continuation_byte(t, c - a);
        assert(t[c - a] == b[c]);
    }
}

/// The part of `s` between two byte offsets that are character boundaries.
pub fn slice_str<'a>(s: &'a str, a: usize, c: usize) -> (r: &'a str)
    requires
        a <= c <= bytes_of(s).len(),
        is_char_boundary(bytes_of(s), a as int),
        is_char_boundary(bytes_of(s), c as int),
    ensures
        bytes_of(r) == bytes_of(s).subrange(a as int, c as int),
{
    proof {
        lemma_boundary_in_tail(bytes_of(s), a as int, c as int);
    }
    let (_, tail) = s.split_at(a);
    let (mid, _) = tail.split_at(c - a);
    proof {
        assert(bytes_of(mid) =~= bytes_of(s).subrange(a as int, c as int));
    }
    mid
}

/// `p` is a prefix of `s`.
pub open spec fn is_prefix(p: Seq<u8>, s: Seq<u8>) -> bool {
    p.len() <= s.len() && s.subrange(0, p.len() as int) == p
}

/// `p` is a suffix of `s`.
pub open spec fn is_suffix(p: Seq<u8>, s: Seq<u8>) -> bool {
    p.len() <= s.len() && s.subrange(s.len() - p.len(), s.len() as int) == p
}

/// `s` holds the byte `c`.
pub open spec fn has_byte(s: Seq<u8>, c: u8) -> bool {
    exists|j: int| 0 <= j < s.len() && s[j] == c
}

/// Whether `s` starts with `p`, byte for byte.
pub fn starts_with_str(s: &str, p: &str) -> (r: bool)
    ensures
        r == is_prefix(bytes_of(p), bytes_of(s)),
{
    let sb = s.as_bytes();
    let pb = p.as_bytes();
    if pb.len() > sb.len() {
        return false;
    }
    let mut k: usize = 0;
    while k < pb.len()
        invariant
            sb@ == bytes_of(s),
            pb@ == bytes_of(p),
            pb.len() <= sb.len(),
            k <= pb.len(),
            forall|j: int| 0 <= j < k ==> sb@[j] == pb@[j],
        decreases pb.len() - k,
    {
        if sb[k] != pb[k] {
            proof {
                assert(sb@.subrange(0, pb@.len() as int)[k as int] != pb@[k as int]);
                assert(sb@.subrange(0, pb@.len() as int) != pb@);
            }
            return false;
        }
        k += 1;
    }
    proof {
        assert(sb@.subrange(0, pb@.len() as int) =~= pb@);
    }
    true
}

/// Whether `s` ends with `p`, byte for byte.
pub fn ends_with_str(s: &str, p: &str) -> (r: bool)
    ensures
        r == is_suffix(bytes_of(p), bytes_of(s)),
{
    let sb = s.as_bytes();
    let pb = p.as_bytes();
    if pb.len() > sb.len() {
        return false;
    }
    let off = sb.len() - pb.len();
    let mut k: usize = 0;
    while k < pb.len()
        invariant
            sb@ == bytes_of(s),
            pb@ == bytes_of(p),
            pb.len() <= sb.len(),
            off == sb.len() - pb.len(),
            k <= pb.len(),
            forall|j: int| 0 <= j < k ==> sb@[off + j] == pb@[j],
        decreases pb.len() - k,
    {
        if sb[off + k] != pb[k] {
            proof {
                assert(sb@.subrange(off as int, sb@.len() as int)[k as int] != pb@[k as int]);
                assert(sb@.subrange(off as int, sb@.len() as int) != pb@);
            }
            return false;
        }
        k += 1;
    }
    proof {
        assert(sb@.subrange(off as int, sb@.len() as int) =~= pb@);
    }
    true
}

/// Whether `a` and `b` hold the same bytes.
pub fn str_eq(a: &str, b: &str) -> (r: bool)
    ensures
        r == (bytes_of(a) == bytes_of(b)),
{
    let ab = a.as_bytes();
    let bb = b.as_bytes();
    if ab.len() != bb.len() {
        return false;
    }
    let mut k: usize = 0;
    while k < ab.len()
        invariant
            ab@ == bytes_of(a),
            bb@ == bytes_of(b),
            ab.len() == bb.len(),
            k <= ab.len(),
            forall|j: int| 0 <= j < k ==> ab@[j] == bb@[j],
        decreases ab.len() - k,
    {
        if ab[k] != bb[k] {
            proof {
                assert(ab@[k as int] != bb@[k as int]);
            }
            return false;
        }
        k += 1;
    }
    proof {
        assert(ab@ =~= bb@);
    }
    true
}

/// Whether `s` holds the byte `c`.
pub fn contains_byte(s: &str, c: u8) -> (r: bool)
    ensures
        r == has_byte(bytes_of(s), c),
{
    let sb = s.as_bytes();
    let mut k: usize = 0;
    while k < sb.len()
        invariant
            sb@ == bytes_of(s),
            k <= sb.len(),
            forall|j: int| 0 <= j < k ==> sb@[j] != c,
        decreases sb.len() - k,
    {
        if sb[k] == c {
            proof {
                assert(sb@[k as int] == c);
            }
            return true;
        }
        k += 1;
    }
    false
}

/// What `str::to_lowercase` returns for the given characters.
pub uninterp spec fn lowercase_of(s: Seq<char>) -> Seq<char>;

/// All characters are ASCII.
pub open spec fn ascii_chars(s: Seq<char>) -> bool {
    forall|i: int| 0 <= i < s.len() ==> (#[trigger] s[i] as u32) < 128
}

/// `t` is `s` with `A`-`Z` mapped to `a`-`z` and every other character kept.
pub open spec fn ascii_lowered(s: Seq<char>, t: Seq<char>) -> bool {
    &&& t.len() == s.len()
    &&& forall|i: int|
        0 <= i < s.len() ==> (#[trigger] t[i] as int) == if 65 <= (s[i] as int) <= 90 {
            (s[i] as int) + 32
        } else {
            s[i] as int
        }
}

/// Relies on `str::to_lowercase`: the result depends on the characters alone,
/// and on ASCII text it maps `A`-`Z` to `a`-`z` and keeps every other
/// character.
#[verifier::external_body]
pub(crate) fn to_lower(s: &str) -> (r: String)
    ensures
        r@ == lowercase_of(s@),
        ascii_chars(s@) ==> ascii_lowered(s@, r@),
{
    s.to_lowercase()
}

/// `t` is a contiguous part of `s`.
pub open spec fn contiguous_piece(t: Seq<char>, s: Seq<char>) -> bool {
    exists|i: int, j: int| 0 <= i <= j <= s.len() && t == s.subrange(i, j)
}

/// What `str::trim` returns for the given characters.
pub uninterp spec fn trimmed_of(s: Seq<char>) -> Seq<char>;

/// Relies on `str::trim`: the result depends on the characters alone, and
/// is the part of the input left once characters are removed from its two
/// ends, so empty input stays empty.
#[verifier::external_body]
pub(crate) fn trim_str(s: &str) -> (r: &str)
    ensures
        r@ == trimmed_of(s@),
        contiguous_piece(r@, s@),
{
    s.trim()
}

/// A valid UTF-8 prefix of valid UTF-8 bytes ends on a character boundary.
pub proof fn lemma_prefix_boundary(s: Seq<u8>, p: Seq<u8>)
    requires
        valid_utf8(s),
        valid_utf8(p),
        is_prefix(p, s),
    ensures
        is_char_boundary(s, p.len() as int),
    decreases p.len(),
{
    if p.len() == 0 {
    } else {
        let l = length_of_first_scalar(p);
        assert(s[0] == p[0]);
        assert(l <= p.len()) by {
            reveal_with_fuel(valid_utf8, 1);
        }
        assert(length_of_first_scalar(s) == l);
        let ps = pop_first_scalar(s);
        let pp = pop_first_scalar(p);
        assert(valid_utf8(ps));
        assert(valid_utf8(pp));
        assert(ps.subrange(0, pp.len() as int) =~= pp);
        lemma_prefix_boundary(ps, pp);
    }
}

/// The rest of `s` after a prefix `p` that it starts with.
pub fn strip_prefix_str<'a>(s: &'a str, p: &str) -> (r: &'a str)
    requires
        is_prefix(bytes_of(p), bytes_of(s)),
    ensures
        bytes_of(r) == bytes_of(s).subrange(bytes_of(p).len() as int, bytes_of(s).len() as int),
{
    proof {
        lemma_prefix_boundary(bytes_of(s), bytes_of(p));
        is_char_boundary_start_end_of_seq(bytes_of(s));
    }
    let pl = p.as_bytes().len();
    let sl = s.as_bytes().len();
    slice_str(s, pl, sl)
}

/// `x` occurs in `h` at some offset.
pub open spec fn occurs_in(x: Seq<u8>, h: Seq<u8>) -> bool {
    exists|i: int| 0 <= i && i + x.len() <= h.len() && #[trigger] h.subrange(i, i + x.len()) == x
}

/// Whether `x` occurs in `h`, byte for byte.
pub fn contains_str(h: &str, x: &str) -> (r: bool)
    ensures
        r == occurs_in(bytes_of(x), bytes_of(h)),
{
    let hb = h.as_bytes();
    let xb = x.as_bytes();
    if xb.len() > hb.len() {
        return false;
    }
    let last = hb.len() - xb.len();
    let mut i: usize = 0;
    while i <= last
        invariant
            hb@ == bytes_of(h),
            xb@ == bytes_of(x),
            last == hb.len() - xb.len(),
            xb.len() <= hb.len(),
            forall|j: int| 0 <= j < i ==> #[trigger] hb@.subrange(j, j + xb@.len()) != xb@,
        decreases last + 1 - i,
    {
        let mut k: usize = 0;
        while k < xb.len() && hb[i + k] == xb[k]
            invariant
                i <= last,
                last == hb.len() - xb.len(),
                k <= xb.len(),
                forall|j: int| 0 <= j < k ==> hb@[i + j] == xb@[j],
            decreases xb.len() - k,
        {
            k += 1;
        }
        if k == xb.len() {
            proof {
                assert(hb@.subrange(i as int, i + xb@.len()) =~= xb@);
            }
            return true;
        }
        proof {
            assert(hb@.subrange(i as int, i + xb@.len())[k as int] != xb@[k as int]);
        }
        i += 1;
    }
    proof {
        assert forall|j: int| 0 <= j && j + xb@.len() <= hb@.len() implies #[trigger] hb@.subrange(
            j,
            j + xb@.len(),
        ) != xb@ by {
            assert(j < i);
        }
    }
    false
}

} // verus!
