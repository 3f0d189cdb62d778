//! Laws that relate several functions of the library.

use vstd::prelude::*;
use crate::actions::{
    action_diags, lemma_quote_end, letter, not_blank, not_letter, paren_scan, pro_action,
    quote_byte, quote_end, sse_action, url_findings, action_finding, lemma_paren_scan,
};
use crate::number::{first_where, lemma_first_where_unique};
use crate::helpers::{ParsedAttribute, ParsedTag};
use vstd::utf8::decode_utf8;
use crate::config::DatastarConfig;
use crate::diagnostics::{diag_views, Diagnostic};
use crate::hygiene::tag_diags;
use crate::helpers::{base_of, delim_at, find_delim, lemma_find_delim, modifiers_of, tokens_of};

verus! {

/// The modifier delimiter `__`.
pub open spec fn delim() -> Seq<u8> {
    seq![0x5fu8, 0x5f]
}

/// A base name followed by each modifier, each after a delimiter.
pub open spec fn rejoin(base: Seq<u8>, mods: Seq<Seq<u8>>) -> Seq<u8>
    decreases mods.len(),
{
    if mods.len() == 0 {
        base
    } else {
        rejoin(base, mods.drop_last()) + delim() + mods.last()
    }
}

/// Tokens joined with delimiters between them.
pub open spec fn join_tokens(ts: Seq<Seq<u8>>) -> Seq<u8>
    decreases ts.len(),
{
    if ts.len() == 0 {
        seq![]
    } else if ts.len() == 1 {
        ts[0]
    } else {
        ts[0] + delim() + join_tokens(ts.subrange(1, ts.len() as int))
    }
}

pub open spec fn no_delim(t: Seq<u8>) -> bool {
    forall|j: int| !delim_at(t, j)
}

/// What holds of the tokens that `tokens_of` yields: none holds a
/// delimiter, and all but the last do not end in `_`.
pub open spec fn tokens_ok(ts: Seq<Seq<u8>>) -> bool {
    &&& forall|k: int| 0 <= k < ts.len() ==> no_delim(#[trigger] ts[k])
    &&& forall|k: int|
        0 <= k < ts.len() - 1 ==> (#[trigger] ts[k]).len() == 0 || ts[k].last() != 0x5f
}

/// The last of the tokens, if any, is not empty.
pub open spec fn last_nonempty(ts: Seq<Seq<u8>>) -> bool {
    ts.len() > 0 ==> ts.last().len() > 0
}

proof fn lemma_find_delim_none(s: Seq<u8>, i: int)
    requires
        0 <= i,
        forall|j: int| i <= j ==> !delim_at(s, j),
    ensures
        find_delim(s, i) == s.len() || (i > s.len() && find_delim(s, i) == s.len()),
    decreases s.len() - i,
{
    if i + 1 < s.len() {
        lemma_find_delim_none(s, i + 1);
    }
}

/// A delimiter right after a text that holds none and does not end in `_`
/// is the first delimiter.
proof fn lemma_find_after(t: Seq<u8>, x: Seq<u8>)
    requires
        no_delim(t),
        t.len() == 0 || t.last() != 0x5f,
    ensures
        find_delim(t + delim() + x, 0) == t.len(),
{
    let s = t + delim() + x;
    assert forall|j: int| 0 <= j < t.len() implies !delim_at(s, j) by {
        if j + 1 < t.len() {
            assert(!delim_at(t, j));
            assert(s[j] == t[j] && s[j + 1] == t[j + 1]);
        } else {
            assert(s[j] == t[j]);
            assert(t.last() == t[j]);
        }
    }
    assert(delim_at(s, t.len() as int));
    lemma_find_delim_first(s, 0, t.len() as int);
}

proof fn lemma_find_delim_first(s: Seq<u8>, i: int, p: int)
    requires
        0 <= i <= p,
        delim_at(s, p),
        forall|j: int| i <= j < p ==> !delim_at(s, j),
    ensures
        find_delim(s, i) == p,
    decreases p - i,
{
    if i < p {
        lemma_find_delim_first(s, i + 1, p);
    }
}

proof fn lemma_tokens_ok(rest: Seq<u8>)
    ensures
        tokens_ok(tokens_of(rest)),
    decreases rest.len(),
{
    lemma_find_delim(rest, 0);
    let q = find_delim(rest, 0);
    if q < rest.len() {
        let t = rest.subrange(0, q);
        let tail = rest.subrange(q + 2, rest.len() as int);
        lemma_tokens_ok(tail);
        let ts = tokens_of(rest);
        assert(ts == seq![t] + tokens_of(tail));
        assert(no_delim(t)) by {
            assert forall|j: int| !delim_at(t, j) by {
                if delim_at(t, j) {
                    assert(delim_at(rest, j));
                }
            }
        }
        if t.len() > 0 {
            assert(t.last() == rest[q - 1]);
            assert(!delim_at(rest, q - 1));
        }
        assert forall|k: int| 0 <= k < ts.len() implies no_delim(#[trigger] ts[k]) by {
            if k > 0 {
                assert(ts[k] == tokens_of(tail)[k - 1]);
            }
        }
        assert forall|k: int| 0 <= k < ts.len() - 1 implies (#[trigger] ts[k]).len() == 0
            || ts[k].last() != 0x5f by {
            if k > 0 {
                assert(ts[k] == tokens_of(tail)[k - 1]);
            }
        }
    } else {
        if rest.len() > 0 {
            assert(tokens_of(rest) == seq![rest]);
            assert forall|j: int| !delim_at(rest, j) by {
                if 0 <= j < rest.len() {
                }
            }
            assert(no_delim(tokens_of(rest)[0]));
        } else {
            assert(tokens_of(rest) == Seq::<Seq<u8>>::empty());
        }
    }
}

proof fn lemma_tokens_of_join(ts: Seq<Seq<u8>>)
    requires
        tokens_ok(ts),
        last_nonempty(ts),
    ensures
        tokens_of(join_tokens(ts)) == ts,
    decreases ts.len(),
{
    if ts.len() == 0 {
        assert(tokens_of(seq![]) =~= ts) by {
            lemma_find_delim(Seq::<u8>::empty(), 0);
        }
    } else if ts.len() == 1 {
        let t = ts[0];
        lemma_find_delim_none(t, 0);
        assert(tokens_of(t) =~= ts);
    } else {
        let t = ts[0];
        let more = ts.subrange(1, ts.len() as int);
        assert(tokens_ok(more)) by {
            assert forall|k: int| 0 <= k < more.len() implies no_delim(#[trigger] more[k]) by {
                assert(more[k] == ts[k + 1]);
            }
            assert forall|k: int| 0 <= k < more.len() - 1 implies (#[trigger] more[k]).len() == 0
                || more[k].last() != 0x5f by {
                assert(more[k] == ts[k + 1]);
            }
        }
        lemma_tokens_of_join(more);
        let s = join_tokens(ts);
        assert(s == t + delim() + join_tokens(more));
        lemma_find_after(t, join_tokens(more));
        assert(s.subrange(0, t.len() as int) =~= t);
        assert(s.subrange(t.len() as int + 2, s.len() as int) =~= join_tokens(more));
        assert(tokens_of(s) =~= seq![t] + more);
        assert(seq![t] + more =~= ts);
    }
}

proof fn lemma_rejoin(base: Seq<u8>, ts: Seq<Seq<u8>>)
    requires
        ts.len() > 0,
    ensures
        rejoin(base, ts) == base + delim() + join_tokens(ts),
    decreases ts.len(),
{
    assert(rejoin(base, ts) == rejoin(base, ts.drop_last()) + delim() + ts.last());
    if ts.len() == 1 {
        assert(ts.drop_last() =~= Seq::<Seq<u8>>::empty());
        assert(rejoin(base, ts.drop_last()) == base);
        assert(join_tokens(ts) == ts[0]);
    } else {
        lemma_rejoin(base, ts.drop_last());
        lemma_join_last(ts);
        assert(base + delim() + join_tokens(ts.drop_last()) + delim() + ts.last()
            =~= base + delim() + (join_tokens(ts.drop_last()) + delim() + ts.last()));
    }
}

proof fn lemma_join_last(ts: Seq<Seq<u8>>)
    requires
        ts.len() > 1,
    ensures
        join_tokens(ts) == join_tokens(ts.drop_last()) + delim() + ts.last(),
    decreases ts.len(),
{
    let more = ts.subrange(1, ts.len() as int);
    assert(join_tokens(ts) == ts[0] + delim() + join_tokens(more));
    if ts.len() == 2 {
        assert(ts.drop_last() =~= seq![ts[0]]);
        assert(more =~= seq![ts[1]]);
        assert(join_tokens(ts.drop_last()) == ts[0]);
        assert(join_tokens(more) == ts[1]);
    } else {
        assert(ts.drop_last()[0] == ts[0]);
        lemma_join_last(more);
        assert(more.drop_last() =~= ts.drop_last().subrange(1, ts.len() - 1));
        assert(more.last() == ts.last());
        assert(join_tokens(ts.drop_last()) == ts[0] + delim() + join_tokens(more.drop_last()));
        assert(ts[0] + delim() + (join_tokens(more.drop_last()) + delim() + ts.last()) =~= ts[0]
            + delim() + join_tokens(more.drop_last()) + delim() + ts.last());
    }
}

/// Splitting a name into its base name and modifiers, joining them back with
/// the delimiter, and splitting again gives the same base name and the same
/// modifiers. Names whose last modifier is empty are left out: joining drops
/// that modifier (`a____` splits into `a` and one empty modifier, which
/// joins back to `a__`).
pub proof fn lemma_decomposition_round_trip(n: Seq<u8>)
    requires
        last_nonempty(modifiers_of(n)),
    ensures
        base_of(rejoin(base_of(n), modifiers_of(n))) == base_of(n),
        modifiers_of(rejoin(base_of(n), modifiers_of(n))) == modifiers_of(n),
{
    lemma_find_delim(n, 0);
    let p = find_delim(n, 0);
    let base = base_of(n);
    let ms = modifiers_of(n);
    if p >= n.len() {
        assert(ms.len() == 0);
        assert(n.subrange(0, n.len() as int) =~= n);
    } else {
        let rest = n.subrange(p + 2, n.len() as int);
        lemma_tokens_ok(rest);
        assert(ms == tokens_of(rest));
        assert(no_delim(base)) by {
            assert forall|j: int| !delim_at(base, j) by {
                if delim_at(base, j) {
                    assert(delim_at(n, j));
                }
            }
        }
        if base.len() > 0 {
            assert(base.last() == n[p - 1]);
            assert(!delim_at(n, p - 1));
        }
        if ms.len() == 0 {
            let r = rejoin(base, ms);
            assert(r == base);
            lemma_find_delim_none(base, 0);
            assert(base.subrange(0, base.len() as int) =~= base);
        } else {
            lemma_rejoin(base, ms);
            let j = join_tokens(ms);
            let r = base + delim() + j;
            lemma_find_after(base, j);
            assert(r.subrange(0, base.len() as int) =~= base);
            assert(r.subrange(base.len() as int + 2, r.len() as int) =~= j);
            lemma_tokens_of_join(ms);
        }
    }
}

/// The nesting depth after the text `u` from offset `i` on, from depth `d`,
/// with quoted spans skipped (a backslash escapes the byte after it). None
/// when a `)` has nothing to close or a quote is never closed.
pub open spec fn depth_after(u: Seq<u8>, i: int, d: int) -> Option<int>
    decreases u.len() - i,
    via depth_after_decreases
{
    if i < 0 || i >= u.len() {
        Some(d)
    } else if u[i] == 0x28 {
        depth_after(u, i + 1, d + 1)
    } else if u[i] == 0x29 {
        if d <= 0 {
            None
        } else {
            depth_after(u, i + 1, d - 1)
        }
    } else if quote_byte(u[i]) {
        let j = quote_end(u, i + 1, u[i]);
        if j >= u.len() {
            None
        } else {
            depth_after(u, j + 1, d)
        }
    } else {
        depth_after(u, i + 1, d)
    }
}

#[via_fn]
pub proof fn depth_after_decreases(u: Seq<u8>, i: int, d: int) {
    if 0 <= i < u.len() {
        lemma_quote_end(u, i + 1, u[i]);
    }
}

/// Parentheses that nest and close outside quoted spans, and every quote
/// closed.
pub open spec fn balanced(u: Seq<u8>) -> bool {
    depth_after(u, 0, 0) == Some(0int)
}

proof fn lemma_quote_end_extend(u: Seq<u8>, w: Seq<u8>, k: int, q: u8)
    requires
        0 <= k,
        u.len() <= w.len(),
        w.subrange(0, u.len() as int) == u,
        quote_end(u, k, q) < u.len(),
    ensures
        quote_end(w, k, q) == quote_end(u, k, q),
    decreases u.len() - k,
{
    assert(k < u.len());
    assert(w[k] == w.subrange(0, u.len() as int)[k]);
    if u[k] != q {
        if u[k] == 0x5c && k + 1 < u.len() {
            lemma_quote_end_extend(u, w, k + 2, q);
        } else if u[k] == 0x5c {
            assert(quote_end(u, k + 1, q) == u.len());
        } else {
            lemma_quote_end_extend(u, w, k + 1, q);
        }
    }
}

proof fn lemma_quote_end_restrict(v: Seq<u8>, m: int, k: int, q: u8)
    requires
        0 <= k,
        m <= v.len(),
        quote_end(v, k, q) < m,
    ensures
        quote_end(v.subrange(0, m), k, q) == quote_end(v, k, q),
    decreases v.len() - k,
{
    let u = v.subrange(0, m);
    lemma_quote_end(v, k, q);
    if k < v.len() && v[k] != q {
        assert(u[k] == v[k]);
        if v[k] == 0x5c && k + 1 < v.len() {
            lemma_quote_end(v, k + 2, q);
            lemma_quote_end_restrict(v, m, k + 2, q);
        } else {
            lemma_quote_end(v, k + 1, q);
            lemma_quote_end_restrict(v, m, k + 1, q);
        }
    } else if k < v.len() {
        assert(u[k] == v[k]);
    }
}

proof fn lemma_balanced_from(u: Seq<u8>, w: Seq<u8>, i: int, d: int)
    requires
        0 <= i <= u.len(),
        0 <= d,
        w.len() > u.len(),
        w.subrange(0, u.len() as int) == u,
        w[u.len() as int] == 0x29,
        depth_after(u, i, d) == Some(0int),
    ensures
        paren_scan(w, i, d + 1) == (u.len() as int + 1, 0int),
    decreases u.len() - i,
{
    if i == u.len() {
        assert(d == 0);
        assert(paren_scan(w, i + 1, 0) == (i + 1, 0int));
    } else {
        assert(w[i] == w.subrange(0, u.len() as int)[i]);
        if u[i] == 0x28 {
            lemma_balanced_from(u, w, i + 1, d + 1);
        } else if u[i] == 0x29 {
            lemma_balanced_from(u, w, i + 1, d - 1);
        } else if quote_byte(u[i]) {
            let j = quote_end(u, i + 1, u[i]);
            lemma_quote_end(u, i + 1, u[i]);
            lemma_quote_end_extend(u, w, i + 1, u[i]);
            lemma_balanced_from(u, w, j + 1, d);
        } else {
            lemma_balanced_from(u, w, i + 1, d);
        }
    }
}

/// When the argument text of a call is balanced, the scan for the closing
/// parenthesis stops right after the `)` that follows it, at depth zero: the
/// call is not reported as unclosed.
pub proof fn lemma_balanced_call_closes(u: Seq<u8>, rest: Seq<u8>)
    requires
        balanced(u),
    ensures
        paren_scan(u + seq![0x29u8] + rest, 0, 1) == (u.len() as int + 1, 0int),
{
    let w = u + seq![0x29u8] + rest;
    assert(w.subrange(0, u.len() as int) =~= u);
    lemma_balanced_from(u, w, 0, 0);
}

proof fn lemma_closed_from(v: Seq<u8>, i: int, d: int)
    requires
        0 <= i <= v.len(),
        d >= 1,
        paren_scan(v, i, d).1 == 0,
    ensures
        i < paren_scan(v, i, d).0,
        depth_after(v.subrange(0, paren_scan(v, i, d).0 - 1), i, d - 1) == Some(0int),
    decreases v.len() - i,
{
    let c = paren_scan(v, i, d).0;
    crate::actions::lemma_paren_scan(v, i, d);
    let u = v.subrange(0, c - 1);
    assert(i < v.len());
    if v[i] == 0x28 {
        lemma_closed_from(v, i + 1, d + 1);
        assert(u[i] == v[i]);
    } else if v[i] == 0x29 {
        if d - 1 == 0 {
            assert(paren_scan(v, i + 1, 0) == (i + 1, 0int));
            assert(u.len() == i);
        } else {
            lemma_closed_from(v, i + 1, d - 1);
            assert(u[i] == v[i]);
        }
    } else if quote_byte(v[i]) {
        let j = quote_end(v, i + 1, v[i]);
        lemma_quote_end(v, i + 1, v[i]);
        assert(j < v.len());
        lemma_closed_from(v, j + 1, d);
        assert(u[i] == v[i]);
        lemma_quote_end_restrict(v, c - 1, i + 1, v[i]);
    } else {
        lemma_closed_from(v, i + 1, d);
        assert(u[i] == v[i]);
    }
}

/// The scan reports a call closed only when the text it closed over is
/// balanced; in particular never when a quote in it is left open.
pub proof fn lemma_closed_call_is_balanced(v: Seq<u8>)
    requires
        paren_scan(v, 0, 1).1 == 0,
    ensures
        0 < paren_scan(v, 0, 1).0,
        balanced(v.subrange(0, paren_scan(v, 0, 1).0 - 1)),
{
    lemma_closed_from(v, 0, 1);
}

/// The checks keep no state between runs: what a run on a tag appends
/// depends on the tag and the configuration alone, whatever the list held
/// before, so two runs on the same tag, each on a fresh list, give identical
/// findings.
pub proof fn lemma_checks_repeatable(
    c: DatastarConfig,
    tag: ParsedTag<'_>,
    before1: Seq<Diagnostic>,
    after1: Seq<Diagnostic>,
    before2: Seq<Diagnostic>,
    after2: Seq<Diagnostic>,
)
    requires
        diag_views(after1) == diag_views(before1) + tag_diags(c, tag),
        diag_views(after2) == diag_views(before2) + tag_diags(c, tag),
    ensures
        diag_views(after1).subrange(before1.len() as int, after1.len() as int) == diag_views(
            after2,
        ).subrange(before2.len() as int, after2.len() as int),
        before1.len() == 0 && before2.len() == 0 ==> diag_views(after1) == diag_views(after2),
{
    let f = tag_diags(c, tag);
    assert(diag_views(before1).len() == before1.len());
    assert(diag_views(before2).len() == before2.len());
    assert(diag_views(after1).len() == after1.len());
    assert(diag_views(after2).len() == after2.len());
    assert(diag_views(after1).subrange(before1.len() as int, after1.len() as int) =~= f);
    assert(diag_views(after2).subrange(before2.len() as int, after2.len() as int) =~= f);
    if before1.len() == 0 && before2.len() == 0 {
        assert(diag_views(before1) =~= diag_views(before2));
    }
}

proof fn lemma_quote_end_shift(x: Seq<u8>, y: Seq<u8>, k: int, q: u8)
    requires
        0 <= k <= y.len(),
    ensures
        quote_end(x + y, x.len() + k, q) == x.len() + quote_end(y, k, q),
    decreases y.len() - k,
{
    let v = x + y;
    if k < y.len() {
        assert(v[x.len() + k] == y[k]);
        if y[k] != q {
            if y[k] == 0x5c && k + 1 < y.len() {
                lemma_quote_end_shift(x, y, k + 2, q);
            } else {
                lemma_quote_end_shift(x, y, k + 1, q);
            }
        }
    }
}

proof fn lemma_paren_scan_shift(x: Seq<u8>, y: Seq<u8>, i: int, d: int)
    requires
        0 <= i <= y.len(),
    ensures
        paren_scan(x + y, x.len() + i, d) == (x.len() + paren_scan(y, i, d).0, paren_scan(
            y,
            i,
            d,
        ).1),
    decreases y.len() - i,
{
    let v = x + y;
    if i < y.len() && d > 0 {
        assert(v[x.len() + i] == y[i]);
        if y[i] == 0x28 || y[i] == 0x29 {
            lemma_paren_scan_shift(x, y, i + 1, if y[i] == 0x28 { d + 1 } else { d - 1 });
        } else if quote_byte(y[i]) {
            lemma_quote_end(y, i + 1, y[i]);
            lemma_quote_end_shift(x, y, i + 1, y[i]);
            let j = quote_end(y, i + 1, y[i]);
            if j < y.len() {
                lemma_paren_scan_shift(x, y, j + 1, d);
            }
        } else {
            lemma_paren_scan_shift(x, y, i + 1, d);
        }
    }
}

/// A call `n(u)` of a known action whose argument text `u` is balanced is
/// never reported unclosed: the action check reports on it at most what the
/// check of its URL argument finds, and goes on right after its closing
/// parenthesis.
pub proof fn lemma_balanced_call_not_unclosed(
    n: Seq<u8>,
    u: Seq<u8>,
    rest: Seq<u8>,
    a: ParsedAttribute<'_>,
)
    requires
        n.len() >= 2,
        n[0] == 0x40,
        forall|j: int| 1 <= j < n.len() ==> letter(#[trigger] n[j]),
        sse_action(n) || pro_action(n),
        balanced(u),
    ensures
        action_diags(n + seq![0x28u8] + u + seq![0x29u8] + rest, 0, a) == (if sse_action(n) {
            url_findings(u, decode_utf8(n), a)
        } else {
            seq![]
        }) + action_diags(
            n + seq![0x28u8] + u + seq![0x29u8] + rest,
            n.len() + u.len() + 2int,
            a,
        ),
{
    let x = n + seq![0x28u8];
    let y = u + seq![0x29u8] + rest;
    let v = n + seq![0x28u8] + u + seq![0x29u8] + rest;
    assert(v =~= x + y);
    let e = n.len() as int;
    assert forall|j: int| 1 <= j < e implies !(#[trigger] not_letter()(v[j])) by {
        assert(v[j] == n[j]);
    }
    assert(v[e] == 0x28);
    lemma_first_where_unique(v, not_letter(), 1, e);
    lemma_first_where_unique(v, not_blank(), e, e);
    assert(v.subrange(0, e) =~= n);
    lemma_balanced_call_closes(u, rest);
    lemma_paren_scan_shift(x, y, 0, 1);
    assert(paren_scan(v, e + 1, 1) == (e + 1 + u.len() + 1, 0int));
    assert(v.subrange(e + 1, e + 1 + u.len()) =~= u);
}

/// A call `n(s)` of a known action in which no `)` of the argument text
/// closes a balanced prefix of it (for instance because a quote in it is
/// never closed) is reported as unclosed, and the action check goes on
/// where the scan for its closing parenthesis stopped.
pub proof fn lemma_unbalanced_call_reported(n: Seq<u8>, s: Seq<u8>, a: ParsedAttribute<'_>)
    requires
        n.len() >= 2,
        n[0] == 0x40,
        forall|j: int| 1 <= j < n.len() ==> letter(#[trigger] n[j]),
        sse_action(n) || pro_action(n),
        forall|k: int|
            0 <= k < s.len() && s[k] == 0x29 ==> !balanced(#[trigger] s.subrange(0, k)),
    ensures
        paren_scan(s, 0, 1).1 != 0,
        action_diags(n + seq![0x28u8] + s, 0, a) == seq![
            action_finding("Unclosed parentheses in '"@ + decode_utf8(n) + "' call"@, a),
        ] + action_diags(n + seq![0x28u8] + s, n.len() + 1 + paren_scan(s, 0, 1).0, a),
{
    if paren_scan(s, 0, 1).1 == 0 {
        lemma_closed_call_is_balanced(s);
        lemma_paren_scan(s, 0, 1);
        let c = paren_scan(s, 0, 1).0;
        assert(!balanced(s.subrange(0, c - 1)));
    }
    let x = n + seq![0x28u8];
    let v = x + s;
    let e = n.len() as int;
    assert forall|j: int| 1 <= j < e implies !(#[trigger] not_letter()(v[j])) by {
        assert(v[j] == n[j]);
    }
    assert(v[e] == 0x28);
    lemma_first_where_unique(v, not_letter(), 1, e);
    lemma_first_where_unique(v, not_blank(), e, e);
    assert(v.subrange(0, e) =~= n);
    lemma_paren_scan_shift(x, s, 0, 1);
}

} // verus!
