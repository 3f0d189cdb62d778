//! Recognizing the text that Rust's float parser accepts, on bytes.
//!
//! The grammar is `Sign? ( "inf" | "infinity" | "nan" | Number )`, with the
//! words matched without regard to case, where
//! `Number ::= ( Digit+ | Digit+ "." Digit* | Digit* "." Digit+ ) Exp?` and
//! `Exp ::= ("e" | "E") Sign? Digit+`.

use vstd::prelude::*;

verus! {

pub open spec fn digit(b: u8) -> bool {
    0x30 <= b <= 0x39
}

pub open spec fn sign(b: u8) -> bool {
    b == 0x2b || b == 0x2d
}

pub open spec fn all_digits(s: Seq<u8>) -> bool {
    forall|j: int| 0 <= j < s.len() ==> digit(#[trigger] s[j])
}

/// Offset of the first byte at or after `i` that `f` accepts, or the length.
pub open spec fn first_where(s: Seq<u8>, f: spec_fn(u8) -> bool, i: int) -> int
    decreases s.len() - i,
{
    if i >= s.len() {
        s.len() as int
    } else if f(s[i]) {
        i
    } else {
        first_where(s, f, i + 1)
    }
}

pub open spec fn is_dot() -> spec_fn(u8) -> bool {
    |b: u8| b == 0x2e
}

pub open spec fn is_exp() -> spec_fn(u8) -> bool {
    |b: u8| b == 0x65 || b == 0x45
}

pub open spec fn ascii_lower(b: u8) -> u8 {
    if 0x41 <= b <= 0x5a {
        (b + 0x20) as u8
    } else {
        b
    }
}

pub open spec fn lower_bytes(s: Seq<u8>) -> Seq<u8> {
    s.map_values(|b: u8| ascii_lower(b))
}

/// `inf`, `infinity` or `nan`, in any case.
pub open spec fn special_word(s: Seq<u8>) -> bool {
    let l = lower_bytes(s);
    l == seq![0x69u8, 0x6e, 0x66] || l == seq![0x69u8, 0x6e, 0x66, 0x69, 0x6e, 0x69, 0x74, 0x79]
        || l == seq![0x6eu8, 0x61, 0x6e]
}

/// Digits with at most one `.`, and at least one digit.
pub open spec fn mantissa(m: Seq<u8>) -> bool {
    let d = first_where(m, is_dot(), 0);
    if d >= m.len() {
        m.len() > 0 && all_digits(m)
    } else {
        all_digits(m.subrange(0, d)) && all_digits(m.subrange(d + 1, m.len() as int)) && m.len() > 1
    }
}

/// A signed or unsigned run of one or more digits.
pub open spec fn exponent(x: Seq<u8>) -> bool {
    let y = if x.len() > 0 && sign(x[0]) {
        x.subrange(1, x.len() as int)
    } else {
        x
    };
    y.len() > 0 && all_digits(y)
}

/// A float without its sign.
pub open spec fn unsigned_float(t: Seq<u8>) -> bool {
    let e = first_where(t, is_exp(), 0);
    special_word(t) || (mantissa(t.subrange(0, e)) && (e >= t.len() || exponent(
        t.subrange(e + 1, t.len() as int),
    )))
}

/// The text is accepted by Rust's float parser.
pub open spec fn float_text(s: Seq<u8>) -> bool {
    if s.len() > 0 && sign(s[0]) {
        unsigned_float(s.subrange(1, s.len() as int))
    } else {
        unsigned_float(s)
    }
}

/// Where a search stops: at an accepted byte, or at the end.
pub proof fn lemma_first_where(s: Seq<u8>, f: spec_fn(u8) -> bool, i: int)
    requires
        0 <= i <= s.len(),
    ensures
        i <= first_where(s, f, i) <= s.len(),
        first_where(s, f, i) < s.len() ==> f(s[first_where(s, f, i)]),
        forall|j: int| i <= j < first_where(s, f, i) ==> !f(#[trigger] s[j]),
    decreases s.len() - i,
{
    if i < s.len() && !f(s[i]) {
        lemma_first_where(s, f, i + 1);
    }
}

/// The first offset at or after `i` that `f` accepts is the one where a run
/// of rejected bytes from `i` stops.
pub proof fn lemma_first_where_unique(s: Seq<u8>, f: spec_fn(u8) -> bool, i: int, r: int)
    requires
        0 <= i <= r <= s.len(),
        forall|j: int| i <= j < r ==> !f(#[trigger] s[j]),
        r < s.len() ==> f(s[r]),
    ensures
        first_where(s, f, i) == r,
    decreases r - i,
{
    if i < r {
        lemma_first_where_unique(s, f, i + 1, r);
    }
}

fn digits_in(s: &[u8], a: usize, b: usize) -> (r: bool)
    requires
        a <= b <= s@.len(),
    ensures
        r == all_digits(s@.subrange(a as int, b as int)),
{
    let mut k = a;
    while k < b
        invariant
            a <= k <= b <= s@.len(),
            forall|j: int| a <= j < k ==> digit(#[trigger] s@[j]),
        decreases b - k,
    {
        if !(0x30 <= s[k] && s[k] <= 0x39) {
            proof {
                assert(!digit(s@.subrange(a as int, b as int)[k - a]));
            }
            return false;
        }
        k += 1;
    }
    proof {
        assert forall|j: int| 0 <= j < b - a implies digit(
            #[trigger] s@.subrange(a as int, b as int)[j],
        ) by {
            assert(s@.subrange(a as int, b as int)[j] == s@[a + j]);
        }
    }
    true
}

pub(crate) fn find_in(s: &[u8], a: usize, b: usize, dot: bool) -> (r: usize)
    requires
        a <= b <= s@.len(),
    ensures
        r == a + first_where(
            s@.subrange(a as int, b as int),
            if dot {
                is_dot()
            } else {
                is_exp()
            },
            0,
        ),
{
    let ghost t = s@.subrange(a as int, b as int);
    let ghost f = if dot {
        is_dot()
    } else {
        is_exp()
    };
    let mut k = a;
    while k < b
        invariant
            a <= k <= b <= s@.len(),
            t == s@.subrange(a as int, b as int),
            first_where(t, f, 0) == first_where(t, f, k - a),
            f == (if dot {
                is_dot()
            } else {
                is_exp()
            }),
        decreases b - k,
    {
        let hit = if dot {
            s[k] == 0x2e
        } else {
            s[k] == 0x65 || s[k] == 0x45
        };
        proof {
            assert(t[k - a] == s@[k as int]);
        }
        if hit {
            return k;
        }
        k += 1;
    }
    k
}

fn lower(b: u8) -> (r: u8)
    ensures
        r == ascii_lower(b),
{
    if 0x41 <= b && b <= 0x5a {
        b + 0x20
    } else {
        b
    }
}

fn special_in(s: &[u8], a: usize, b: usize) -> (r: bool)
    requires
        a <= b <= s@.len(),
    ensures
        r == special_word(s@.subrange(a as int, b as int)),
{
    let ghost t = s@.subrange(a as int, b as int);
    let ghost l = lower_bytes(t);
    proof {
        assert(l.len() == b - a);
        assert forall|j: int| 0 <= j < b - a implies l[j] == ascii_lower(#[trigger] s@[a + j]) by {
            assert(t[j] == s@[a + j]);
        }
    }
    let n = b - a;
    if n == 3 {
        let c0 = lower(s[a]);
        let c1 = lower(s[a + 1]);
        let c2 = lower(s[a + 2]);
        proof {
            assert(l[0] == c0 && l[1] == c1 && l[2] == c2);
            if c0 == 0x69 && c1 == 0x6e && c2 == 0x66 {
                assert(l =~= seq![0x69u8, 0x6e, 0x66]);
            }
            if c0 == 0x6e && c1 == 0x61 && c2 == 0x6e {
                assert(l =~= seq![0x6eu8, 0x61, 0x6e]);
            }
        }
        (c0 == 0x69 && c1 == 0x6e && c2 == 0x66) || (c0 == 0x6e && c1 == 0x61 && c2 == 0x6e)
    } else if n == 8 {
        let c0 = lower(s[a]);
        let c1 = lower(s[a + 1]);
        let c2 = lower(s[a + 2]);
        let c3 = lower(s[a + 3]);
        let c4 = lower(s[a + 4]);
        let c5 = lower(s[a + 5]);
        let c6 = lower(s[a + 6]);
        let c7 = lower(s[a + 7]);
        let r = c0 == 0x69 && c1 == 0x6e && c2 == 0x66 && c3 == 0x69 && c4 == 0x6e && c5 == 0x69
            && c6 == 0x74 && c7 == 0x79;
        proof {
            assert(l[0] == c0 && l[1] == c1 && l[2] == c2 && l[3] == c3);
            assert(l[4] == c4 && l[5] == c5 && l[6] == c6 && l[7] == c7);
            if r {
                assert(l =~= seq![0x69u8, 0x6e, 0x66, 0x69, 0x6e, 0x69, 0x74, 0x79]);
            }
        }
        r
    } else {
        false
    }
}

/// Whether `s` is accepted by Rust's float parser.
pub fn is_float_text(s: &[u8]) -> (r: bool)
    ensures
        r == float_text(s@),
{
    let n = s.len();
    let a: usize = if n > 0 && (s[0] == 0x2b || s[0] == 0x2d) {
        1
    } else {
        0
    };
    let ghost t = s@.subrange(a as int, n as int);
    proof {
        if a == 0 {
            assert(t =~= s@);
        }
    }
    if special_in(s, a, n) {
        return true;
    }
    let e = find_in(s, a, n, false);
    proof {
        lemma_first_where(t, is_exp(), 0);
        assert(t.subrange(0, e - a) =~= s@.subrange(a as int, e as int));
    }
    // mantissa in [a, e)
    let d = find_in(s, a, e, true);
    let ghost m = s@.subrange(a as int, e as int);
    proof {
        lemma_first_where(m, is_dot(), 0);
    }
    let mant = if d >= e {
        e > a && digits_in(s, a, e)
    } else {
        proof {
            assert(m.subrange(0, d - a) =~= s@.subrange(a as int, d as int));
            assert(m.subrange(d - a + 1, m.len() as int) =~= s@.subrange(d + 1, e as int));
        }
        digits_in(s, a, d) && digits_in(s, d + 1, e) && e - a > 1
    };
    if !mant {
        return false;
    }
    if e >= n {
        return true;
    }
    proof {
        assert(t.subrange(e - a + 1, t.len() as int) =~= s@.subrange(e + 1, n as int));
    }
    let x = e + 1;
    let y = if x < n && (s[x] == 0x2b || s[x] == 0x2d) {
        proof {
            assert(s@.subrange(x as int, n as int).subrange(1, n - x) =~= s@.subrange(
                x + 1,
                n as int,
            ));
        }
        x + 1
    } else {
        x
    };
    y < n && digits_in(s, y, n)
}

} // verus!
