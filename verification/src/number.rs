//! The text form of the decimal numbers that an AutoEQ profile holds.
//!
//! A profile keeps each number as the exact token that the file gave, once the
//! token is known to be one that `str::parse::<f64>` accepts. The grammar is the
//! one that the standard library documents for `f64::from_str`, matched without
//! regard to ASCII case:
//!
//! ```text
//! Float  ::= Sign? ( 'inf' | 'infinity' | 'nan' | Number )
//! Number ::= ( Digit+ | Digit+ '.' Digit* | Digit* '.' Digit+ ) Exp?
//! Exp    ::= 'e' Sign? Digit+
//! Sign   ::= [+-]
//! Digit  ::= [0-9]
//! ```

use vstd::prelude::*;
use crate::text::span;

verus! {

/// An ASCII decimal digit.
pub open spec fn is_digit(c: char) -> bool {
    0x30 <= (c as u32) && (c as u32) <= 0x39
}

/// A sign character.
pub open spec fn is_sign(c: char) -> bool {
    c == '+' || c == '-'
}

/// The exponent marker, in either case.
pub open spec fn is_exp_marker(c: char) -> bool {
    c == 'e' || c == 'E'
}

/// Every character of `s` is a digit.
pub open spec fn all_digits(s: Seq<char>) -> bool {
    forall|i: int| 0 <= i < s.len() ==> #[trigger] is_digit(s[i])
}

/// `c` is the lower-case letter or digit `l`, or the upper-case form of a letter `l`.
pub open spec fn char_eq_ignore_case(c: char, l: char) -> bool {
    c == l || (0x61 <= (l as u32) && (l as u32) <= 0x7a && (c as u32) + 32 == (l as u32))
}

/// `u` spells the lower-case word `w`, ignoring ASCII case.
pub open spec fn eq_ignore_case(u: Seq<char>, w: Seq<char>) -> bool {
    u.len() == w.len() && forall|i: int| 0 <= i < u.len() ==> #[trigger] char_eq_ignore_case(u[i], w[i])
}

/// `Digit+ | Digit+ '.' Digit* | Digit* '.' Digit+`
pub open spec fn is_mantissa(m: Seq<char>) -> bool {
    ||| (m.len() >= 1 && all_digits(m))
    ||| exists|p: int|
        0 <= p < m.len() && #[trigger] m[p] == '.' && m.len() >= 2 && all_digits(m.take(p))
            && all_digits(m.skip(p + 1))
}

/// What follows the exponent marker: `Sign? Digit+`
pub open spec fn is_exponent(x: Seq<char>) -> bool {
    let d = if x.len() > 0 && is_sign(x[0]) {
        x.drop_first()
    } else {
        x
    };
    d.len() >= 1 && all_digits(d)
}

/// `Number` of the grammar.
pub open spec fn is_decimal(u: Seq<char>) -> bool {
    ||| is_mantissa(u)
    ||| exists|k: int|
        0 <= k < u.len() && #[trigger] is_exp_marker(u[k]) && is_mantissa(u.take(k))
            && is_exponent(u.skip(k + 1))
}

/// `t` is a token that `str::parse::<f64>` accepts.
pub open spec fn is_float_text(t: Seq<char>) -> bool {
    let u = if t.len() > 0 && is_sign(t[0]) {
        t.drop_first()
    } else {
        t
    };
    ||| eq_ignore_case(u, seq!['i', 'n', 'f'])
    ||| eq_ignore_case(u, seq!['i', 'n', 'f', 'i', 'n', 'i', 't', 'y'])
    ||| eq_ignore_case(u, seq!['n', 'a', 'n'])
    ||| is_decimal(u)
}

fn is_digit_char(c: char) -> (r: bool)
    ensures
        r == is_digit(c),
{
    let u = c as u32;
    0x30 <= u && u <= 0x39
}

/// Whether every character of the span `lo..hi` of `c` is a digit.
fn all_digits_span(c: &Vec<char>, lo: usize, hi: usize) -> (r: bool)
    requires
        lo <= hi <= c.len(),
    ensures
        r == all_digits(span(c@, lo as int, hi as int)),
{
    let mut i = lo;
    while i < hi
        invariant
            lo <= i <= hi <= c.len(),
            all_digits(span(c@, lo as int, i as int)) == all_digits(span(c@, lo as int, hi as int))
                || !all_digits(span(c@, lo as int, hi as int)),
            forall|j: int| lo <= j < i ==> is_digit(c@[j]),
        decreases hi - i,
    {
        if !is_digit_char(c[i]) {
            assert(!is_digit(span(c@, lo as int, hi as int)[i - lo]));
            return false;
        }
        i = i + 1;
    }
    assert forall|j: int| 0 <= j < hi - lo implies #[trigger] is_digit(span(c@, lo as int, hi as int)[j]) by {
        assert(span(c@, lo as int, hi as int)[j] == c@[lo + j]);
    }
    true
}

/// The first index in `lo..hi` at which `c` holds a character that `pred`
/// selects, or `hi` when there is none; `pred` is `'.'` when `dot` and the
/// exponent marker otherwise.
fn find_marker(c: &Vec<char>, lo: usize, hi: usize, dot: bool) -> (k: usize)
    requires
        lo <= hi <= c.len(),
    ensures
        lo <= k <= hi,
        k < hi ==> (if dot { c@[k as int] == '.' } else { is_exp_marker(c@[k as int]) }),
        forall|j: int|
            lo <= j < k ==> !(if dot { #[trigger] c@[j] == '.' } else { is_exp_marker(c@[j]) }),
{
    let mut k = lo;
    while k < hi
        invariant
            lo <= k <= hi <= c.len(),
            forall|j: int|
                lo <= j < k ==> !(if dot { #[trigger] c@[j] == '.' } else { is_exp_marker(c@[j]) }),
        decreases hi - k,
    {
        let ch = c[k];
        if dot {
            if ch == '.' {
                return k;
            }
        } else if ch == 'e' || ch == 'E' {
            return k;
        }
        k = k + 1;
    }
    k
}

/// Whether the span `lo..hi` of `c` is a `Digit+ | Digit+ '.' Digit* | Digit* '.' Digit+`.
fn is_mantissa_span(c: &Vec<char>, lo: usize, hi: usize) -> (r: bool)
    requires
        lo <= hi <= c.len(),
    ensures
        r == is_mantissa(span(c@, lo as int, hi as int)),
{
    let ghost m = span(c@, lo as int, hi as int);
    let p = find_marker(c, lo, hi, true);
    if p == hi {
        let r = hi > lo && all_digits_span(c, lo, hi);
        assert forall|q: int| 0 <= q < m.len() implies #[trigger] m[q] != '.' by {
            assert(m[q] == c@[lo + q]);
        }
        r
    } else {
        let before = all_digits_span(c, lo, p);
        let after = all_digits_span(c, p + 1, hi);
        let r = before && after && hi - lo >= 2;
        assert(m.take(p - lo) =~= span(c@, lo as int, p as int));
        assert(m.skip(p - lo + 1) =~= span(c@, p + 1, hi as int));
        assert(m[p - lo] == '.');
        assert(!all_digits(m)) by {
            assert(!is_digit(m[p - lo]));
        }
        if r {
            assert(m[p - lo] == '.');
        } else {
            assert forall|q: int|
                0 <= q < m.len() && #[trigger] m[q] == '.' && m.len() >= 2 && all_digits(m.take(q))
                implies !all_digits(m.skip(q + 1)) by {
                if q < p - lo {
                    assert(m[q] == c@[lo + q]);
                } else if q > p - lo {
                    assert(m.take(q)[p - lo] == '.');
                    assert(!is_digit(m.take(q)[p - lo]));
                }
            }
        }
        r
    }
}

/// Whether the span `lo..hi` of `c` is a `Sign? Digit+`.
fn is_exponent_span(c: &Vec<char>, lo: usize, hi: usize) -> (r: bool)
    requires
        lo <= hi <= c.len(),
    ensures
        r == is_exponent(span(c@, lo as int, hi as int)),
{
    let ghost x = span(c@, lo as int, hi as int);
    if lo < hi && (c[lo] == '+' || c[lo] == '-') {
        assert(x.drop_first() =~= span(c@, lo + 1, hi as int));
        hi > lo + 1 && all_digits_span(c, lo + 1, hi)
    } else {
        hi > lo && all_digits_span(c, lo, hi)
    }
}

/// Whether the span `lo..hi` of `c` spells the lower-case word `w`, ignoring ASCII case.
fn span_eq_ignore_case(c: &Vec<char>, lo: usize, hi: usize, w: &str) -> (r: bool)
    requires
        lo <= hi <= c.len(),
    ensures
        r == eq_ignore_case(span(c@, lo as int, hi as int), w@),
{
    let n = w.unicode_len();
    if hi - lo != n {
        return false;
    }
    let mut i: usize = 0;
    while i < n
        invariant
            lo <= hi <= c.len(),
            hi - lo == n == w@.len(),
            i <= n,
            forall|j: int|
                0 <= j < i ==> #[trigger] char_eq_ignore_case(span(c@, lo as int, hi as int)[j], w@[j]),
        decreases n - i,
    {
        let ch = c[lo + i];
        let l = w.get_char(i);
        let cu = ch as u32;
        let lu = l as u32;
        assert(span(c@, lo as int, hi as int)[i as int] == ch);
        if !(ch == l || (0x61 <= lu && lu <= 0x7a && cu == lu - 32)) {
            assert(!char_eq_ignore_case(span(c@, lo as int, hi as int)[i as int], w@[i as int]));
            return false;
        }
        i = i + 1;
    }
    true
}

/// Whether the span `lo..hi` of `c` is a token that `str::parse::<f64>` accepts.
pub fn is_float_span(c: &Vec<char>, lo: usize, hi: usize) -> (r: bool)
    requires
        lo <= hi <= c.len(),
    ensures
        r == is_float_text(span(c@, lo as int, hi as int)),
{
    let ghost t = span(c@, lo as int, hi as int);
    let s0 = if lo < hi && (c[lo] == '+' || c[lo] == '-') {
        lo + 1
    } else {
        lo
    };
    let ghost u = span(c@, s0 as int, hi as int);
    assert(u =~= (if t.len() > 0 && is_sign(t[0]) { t.drop_first() } else { t }));
    if span_eq_ignore_case(c, s0, hi, "inf") || span_eq_ignore_case(c, s0, hi, "infinity")
        || span_eq_ignore_case(c, s0, hi, "nan") {
        proof {
            reveal_strlit("inf");
            reveal_strlit("infinity");
            reveal_strlit("nan");
            assert("inf"@ =~= seq!['i', 'n', 'f']);
            assert("infinity"@ =~= seq!['i', 'n', 'f', 'i', 'n', 'i', 't', 'y']);
            assert("nan"@ =~= seq!['n', 'a', 'n']);
        }
        return true;
    }
    proof {
        reveal_strlit("inf");
        reveal_strlit("infinity");
        reveal_strlit("nan");
        assert("inf"@ =~= seq!['i', 'n', 'f']);
        assert("infinity"@ =~= seq!['i', 'n', 'f', 'i', 'n', 'i', 't', 'y']);
        assert("nan"@ =~= seq!['n', 'a', 'n']);
    }
    let k = find_marker(c, s0, hi, false);
    if k == hi {
        let r = is_mantissa_span(c, s0, hi);
        assert forall|q: int| 0 <= q < u.len() implies !#[trigger] is_exp_marker(u[q]) by {
            assert(u[q] == c@[s0 + q]);
        }
        r
    } else {
        let r = is_mantissa_span(c, s0, k) && is_exponent_span(c, k + 1, hi);
        assert(u.take(k - s0) =~= span(c@, s0 as int, k as int));
        assert(u.skip(k - s0 + 1) =~= span(c@, k + 1, hi as int));
        assert(is_exp_marker(u[k - s0]));
        assert(!is_mantissa(u)) by {
            assert(!is_digit(u[k - s0]) && u[k - s0] != '.');
            if u.len() >= 1 && all_digits(u) {
                assert(is_digit(u[k - s0]));
            }
            if exists|p: int|
                0 <= p < u.len() && #[trigger] u[p] == '.' && u.len() >= 2 && all_digits(u.take(p))
                    && all_digits(u.skip(p + 1)) {
                let p = choose|p: int|
                    0 <= p < u.len() && #[trigger] u[p] == '.' && u.len() >= 2 && all_digits(
                        u.take(p),
                    ) && all_digits(u.skip(p + 1));
                if p < k - s0 {
                    assert(u.skip(p + 1)[k - s0 - p - 1] == u[k - s0]);
                } else {
                    assert(u.take(p)[k - s0] == u[k - s0]);
                }
            }
        }
        if !r {
            assert forall|q: int|
                0 <= q < u.len() && #[trigger] is_exp_marker(u[q]) && is_mantissa(u.take(q))
                implies !is_exponent(u.skip(q + 1)) by {
                if q < k - s0 {
                    assert(u[q] == c@[s0 + q]);
                } else if q > k - s0 {
                    let m = u.take(q);
                    assert(m[k - s0] == u[k - s0]);
                    assert(!is_digit(m[k - s0]) && m[k - s0] != '.');
                    if m.len() >= 1 && all_digits(m) {
                        assert(is_digit(m[k - s0]));
                    }
                    if exists|p: int|
                        0 <= p < m.len() && #[trigger] m[p] == '.' && m.len() >= 2 && all_digits(
                            m.take(p),
                        ) && all_digits(m.skip(p + 1)) {
                        let p = choose|p: int|
                            0 <= p < m.len() && #[trigger] m[p] == '.' && m.len() >= 2
                                && all_digits(m.take(p)) && all_digits(m.skip(p + 1));
                        if p < k - s0 {
                            assert(m.skip(p + 1)[k - s0 - p - 1] == m[k - s0]);
                        } else {
                            assert(m.take(p)[k - s0] == m[k - s0]);
                        }
                    }
                }
            }
        }
        r
    }
}

} // verus!
