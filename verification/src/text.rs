//! Character-level text facts shared by the parsers: Unicode whitespace,
//! trimming, whitespace tokenizing and prefix tests over `Seq<char>`.

use vstd::prelude::*;
use vstd::string::*;

verus! {

/// The Unicode `White_Space` property, the set that `char::is_whitespace` tests.
pub open spec fn is_ws(c: char) -> bool {
    let u = c as u32;
    (0x09 <= u && u <= 0x0d) || u == 0x20 || u == 0x85 || u == 0xa0 || u == 0x1680
        || (0x2000 <= u && u <= 0x200a) || u == 0x2028 || u == 0x2029 || u == 0x202f
        || u == 0x205f || u == 0x3000
}

/// `s` with its leading whitespace removed.
pub open spec fn trim_start(s: Seq<char>) -> Seq<char>
    decreases s.len(),
{
    if s.len() > 0 && is_ws(s[0]) {
        trim_start(s.drop_first())
    } else {
        s
    }
}

/// `s` with its trailing whitespace removed.
pub open spec fn trim_end(s: Seq<char>) -> Seq<char>
    decreases s.len(),
{
    if s.len() > 0 && is_ws(s.last()) {
        trim_end(s.drop_last())
    } else {
        s
    }
}

/// `s` with whitespace removed from both ends, as `str::trim` does.
pub open spec fn trim(s: Seq<char>) -> Seq<char> {
    trim_end(trim_start(s))
}

proof fn lemma_trim_start_cut(s: Seq<char>) -> (a: int)
    ensures
        0 <= a <= s.len(),
        trim_start(s) == s.skip(a),
        forall|i: int| 0 <= i < a ==> is_ws(#[trigger] s[i]),
        a < s.len() ==> !is_ws(s[a]),
    decreases s.len(),
{
    if s.len() > 0 && is_ws(s[0]) {
        let a1 = lemma_trim_start_cut(s.drop_first());
        assert(s.drop_first().skip(a1) =~= s.skip(a1 + 1));
        assert forall|i: int| 0 <= i < a1 + 1 implies is_ws(#[trigger] s[i]) by {
            if i > 0 {
                assert(s[i] == s.drop_first()[i - 1]);
            }
        }
        a1 + 1
    } else {
        assert(s.skip(0) =~= s);
        0
    }
}

proof fn lemma_trim_end_cut(s: Seq<char>) -> (b: int)
    ensures
        0 <= b <= s.len(),
        trim_end(s) == s.take(b),
        forall|i: int| b <= i < s.len() ==> is_ws(#[trigger] s[i]),
        b > 0 ==> !is_ws(s[b - 1]),
    decreases s.len(),
{
    if s.len() > 0 && is_ws(s.last()) {
        let b1 = lemma_trim_end_cut(s.drop_last());
        assert(s.drop_last().take(b1) =~= s.take(b1));
        assert forall|i: int| b1 <= i < s.len() implies is_ws(#[trigger] s[i]) by {
            if i < s.len() - 1 {
                assert(s[i] == s.drop_last()[i]);
            }
        }
        b1
    } else {
        assert(s.take(s.len() as int) =~= s);
        s.len() as int
    }
}

/// Trimming removes exactly the whitespace at both ends: the result is the part
/// `a..b` of `s`, everything before `a` and from `b` on is whitespace, and the
/// result neither starts nor ends with whitespace. The result of the law is `(a, b)`.
pub proof fn law_trim_cuts_outer_whitespace(s: Seq<char>) -> (r: (int, int))
    ensures
        0 <= r.0 <= r.1 <= s.len(),
        trim(s) == s.subrange(r.0, r.1),
        forall|i: int| 0 <= i < r.0 ==> is_ws(#[trigger] s[i]),
        forall|i: int| r.1 <= i < s.len() ==> is_ws(#[trigger] s[i]),
        r.0 < r.1 ==> !is_ws(s[r.0]) && !is_ws(s[r.1 - 1]),
{
    let a = lemma_trim_start_cut(s);
    let t = s.skip(a);
    let b = lemma_trim_end_cut(t);
    assert(t.take(b) =~= s.subrange(a, a + b));
    assert forall|i: int| a + b <= i < s.len() implies is_ws(#[trigger] s[i]) by {
        assert(s[i] == t[i - a]);
    }
    if b > 0 {
        assert(s[a] == t[0]);
        assert(s[a + b - 1] == t[b - 1]);
        if a == s.len() {
            assert(false);
        }
    }
    (a, a + b)
}

/// Whether `c` is whitespace.
pub fn is_whitespace(c: char) -> (r: bool)
    ensures
        r == is_ws(c),
{
    let u = c as u32;
    (0x09 <= u && u <= 0x0d) || u == 0x20 || u == 0x85 || u == 0xa0 || u == 0x1680
        || (0x2000 <= u && u <= 0x200a) || u == 0x2028 || u == 0x2029 || u == 0x202f
        || u == 0x205f || u == 0x3000
}

/// The characters of `s`, one per element.
pub fn chars_of(s: &str) -> (v: Vec<char>)
    ensures
        v@ == s@,
{
    let mut v: Vec<char> = Vec::new();
    for c in it: s.chars()
        invariant
            v@ == it.seq().take(it.index() as int),
    {
        v.push(c);
    }
    v
}


/// The characters of `c` from `lo` up to `hi`.
pub open spec fn span(c: Seq<char>, lo: int, hi: int) -> Seq<char> {
    c.subrange(lo, hi)
}

/// Bounds `(a, b)` of `trim` of the span `lo..hi` of `c`.
pub fn trim_span(c: &Vec<char>, lo: usize, hi: usize) -> (r: (usize, usize))
    requires
        lo <= hi <= c.len(),
    ensures
        lo <= r.0 <= r.1 <= hi,
        span(c@, r.0 as int, r.1 as int) == trim(span(c@, lo as int, hi as int)),
{
    let mut a = lo;
    while a < hi && is_whitespace(c[a])
        invariant
            lo <= a <= hi <= c.len(),
            trim_start(span(c@, lo as int, hi as int)) == trim_start(span(c@, a as int, hi as int)),
        decreases hi - a,
    {
        assert(span(c@, a as int, hi as int).drop_first() =~= span(c@, a + 1, hi as int));
        a = a + 1;
    }
    assert(trim_start(span(c@, a as int, hi as int)) == span(c@, a as int, hi as int));
    let mut b = hi;
    while b > a && is_whitespace(c[b - 1])
        invariant
            lo <= a <= b <= hi <= c.len(),
            trim_end(span(c@, a as int, hi as int)) == trim_end(span(c@, a as int, b as int)),
        decreases b - a,
    {
        assert(span(c@, a as int, b as int).drop_last() =~= span(c@, a as int, b - 1));
        b = b - 1;
    }
    (a, b)
}


/// The whitespace-separated tokens of `s`, as `str::split_whitespace` yields them:
/// a token starts at a non-whitespace character that follows whitespace or the
/// start of `s`, and runs up to the next whitespace.
pub open spec fn split_ws(s: Seq<char>) -> Seq<Seq<char>>
    decreases s.len(),
{
    if s.len() == 0 {
        Seq::empty()
    } else {
        let p = split_ws(s.drop_last());
        let ch = s.last();
        if is_ws(ch) {
            p
        } else if s.len() >= 2 && !is_ws(s[s.len() - 2]) {
            p.update(p.len() - 1, p.last().push(ch))
        } else {
            p.push(seq![ch])
        }
    }
}

/// `s` splits into the tokens `toks` starting at the positions `starts`: each
/// token is a non-empty run of non-whitespace characters of `s`, preceded by
/// whitespace or the start of `s` and followed by whitespace or its end; the
/// tokens come in order, and every non-whitespace character of `s` lies in one.
pub open spec fn tokens_at(s: Seq<char>, toks: Seq<Seq<char>>, starts: Seq<int>) -> bool {
    &&& starts.len() == toks.len()
    &&& forall|k: int|
        #![trigger toks[k]]
        0 <= k < toks.len() ==> {
            &&& toks[k].len() > 0
            &&& 0 <= starts[k]
            &&& starts[k] + toks[k].len() <= s.len()
            &&& s.subrange(starts[k], starts[k] + toks[k].len()) == toks[k]
            &&& forall|j: int| 0 <= j < toks[k].len() ==> !is_ws(#[trigger] toks[k][j])
            &&& (starts[k] == 0 || is_ws(s[starts[k] - 1]))
            &&& (starts[k] + toks[k].len() == s.len() || is_ws(s[starts[k] + toks[k].len()]))
        }
    &&& forall|k: int|
        #![trigger starts[k]]
        0 <= k && k + 1 < toks.len() ==> starts[k] + toks[k].len() < starts[k + 1]
    &&& forall|i: int|
        #![trigger s[i]]
        0 <= i < s.len() && !is_ws(s[i]) ==> exists|k: int|
            #![trigger starts[k]]
            0 <= k < toks.len() && starts[k] <= i < starts[k] + toks[k].len()
}

/// The tokens that `split_ws` yields are exactly the maximal runs of
/// non-whitespace characters of `s`, in order. The result of the law is where
/// each token starts in `s`.
pub proof fn law_split_ws_gives_maximal_runs(s: Seq<char>) -> (starts: Seq<int>)
    ensures
        tokens_at(s, split_ws(s), starts),
    decreases s.len(),
{
    if s.len() == 0 {
        Seq::empty()
    } else {
        let s1 = s.drop_last();
        let st1 = law_split_ws_gives_maximal_runs(s1);
        let p = split_ws(s1);
        let ch = s.last();
        let n = s.len() as int;
        assert forall|a: int, b: int| 0 <= a <= b <= n - 1 implies s.subrange(a, b) == s1.subrange(a, b) by {
            assert(s.subrange(a, b) =~= s1.subrange(a, b));
        }
        if is_ws(ch) {
            assert forall|i: int| #![trigger s[i]] 0 <= i < s.len() && !is_ws(s[i]) implies exists|k: int|
                #![trigger st1[k]]
                0 <= k < p.len() && st1[k] <= i < st1[k] + p[k].len() by {
                assert(s1[i] == s[i]);
            }
            assert forall|k: int| #![trigger p[k]] 0 <= k < p.len() implies (st1[k] + p[k].len() == s.len()
                || is_ws(s[st1[k] + p[k].len()])) by {
                if st1[k] + p[k].len() < n - 1 {
                    assert(s[st1[k] + p[k].len()] == s1[st1[k] + p[k].len()]);
                }
            }
            assert forall|k: int| #![trigger p[k]] 0 <= k < p.len() implies (st1[k] == 0 || is_ws(
                s[st1[k] - 1],
            )) by {
                assert(p[k].len() > 0);
                if st1[k] > 0 {
                    assert(s[st1[k] - 1] == s1[st1[k] - 1]);
                }
            }
            st1
        } else if s.len() >= 2 && !is_ws(s[s.len() - 2]) {
            assert(s1[n - 2] == s[n - 2]);
            let k0 = choose|k: int| #![trigger st1[k]] 0 <= k < p.len() && st1[k] <= n - 2 < st1[k] + p[k].len();
            let last = p.len() - 1;
            assert(p[k0].len() > 0);
            assert(st1[k0] + p[k0].len() == n - 1);
            if k0 < last {
                assert(st1[k0] + p[k0].len() < st1[k0 + 1]);
                assert(p[k0 + 1].len() > 0);
                assert(false);
            }
            let t = p[last].push(ch);
            let q = p.update(last, t);
            assert(split_ws(s) == q);
            assert(s.subrange(st1[last], n) =~= s1.subrange(st1[last], n - 1).push(ch));
            assert forall|k: int| #![trigger q[k]] 0 <= k < q.len() implies {
                &&& q[k].len() > 0
                &&& 0 <= st1[k]
                &&& st1[k] + q[k].len() <= s.len()
                &&& s.subrange(st1[k], st1[k] + q[k].len()) == q[k]
                &&& forall|j: int| 0 <= j < q[k].len() ==> !is_ws(#[trigger] q[k][j])
                &&& (st1[k] == 0 || is_ws(s[st1[k] - 1]))
                &&& (st1[k] + q[k].len() == s.len() || is_ws(s[st1[k] + q[k].len()]))
            } by {
                assert(p[k].len() > 0);
                if k < last {
                    assert(q[k] == p[k]);
                    assert(st1[k] + p[k].len() < st1[k + 1]);
                    if k + 1 < last {
                        assert(st1[k + 1] + p[k + 1].len() < st1[k + 2]);
                    }
                    assert(p[k + 1].len() > 0);
                    assert(s[st1[k] + q[k].len()] == s1[st1[k] + p[k].len()]);
                } else {
                    assert forall|j: int| 0 <= j < q[k].len() implies !is_ws(#[trigger] q[k][j]) by {
                        if j < p[k].len() {
                            assert(q[k][j] == p[k][j]);
                        }
                    }
                }
                if st1[k] > 0 {
                    assert(s[st1[k] - 1] == s1[st1[k] - 1]);
                }
            }
            assert forall|k: int| #![trigger st1[k]] 0 <= k && k + 1 < q.len() implies st1[k] + q[k].len()
                < st1[k + 1] by {
                assert(p[k].len() > 0);
                assert(st1[k] + p[k].len() < st1[k + 1]);
            }
            assert forall|i: int| #![trigger s[i]] 0 <= i < s.len() && !is_ws(s[i]) implies exists|k: int|
                #![trigger st1[k]]
                0 <= k < q.len() && st1[k] <= i < st1[k] + q[k].len() by {
                if i < n - 1 {
                    assert(s1[i] == s[i]);
                    let k = choose|k: int| #![trigger st1[k]] 0 <= k < p.len() && st1[k] <= i < st1[k] + p[k].len();
                    assert(q[k].len() >= p[k].len());
                } else {
                    assert(st1[last] <= i < st1[last] + q[last].len());
                }
            }
            st1
        } else {
            let q = p.push(seq![ch]);
            let st = st1.push(n - 1);
            assert(split_ws(s) == q);
            assert(s.subrange(n - 1, n) =~= seq![ch]);
            assert forall|k: int| #![trigger q[k]] 0 <= k < q.len() implies {
                &&& q[k].len() > 0
                &&& 0 <= st[k]
                &&& st[k] + q[k].len() <= s.len()
                &&& s.subrange(st[k], st[k] + q[k].len()) == q[k]
                &&& forall|j: int| 0 <= j < q[k].len() ==> !is_ws(#[trigger] q[k][j])
                &&& (st[k] == 0 || is_ws(s[st[k] - 1]))
                &&& (st[k] + q[k].len() == s.len() || is_ws(s[st[k] + q[k].len()]))
            } by {
                if k < p.len() {
                    assert(q[k] == p[k] && st[k] == st1[k]);
                    assert(p[k].len() > 0);
                    if st1[k] + p[k].len() == n - 1 {
                        assert(s1.subrange(st1[k], st1[k] + p[k].len())[p[k].len() - 1] == p[k][p[k].len() - 1]);
                        assert(!is_ws(p[k][p[k].len() - 1]));
                        assert(s[n - 2] == s1[n - 2]);
                        assert(false);
                    } else {
                        assert(s[st1[k] + q[k].len()] == s1[st1[k] + p[k].len()]);
                    }
                    if st1[k] > 0 {
                        assert(s[st1[k] - 1] == s1[st1[k] - 1]);
                    }
                }
            }
            assert forall|k: int| #![trigger st[k]] 0 <= k && k + 1 < q.len() implies st[k] + q[k].len()
                < st[k + 1] by {
                assert(q[k] == p[k] && st[k] == st1[k]);
                assert(p[k].len() > 0);
                if k + 1 < p.len() {
                    assert(st1[k] + p[k].len() < st1[k + 1]);
                } else {
                    assert(st[k + 1] == n - 1);
                    if st1[k] + p[k].len() == n - 1 {
                        assert(s1.subrange(st1[k], st1[k] + p[k].len())[p[k].len() - 1] == p[k][p[k].len() - 1]);
                        assert(!is_ws(p[k][p[k].len() - 1]));
                        assert(s[n - 2] == s1[n - 2]);
                        assert(false);
                    }
                }
            }
            assert forall|i: int| #![trigger s[i]] 0 <= i < s.len() && !is_ws(s[i]) implies exists|k: int|
                #![trigger st[k]]
                0 <= k < q.len() && st[k] <= i < st[k] + q[k].len() by {
                if i < n - 1 {
                    assert(s1[i] == s[i]);
                    let k = choose|k: int| #![trigger st1[k]] 0 <= k < p.len() && st1[k] <= i < st1[k] + p[k].len();
                    assert(st[k] == st1[k] && q[k] == p[k]);
                } else {
                    assert(st[q.len() - 1] == n - 1);
                }
            }
            st
        }
    }
}

/// The texts that the index pairs `t` cut out of `c`.
pub open spec fn spans(c: Seq<char>, t: Seq<(usize, usize)>) -> Seq<Seq<char>> {
    Seq::new(t.len(), |i: int| span(c, t[i].0 as int, t[i].1 as int))
}

/// The index pairs of the whitespace-separated tokens of the span `lo..hi` of `c`.
pub fn split_span(c: &Vec<char>, lo: usize, hi: usize) -> (toks: Vec<(usize, usize)>)
    requires
        lo <= hi <= c.len(),
    ensures
        spans(c@, toks@) == split_ws(span(c@, lo as int, hi as int)),
        forall|k: int| 0 <= k < toks.len() ==> lo <= #[trigger] toks@[k].0 < toks@[k].1 <= hi,
{
    let mut toks: Vec<(usize, usize)> = Vec::new();
    let mut in_tok = false;
    let mut start = lo;
    let mut i = lo;
    while i < hi
        invariant
            lo <= start <= i <= hi <= c.len(),
            in_tok ==> start < i,
            in_tok == (i > lo && !is_ws(c@[i - 1])),
            in_tok ==> spans(c@, toks@).push(span(c@, start as int, i as int)) == split_ws(
                span(c@, lo as int, i as int),
            ),
            !in_tok ==> spans(c@, toks@) == split_ws(span(c@, lo as int, i as int)),
            forall|k: int| 0 <= k < toks.len() ==> lo <= #[trigger] toks@[k].0 < toks@[k].1 <= i,
        decreases hi - i,
    {
        let ch = c[i];
        let ghost pre = span(c@, lo as int, i as int);
        let ghost post = span(c@, lo as int, i + 1);
        assert(post.drop_last() =~= pre);
        assert(post.last() == ch);
        if is_whitespace(ch) {
            if in_tok {
                let ghost old_toks = toks@;
                toks.push((start, i));
                assert(spans(c@, toks@) =~= spans(c@, old_toks).push(span(c@, start as int, i as int)));
                in_tok = false;
            }
        } else {
            if in_tok {
                assert(post.len() >= 2 && post[post.len() - 2] == c@[i - 1]);
                assert(span(c@, start as int, i as int).push(ch) =~= span(c@, start as int, i + 1));
                let ghost p = spans(c@, toks@).push(span(c@, start as int, i as int));
                assert(p.update(p.len() - 1, p.last().push(ch)) =~= spans(c@, toks@).push(
                    span(c@, start as int, i + 1),
                ));
            } else {
                assert(post.len() >= 2 ==> post[post.len() - 2] == c@[i - 1]);
                assert(span(c@, i as int, i + 1) =~= seq![ch]);
                start = i;
                in_tok = true;
            }
        }
        i = i + 1;
    }
    if in_tok {
        let ghost old_toks = toks@;
        toks.push((start, hi));
        assert(spans(c@, toks@) =~= spans(c@, old_toks).push(span(c@, start as int, hi as int)));
    }
    toks
}


/// `s` begins with `w`.
pub open spec fn starts_with(s: Seq<char>, w: Seq<char>) -> bool {
    w.len() <= s.len() && s.take(w.len() as int) == w
}

/// Whether the span `lo..hi` of `c` spells `w`.
pub fn span_eq(c: &Vec<char>, lo: usize, hi: usize, w: &str) -> (r: bool)
    requires
        lo <= hi <= c.len(),
    ensures
        r == (span(c@, lo as int, hi as int) == w@),
{
    let n = w.unicode_len();
    if hi - lo != n {
        return false;
    }
    let mut i: usize = 0;
    while i < n
        invariant
            lo <= hi <= c.len(),
            hi - lo == n == w@.len(),
            i <= n,
            forall|j: int| 0 <= j < i ==> #[trigger] span(c@, lo as int, hi as int)[j] == w@[j],
        decreases n - i,
    {
        assert(span(c@, lo as int, hi as int)[i as int] == c@[lo + i]);
        if c[lo + i] != w.get_char(i) {
            return false;
        }
        i = i + 1;
    }
    assert(span(c@, lo as int, hi as int) =~= w@);
    true
}

/// Whether the span `lo..hi` of `c` begins with `w`.
pub fn span_starts_with(c: &Vec<char>, lo: usize, hi: usize, w: &str) -> (r: bool)
    requires
        lo <= hi <= c.len(),
    ensures
        r == starts_with(span(c@, lo as int, hi as int), w@),
{
    let n = w.unicode_len();
    if hi - lo < n {
        return false;
    }
    let r = span_eq(c, lo, lo + n, w);
    assert(span(c@, lo as int, hi as int).take(n as int) =~= span(c@, lo as int, lo + n));
    r
}

/// The index of the first `'\n'` at or after `from` in `c`, or the length of `c`.
pub open spec fn next_newline(c: Seq<char>, from: int) -> int
    decreases c.len() - from,
{
    if from >= c.len() || c[from] == '\n' {
        from
    } else {
        next_newline(c, from + 1)
    }
}

pub proof fn lemma_next_newline_bounds(c: Seq<char>, from: int)
    requires
        0 <= from,
    ensures
        from <= next_newline(c, from),
        from <= c.len() ==> next_newline(c, from) <= c.len(),
        next_newline(c, from) < c.len() ==> c[next_newline(c, from)] == '\n',
    decreases c.len() - from,
{
    if from < c.len() && c[from] != '\n' {
        lemma_next_newline_bounds(c, from + 1);
    }
}

/// The end of the line that starts at `from`.
pub fn line_end(c: &Vec<char>, from: usize) -> (e: usize)
    requires
        from <= c.len(),
    ensures
        e == next_newline(c@, from as int),
        from <= e <= c.len(),
{
    let mut e = from;
    while e < c.len() && c[e] != '\n'
        invariant
            from <= e <= c.len(),
            next_newline(c@, e as int) == next_newline(c@, from as int),
        decreases c.len() - e,
    {
        e = e + 1;
    }
    e
}

/// A `String` holding the characters `lo..hi` of `s`.
pub fn substring(s: &str, lo: usize, hi: usize) -> (r: String)
    requires
        lo <= hi <= s@.len(),
    ensures
        r@ == s@.subrange(lo as int, hi as int),
{
    String::from_str(s.substring_char(lo, hi))
}


/// What `str::to_lowercase` returns for a text: each character replaced by its
/// Unicode lower-case mapping, which can be more than one character.
pub uninterp spec fn lowercase(s: Seq<char>) -> Seq<char>;

/// Every character of `s` is ASCII.
pub open spec fn is_ascii_text(s: Seq<char>) -> bool {
    forall|i: int| 0 <= i < s.len() ==> (#[trigger] s[i] as u32) < 128
}

/// An ASCII character in lower case: `A`..`Z` become `a`..`z`, all else stays.
pub open spec fn ascii_lower_char(c: char) -> char {
    if 0x41 <= (c as u32) && (c as u32) <= 0x5a {
        ((c as u32) + 32) as char
    } else {
        c
    }
}

/// `s` with its ASCII upper-case letters lowered.
pub open spec fn ascii_lower(s: Seq<char>) -> Seq<char> {
    s.map_values(|c: char| ascii_lower_char(c))
}

/// `str::to_lowercase`. Its result depends on `s` alone, through the Unicode
/// case tables of the standard library, and is named, not stated. What is
/// stated beside the name: on ASCII text (the empty text among it) each
/// letter `A`..`Z` becomes `a`..`z` and every other character stays, since
/// those are the Unicode lower-case mappings of ASCII characters. Non-ASCII
/// text is left to the name.
#[verifier::external_body]
pub(crate) fn to_lowercase(s: &str) -> (r: String)
    ensures
        r@ == lowercase(s@),
        is_ascii_text(s@) ==> r@ == ascii_lower(s@),
{
    s.to_lowercase()
}

/// `needle` occurs in `hay` as a run of consecutive characters.
pub open spec fn contains_seq(hay: Seq<char>, needle: Seq<char>) -> bool {
    exists|i: int| 0 <= i <= hay.len() - needle.len() && #[trigger] hay.subrange(i, i + needle.len()) == needle
}

/// Whether `needle` occurs in `hay` (`str::contains` with a `&str` pattern).
pub fn contains_chars(hay: &Vec<char>, needle: &Vec<char>) -> (r: bool)
    ensures
        r == contains_seq(hay@, needle@),
{
    let n = needle.len();
    if n > hay.len() {
        assert forall|i: int| 0 <= i <= hay@.len() - needle@.len() implies #[trigger] hay@.subrange(
            i,
            i + needle@.len(),
        ) != needle@ by {}
        return false;
    }
    let last = hay.len() - n;
    let mut i: usize = 0;
    while i <= last
        invariant
            n == needle.len() <= hay.len(),
            last == hay.len() - n,
            forall|k: int| 0 <= k < i ==> #[trigger] hay@.subrange(k, k + n) != needle@,
        decreases last + 1 - i,
    {
        let mut j: usize = 0;
        while j < n && hay[i + j] == needle[j]
            invariant
                n == needle.len() <= hay.len(),
                i <= last == hay.len() - n,
                j <= n,
                forall|k: int| 0 <= k < j ==> hay@[i + k] == needle@[k],
            decreases n - j,
        {
            j = j + 1;
        }
        if j == n {
            assert(hay@.subrange(i as int, i + n) =~= needle@);
            return true;
        }
        assert(hay@.subrange(i as int, i + n)[j as int] != needle@[j as int]);
        i = i + 1;
    }
    false
}


/// Whether `a` and `b` hold the same characters.
pub fn chars_eq(a: &Vec<char>, b: &Vec<char>) -> (r: bool)
    ensures
        r == (a@ == b@),
{
    if a.len() != b.len() {
        return false;
    }
    let mut i: usize = 0;
    while i < a.len()
        invariant
            a.len() == b.len(),
            i <= a.len(),
            forall|k: int| 0 <= k < i ==> a@[k] == b@[k],
        decreases a.len() - i,
    {
        if a[i] != b[i] {
            return false;
        }
        i = i + 1;
    }
    assert(a@ =~= b@);
    true
}

} // verus!
