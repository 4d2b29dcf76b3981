//! Recognisers for the textual shapes of list entries.
//!
//! A domain shape is 2 to 200 characters other than a line feed (the body),
//! a dot, and 2 to 6 lower-case ASCII letters (the top-level label). A host
//! entry is an address of four dot-separated runs of one to three ASCII digits,
//! white space, and a domain shape. An alias entry is a domain shape, white
//! space, `CNAME` or `cname`, white space, a domain shape, and a dot.
//!
//! Where several spans of a line have a shape, the one that starts first is
//! taken; from that start, each repeated part takes as much as it can, from left
//! to right, as long as the rest of the shape can still follow.
use vstd::prelude::*;
use crate::text::{digit, is_digit, is_lower, is_space, lower, space};

verus! {

/// The dot at `k` closes a domain body that starts at `p`: the body holds 2 to
/// 200 characters and no line feed, and two lower-case letters follow the dot.
pub open spec fn body_ok(s: Seq<char>, p: int, k: int) -> bool {
    &&& 0 <= p
    &&& p + 2 <= k <= p + 200
    &&& k + 2 < s.len()
    &&& s[k] == '.'
    &&& is_lower(s[k + 1])
    &&& is_lower(s[k + 2])
    &&& forall|j: int| p <= j < k ==> s[j] != '\n'
}

/// Number of lower-case letters at `a` and after, up to `cap` of them.
pub open spec fn lower_run(s: Seq<char>, a: int, cap: nat) -> nat
    decreases cap,
{
    if cap > 0 && 0 <= a < s.len() && is_lower(s[a]) {
        1 + lower_run(s, a + 1, (cap - 1) as nat)
    } else {
        0
    }
}

/// End of the domain shape whose body starts at `p` and whose dot is at `k`.
pub open spec fn shape_end(s: Seq<char>, k: int) -> int {
    k + 1 + lower_run(s, k + 1, 6)
}

/// Some domain shape starts at `p`.
pub open spec fn starts_at(s: Seq<char>, p: int) -> bool {
    exists|k: int| body_ok(s, p, k)
}

/// `p` is the first position at which a domain shape starts.
pub open spec fn first_start(s: Seq<char>, p: int) -> bool {
    starts_at(s, p) && forall|q: int| 0 <= q < p ==> !starts_at(s, q)
}

/// `k` is the last dot that closes a body starting at `p`.
pub open spec fn last_dot(s: Seq<char>, p: int, k: int) -> bool {
    body_ok(s, p, k) && forall|k2: int| k < k2 ==> !body_ok(s, p, k2)
}

/// The domain shape that a line holds, if any.
pub open spec fn domain_match(s: Seq<char>) -> Option<Seq<char>> {
    if exists|p: int, k: int| first_start(s, p) && last_dot(s, p, k) {
        let (p, k) = choose|p: int, k: int| first_start(s, p) && last_dot(s, p, k);
        Some(s.subrange(p, shape_end(s, k)))
    } else {
        None
    }
}

pub proof fn lemma_lower_run(s: Seq<char>, a: int, cap: nat, n: int)
    requires
        0 <= a,
        0 <= n <= cap,
        a + n <= s.len(),
        forall|j: int| a <= j < a + n ==> is_lower(#[trigger] s[j]),
        n == cap || a + n == s.len() || !is_lower(s[a + n]),
    ensures
        lower_run(s, a, cap) == n,
    decreases n,
{
    if n > 0 {
        lemma_lower_run(s, a + 1, (cap - 1) as nat, n - 1);
    } else if cap > 0 && a < s.len() {
        assert(!is_lower(s[a]));
    }
}

/// Number of lower-case letters at `a` and after, up to `cap` of them.
pub fn count_lower(s: &Vec<char>, a: usize, cap: usize) -> (r: usize)
    requires
        a <= s@.len(),
    ensures
        r == lower_run(s@, a as int, cap as nat),
        r <= cap,
        a + r <= s@.len(),
{
    let mut n: usize = 0;
    while n < cap && n < s.len() - a && lower(s[a + n])
        invariant
            a <= s@.len(),
            n <= cap,
            a + n <= s@.len(),
            forall|j: int| a <= j < a + n ==> is_lower(#[trigger] s@[j]),
        decreases cap - n,
    {
        n = n + 1;
    }
    proof {
        lemma_lower_run(s@, a as int, cap as nat, n as int);
    }
    n
}

/// The last dot before `hi` that closes a domain body starting at `p`, if any.
pub fn find_body_below(s: &Vec<char>, p: usize, hi: usize) -> (r: Option<usize>)
    requires
        p <= s@.len(),
    ensures
        r is None ==> forall|k2: int| k2 < hi ==> !body_ok(s@, p as int, k2),
        r matches Some(k) ==> k < hi && body_ok(s@, p as int, k as int) && forall|k2: int|
            k < k2 < hi ==> !body_ok(s@, p as int, k2),
{
    let n = s.len();
    let mut best: Option<usize> = None;
    let mut k: usize = p;
    while k < n && k < hi && k - p <= 200 && s[k] != '\n'
        invariant
            p <= k <= n == s@.len(),
            forall|j: int| p <= j < k ==> s@[j] != '\n',
            best is None ==> forall|k2: int| k2 < k ==> !body_ok(s@, p as int, k2),
            best matches Some(b) ==> b < k && b < hi && body_ok(s@, p as int, b as int) && forall|
                k2: int,
            | b < k2 < k ==> !body_ok(s@, p as int, k2),
        decreases n - k,
    {
        if k - p >= 2 && n - k > 2 && s[k] == '.' && lower(s[k + 1]) && lower(s[k + 2]) {
            best = Some(k);
        }
        k = k + 1;
    }
    proof {
        assert forall|k2: int| k <= k2 < hi implies !body_ok(s@, p as int, k2) by {
            if k < n && k < hi && k - p <= 200 && k2 > k {
                assert(s@[k as int] == '\n');
            }
        }
    }
    best
}

/// The last dot that closes a domain body starting at `p`, if any.
pub fn find_body(s: &Vec<char>, p: usize) -> (r: Option<usize>)
    requires
        p <= s@.len(),
    ensures
        r is None ==> !starts_at(s@, p as int),
        r matches Some(k) ==> last_dot(s@, p as int, k as int),
{
    let r = find_body_below(s, p, s.len());
    proof {
        assert forall|k2: int| k2 >= s@.len() implies !body_ok(s@, p as int, k2) by {}
    }
    r
}

/// The domain shape that a line holds, as a start and an end position.
pub fn find_domain(s: &Vec<char>) -> (r: Option<(usize, usize)>)
    ensures
        r is None ==> domain_match(s@) is None,
        r matches Some((a, b)) ==> a <= b <= s@.len() && domain_match(s@) == Some(
            s@.subrange(a as int, b as int),
        ),
{
    let n = s.len();
    let mut p: usize = 0;
    while p < n
        invariant
            p <= n == s@.len(),
            forall|q: int| 0 <= q < p ==> !starts_at(s@, q),
        decreases n - p,
    {
        match find_body(s, p) {
            Some(k) => {
                let m = count_lower(s, k + 1, 6);
                proof {
                    let ss = s@;
                    assert(first_start(ss, p as int));
                    assert forall|start2: int, k2: int|
                        first_start(ss, start2) && last_dot(ss, start2, k2) implies start2 == p && k2 == k by {
                        if start2 < p {
                            assert(!starts_at(ss, start2));
                        }
                        if p < start2 {
                            assert(!starts_at(ss, p as int));
                        }
                        if k2 < k {
                            assert(!body_ok(ss, start2, k as int));
                        }
                        if k < k2 {
                            assert(!body_ok(ss, p as int, k2));
                        }
                    }
                }
                return Some((p, k + 1 + m));
            },
            None => {
                p = p + 1;
            },
        }
    }
    proof {
        assert forall|start2: int, k2: int| !(first_start(s@, start2) && last_dot(s@, start2, k2)) by {
            if start2 >= n && body_ok(s@, start2, k2) {
                assert(k2 + 2 < n);
            }
        }
    }
    None
}


/// A run of one to three digits from `p` up to `q`, with no digit right after it.
pub open spec fn digit_run(s: Seq<char>, p: int, q: int) -> bool {
    &&& 0 <= p
    &&& p + 1 <= q <= p + 3
    &&& q <= s.len()
    &&& forall|j: int| p <= j < q ==> is_digit(s[j])
    &&& q == s.len() || !is_digit(s[q])
}

/// The four digit runs of an address, separated by dots at `a`, `b` and `c`.
pub open spec fn ip_parts(s: Seq<char>, i: int, a: int, b: int, c: int, e: int) -> bool {
    &&& digit_run(s, i, a)
    &&& a < s.len() && s[a] == '.'
    &&& digit_run(s, a + 1, b)
    &&& b < s.len() && s[b] == '.'
    &&& digit_run(s, b + 1, c)
    &&& c < s.len() && s[c] == '.'
    &&& digit_run(s, c + 1, e)
}

/// An IPv4-like address, four dot-separated runs of one to three digits,
/// spans `i` to `e`.
pub open spec fn ip_at(s: Seq<char>, i: int, e: int) -> bool {
    exists|a: int, b: int, c: int| ip_parts(s, i, a, b, c, e)
}

/// White space, at least one character of it, from `a` up to `b`.
pub open spec fn spaces(s: Seq<char>, a: int, b: int) -> bool {
    0 <= a < b <= s.len() && forall|j: int| a <= j < b ==> is_space(s[j])
}

/// After position `e`: `w` white-space characters, then a domain body that
/// closes at `k`.
pub open spec fn tail_at(s: Seq<char>, e: int, w: int, k: int) -> bool {
    spaces(s, e, e + w) && body_ok(s, e + w, k)
}

/// A host entry starts at `i`: an address up to `e`, then `w` white-space
/// characters and a domain shape whose body closes at `k`.
pub open spec fn host_at(s: Seq<char>, i: int, e: int, w: int, k: int) -> bool {
    ip_at(s, i, e) && tail_at(s, e, w, k)
}

pub open spec fn host_starts(s: Seq<char>, i: int) -> bool {
    exists|e: int, w: int, k: int| host_at(s, i, e, w, k)
}

/// The host entry taken from a line: it starts first; among those that start
/// there, it has the most white space and then the longest body.
pub open spec fn host_best(s: Seq<char>, i: int, e: int, w: int, k: int) -> bool {
    &&& host_at(s, i, e, w, k)
    &&& forall|i2: int| 0 <= i2 < i ==> !host_starts(s, i2)
    &&& forall|e2: int, w2: int, k2: int| #[trigger]
        host_at(s, i, e2, w2, k2) ==> w2 < w || (w2 == w && k2 <= k)
}

/// The address and the domain shape of the host entry that a line holds, if any.
pub open spec fn host_match(s: Seq<char>) -> Option<(Seq<char>, Seq<char>)> {
    if exists|i: int, e: int, w: int, k: int| host_best(s, i, e, w, k) {
        let (i, e, w, k) = choose|i: int, e: int, w: int, k: int| host_best(s, i, e, w, k);
        Some((s.subrange(i, e), s.subrange(e + w, shape_end(s, k))))
    } else {
        None
    }
}

proof fn lemma_runs_unique(s: Seq<char>)
    ensures
        forall|p: int, q1: int, q2: int|
            digit_run(s, p, q1) && digit_run(s, p, q2) ==> q1 == q2,
{
    assert forall|p: int, q1: int, q2: int|
        digit_run(s, p, q1) && digit_run(s, p, q2) implies q1 == q2 by {
        if q1 < q2 {
            assert(is_digit(s[q1]));
        } else if q2 < q1 {
            assert(is_digit(s[q2]));
        }
    }
}

proof fn lemma_ip_witness(s: Seq<char>, i: int, e: int) -> (r: (int, int, int))
    requires
        ip_at(s, i, e),
    ensures
        ip_parts(s, i, r.0, r.1, r.2, e),
{
    choose|a: int, b: int, c: int| ip_parts(s, i, a, b, c, e)
}

/// The end of the run of one to three digits at `p`, if there is one.
fn run_end(s: &Vec<char>, p: usize) -> (r: Option<usize>)
    requires
        p <= s@.len(),
    ensures
        r matches Some(q) ==> digit_run(s@, p as int, q as int),
        r is None ==> forall|q: int| !digit_run(s@, p as int, q),
{
    let n = s.len();
    let mut q: usize = p;
    while q < n && q - p < 4 && digit(s[q])
        invariant
            p <= q <= n == s@.len(),
            q - p <= 4,
            forall|j: int| p <= j < q ==> is_digit(#[trigger] s@[j]),
        decreases n - q,
    {
        q = q + 1;
    }
    if q == p || q - p > 3 {
        proof {
            assert forall|q2: int| !digit_run(s@, p as int, q2) by {
                if digit_run(s@, p as int, q2) {
                    if q == p {
                        assert(is_digit(s@[p as int]));
                    } else {
                        assert(is_digit(s@[q2]));
                    }
                }
            }
        }
        None
    } else {
        Some(q)
    }
}

/// The end of the address that starts at `i`, if one does.
fn ip_end(s: &Vec<char>, i: usize) -> (r: Option<usize>)
    requires
        i <= s@.len(),
    ensures
        r matches Some(e) ==> ip_at(s@, i as int, e as int) && forall|e2: int|
            ip_at(s@, i as int, e2) ==> e2 == e,
        r is None ==> forall|e2: int| !ip_at(s@, i as int, e2),
{
    let ghost ss = s@;
    proof {
        lemma_runs_unique(ss);
    }
    let n = s.len();
    let a = run_end(s, i);
    let b = match a {
        Some(a) if a < n && s[a] == '.' => run_end(s, a + 1),
        _ => None,
    };
    let c = match (a, b) {
        (Some(_), Some(b)) if b < n && s[b] == '.' => run_end(s, b + 1),
        _ => None,
    };
    let e = match (b, c) {
        (Some(_), Some(c)) if c < n && s[c] == '.' => run_end(s, c + 1),
        _ => None,
    };
    proof {
        assert forall|e2: int| ip_at(ss, i as int, e2) implies e matches Some(e1) && e2
            == e1 by {
            let (a2, b2, c2) = lemma_ip_witness(ss, i as int, e2);
            assert(a == Some(a2 as usize));
            assert(b == Some(b2 as usize));
            assert(c == Some(c2 as usize));
        }
        if let Some(e1) = e {
            let (a1, b1, c1) = (a.unwrap(), b.unwrap(), c.unwrap());
            assert(ip_parts(ss, i as int, a1 as int, b1 as int, c1 as int, e1 as int));
        }
    }
    e
}

/// The most white space, and then the longest domain body, that can follow
/// position `e`.
fn find_tail(s: &Vec<char>, e: usize) -> (r: Option<(usize, usize)>)
    requires
        e <= s@.len(),
    ensures
        r matches Some((w, k)) ==> tail_at(s@, e as int, w as int, k as int) && forall|
            w2: int,
            k2: int,
        | #[trigger] tail_at(s@, e as int, w2, k2) ==> w2 < w || (w2 == w && k2 <= k),
        r is None ==> forall|w2: int, k2: int| !tail_at(s@, e as int, w2, k2),
{
    let ghost ss = s@;
    let n = s.len();
    let mut ws: usize = 0;
    while ws < n - e && space(s[e + ws])
        invariant
            e <= n == ss.len(),
            ws <= n - e,
            ss == s@,
            forall|j: int| e <= j < e + ws ==> is_space(#[trigger] ss[j]),
        decreases n - e - ws,
    {
        ws = ws + 1;
    }
    proof {
        assert forall|w2: int, k2: int| w2 > ws implies !tail_at(ss, e as int, w2, k2) by {
            if tail_at(ss, e as int, w2, k2) {
                assert(is_space(ss[e + ws]));
            }
        }
    }
    let mut w: usize = ws;
    while w > 0
        invariant
            w <= ws <= n - e,
            e <= n == ss.len(),
            ss == s@,
            forall|j: int| e <= j < e + ws ==> is_space(#[trigger] ss[j]),
            forall|w2: int, k2: int| w < w2 ==> !tail_at(ss, e as int, w2, k2),
        decreases w,
    {
        match find_body(s, e + w) {
            Some(k) => {
                proof {
                    assert forall|w2: int, k2: int|
                        #[trigger] tail_at(ss, e as int, w2, k2) implies w2 < w || (w2 == w && k2
                        <= k) by {
                        if w2 == w && k2 > k {
                            assert(!body_ok(ss, (e + w) as int, k2));
                        }
                    }
                }
                return Some((w, k));
            },
            None => {
                proof {
                    assert forall|w2: int, k2: int| w <= w2 implies !tail_at(
                        ss,
                        e as int,
                        w2,
                        k2,
                    ) by {
                        if w2 == w && tail_at(ss, e as int, w2, k2) {
                            assert(starts_at(ss, (e + w) as int));
                        }
                    }
                }
                w = w - 1;
            },
        }
    }
    None
}

/// The host entry that a line holds, as the span of its address and the span
/// of its domain shape.
pub fn find_host(s: &Vec<char>) -> (r: Option<(usize, usize, usize, usize)>)
    ensures
        r is None ==> host_match(s@) is None,
        r matches Some((a, b, c, d)) ==> a <= b <= s@.len() && c <= d <= s@.len() && host_match(
            s@,
        ) == Some((s@.subrange(a as int, b as int), s@.subrange(c as int, d as int))),
{
    let ghost ss = s@;
    let n = s.len();
    let mut i: usize = 0;
    while i < n
        invariant
            i <= n == ss.len(),
            ss == s@,
            forall|q: int| 0 <= q < i ==> !host_starts(ss, q),
        decreases n - i,
    {
        let found = match ip_end(s, i) {
            Some(e) => match find_tail(s, e) {
                Some((w, k)) => Some((e, w, k)),
                None => None,
            },
            None => None,
        };
        match found {
            Some((e, w, k)) => {
                proof {
                    assert(host_at(ss, i as int, e as int, w as int, k as int));
                    assert(host_best(ss, i as int, e as int, w as int, k as int));
                    assert forall|i2: int, e2: int, w2: int, k2: int|
                        host_best(ss, i2, e2, w2, k2) implies i2 == i && e2 == e && w2 == w && k2
                        == k by {
                        if i2 < i {
                            assert(!host_starts(ss, i2));
                        }
                        if i < i2 {
                            assert(!host_starts(ss, i as int));
                        }
                        assert(host_at(ss, i as int, e2, w2, k2));
                        assert(host_at(ss, i as int, e as int, w as int, k as int));
                    }
                }
                let m = count_lower(s, k + 1, 6);
                return Some((i, e, e + w, k + 1 + m));
            },
            None => {
                proof {
                    assert forall|e2: int, w2: int, k2: int| !host_at(ss, i as int, e2, w2, k2) by {
                        if host_at(ss, i as int, e2, w2, k2) {
                            assert(ip_at(ss, i as int, e2));
                        }
                    }
                }
                i = i + 1;
            },
        }
    }
    proof {
        assert forall|i2: int, e2: int, w2: int, k2: int| !host_best(ss, i2, e2, w2, k2) by {
            if host_best(ss, i2, e2, w2, k2) {
                let (a2, b2, c2) = lemma_ip_witness(ss, i2, e2);
                if i2 < n {
                    assert(host_starts(ss, i2));
                }
            }
        }
    }
    None
}


/// Two to six lower-case letters follow the dot at `k`.
pub open spec fn tld(s: Seq<char>, k: int, m: int) -> bool {
    &&& 0 <= k
    &&& 2 <= m <= 6
    &&& k + 1 + m <= s.len()
    &&& forall|j: int| k + 1 <= j < k + 1 + m ==> is_lower(s[j])
}

/// `CNAME` or `cname` stands at `q`.
pub open spec fn keyword_at(s: Seq<char>, q: int) -> bool {
    &&& 0 <= q
    &&& q + 5 <= s.len()
    &&& (s.subrange(q, q + 5) == seq!['C', 'N', 'A', 'M', 'E'] || s.subrange(q, q + 5) == seq![
        'c',
        'n',
        'a',
        'm',
        'e',
    ])
}

/// The part of an alias entry that follows `p`: white space up to `p + w`, a
/// domain body that closes at `k`, its top-level label of `m` letters, and a dot.
pub open spec fn alias_at(s: Seq<char>, p: int, w: int, k: int, m: int) -> bool {
    &&& spaces(s, p, p + w)
    &&& body_ok(s, p + w, k)
    &&& tld(s, k, m)
    &&& k + 1 + m < s.len()
    &&& s[k + 1 + m] == '.'
}

/// The part of an alias entry up to its keyword: a domain body from `i` that
/// closes at `k`, its top-level label of `m` letters, white space of length
/// `w`, and the keyword.
pub open spec fn head_at(s: Seq<char>, i: int, k: int, m: int, w: int) -> bool {
    &&& body_ok(s, i, k)
    &&& tld(s, k, m)
    &&& spaces(s, k + 1 + m, k + 1 + m + w)
    &&& keyword_at(s, k + 1 + m + w)
}

/// An alias entry starts at `i`; `t` holds, in this order, where the first
/// body closes, the length of its top-level label, the white space before the
/// keyword, the white space after it, where the second body closes, and the
/// length of its top-level label.
pub open spec fn cname_at(s: Seq<char>, i: int, t: (int, int, int, int, int, int)) -> bool {
    head_at(s, i, t.0, t.1, t.2) && alias_at(s, t.0 + 1 + t.1 + t.2 + 5, t.3, t.4, t.5)
}

pub open spec fn cname_starts(s: Seq<char>, i: int) -> bool {
    exists|t: (int, int, int, int, int, int)| cname_at(s, i, t)
}

/// `t` comes no later than `u` in the order that compares the first
/// components first.
pub open spec fn lex_le(t: (int, int, int, int, int, int), u: (int, int, int, int, int, int)) -> bool {
    ||| t.0 < u.0
    ||| (t.0 == u.0 && t.1 < u.1)
    ||| (t.0 == u.0 && t.1 == u.1 && t.2 < u.2)
    ||| (t.0 == u.0 && t.1 == u.1 && t.2 == u.2 && t.3 < u.3)
    ||| (t.0 == u.0 && t.1 == u.1 && t.2 == u.2 && t.3 == u.3 && t.4 < u.4)
    ||| (t.0 == u.0 && t.1 == u.1 && t.2 == u.2 && t.3 == u.3 && t.4 == u.4 && t.5 <= u.5)
}

/// The alias entry taken from a line: it starts first, and among those that
/// start there each repetition takes as much as it can, from left to right.
pub open spec fn cname_best(s: Seq<char>, i: int, t: (int, int, int, int, int, int)) -> bool {
    &&& cname_at(s, i, t)
    &&& forall|i2: int| 0 <= i2 < i ==> !cname_starts(s, i2)
    &&& forall|t2: (int, int, int, int, int, int)| #[trigger] cname_at(s, i, t2) ==> lex_le(t2, t)
}

/// The domain and the alias of the alias entry that a line holds, if any.
pub open spec fn cname_match(s: Seq<char>) -> Option<(Seq<char>, Seq<char>)> {
    if exists|i: int, t: (int, int, int, int, int, int)| cname_best(s, i, t) {
        let (i, t) = choose|i: int, t: (int, int, int, int, int, int)| cname_best(s, i, t);
        let a = t.0 + 1 + t.1 + t.2 + 5 + t.3;
        Some((s.subrange(i, t.0 + 1 + t.1), s.subrange(a, t.4 + 1 + t.5)))
    } else {
        None
    }
}

proof fn lemma_lower_run_facts(s: Seq<char>, a: int, cap: nat)
    requires
        0 <= a,
    ensures
        lower_run(s, a, cap) <= cap,
        a + lower_run(s, a, cap) <= s.len() || lower_run(s, a, cap) == 0,
        forall|j: int| a <= j < a + lower_run(s, a, cap) ==> is_lower(#[trigger] s[j]),
        lower_run(s, a, cap) == cap || a + lower_run(s, a, cap) >= s.len() || !is_lower(
            s[a + lower_run(s, a, cap)],
        ),
    decreases cap,
{
    if cap > 0 && 0 <= a < s.len() && is_lower(s[a]) {
        lemma_lower_run_facts(s, a + 1, (cap - 1) as nat);
    }
}

/// The number of white-space characters from `p` on.
fn count_spaces(s: &Vec<char>, p: usize) -> (r: usize)
    requires
        p <= s@.len(),
    ensures
        p + r <= s@.len(),
        forall|j: int| p <= j < p + r ==> is_space(#[trigger] s@[j]),
        p + r == s@.len() || !is_space(s@[p + r]),
{
    let n = s.len();
    let mut w: usize = 0;
    while w < n - p && space(s[p + w])
        invariant
            p <= n == s@.len(),
            w <= n - p,
            forall|j: int| p <= j < p + w ==> is_space(#[trigger] s@[j]),
        decreases n - p - w,
    {
        w = w + 1;
    }
    w
}

/// Whether `CNAME` or `cname` stands at `q`.
fn keyword(s: &Vec<char>, q: usize) -> (r: bool)
    requires
        q <= s@.len(),
    ensures
        r == keyword_at(s@, q as int),
{
    if s.len() - q < 5 {
        return false;
    }
    let upper = s[q] == 'C' && s[q + 1] == 'N' && s[q + 2] == 'A' && s[q + 3] == 'M' && s[q + 4]
        == 'E';
    let lower = s[q] == 'c' && s[q + 1] == 'n' && s[q + 2] == 'a' && s[q + 3] == 'm' && s[q + 4]
        == 'e';
    proof {
        let w = s@.subrange(q as int, q + 5);
        assert(upper <==> w =~= seq!['C', 'N', 'A', 'M', 'E']) by {
            if w == seq!['C', 'N', 'A', 'M', 'E'] {
                assert(w[0] == 'C' && w[1] == 'N' && w[2] == 'A' && w[3] == 'M' && w[4] == 'E');
            }
        }
        assert(lower <==> w =~= seq!['c', 'n', 'a', 'm', 'e']) by {
            if w == seq!['c', 'n', 'a', 'm', 'e'] {
                assert(w[0] == 'c' && w[1] == 'n' && w[2] == 'a' && w[3] == 'm' && w[4] == 'e');
            }
        }
    }
    upper || lower
}

/// The top-level label after the dot at `k`, where its letters run up to a
/// character that `next` accepts.
fn label_after(s: &Vec<char>, k: usize) -> (r: usize)
    requires
        k + 2 < s@.len(),
    ensures
        r <= 7,
        k + 1 + r <= s@.len(),
        forall|j: int| k + 1 <= j < k + 1 + r ==> is_lower(#[trigger] s@[j]),
        r == 7 || k + 1 + r == s@.len() || !is_lower(s@[k + 1 + r]),
{
    let n = s.len();
    assert(k + 1 < n);
    let r = count_lower(s, k + 1, 7);
    proof {
        lemma_lower_run_facts(s@, k + 1, 7);
    }
    r
}

/// The greatest white space, domain body and top-level label that, after `p`,
/// complete an alias entry.
fn find_alias(s: &Vec<char>, p: usize) -> (r: Option<(usize, usize, usize)>)
    requires
        p <= s@.len(),
    ensures
        r matches Some((w, k, m)) ==> alias_at(s@, p as int, w as int, k as int, m as int)
            && forall|w2: int, k2: int, m2: int| #[trigger]
            alias_at(s@, p as int, w2, k2, m2) ==> w2 < w || (w2 == w && k2 < k) || (w2 == w
                && k2 == k && m2 <= m),
        r is None ==> forall|w2: int, k2: int, m2: int| !alias_at(s@, p as int, w2, k2, m2),
{
    let ghost ss = s@;
    let n = s.len();
    let ws = count_spaces(s, p);
    proof {
        assert forall|w2: int, k2: int, m2: int| w2 > ws implies !alias_at(ss, p as int, w2, k2, m2) by {
            if alias_at(ss, p as int, w2, k2, m2) {
                assert(is_space(ss[p + ws]));
            }
        }
    }
    let mut w: usize = ws;
    while w > 0
        invariant
            w <= ws,
            p + ws <= n == ss.len(),
            ss == s@,
            forall|j: int| p <= j < p + ws ==> is_space(#[trigger] ss[j]),
            forall|w2: int, k2: int, m2: int| w < w2 ==> !alias_at(ss, p as int, w2, k2, m2),
        decreases w,
    {
        let a = p + w;
        let mut hi: usize = n;
        while hi > 0
            invariant
                0 < w <= ws,
                a == p + w,
                p + ws <= n == ss.len(),
                ss == s@,
                hi <= n,
                forall|j: int| p <= j < p + ws ==> is_space(#[trigger] ss[j]),
                forall|w2: int, k2: int, m2: int| w < w2 ==> !alias_at(ss, p as int, w2, k2, m2),
                forall|k2: int, m2: int| hi <= k2 ==> !alias_at(ss, p as int, w as int, k2, m2),
            decreases hi,
        {
            match find_body_below(s, a, hi) {
                Some(k) => {
                    let m = label_after(s, k);
                    if 2 <= m && m <= 6 && n - k - 1 > m && s[k + 1 + m] == '.' {
                        proof {
                            assert(forall|j: int| p <= j < a ==> is_space(#[trigger] ss[j]));
                            assert(spaces(ss, p as int, a as int));
                            assert(tld(ss, k as int, m as int));
                            assert(alias_at(ss, p as int, w as int, k as int, m as int));
                            assert forall|w2: int, k2: int, m2: int| #[trigger]
                                alias_at(ss, p as int, w2, k2, m2) implies w2 < w || (w2 == w && k2
                                < k) || (w2 == w && k2 == k && m2 <= m) by {
                                if w2 == w && k2 == k && m2 > m {
                                    assert(is_lower(ss[k + 1 + m]));
                                }
                            }
                        }
                        return Some((w, k, m));
                    }
                    proof {
                        assert forall|k2: int, m2: int| k <= k2 implies !alias_at(
                            ss,
                            p as int,
                            w as int,
                            k2,
                            m2,
                        ) by {
                            if k2 == k && alias_at(ss, p as int, w as int, k2, m2) {
                                if m2 < m {
                                    assert(is_lower(ss[k + 1 + m2]));
                                } else if m2 > m {
                                    assert(is_lower(ss[k + 1 + m]));
                                }
                            }
                            if k < k2 < hi && alias_at(ss, p as int, w as int, k2, m2) {
                                assert(body_ok(ss, a as int, k2));
                            }
                        }
                    }
                    hi = k;
                },
                None => {
                    proof {
                        assert forall|k2: int, m2: int| 0 <= k2 implies !alias_at(
                            ss,
                            p as int,
                            w as int,
                            k2,
                            m2,
                        ) by {
                            if k2 < hi && alias_at(ss, p as int, w as int, k2, m2) {
                                assert(body_ok(ss, a as int, k2));
                            }
                        }
                    }
                    hi = 0;
                },
            }
        }
        proof {
            assert forall|w2: int, k2: int, m2: int| w <= w2 implies !alias_at(
                ss,
                p as int,
                w2,
                k2,
                m2,
            ) by {
                if w2 == w && alias_at(ss, p as int, w2, k2, m2) {
                    assert(body_ok(ss, a as int, k2));
                }
            }
        }
        w = w - 1;
    }
    None
}

/// The top-level label and the white space that lead from the dot at `k` to the
/// keyword of an alias entry whose body starts at `i`, if they do.
fn find_head(s: &Vec<char>, i: usize, k: usize) -> (r: Option<(usize, usize)>)
    requires
        body_ok(s@, i as int, k as int),
    ensures
        r matches Some((m, w)) ==> head_at(s@, i as int, k as int, m as int, w as int) && forall|
            m2: int,
            w2: int,
        | #[trigger] head_at(s@, i as int, k as int, m2, w2) ==> m2 == m && w2 == w,
        r is None ==> forall|m2: int, w2: int| !head_at(s@, i as int, k as int, m2, w2),
{
    let ghost ss = s@;
    let n = s.len();
    let m = label_after(s, k);
    proof {
        assert forall|m2: int, w2: int| #[trigger] head_at(ss, i as int, k as int, m2, w2) implies m2
            == m by {
            assert(is_space(ss[k + 1 + m2]));
            if m2 < m {
                assert(is_lower(ss[k + 1 + m2]));
            } else if m2 > m {
                assert(is_lower(ss[k + 1 + m]));
            }
        }
    }
    if m < 2 || m > 6 || n - k - 1 <= m || !space(s[k + 1 + m]) {
        proof {
            assert forall|m2: int, w2: int| !head_at(ss, i as int, k as int, m2, w2) by {
                if head_at(ss, i as int, k as int, m2, w2) {
                    assert(is_space(ss[k + 1 + m2]));
                }
            }
        }
        return None;
    }
    let p = k + 1 + m;
    let w = count_spaces(s, p);
    proof {
        assert forall|m2: int, w2: int| #[trigger] head_at(ss, i as int, k as int, m2, w2) implies w2
            == w by {
            let q2 = p + w2;
            assert(ss.subrange(q2, q2 + 5)[0] == ss[q2]);
            assert(!is_space(ss[q2]));
            if w2 < w {
                assert(is_space(ss[q2]));
            } else if w2 > w {
                assert(is_space(ss[p + w]));
            }
        }
    }
    if keyword(s, p + w) {
        proof {
            assert(head_at(ss, i as int, k as int, m as int, w as int));
        }
        Some((m, w))
    } else {
        None
    }
}

/// The alias entry that a line holds, as the span of its domain and the span of
/// its alias.
pub fn find_cname(s: &Vec<char>) -> (r: Option<(usize, usize, usize, usize)>)
    ensures
        r is None ==> cname_match(s@) is None,
        r matches Some((a, b, c, d)) ==> a <= b <= s@.len() && c <= d <= s@.len() && cname_match(
            s@,
        ) == Some((s@.subrange(a as int, b as int), s@.subrange(c as int, d as int))),
{
    let ghost ss = s@;
    let n = s.len();
    let mut i: usize = 0;
    while i < n
        invariant
            i <= n == ss.len(),
            ss == s@,
            forall|q: int| 0 <= q < i ==> !cname_starts(ss, q),
        decreases n - i,
    {
        let mut hi: usize = n;
        while hi > 0
            invariant
                i < n == ss.len(),
                ss == s@,
                hi <= n,
                forall|q: int| 0 <= q < i ==> !cname_starts(ss, q),
                forall|t2: (int, int, int, int, int, int)|
                    hi <= t2.0 ==> !#[trigger] cname_at(ss, i as int, t2),
            decreases hi,
        {
            match find_body_below(s, i, hi) {
                Some(k) => {
                    match find_head(s, i, k) {
                        Some((m, w)) => {
                            let p = k + 1 + m + w + 5;
                            match find_alias(s, p) {
                                Some((w2, k2, m2)) => {
                                    let ghost t = (
                                        k as int,
                                        m as int,
                                        w as int,
                                        w2 as int,
                                        k2 as int,
                                        m2 as int,
                                    );
                                    proof {
                                        assert(cname_at(ss, i as int, t));
                                        assert forall|t2: (int, int, int, int, int, int)| #[trigger]
                                            cname_at(ss, i as int, t2) implies lex_le(t2, t) by {
                                            if t2.0 > k {
                                                assert(body_ok(ss, i as int, t2.0));
                                            }
                                            if t2.0 == k {
                                                assert(head_at(ss, i as int, k as int, t2.1, t2.2));
                                                assert(alias_at(ss, p as int, t2.3, t2.4, t2.5));
                                            }
                                        }
                                        assert(cname_best(ss, i as int, t));
                                        assert forall|i2: int, t2: (int, int, int, int, int, int)|
                                            cname_best(ss, i2, t2) implies i2 == i && t2 == t by {
                                            if i2 < i {
                                                assert(!cname_starts(ss, i2));
                                            }
                                            if i < i2 {
                                                assert(!cname_starts(ss, i as int));
                                            }
                                            assert(cname_at(ss, i as int, t2));
                                            assert(lex_le(t2, t));
                                            assert(lex_le(t, t2));
                                        }
                                    }
                                    let m_end = k2 + 1 + m2;
                                    return Some((i, k + 1 + m, p + w2, m_end));
                                },
                                None => {
                                    proof {
                                        assert forall|t2: (int, int, int, int, int, int)|
                                            hi <= t2.0 || t2.0 == k implies !#[trigger] cname_at(
                                            ss,
                                            i as int,
                                            t2,
                                        ) by {
                                            if t2.0 == k && cname_at(ss, i as int, t2) {
                                                assert(head_at(ss, i as int, k as int, t2.1, t2.2));
                                                assert(alias_at(ss, p as int, t2.3, t2.4, t2.5));
                                            }
                                        }
                                    }
                                },
                            }
                        },
                        None => {
                            proof {
                                assert forall|t2: (int, int, int, int, int, int)|
                                    hi <= t2.0 || t2.0 == k implies !#[trigger] cname_at(
                                    ss,
                                    i as int,
                                    t2,
                                ) by {
                                    if t2.0 == k && cname_at(ss, i as int, t2) {
                                        assert(head_at(ss, i as int, k as int, t2.1, t2.2));
                                    }
                                }
                            }
                        },
                    }
                    proof {
                        assert forall|t2: (int, int, int, int, int, int)|
                            k <= t2.0 implies !#[trigger] cname_at(ss, i as int, t2) by {
                            if k < t2.0 < hi && cname_at(ss, i as int, t2) {
                                assert(body_ok(ss, i as int, t2.0));
                            }
                        }
                    }
                    hi = k;
                },
                None => {
                    proof {
                        assert forall|t2: (int, int, int, int, int, int)|
                            0 <= t2.0 implies !#[trigger] cname_at(ss, i as int, t2) by {
                            if t2.0 < hi && cname_at(ss, i as int, t2) {
                                assert(body_ok(ss, i as int, t2.0));
                            }
                        }
                    }
                    hi = 0;
                },
            }
        }
        proof {
            assert forall|t2: (int, int, int, int, int, int)| !cname_at(ss, i as int, t2) by {
                if cname_at(ss, i as int, t2) {
                    assert(body_ok(ss, i as int, t2.0));
                }
            }
        }
        i = i + 1;
    }
    proof {
        assert forall|i2: int, t2: (int, int, int, int, int, int)| !cname_best(ss, i2, t2) by {
            if cname_best(ss, i2, t2) {
                assert(cname_starts(ss, i2));
                assert(body_ok(ss, i2, t2.0));
            }
        }
    }
    None
}

/// The domain shape that a line holds, read again as a line, holds itself as
/// its domain shape.
pub proof fn lemma_shape_reads_back(s: Seq<char>)
    requires
        domain_match(s) is Some,
    ensures
        domain_match(domain_match(s).unwrap()) == domain_match(s),
{
    let (p, k) = choose|p: int, k: int| first_start(s, p) && last_dot(s, p, k);
    let m = lower_run(s, k + 1, 6);
    lemma_lower_run_facts(s, k + 1, 6);
    assert(is_lower(s[k + 1]) && is_lower(s[k + 2]));
    assert(m >= 2) by {
        assert(lower_run(s, k + 1, 6) == 1 + lower_run(s, k + 2, 5));
        assert(lower_run(s, k + 2, 5) == 1 + lower_run(s, k + 3, 4));
    }
    let c = s.subrange(p, shape_end(s, k));
    let k0 = k - p;
    assert(body_ok(c, 0, k0)) by {
        assert(c[k0] == s[k]);
        assert(c[k0 + 1] == s[k + 1]);
        assert(c[k0 + 2] == s[k + 2]);
        assert forall|j: int| 0 <= j < k0 implies c[j] != '\n' by {
            assert(c[j] == s[p + j]);
        }
    }
    assert forall|k2: int| k0 < k2 implies !body_ok(c, 0, k2) by {
        if body_ok(c, 0, k2) {
            assert(c[k2] == s[p + k2]);
            assert(c[k2 + 1] == s[p + k2 + 1]);
            assert(c[k2 + 2] == s[p + k2 + 2]);
            assert forall|j: int| p <= j < p + k2 implies s[j] != '\n' by {
                assert(c[j - p] == s[j]);
            }
            assert(body_ok(s, p, p + k2));
        }
    }
    assert(first_start(c, 0));
    assert(last_dot(c, 0, k0));
    assert forall|start2: int, k2: int| first_start(c, start2) && last_dot(c, start2, k2) implies start2 == 0 && k2
        == k0 by {
        if start2 > 0 {
            assert(!starts_at(c, 0));
        }
        if k2 > k0 {
            assert(!body_ok(c, 0, k2));
        }
        if k2 < k0 {
            assert(!body_ok(c, 0, k0));
        }
    }
    assert forall|j: int| k0 + 1 <= j < k0 + 1 + m implies is_lower(#[trigger] c[j]) by {
        assert(c[j] == s[p + j]);
    }
    lemma_lower_run(c, k0 + 1, 6, m as int);
    assert(c.subrange(0, shape_end(c, k0)) =~= c);
}

} // verus!
