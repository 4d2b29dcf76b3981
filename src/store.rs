//! The keys and values of the domain stores, and the order in which a lookup
//! probes them.
use vstd::prelude::*;
use crate::text::{chars_of, joined, slice, string_of};

verus! {

/// A name with a trailing dot: the form in which the stores keep their keys.
pub open spec fn normalized(name: Seq<char>) -> Seq<char> {
    if name.len() > 0 && name.last() == '.' {
        name
    } else {
        name.push('.')
    }
}

/// The value that marks a blacklisted or whitelisted name.
pub open spec fn present_mark() -> Seq<char> {
    seq!['t', 'r', 'u', 'e']
}

/// `name` with a trailing dot, added where it is missing.
pub fn normalize_name(name: &str) -> (r: String)
    ensures
        r@ == normalized(name@),
{
    let mut cs = chars_of(name);
    if cs.len() == 0 || cs[cs.len() - 1] != '.' {
        cs.push('.');
    }
    string_of(&cs)
}

/// The key and the value that a blacklist or a whitelist keeps for `domain`.
pub fn domain_entry(domain: &str) -> (r: (String, String))
    ensures
        r.0@ == normalized(domain@),
        r.1@ == present_mark(),
{
    let mut mark: Vec<char> = Vec::new();
    mark.push('t');
    mark.push('r');
    mark.push('u');
    mark.push('e');
    assert(mark@ =~= present_mark());
    (normalize_name(domain), string_of(&mark))
}

/// The key and the value that the rewrites store keeps for an alias entry.
pub fn alias_entry(domain: &str, alias: &str) -> (r: (String, String))
    ensures
        r.0@ == normalized(domain@),
        r.1@ == normalized(alias@),
{
    (normalize_name(domain), normalize_name(alias))
}

/// The labels of `s` from position `i` on, where the current label started at
/// `start`: the parts between dots, empty ones left out.
pub open spec fn labels_from(s: Seq<char>, start: int, i: int) -> Seq<Seq<char>>
    decreases s.len() - i,
{
    if i >= s.len() {
        if start < s.len() {
            seq![s.subrange(start, s.len() as int)]
        } else {
            seq![]
        }
    } else if s[i] == '.' {
        if start < i {
            seq![s.subrange(start, i)] + labels_from(s, i + 1, i + 1)
        } else {
            labels_from(s, i + 1, i + 1)
        }
    } else {
        labels_from(s, start, i + 1)
    }
}

/// The non-empty labels of a name, in order.
pub open spec fn labels(s: Seq<char>) -> Seq<Seq<char>> {
    labels_from(s, 0, 0)
}

/// Labels joined by dots.
pub open spec fn join_dots(ls: Seq<Seq<char>>) -> Seq<char>
    decreases ls.len(),
{
    if ls.len() == 0 {
        seq![]
    } else if ls.len() == 1 {
        ls[0]
    } else {
        ls[0] + seq!['.'] + join_dots(ls.drop_first())
    }
}

/// The wildcard key that covers every name below the labels `ls`.
pub open spec fn wildcard_key(ls: Seq<Seq<char>>) -> Seq<char> {
    seq!['*', '.'] + join_dots(ls) + seq!['.']
}

/// The keys that a lookup of `q` probes, in order: `q` itself (with its
/// trailing dot), then the wildcard keys of its proper suffixes, from the
/// longest to the shortest.
pub open spec fn lookup_keys(q: Seq<char>) -> Seq<Seq<char>> {
    let ls = labels(q);
    if ls.len() > 1 {
        seq![normalized(q)] + Seq::new(
            (ls.len() - 1) as nat,
            |j: int| wildcard_key(ls.subrange(j + 1, ls.len() as int)),
        )
    } else {
        seq![normalized(q)]
    }
}

/// The value of the first of `keys` that a store with contents `m` holds.
pub open spec fn first_hit(m: Map<Seq<char>, Seq<char>>, keys: Seq<Seq<char>>) -> Option<
    Seq<char>,
>
    decreases keys.len(),
{
    if keys.len() == 0 {
        None
    } else if m.contains_key(keys[0]) {
        Some(m[keys[0]])
    } else {
        first_hit(m, keys.drop_first())
    }
}

/// What a store with contents `m` answers to a lookup of `q`.
pub open spec fn store_get(m: Map<Seq<char>, Seq<char>>, q: Seq<char>) -> Option<Seq<char>> {
    first_hit(m, lookup_keys(q))
}

/// The non-empty labels of `name`.
pub fn split_labels(name: &Vec<char>) -> (r: Vec<Vec<char>>)
    ensures
        r@.map_values(|l: Vec<char>| l@) == labels(name@),
{
    let n = name.len();
    let mut out: Vec<Vec<char>> = Vec::new();
    let mut start: usize = 0;
    let mut i: usize = 0;
    while i < n
        invariant
            start <= i <= n == name@.len(),
            out@.map_values(|l: Vec<char>| l@) + labels_from(name@, start as int, i as int)
                == labels(name@),
        decreases n - i,
    {
        if name[i] == '.' {
            if start < i {
                let label = slice(name, start, i);
                let ghost before = out@;
                out.push(label);
                proof {
                    assert(out@.map_values(|l: Vec<char>| l@) =~= before.map_values(
                        |l: Vec<char>| l@,
                    ).push(label@));
                    assert(out@.map_values(|l: Vec<char>| l@) + labels_from(
                        name@,
                        i + 1,
                        i + 1,
                    ) =~= before.map_values(|l: Vec<char>| l@) + labels_from(
                        name@,
                        start as int,
                        i as int,
                    ));
                }
            }
            start = i + 1;
        }
        i = i + 1;
    }
    if start < n {
        let label = slice(name, start, n);
        let ghost before = out@;
        out.push(label);
        proof {
            assert(out@.map_values(|l: Vec<char>| l@) =~= before.map_values(|l: Vec<char>| l@).push(
                label@,
            ));
        }
    } else {
        assert(out@.map_values(|l: Vec<char>| l@) =~= out@.map_values(|l: Vec<char>| l@)
            + labels_from(name@, start as int, i as int));
    }
    out
}

/// Joining one more label at the end adds a dot and the label.
pub proof fn lemma_join_push(ls: Seq<Seq<char>>, l: Seq<char>)
    requires
        ls.len() > 0,
    ensures
        join_dots(ls.push(l)) == join_dots(ls) + seq!['.'] + l,
    decreases ls.len(),
{
    let p = ls.push(l);
    assert(p[0] == ls[0]);
    if ls.len() == 1 {
        assert(p.drop_first() =~= seq![l]);
        assert(join_dots(seq![l]) == l);
        assert(join_dots(ls) == ls[0]);
        assert(join_dots(p) =~= join_dots(ls) + seq!['.'] + l);
    } else {
        assert(p.drop_first() =~= ls.drop_first().push(l));
        lemma_join_push(ls.drop_first(), l);
        assert(join_dots(p) =~= join_dots(ls) + seq!['.'] + l);
    }
}

/// The labels `ls[from..]` joined by dots.
fn join_from(ls: &Vec<Vec<char>>, from: usize) -> (r: Vec<char>)
    requires
        from < ls@.len(),
    ensures
        r@ == join_dots(
            ls@.map_values(|l: Vec<char>| l@).subrange(from as int, ls@.len() as int),
        ),
{
    let ghost v = ls@.map_values(|l: Vec<char>| l@);
    let n = ls.len();
    let mut acc = slice(&ls[from], 0, ls[from].len());
    assert(v.subrange(from as int, from + 1) =~= seq![v[from as int]]);
    let mut j: usize = from + 1;
    while j < ls.len()
        invariant
            from < j <= ls@.len(),
            v == ls@.map_values(|l: Vec<char>| l@),
            acc@ == join_dots(v.subrange(from as int, j as int)),
        decreases ls@.len() - j,
    {
        let mut dot: Vec<char> = Vec::new();
        dot.push('.');
        let with_dot = joined(&acc, &dot);
        acc = joined(&with_dot, &ls[j]);
        proof {
            assert(v.subrange(from as int, j + 1) =~= v.subrange(from as int, j as int).push(
                v[j as int],
            ));
            lemma_join_push(v.subrange(from as int, j as int), v[j as int]);
            assert(dot@ =~= seq!['.']);
        }
        j = j + 1;
    }
    acc
}

/// The keys that a lookup of `query` probes, in the order in which it probes
/// them: the query itself with its trailing dot, then `*.` and each proper suffix of its labels with
/// a trailing dot, from the longest suffix to the shortest.
pub fn lookup_keys_of(query: &str) -> (r: Vec<String>)
    ensures
        r@.map_values(|k: String| k@) == lookup_keys(query@),
{
    let cs = chars_of(query);
    let ls = split_labels(&cs);
    let ghost v = ls@.map_values(|l: Vec<char>| l@);
    let mut keys: Vec<String> = Vec::new();
    keys.push(normalize_name(query));
    let mut i: usize = 1;
    while i < ls.len()
        invariant
            1 <= i,
            i <= ls@.len() || ls@.len() <= 1,
            ls@.len() <= 1 ==> i == 1,
            v == ls@.map_values(|l: Vec<char>| l@),
            v == labels(query@),
            keys@.len() == i,
            keys@[0]@ == normalized(query@),
            forall|j: int|
                1 <= j < i ==> (#[trigger] keys@[j])@ == wildcard_key(
                    v.subrange(j, v.len() as int),
                ),
        decreases ls@.len() - i,
    {
        let suffix = join_from(&ls, i);
        let mut head: Vec<char> = Vec::new();
        head.push('*');
        head.push('.');
        let mut tail: Vec<char> = Vec::new();
        tail.push('.');
        let key = joined(&joined(&head, &suffix), &tail);
        proof {
            assert(head@ =~= seq!['*', '.']);
            assert(tail@ =~= seq!['.']);
        }
        keys.push(string_of(&key));
        i = i + 1;
    }
    proof {
        let kv = keys@.map_values(|k: String| k@);
        let lk = lookup_keys(query@);
        assert(v.len() == ls@.len());
        if v.len() > 1 {
            assert(keys@.len() == v.len());
            assert(lk.len() == 1 + (v.len() - 1));
        } else {
            assert(keys@.len() == 1);
            assert(lk =~= seq![normalized(query@)]);
        }
        assert(kv.len() == lk.len());
        assert forall|j: int| 0 <= j < kv.len() implies kv[j] == lk[j] by {
            if j >= 1 {
                assert(kv[j] == keys@[j]@);
            }
        }
        assert(kv =~= lk);
    }
    keys
}

/// The first value present among `found`.
pub open spec fn first_some(found: Seq<Option<Seq<char>>>) -> Option<Seq<char>>
    decreases found.len(),
{
    if found.len() == 0 {
        None
    } else if found[0] is Some {
        found[0]
    } else {
        first_some(found.drop_first())
    }
}

/// What a store with contents `m` holds under each of `keys`.
pub open spec fn probes(m: Map<Seq<char>, Seq<char>>, keys: Seq<Seq<char>>) -> Seq<
    Option<Seq<char>>,
> {
    keys.map_values(
        |k: Seq<char>|
            if m.contains_key(k) {
                Some(m[k])
            } else {
                None
            },
    )
}

/// Probing each key in order and taking the first value found is what the
/// store answers.
pub proof fn lemma_probes_first_hit(m: Map<Seq<char>, Seq<char>>, keys: Seq<Seq<char>>)
    ensures
        first_some(probes(m, keys)) == first_hit(m, keys),
    decreases keys.len(),
{
    if keys.len() > 0 {
        assert(probes(m, keys).drop_first() =~= probes(m, keys.drop_first()));
        lemma_probes_first_hit(m, keys.drop_first());
    }
}

/// The views of optional strings.
pub open spec fn option_views(v: Seq<Option<String>>) -> Seq<Option<Seq<char>>> {
    v.map_values(
        |o: Option<String>|
            match o {
                Some(x) => Some(x@),
                None => None,
            },
    )
}

/// The first value present among the results of probing the lookup keys in
/// order: the value that a lookup answers.
pub fn first_found(found: &Vec<Option<String>>) -> (r: Option<String>)
    ensures
        match r {
            Some(x) => first_some(option_views(found@)) == Some(x@),
            None => first_some(option_views(found@)) is None,
        },
{
    let ghost all = option_views(found@);
    let n = found.len();
    let mut i: usize = 0;
    assert(all.subrange(0, n as int) =~= all);
    while i < n
        invariant
            i <= n == all.len() == found@.len(),
            all == option_views(found@),
            first_some(all) == first_some(all.subrange(i as int, n as int)),
        decreases n - i,
    {
        let ghost tail = all.subrange(i as int, n as int);
        assert(tail[0] == all[i as int]);
        match &found[i] {
            Some(x) => {
                return Some(x.clone());
            },
            None => {},
        }
        assert(tail.drop_first() =~= all.subrange(i + 1, n as int));
        i = i + 1;
    }
    None
}

/// An ASCII letter or digit.
pub open spec fn is_alphanumeric(c: char) -> bool {
    ('a' <= c && c <= 'z') || ('A' <= c && c <= 'Z') || ('0' <= c && c <= '9')
}

/// Relies on `rand::thread_rng` sampled through `rand::distributions::Alphanumeric`:
/// `len` characters, each an ASCII letter or digit.
#[verifier::external_body]
fn random_alphanumeric(len: usize) -> (r: String)
    ensures
        r@.len() == len,
        forall|i: int| 0 <= i < len ==> is_alphanumeric(#[trigger] r@[i]),
{
    rand::Rng::sample_iter(rand::thread_rng(), &rand::distributions::Alphanumeric).take(len).map(
        char::from,
    ).collect()
}

/// Length of the random part of a store's directory name.
pub const NAME_TOKEN_LEN: usize = 10;

/// The directory name of a store whose random token is `token`: `db-`
/// followed by the token.
pub fn store_dir_name(token: &str) -> (r: String)
    ensures
        r@ == seq!['d', 'b', '-'] + token@,
{
    let mut head: Vec<char> = Vec::new();
    head.push('d');
    head.push('b');
    head.push('-');
    let r = joined(&head, &chars_of(token));
    proof {
        assert(head@ =~= seq!['d', 'b', '-']);
    }
    string_of(&r)
}

/// A fresh directory name for a store: `db-` and a freshly drawn token of ten
/// random letters or digits.
pub fn rand_name() -> (r: String)
    ensures
        r@.len() == 13,
        r@.subrange(0, 3) == seq!['d', 'b', '-'],
        forall|i: int| 3 <= i < 13 ==> is_alphanumeric(#[trigger] r@[i]),
{
    let token = random_alphanumeric(NAME_TOKEN_LEN);
    let r = store_dir_name(token.as_str());
    proof {
        assert(r@.subrange(0, 3) =~= seq!['d', 'b', '-']);
        assert forall|i: int| 3 <= i < 13 implies is_alphanumeric(#[trigger] r@[i]) by {
            assert(r@[i] == token@[i - 3]);
        }
    }
    r
}

/// Whether a name is blocked, from whether the whitelist and the blacklist
/// hold it: a whitelisted name is never blocked.
pub fn blocked_verdict(whitelisted: bool, blacklisted: bool) -> (r: bool)
    ensures
        r == (!whitelisted && blacklisted),
{
    if whitelisted {
        false
    } else {
        blacklisted
    }
}

/// Whether the rule stores with contents `whitelist` and `blacklist` block `q`.
pub open spec fn is_blocked_in(
    whitelist: Map<Seq<char>, Seq<char>>,
    blacklist: Map<Seq<char>, Seq<char>>,
    q: Seq<char>,
) -> bool {
    store_get(whitelist, q) is None && store_get(blacklist, q) is Some
}

/// A key that the store holds under the query itself is what a lookup finds,
/// whatever wildcard keys it holds as well.
pub proof fn lemma_exact_key_first(m: Map<Seq<char>, Seq<char>>, q: Seq<char>)
    requires
        m.contains_key(normalized(q)),
    ensures
        store_get(m, q) == Some(m[normalized(q)]),
{
    assert(lookup_keys(q)[0] == normalized(q));
}

/// A name that the whitelist answers for is not blocked, whatever the blacklist
/// holds.
pub proof fn lemma_whitelist_wins(
    whitelist: Map<Seq<char>, Seq<char>>,
    blacklist: Map<Seq<char>, Seq<char>>,
    q: Seq<char>,
)
    requires
        store_get(whitelist, q) is Some,
    ensures
        !is_blocked_in(whitelist, blacklist, q),
{
}

/// Number of characters of `s` other than dots.
pub open spec fn non_dots(s: Seq<char>) -> nat
    decreases s.len(),
{
    if s.len() == 0 {
        0
    } else {
        (if s[0] == '.' {
            0nat
        } else {
            1nat
        }) + non_dots(s.drop_first())
    }
}

/// Number of characters other than dots in all of `ls`.
pub open spec fn total_non_dots(ls: Seq<Seq<char>>) -> nat
    decreases ls.len(),
{
    if ls.len() == 0 {
        0
    } else {
        non_dots(ls[0]) + total_non_dots(ls.drop_first())
    }
}

proof fn lemma_non_dots_concat(a: Seq<char>, b: Seq<char>)
    ensures
        non_dots(a + b) == non_dots(a) + non_dots(b),
    decreases a.len(),
{
    if a.len() > 0 {
        assert((a + b).drop_first() =~= a.drop_first() + b);
        lemma_non_dots_concat(a.drop_first(), b);
    } else {
        assert(a + b =~= b);
    }
}

proof fn lemma_total_concat(a: Seq<Seq<char>>, b: Seq<Seq<char>>)
    ensures
        total_non_dots(a + b) == total_non_dots(a) + total_non_dots(b),
    decreases a.len(),
{
    if a.len() > 0 {
        assert((a + b).drop_first() =~= a.drop_first() + b);
        lemma_total_concat(a.drop_first(), b);
    } else {
        assert(a + b =~= b);
    }
}

proof fn lemma_non_dots_label(l: Seq<char>)
    requires
        forall|j: int| 0 <= j < l.len() ==> l[j] != '.',
    ensures
        non_dots(l) == l.len(),
    decreases l.len(),
{
    if l.len() > 0 {
        lemma_non_dots_label(l.drop_first());
    }
}

proof fn lemma_non_dots_dot()
    ensures
        non_dots(seq!['.']) == 0,
        non_dots(seq!['*', '.']) == 1,
{
    let e = Seq::<char>::empty();
    let d = seq!['.'];
    let sd = seq!['*', '.'];
    assert(non_dots(e) == 0);
    assert(d.drop_first() =~= e);
    assert(d[0] == '.');
    assert(non_dots(d) == non_dots(d.drop_first()));
    assert(sd.drop_first() =~= d);
    assert(sd[0] == '*');
    assert(non_dots(sd) == 1 + non_dots(sd.drop_first()));
}

proof fn lemma_join_non_dots(ls: Seq<Seq<char>>)
    ensures
        non_dots(join_dots(ls)) == total_non_dots(ls),
    decreases ls.len(),
{
    if ls.len() == 0 {
        assert(join_dots(ls) =~= Seq::<char>::empty());
    } else if ls.len() == 1 {
        assert(ls.drop_first() =~= Seq::<Seq<char>>::empty());
        assert(total_non_dots(ls.drop_first()) == 0);
        assert(join_dots(ls) == ls[0]);
    } else {
        lemma_join_non_dots(ls.drop_first());
        lemma_non_dots_concat(ls[0], seq!['.']);
        lemma_non_dots_concat(ls[0] + seq!['.'], join_dots(ls.drop_first()));
        lemma_non_dots_dot();
    }
}

/// The labels of `s` hold all its characters other than dots, each label is
/// non-empty, and none holds a dot.
proof fn lemma_labels_from(s: Seq<char>, start: int, i: int)
    requires
        0 <= start <= i <= s.len(),
        forall|j: int| start <= j < i ==> s[j] != '.',
    ensures
        total_non_dots(labels_from(s, start, i)) == non_dots(s.subrange(start, s.len() as int)),
        forall|k: int|
            0 <= k < labels_from(s, start, i).len() ==> (#[trigger] labels_from(s, start, i)[k]).len()
                > 0 && forall|j: int|
                0 <= j < labels_from(s, start, i)[k].len() ==> labels_from(s, start, i)[k][j] != '.',
    decreases s.len() - i,
{
    let ls = labels_from(s, start, i);
    let tail = s.subrange(start, s.len() as int);
    if i >= s.len() {
        if start < s.len() {
            assert(ls == seq![tail]);
            assert(ls.drop_first() =~= Seq::<Seq<char>>::empty());
            assert(total_non_dots(ls.drop_first()) == 0);
            assert(total_non_dots(ls) == non_dots(tail));
            assert forall|j: int| 0 <= j < tail.len() implies tail[j] != '.' by {
                assert(tail[j] == s[start + j]);
            }
        } else {
            assert(tail =~= Seq::<char>::empty());
            assert(ls.len() == 0);
        }
    } else if s[i] == '.' {
        lemma_labels_from(s, i + 1, i + 1);
        let rest = labels_from(s, i + 1, i + 1);
        let after = s.subrange(i + 1, s.len() as int);
        assert(s.subrange(i + 1, s.len() as int) == after);
        let head = s.subrange(start, i);
        assert(tail =~= head + (seq!['.'] + after));
        lemma_non_dots_concat(head, seq!['.'] + after);
        lemma_non_dots_concat(seq!['.'], after);
        lemma_non_dots_dot();
        assert(non_dots(tail) == non_dots(head) + non_dots(after));
        if start < i {
            lemma_total_concat(seq![head], rest);
            assert(seq![head].drop_first() =~= Seq::<Seq<char>>::empty());
            assert(total_non_dots(seq![head].drop_first()) == 0);
            assert(total_non_dots(seq![head]) == non_dots(head));
            assert(ls == seq![head] + rest);
            assert forall|k: int| 0 <= k < ls.len() implies (#[trigger] ls[k]).len() > 0 && forall|
                j: int,
            | 0 <= j < ls[k].len() ==> ls[k][j] != '.' by {
                if k > 0 {
                    assert(ls[k] == rest[k - 1]);
                } else {
                    assert(ls[0] == head);
                    assert forall|j: int| 0 <= j < head.len() implies head[j] != '.' by {
                        assert(head[j] == s[start + j]);
                    }
                }
            }
        } else {
            assert(head =~= Seq::<char>::empty());
            assert(non_dots(head) == 0);
            assert(ls == rest);
        }
    } else {
        lemma_labels_from(s, start, i + 1);
        assert(ls == labels_from(s, start, i + 1));
    }
}

/// A lookup never probes the wildcard key made of the query's own labels, so a
/// wildcard key `*.X.` answers for names strictly below `X` and never for `X`
/// itself.
pub proof fn lemma_wildcard_skips_apex(q: Seq<char>, v: Seq<char>)
    ensures
        !lookup_keys(q).contains(wildcard_key(labels(q))),
        store_get(map![wildcard_key(labels(q)) => v], q) is None,
{
    let ls = labels(q);
    let w = wildcard_key(ls);
    let keys = lookup_keys(q);
    lemma_labels_from(q, 0, 0);
    assert(q.subrange(0, q.len() as int) =~= q);
    lemma_join_non_dots(ls);
    lemma_non_dots_concat(seq!['*', '.'], join_dots(ls));
    lemma_non_dots_concat(seq!['*', '.'] + join_dots(ls), seq!['.']);
    lemma_non_dots_dot();
    assert(non_dots(w) == 1 + total_non_dots(ls));
    assert forall|k: int| 0 <= k < keys.len() implies keys[k] != w by {
        if k == 0 && q.len() > 0 && q.last() == '.' {
            assert(keys[k] == q);
        } else if k == 0 {
            lemma_non_dots_concat(q, seq!['.']);
            assert(keys[k] == q + seq!['.']);
        }
        if k > 0 {
            let suffix = ls.subrange(k, ls.len() as int);
            lemma_join_non_dots(suffix);
            lemma_non_dots_concat(seq!['*', '.'], join_dots(suffix));
            lemma_non_dots_concat(seq!['*', '.'] + join_dots(suffix), seq!['.']);
            assert(ls =~= ls.subrange(0, k) + suffix);
            lemma_total_concat(ls.subrange(0, k), suffix);
            let pre = ls.subrange(0, k);
            assert(pre[0] == ls[0]);
            lemma_non_dots_label(ls[0]);
            assert(total_non_dots(pre) >= non_dots(pre[0]));
        }
    }
    let m = map![w => v];
    lemma_first_hit_none(m, keys);
}

proof fn lemma_first_hit_none(m: Map<Seq<char>, Seq<char>>, keys: Seq<Seq<char>>)
    requires
        forall|k: int| 0 <= k < keys.len() ==> !m.contains_key(#[trigger] keys[k]),
    ensures
        first_hit(m, keys) is None,
    decreases keys.len(),
{
    if keys.len() > 0 {
        assert(!m.contains_key(keys[0]));
        assert forall|k: int| 0 <= k < keys.drop_first().len() implies !m.contains_key(
            #[trigger] keys.drop_first()[k],
        ) by {
            assert(keys.drop_first()[k] == keys[k + 1]);
        }
        lemma_first_hit_none(m, keys.drop_first());
    }
}

} // verus!
