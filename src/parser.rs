//! Parsers that turn one line of a list into a domain, a host entry or an
//! alias entry.
use vstd::prelude::*;
use crate::pattern::{cname_match, domain_match, find_cname, find_domain, find_host, host_match};
use crate::text::{ascii_only, chars_of, joined, slice, string_of, trim, trim_chars};

verus! {

/// Whether `addr` takes `s` for a domain name.
pub uninterp spec fn addr_accepts(s: Seq<char>) -> bool;

/// What IDNA's domain-to-ASCII algorithm makes of `s`; `None` where it fails.
pub uninterp spec fn ascii_form(s: Seq<char>) -> Option<Seq<char>>;

/// Relies on `addr::parse_domain_name`: it accepts or refuses `s` as a domain
/// name (the name it hands back on success is `s` itself).
#[verifier::external_body]
fn is_domain_name(s: &str) -> (r: bool)
    ensures
        r == addr_accepts(s@),
{
    addr::parse_domain_name(s).is_ok()
}

/// Relies on `idna::domain_to_ascii`: on success it returns the ASCII
/// representation of the domain name.
#[verifier::external_body]
fn domain_to_ascii(s: &str) -> (r: Option<String>)
    ensures
        r matches Some(t) ==> ascii_form(s@) == Some(t@) && ascii_only(t@),
        r is None ==> ascii_form(s@) is None,
{
    idna::domain_to_ascii(s).ok()
}

/// `s` with every `*.` taken out, scanning from left to right.
pub open spec fn without_stars(s: Seq<char>) -> Seq<char>
    decreases s.len(),
{
    if s.len() >= 2 && s[0] == '*' && s[1] == '.' {
        without_stars(s.subrange(2, s.len() as int))
    } else if s.len() == 0 {
        s
    } else {
        seq![s[0]] + without_stars(s.drop_first())
    }
}

/// The shape starts with the wildcard label.
pub open spec fn is_wildcard(c: Seq<char>) -> bool {
    c.len() >= 2 && c[0] == '*' && c[1] == '.'
}

/// The name that a domain shape stands for, before IDNA: a wildcard keeps its
/// `*.` in front of the name that the rest makes; either name must be one that
/// `addr` accepts.
pub open spec fn shape_name(c: Seq<char>) -> Option<Seq<char>> {
    if is_wildcard(c) {
        if addr_accepts(without_stars(c)) {
            Some(seq!['*', '.'] + without_stars(c))
        } else {
            None
        }
    } else if addr_accepts(c) {
        Some(c)
    } else {
        None
    }
}

/// The domain that a line holds: none for a comment line (one that starts with
/// `#`); else the first domain shape of the line, checked by `addr`, trimmed,
/// and converted by IDNA to its ASCII form.
pub open spec fn parse_domain(s: Seq<char>) -> Option<Seq<char>> {
    if s.len() > 0 && s[0] == '#' {
        None
    } else {
        match domain_match(s) {
            None => None,
            Some(c) => match shape_name(c) {
                None => None,
                Some(x) => ascii_form(trim(x)),
            },
        }
    }
}

/// The host entry that a line holds: its address as written and the domain
/// that its trimmed domain shape parses to.
pub open spec fn parse_host_entry(s: Seq<char>) -> Option<(Seq<char>, Seq<char>)> {
    match host_match(s) {
        None => None,
        Some((ip, d)) => match parse_domain(trim(d)) {
            None => None,
            Some(x) => Some((ip, x)),
        },
    }
}

/// The alias entry that a line holds: the domains that its trimmed domain and
/// alias shapes parse to.
pub open spec fn parse_cname_entry(s: Seq<char>) -> Option<(Seq<char>, Seq<char>)> {
    match cname_match(s) {
        None => None,
        Some((d, a)) => match (parse_domain(trim(d)), parse_domain(trim(a))) {
            (Some(x), Some(y)) => Some((x, y)),
            _ => None,
        },
    }
}

/// `s` with every `*.` taken out, as `str::replace` leaves it.
fn remove_stars(s: &Vec<char>) -> (r: Vec<char>)
    ensures
        r@ == without_stars(s@),
{
    let n = s.len();
    let mut r: Vec<char> = Vec::new();
    let mut i: usize = 0;
    assert(s@.subrange(0, n as int) =~= s@);
    assert(r@ + without_stars(s@) =~= without_stars(s@));
    while i < n
        invariant
            i <= n == s@.len(),
            r@ + without_stars(s@.subrange(i as int, n as int)) == without_stars(s@),
        decreases n - i,
    {
        let ghost rest = s@.subrange(i as int, n as int);
        if n - i >= 2 && s[i] == '*' && s[i + 1] == '.' {
            assert(rest.subrange(2, rest.len() as int) =~= s@.subrange(i + 2, n as int));
            i = i + 2;
        } else {
            assert(rest.drop_first() =~= s@.subrange(i + 1, n as int));
            r.push(s[i]);
            i = i + 1;
            assert(r@ + without_stars(s@.subrange(i as int, n as int)) =~= without_stars(s@));
        }
    }
    assert(without_stars(s@.subrange(n as int, n as int)) =~= Seq::<char>::empty());
    assert(r@ + Seq::<char>::empty() =~= r@);
    r
}

/// The first domain shape of a line, as written there.
pub fn extract_domain_text(value: &str) -> (r: Option<String>)
    ensures
        r matches Some(t) ==> domain_match(value@) == Some(t@),
        r is None ==> domain_match(value@) is None,
{
    let cs = chars_of(value);
    match find_domain(&cs) {
        Some((a, b)) => Some(string_of(&slice(&cs, a, b))),
        None => None,
    }
}

/// A domain name in the form the rule stores keep: ASCII (punycode), without a
/// trailing dot, or `*.` followed by such a name.
#[derive(Debug, PartialEq, Eq, Hash)]
pub struct Domain(pub String);

impl View for Domain {
    type V = Seq<char>;

    open spec fn view(&self) -> Seq<char> {
        self.0@
    }
}

impl Domain {
    /// The domain that the line `value` holds, if any.
    pub fn parse(value: &str) -> (r: Option<Domain>)
        ensures
            r matches Some(d) ==> parse_domain(value@) == Some(d@) && ascii_only(d@),
            r is None ==> parse_domain(value@) is None,
            value@.len() > 0 && value@[0] == '#' ==> r is None,
            value@.len() == 0 ==> r is None,
    {
        let cs = chars_of(value);
        if cs.len() > 0 && cs[0] == '#' {
            return None;
        }
        let (a, b) = match find_domain(&cs) {
            Some(span) => span,
            None => {
                return None;
            },
        };
        let c = slice(&cs, a, b);
        let name = if c.len() >= 2 && c[0] == '*' && c[1] == '.' {
            let rest = remove_stars(&c);
            if !is_domain_name(string_of(&rest).as_str()) {
                return None;
            }
            let mut star: Vec<char> = Vec::new();
            star.push('*');
            star.push('.');
            proof {
                assert(star@ =~= seq!['*', '.']);
            }
            joined(&star, &rest)
        } else {
            if !is_domain_name(string_of(&c).as_str()) {
                return None;
            }
            c
        };
        let t = trim_chars(&name);
        match domain_to_ascii(string_of(&t).as_str()) {
            Some(x) => Some(Domain(x)),
            None => None,
        }
    }

    /// The name as a string slice.
    pub fn as_str(&self) -> (r: &str)
        ensures
            r@ == self@,
    {
        self.0.as_str()
    }
}

/// The line holds no domain.
#[derive(Debug, Clone, Copy, PartialEq, Eq, Structural)]
pub struct ParseDomainError;

impl Domain {
    /// The domain that the line `value` holds, or an error where it holds none.
    pub fn try_parse(value: &str) -> (r: Result<Domain, ParseDomainError>)
        ensures
            r matches Ok(d) ==> parse_domain(value@) == Some(d@),
            r is Err ==> parse_domain(value@) is None,
    {
        match Domain::parse(value) {
            Some(d) => Ok(d),
            None => Err(ParseDomainError),
        }
    }
}

/// A line of a hosts file: an address and the domain that it names.
#[derive(Debug, PartialEq, Eq)]
pub struct Host {
    pub ip: String,
    pub domain: Domain,
}

impl View for Host {
    type V = (Seq<char>, Seq<char>);

    open spec fn view(&self) -> (Seq<char>, Seq<char>) {
        (self.ip@, self.domain@)
    }
}

/// The host entry that the line `value` holds, if any.
pub fn parse_host(value: &str) -> (r: Option<Host>)
    ensures
        r matches Some(h) ==> parse_host_entry(value@) == Some(h@),
        r is None ==> parse_host_entry(value@) is None,
{
    let cs = chars_of(value);
    match find_host(&cs) {
        Some((a, b, c, d)) => {
            let ip = string_of(&slice(&cs, a, b));
            let name = string_of(&trim_chars(&slice(&cs, c, d)));
            match Domain::parse(name.as_str()) {
                Some(domain) => Some(Host { ip, domain }),
                None => None,
            }
        },
        None => None,
    }
}

impl Host {
    /// The host entry that the line `value` holds, if any.
    pub fn parse(value: &str) -> (r: Option<Host>)
        ensures
            r matches Some(h) ==> parse_host_entry(value@) == Some(h@),
            r is None ==> parse_host_entry(value@) is None,
    {
        parse_host(value)
    }

    /// The domain of the entry; the address is dropped.
    pub fn into_domain(self) -> (r: Domain)
        ensures
            r@ == self@.1,
    {
        self.domain
    }
}

/// An alias entry: queries for `domain` are answered as if for `alias`.
#[derive(Debug, PartialEq, Eq)]
pub struct CName {
    pub domain: Domain,
    pub alias: Domain,
}

impl View for CName {
    type V = (Seq<char>, Seq<char>);

    open spec fn view(&self) -> (Seq<char>, Seq<char>) {
        (self.domain@, self.alias@)
    }
}

fn parse_cname(input: &str) -> (r: Option<CName>)
    ensures
        r matches Some(c) ==> parse_cname_entry(input@) == Some(c@),
        r is None ==> parse_cname_entry(input@) is None,
{
    let cs = chars_of(input);
    match find_cname(&cs) {
        Some((a, b, c, d)) => {
            let domain = string_of(&trim_chars(&slice(&cs, a, b)));
            let alias = string_of(&trim_chars(&slice(&cs, c, d)));
            match (Domain::parse(domain.as_str()), Domain::parse(alias.as_str())) {
                (Some(domain), Some(alias)) => Some(CName { domain, alias }),
                _ => None,
            }
        },
        None => None,
    }
}

impl CName {
    /// The alias entry that the line `input` holds, if any.
    pub fn parse(input: &str) -> (r: Option<CName>)
        ensures
            r matches Some(c) ==> parse_cname_entry(input@) == Some(c@),
            r is None ==> parse_cname_entry(input@) is None,
    {
        parse_cname(input)
    }

    /// The domain that the entry aliases; the alias is dropped.
    pub fn into_domain(self) -> (r: Domain)
        ensures
            r@ == self@.0,
    {
        self.domain
    }
}

} // verus!
