//! Reading a whole source text: its lines, the entries that they hold, and the
//! key-value pairs that the stores receive for them.
use vstd::prelude::*;
use crate::formats::{blacklist_line, rewrite_line, whitelist_line, ParseBlacklist, ParseRewrite, ParseWhitelist};
use crate::parser::{CName, Domain};
use crate::text::{chars_of, slice, string_of};

verus! {

/// A line without the carriage return that ended it, if one did.
pub open spec fn drop_cr(s: Seq<char>) -> Seq<char> {
    if s.len() > 0 && s.last() == '\r' {
        s.drop_last()
    } else {
        s
    }
}

/// The lines of `s` from position `i` on, where the current line started at
/// `start`: each line ends at a line feed, which it loses together with a
/// carriage return just before it; a last line without a line feed is kept
/// when it is not empty.
pub open spec fn lines_from(s: Seq<char>, start: int, i: int) -> Seq<Seq<char>>
    decreases s.len() - i,
{
    if i >= s.len() {
        if start < s.len() {
            seq![s.subrange(start, s.len() as int)]
        } else {
            seq![]
        }
    } else if s[i] == '\n' {
        seq![drop_cr(s.subrange(start, i))] + lines_from(s, i + 1, i + 1)
    } else {
        lines_from(s, start, i + 1)
    }
}

/// The lines of a text, as `str::lines` yields them.
pub open spec fn lines(s: Seq<char>) -> Seq<Seq<char>> {
    lines_from(s, 0, 0)
}

/// The views of a sequence of strings.
pub open spec fn views(v: Seq<String>) -> Seq<Seq<char>> {
    v.map_values(|x: String| x@)
}

/// The lines of `text`.
pub fn split_lines(text: &str) -> (r: Vec<String>)
    ensures
        views(r@) == lines(text@),
{
    let cs = chars_of(text);
    let n = cs.len();
    let mut out: Vec<String> = Vec::new();
    let mut start: usize = 0;
    let mut i: usize = 0;
    while i < n
        invariant
            start <= i <= n == cs@.len(),
            cs@ == text@,
            views(out@) + lines_from(cs@, start as int, i as int) == lines(text@),
        decreases n - i,
    {
        if cs[i] == '\n' {
            let end = if i > start && cs[i - 1] == '\r' {
                i - 1
            } else {
                i
            };
            let line = string_of(&slice(&cs, start, end));
            proof {
                assert(line@ == drop_cr(cs@.subrange(start as int, i as int)));
            }
            let ghost before = out@;
            out.push(line);
            proof {
                assert(views(out@) =~= views(before) + seq![line@]);
                assert(views(out@) + lines_from(cs@, i + 1, i + 1) =~= views(before)
                    + lines_from(cs@, start as int, i as int));
            }
            start = i + 1;
        }
        i = i + 1;
    }
    if start < n {
        let line = string_of(&slice(&cs, start, n));
        let ghost before = out@;
        out.push(line);
        proof {
            assert(views(out@) =~= views(before) + seq![line@]);
        }
    } else {
        assert(views(out@) =~= views(out@) + lines_from(cs@, start as int, i as int));
    }
    out
}

/// The domains that the blacklist lines `ls` hold, in order.
pub open spec fn blacklist_domains(p: ParseBlacklist, ls: Seq<Seq<char>>) -> Seq<Seq<char>>
    decreases ls.len(),
{
    if ls.len() == 0 {
        seq![]
    } else {
        let rest = blacklist_domains(p, ls.drop_last());
        match blacklist_line(p, ls.last()) {
            Some(d) => rest.push(d),
            None => rest,
        }
    }
}

/// The domains that the whitelist lines `ls` hold, in order.
pub open spec fn whitelist_domains(p: ParseWhitelist, ls: Seq<Seq<char>>) -> Seq<Seq<char>>
    decreases ls.len(),
{
    if ls.len() == 0 {
        seq![]
    } else {
        let rest = whitelist_domains(p, ls.drop_last());
        match whitelist_line(p, ls.last()) {
            Some(d) => rest.push(d),
            None => rest,
        }
    }
}

/// The alias entries that the overrides lines `ls` hold, in order.
pub open spec fn rewrite_entries(p: ParseRewrite, ls: Seq<Seq<char>>) -> Seq<(Seq<char>, Seq<char>)>
    decreases ls.len(),
{
    if ls.len() == 0 {
        seq![]
    } else {
        let rest = rewrite_entries(p, ls.drop_last());
        match rewrite_line(p, ls.last()) {
            Some(c) => rest.push(c),
            None => rest,
        }
    }
}

pub open spec fn domain_views(v: Seq<Domain>) -> Seq<Seq<char>> {
    v.map_values(|d: Domain| d@)
}

pub open spec fn cname_views(v: Seq<CName>) -> Seq<(Seq<char>, Seq<char>)> {
    v.map_values(|c: CName| c@)
}

/// The domains of a fetched blacklist source; lines that hold none are dropped.
pub fn parse_blacklist_text(parser: &ParseBlacklist, text: &str) -> (r: Vec<Domain>)
    ensures
        domain_views(r@) == blacklist_domains(*parser, lines(text@)),
{
    let ls = split_lines(text);
    let mut out: Vec<Domain> = Vec::new();
    let mut i: usize = 0;
    while i < ls.len()
        invariant
            i <= ls@.len(),
            views(ls@) == lines(text@),
            domain_views(out@) == blacklist_domains(*parser, views(ls@).subrange(0, i as int)),
        decreases ls@.len() - i,
    {
        let ghost before = out@;
        proof {
            assert(views(ls@).subrange(0, i + 1).drop_last() =~= views(ls@).subrange(0, i as int));
        }
        if let Some(d) = parser.parse(ls[i].as_str()) {
            out.push(d);
            assert(domain_views(out@) =~= domain_views(before).push(d@));
        }
        i = i + 1;
    }
    assert(views(ls@).subrange(0, i as int) =~= views(ls@));
    out
}

/// The domains of a fetched whitelist source; lines that hold none are dropped.
pub fn parse_whitelist_text(parser: &ParseWhitelist, text: &str) -> (r: Vec<Domain>)
    ensures
        domain_views(r@) == whitelist_domains(*parser, lines(text@)),
{
    let ls = split_lines(text);
    let mut out: Vec<Domain> = Vec::new();
    let mut i: usize = 0;
    while i < ls.len()
        invariant
            i <= ls@.len(),
            views(ls@) == lines(text@),
            domain_views(out@) == whitelist_domains(*parser, views(ls@).subrange(0, i as int)),
        decreases ls@.len() - i,
    {
        let ghost before = out@;
        proof {
            assert(views(ls@).subrange(0, i + 1).drop_last() =~= views(ls@).subrange(0, i as int));
        }
        if let Some(d) = parser.parse(ls[i].as_str()) {
            out.push(d);
            assert(domain_views(out@) =~= domain_views(before).push(d@));
        }
        i = i + 1;
    }
    assert(views(ls@).subrange(0, i as int) =~= views(ls@));
    out
}

/// The alias entries of a fetched overrides source; lines that hold none are
/// dropped.
pub fn parse_rewrites_text(parser: &ParseRewrite, text: &str) -> (r: Vec<CName>)
    ensures
        cname_views(r@) == rewrite_entries(*parser, lines(text@)),
{
    let ls = split_lines(text);
    let mut out: Vec<CName> = Vec::new();
    let mut i: usize = 0;
    while i < ls.len()
        invariant
            i <= ls@.len(),
            views(ls@) == lines(text@),
            cname_views(out@) == rewrite_entries(*parser, views(ls@).subrange(0, i as int)),
        decreases ls@.len() - i,
    {
        let ghost before = out@;
        proof {
            assert(views(ls@).subrange(0, i + 1).drop_last() =~= views(ls@).subrange(0, i as int));
        }
        if let Some(c) = parser.parse(ls[i].as_str()) {
            out.push(c);
            assert(cname_views(out@) =~= cname_views(before).push(c@));
        }
        i = i + 1;
    }
    assert(views(ls@).subrange(0, i as int) =~= views(ls@));
    out
}

} // verus!
