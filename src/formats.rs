//! The list formats of the configuration, and the line parser that each one
//! selects.
use vstd::prelude::*;
use crate::parser::{parse_cname_entry, parse_domain, parse_host_entry, CName, Domain, Host};

verus! {

/// Formats of a blacklist source.
#[derive(Debug, Clone, Copy, PartialEq, Eq, Structural)]
pub enum BlacklistFormat {
    Hosts,
    Domains,
}

/// Formats of a whitelist source.
#[derive(Debug, Clone, Copy, PartialEq, Eq, Structural)]
pub enum WhitelistFormat {
    Hosts,
    Domains,
    Zone,
}

/// Formats of an overrides source.
#[derive(Debug, Clone, Copy, PartialEq, Eq, Structural)]
pub enum OverrideFormat {
    Cname,
}

/// A source as the configuration document writes it: its format and its path.
#[derive(Debug, Clone, PartialEq, Eq)]
pub struct RawSource<T> {
    pub format: T,
    pub path: String,
}

/// The configuration document: three ordered lists of sources.
#[derive(Debug, Clone, PartialEq, Eq)]
pub struct RawConfig {
    pub blacklist: Vec<RawSource<BlacklistFormat>>,
    pub whitelist: Vec<RawSource<WhitelistFormat>>,
    pub overrides: Vec<RawSource<OverrideFormat>>,
}

/// How the lines of a blacklist source are read.
#[derive(Debug, Clone, Copy, PartialEq, Eq, Structural)]
pub enum ParseBlacklist {
    Hosts,
    Domains,
}

/// How the lines of a whitelist source are read.
#[derive(Debug, Clone, Copy, PartialEq, Eq, Structural)]
pub enum ParseWhitelist {
    Hosts,
    Domains,
    Zone,
}

/// How the lines of an overrides source are read.
#[derive(Debug, Clone, Copy, PartialEq, Eq, Structural)]
pub enum ParseRewrite {
    CName,
}

/// The domain that a blacklist line holds.
pub open spec fn blacklist_line(p: ParseBlacklist, line: Seq<char>) -> Option<Seq<char>> {
    match p {
        ParseBlacklist::Hosts => match parse_host_entry(line) {
            Some(h) => Some(h.1),
            None => None,
        },
        ParseBlacklist::Domains => parse_domain(line),
    }
}

/// The domain that a whitelist line holds; of a zone line, the aliased domain.
pub open spec fn whitelist_line(p: ParseWhitelist, line: Seq<char>) -> Option<Seq<char>> {
    match p {
        ParseWhitelist::Hosts => match parse_host_entry(line) {
            Some(h) => Some(h.1),
            None => None,
        },
        ParseWhitelist::Domains => parse_domain(line),
        ParseWhitelist::Zone => match parse_cname_entry(line) {
            Some(c) => Some(c.0),
            None => None,
        },
    }
}

/// The alias entry that an overrides line holds.
pub open spec fn rewrite_line(p: ParseRewrite, line: Seq<char>) -> Option<(Seq<char>, Seq<char>)> {
    match p {
        ParseRewrite::CName => parse_cname_entry(line),
    }
}

impl ParseBlacklist {
    pub fn parse(&self, value: &str) -> (r: Option<Domain>)
        ensures
            r matches Some(d) ==> blacklist_line(*self, value@) == Some(d@),
            r is None ==> blacklist_line(*self, value@) is None,
    {
        match self {
            ParseBlacklist::Hosts => match Host::parse(value) {
                Some(h) => Some(h.into_domain()),
                None => None,
            },
            ParseBlacklist::Domains => Domain::parse(value),
        }
    }

    pub fn from_format(value: &BlacklistFormat) -> (r: ParseBlacklist)
        ensures
            r == (match *value {
                BlacklistFormat::Hosts => ParseBlacklist::Hosts,
                BlacklistFormat::Domains => ParseBlacklist::Domains,
            }),
    {
        match value {
            BlacklistFormat::Hosts => ParseBlacklist::Hosts,
            BlacklistFormat::Domains => ParseBlacklist::Domains,
        }
    }
}

impl ParseWhitelist {
    pub fn parse(&self, value: &str) -> (r: Option<Domain>)
        ensures
            r matches Some(d) ==> whitelist_line(*self, value@) == Some(d@),
            r is None ==> whitelist_line(*self, value@) is None,
    {
        match self {
            ParseWhitelist::Hosts => match Host::parse(value) {
                Some(h) => Some(h.into_domain()),
                None => None,
            },
            ParseWhitelist::Domains => Domain::parse(value),
            ParseWhitelist::Zone => match CName::parse(value) {
                Some(c) => Some(c.into_domain()),
                None => None,
            },
        }
    }

    pub fn from_format(value: &WhitelistFormat) -> (r: ParseWhitelist)
        ensures
            r == (match *value {
                WhitelistFormat::Hosts => ParseWhitelist::Hosts,
                WhitelistFormat::Domains => ParseWhitelist::Domains,
                WhitelistFormat::Zone => ParseWhitelist::Zone,
            }),
    {
        match value {
            WhitelistFormat::Hosts => ParseWhitelist::Hosts,
            WhitelistFormat::Domains => ParseWhitelist::Domains,
            WhitelistFormat::Zone => ParseWhitelist::Zone,
        }
    }
}

impl ParseRewrite {
    pub fn parse(&self, value: &str) -> (r: Option<CName>)
        ensures
            r matches Some(c) ==> rewrite_line(*self, value@) == Some(c@),
            r is None ==> rewrite_line(*self, value@) is None,
    {
        match self {
            ParseRewrite::CName => CName::parse(value),
        }
    }

    pub fn from_format(value: &OverrideFormat) -> (r: ParseRewrite)
        ensures
            r == ParseRewrite::CName,
    {
        match value {
            OverrideFormat::Cname => ParseRewrite::CName,
        }
    }
}

} // verus!
