//! Where a configured source is read from: a URL, or a file path, resolved
//! against the location of the configuration itself.
use vstd::prelude::*;
use crate::text::{chars_of, trim, trim_chars};

verus! {

/// What the `url` crate makes of `s`: the serialisation of the parsed URL, or
/// `None` where `s` is no absolute URL.
pub uninterp spec fn url_form(s: Seq<char>) -> Option<Seq<char>>;

/// What the `url` crate makes of `rel` joined to the URL `base`.
pub uninterp spec fn url_join(base: Seq<char>, rel: Seq<char>) -> Option<Seq<char>>;

/// The directory that contains the path `p`, as `std::path::Path::parent`
/// gives it.
pub uninterp spec fn path_parent(p: Seq<char>) -> Option<Seq<char>>;

/// The path `rel` joined to the directory `dir`, as `std::path::Path::join`
/// gives it.
pub uninterp spec fn path_join(dir: Seq<char>, rel: Seq<char>) -> Seq<char>;

/// Relies on `url::Url::parse`: it parses `s` as an absolute URL; the result is
/// kept as its serialisation.
#[verifier::external_body]
fn parse_url(s: &str) -> (r: Option<String>)
    ensures
        r matches Some(u) ==> url_form(s@) == Some(u@),
        r is None ==> url_form(s@) is None,
{
    url::Url::parse(s).ok().map(|u| u.to_string())
}

/// Relies on `url::Url::join`: it resolves `rel` against `base`, a URL kept as
/// its serialisation.
#[verifier::external_body]
fn join_url(base: &str, rel: &str) -> (r: Option<String>)
    ensures
        r matches Some(u) ==> url_join(base@, rel@) == Some(u@),
        r is None ==> url_join(base@, rel@) is None,
{
    url::Url::parse(base).and_then(|u| u.join(rel)).ok().map(|u| u.to_string())
}

/// Relies on `std::path::Path::parent`: the path without its last component.
#[verifier::external_body]
fn parent_dir(p: &str) -> (r: Option<String>)
    ensures
        r matches Some(d) ==> path_parent(p@) == Some(d@),
        r is None ==> path_parent(p@) is None,
{
    std::path::Path::new(p).parent().map(|d| d.to_string_lossy().into_owned())
}

/// Relies on `std::path::Path::join`: `rel` appended to the directory `dir`.
#[verifier::external_body]
fn join_path(dir: &str, rel: &str) -> (r: String)
    ensures
        r@ == path_join(dir@, rel@),
{
    std::path::Path::new(dir).join(rel).to_string_lossy().into_owned()
}

/// A location: an absolute URL (kept as its serialisation) or a file path.
#[derive(Debug, Clone, PartialEq, Eq)]
pub enum FileOrUrl {
    Url(String),
    File(String),
}

/// The view of a location: whether it is a URL, and its text.
pub open spec fn location(l: FileOrUrl) -> (bool, Seq<char>) {
    match l {
        FileOrUrl::Url(u) => (true, u@),
        FileOrUrl::File(p) => (false, p@),
    }
}

/// Why a source could not be resolved.
#[derive(Debug, Clone, Copy, PartialEq, Eq, Structural)]
pub enum SourceError {
    /// The text is no URL, or does not join to the configuration's URL.
    InvalidUrl,
    /// The configuration's path has no parent directory.
    InvalidPath,
    /// No file stands at the path.
    FileNotExists,
}

/// `s` begins with `p`.
pub open spec fn has_prefix(s: Seq<char>, p: Seq<char>) -> bool {
    s.len() >= p.len() && s.subrange(0, p.len() as int) == p
}

/// Where the source with the configured path `raw` is read from, given the
/// location `config` of the configuration: a path that begins with `http`
/// (white space aside) is a URL; one that begins with `./` is resolved against
/// the configuration (joined to its URL, or to the directory of its file); any
/// other is a file path.
pub open spec fn resolved(config: (bool, Seq<char>), raw: Seq<char>) -> Result<
    (bool, Seq<char>),
    SourceError,
> {
    if has_prefix(trim(raw), seq!['h', 't', 't', 'p']) {
        match url_form(raw) {
            Some(u) => Ok((true, u)),
            None => Err(SourceError::InvalidUrl),
        }
    } else if has_prefix(raw, seq!['.', '/']) {
        if config.0 {
            match url_join(config.1, raw) {
                Some(u) => Ok((true, u)),
                None => Err(SourceError::InvalidUrl),
            }
        } else {
            match path_parent(config.1) {
                Some(d) => Ok((false, path_join(d, raw))),
                None => Err(SourceError::InvalidPath),
            }
        }
    } else {
        Ok((false, raw))
    }
}

fn begins_with(s: &Vec<char>, p: &Vec<char>) -> (r: bool)
    ensures
        r == has_prefix(s@, p@),
{
    if s.len() < p.len() {
        return false;
    }
    let mut i: usize = 0;
    while i < p.len()
        invariant
            i <= p@.len() <= s@.len(),
            forall|j: int| 0 <= j < i ==> s@[j] == p@[j],
        decreases p@.len() - i,
    {
        if s[i] != p[i] {
            proof {
                assert(s@.subrange(0, p@.len() as int)[i as int] != p@[i as int]);
            }
            return false;
        }
        i = i + 1;
    }
    assert(s@.subrange(0, p@.len() as int) =~= p@);
    true
}

impl FileOrUrl {
    /// A location given on the command line: a URL where `s` parses as one,
    /// else a file path.
    pub fn parse(s: &str) -> (r: FileOrUrl)
        ensures
            location(r) == (match url_form(s@) {
                Some(u) => (true, u),
                None => (false, s@),
            }),
    {
        match parse_url(s) {
            Some(u) => FileOrUrl::Url(u),
            None => FileOrUrl::File(s.to_string()),
        }
    }

    /// Where the source with the configured path `raw` is read from; the
    /// existence of a file is checked by `confirm_exists`.
    pub fn resolve_source(&self, raw: &str) -> (r: Result<FileOrUrl, SourceError>)
        ensures
            r matches Ok(l) ==> resolved(location(*self), raw@) == Ok::<
                (bool, Seq<char>),
                SourceError,
            >(location(l)),
            r matches Err(e) ==> resolved(location(*self), raw@) == Err::<
                (bool, Seq<char>),
                SourceError,
            >(e),
    {
        let cs = chars_of(raw);
        let mut http: Vec<char> = Vec::new();
        http.push('h');
        http.push('t');
        http.push('t');
        http.push('p');
        let mut rel: Vec<char> = Vec::new();
        rel.push('.');
        rel.push('/');
        proof {
            assert(http@ =~= seq!['h', 't', 't', 'p']);
            assert(rel@ =~= seq!['.', '/']);
        }
        if begins_with(&trim_chars(&cs), &http) {
            match parse_url(raw) {
                Some(u) => Ok(FileOrUrl::Url(u)),
                None => Err(SourceError::InvalidUrl),
            }
        } else if begins_with(&cs, &rel) {
            match self {
                FileOrUrl::Url(base) => match join_url(base.as_str(), raw) {
                    Some(u) => Ok(FileOrUrl::Url(u)),
                    None => Err(SourceError::InvalidUrl),
                },
                FileOrUrl::File(p) => match parent_dir(p.as_str()) {
                    Some(d) => Ok(FileOrUrl::File(join_path(d.as_str(), raw))),
                    None => Err(SourceError::InvalidPath),
                },
            }
        } else {
            Ok(FileOrUrl::File(raw.to_string()))
        }
    }

    /// A resolved location, once it is known whether a file stands at it: a
    /// file path with no file is refused.
    pub fn confirm_exists(self, exists: bool) -> (r: Result<FileOrUrl, SourceError>)
        ensures
            (self is File && !exists) ==> r == Err::<FileOrUrl, SourceError>(
                SourceError::FileNotExists,
            ),
            !(self is File && !exists) ==> r == Ok::<FileOrUrl, SourceError>(self),
    {
        match self {
            FileOrUrl::File(p) => {
                if exists {
                    Ok(FileOrUrl::File(p))
                } else {
                    Err(SourceError::FileNotExists)
                }
            },
            FileOrUrl::Url(u) => Ok(FileOrUrl::Url(u)),
        }
    }
}

} // verus!
