use bancuh_dns::compile::{parse_blacklist_text, parse_rewrites_text, parse_whitelist_text, split_lines};
use bancuh_dns::fetch::{after_attempt, source_text, FetchStep, MAX_ATTEMPTS};
use bancuh_dns::formats::{BlacklistFormat, ParseBlacklist, ParseRewrite, ParseWhitelist, WhitelistFormat};
use bancuh_dns::parser::Domain;
use bancuh_dns::source::{FileOrUrl, SourceError};

#[test]
fn lines_split_like_str_lines() {
    for text in ["", "a", "a\n", "a\r\nb", "a\n\nb\n", "\n", "x\r", "a\rb\r\n"] {
        let expected: Vec<String> = text.lines().map(|l| l.to_string()).collect();
        assert_eq!(split_lines(text), expected, "text {text:?}");
    }
}

#[test]
fn blacklist_hosts_text_keeps_parsed_domains() {
    let text = "# comment\n127.0.0.1 localhost\n0.0.0.0 ads.example.com\n\n0.0.0.0 tracker.example.org\r\n";
    let got = parse_blacklist_text(&ParseBlacklist::from_format(&BlacklistFormat::Hosts), text);
    assert_eq!(
        got,
        vec![Domain("ads.example.com".to_string()), Domain("tracker.example.org".to_string())]
    );
}

#[test]
fn whitelist_zone_keeps_aliased_domains() {
    let text = "www.bing.com    CNAME   strict.bing.com.\nnothing here\n";
    let got = parse_whitelist_text(&ParseWhitelist::from_format(&WhitelistFormat::Zone), text);
    assert_eq!(got, vec![Domain("www.bing.com".to_string())]);
    let got = parse_whitelist_text(&ParseWhitelist::Domains, "safe.example.com\n");
    assert_eq!(got, vec![Domain("safe.example.com".to_string())]);
}

#[test]
fn rewrites_text_keeps_alias_entries() {
    let text = "www.bing.com    CNAME   strict.bing.com.\nwww.google.com.my CNAME forcesafesearch.google.com.\n";
    let got = parse_rewrites_text(&ParseRewrite::CName, text);
    assert_eq!(got.len(), 2);
    assert_eq!(got[1].alias, Domain("forcesafesearch.google.com".to_string()));
}

#[test]
fn fetch_retry_succeeds_on_fifth_attempt() {
    let mut attempt = 1;
    let outcomes: Vec<Result<&str, u16>> = vec![Err(500), Err(500), Err(500), Err(500), Ok("body")];
    let mut result = None;
    for outcome in outcomes {
        match after_attempt(attempt, outcome) {
            FetchStep::Retry(next) => attempt = next,
            FetchStep::Finished(r) => {
                result = Some(r);
                break;
            }
        }
    }
    assert_eq!(attempt, 5);
    assert_eq!(result, Some(Ok("body")));
}

#[test]
fn fetch_gives_up_after_five_failures() {
    let mut attempt = 1;
    let mut result = None;
    let mut calls = 0;
    while result.is_none() {
        calls += 1;
        match after_attempt::<&str, u16>(attempt, Err(500 + calls)) {
            FetchStep::Retry(next) => attempt = next,
            FetchStep::Finished(r) => result = Some(r),
        }
    }
    assert_eq!(calls as u32, MAX_ATTEMPTS);
    assert_eq!(result, Some(Err(505)));
    assert_eq!(source_text::<u16>(Err(505)), "");
    assert_eq!(source_text::<u16>(Ok("a.com".to_string())), "a.com");
}

#[test]
fn sources_resolve_against_config() {
    let cfg = FileOrUrl::parse("https://example.com/data/configuration.yaml");
    assert_eq!(cfg, FileOrUrl::Url("https://example.com/data/configuration.yaml".to_string()));
    assert_eq!(
        cfg.resolve_source("./lists/ads.txt"),
        Ok(FileOrUrl::Url("https://example.com/data/lists/ads.txt".to_string()))
    );
    assert_eq!(
        cfg.resolve_source("http://lists.example.org/hosts"),
        Ok(FileOrUrl::Url("http://lists.example.org/hosts".to_string()))
    );
    assert_eq!(cfg.resolve_source("http//broken"), Err(SourceError::InvalidUrl));
    let file_cfg = FileOrUrl::parse("/etc/bancuh/configuration.yaml");
    assert_eq!(file_cfg, FileOrUrl::File("/etc/bancuh/configuration.yaml".to_string()));
    assert_eq!(
        file_cfg.resolve_source("./ads.txt"),
        Ok(FileOrUrl::File("/etc/bancuh/./ads.txt".to_string()))
    );
    assert_eq!(
        file_cfg.resolve_source("/srv/lists/ads.txt"),
        Ok(FileOrUrl::File("/srv/lists/ads.txt".to_string()))
    );
    assert_eq!(FileOrUrl::File("".to_string()).resolve_source("./a"), Err(SourceError::InvalidPath));
}

#[test]
fn missing_file_is_refused() {
    assert_eq!(
        FileOrUrl::File("/nope".to_string()).confirm_exists(false),
        Err(SourceError::FileNotExists)
    );
    assert_eq!(
        FileOrUrl::File("/yes".to_string()).confirm_exists(true),
        Ok(FileOrUrl::File("/yes".to_string()))
    );
    assert_eq!(
        FileOrUrl::Url("https://a.com/".to_string()).confirm_exists(false),
        Ok(FileOrUrl::Url("https://a.com/".to_string()))
    );
}
