use bancuh_dns::parser::{extract_domain_text, parse_host, CName, Domain, Host};

/// The literals below that read `Ã¼` hold the UTF-8 bytes of `ü` shown as
/// Latin-1 characters; this turns each such character back into its byte.
fn from_latin1_bytes(s: &str) -> String {
    let bytes: Vec<u8> = s.chars().map(|c| c as u32 as u8).collect();
    String::from_utf8(bytes).unwrap()
}

#[test]
fn cname_it_extract_domain() {
    let expected = CName {
        domain: Domain("www.bing.com".to_string()),
        alias: Domain("strict.bing.com".to_string()),
    };
    assert_eq!(
        CName::parse("www.bing.com    CNAME   strict.bing.com."),
        Some(expected)
    );
    let expected = CName {
        domain: Domain("www.google.com.my".to_string()),
        alias: Domain("forcesafesearch.google.com".to_string()),
    };
    assert_eq!(
        CName::parse("www.google.com.my    CNAME   forcesafesearch.google.com."),
        Some(expected)
    );
}

#[test]
fn domain_it_extract_domain() {
    assert_eq!(
        Domain::parse("abc.example.com"),
        Some(Domain("abc.example.com".to_string()))
    );
    assert_eq!(
        Domain::parse(&from_latin1_bytes("BÃ¼cher.example.com")),
        Some(Domain("xn--bcher-kva.example.com".to_string()))
    );
    assert_eq!(Domain::parse(""), None);
    assert_eq!(Domain::parse("# abc.example.com"), None);
}

#[test]
fn host_it_extract_domain() {
    assert_eq!(
        parse_host("127.0.0.1 abc.example.com"),
        Some(Host {
            ip: "127.0.0.1".to_string(),
            domain: Domain("abc.example.com".to_string()),
        })
    );
    assert_eq!(
        parse_host("0.0.0.0 abc.example.com"),
        Some(Host {
            ip: "0.0.0.0".to_string(),
            domain: Domain("abc.example.com".to_string()),
        })
    );
    assert_eq!(
        parse_host(&from_latin1_bytes("127.0.0.1 BÃ¼cher.example.com")),
        Some(Host {
            ip: "127.0.0.1".to_string(),
            domain: Domain("xn--bcher-kva.example.com".to_string()),
        })
    );
}

#[test]
fn parse_is_idempotent_on_its_output() {
    for line in [
        "abc.example.com",
        "0.0.0.0 ads.example.com",
        "  *.tracker.example.org  # comment",
        "Bücher.example.com",
        "www.bing.com    CNAME   strict.bing.com.",
    ] {
        if let Some(d) = Domain::parse(line) {
            assert_eq!(Domain::parse(d.as_str()), Some(Domain(d.0.clone())));
        }
    }
}

#[test]
fn idna_output_is_ascii() {
    let d = Domain::parse("Bücher.example.com").unwrap();
    assert_eq!(d, Domain("xn--bcher-kva.example.com".to_string()));
    assert!(d.0.is_ascii());
}

#[test]
fn comment_and_empty_lines_hold_no_domain() {
    assert_eq!(Domain::parse("# abc.example.com"), None);
    assert_eq!(Domain::parse("#abc.example.com"), None);
    assert_eq!(Domain::parse(""), None);
    assert_eq!(Domain::parse("no domain here"), None);
}

#[test]
fn wildcard_domain_keeps_its_star() {
    assert_eq!(
        Domain::parse("*.doubleclick.net"),
        Some(Domain("*.doubleclick.net".to_string()))
    );
}

#[test]
fn domain_shape_is_leftmost_and_greedy() {
    assert_eq!(
        extract_domain_text("0.0.0.0 ads.example.com extra").as_deref(),
        Some("0.0.0.0 ads.example.com")
    );
    assert_eq!(extract_domain_text("a.b"), None);
    assert_eq!(extract_domain_text("x.comcomcom"), None);
    assert_eq!(extract_domain_text("ab.comcomcom").as_deref(), Some("ab.comcom"));
    assert_eq!(extract_domain_text("ab.cd\nef.gh").as_deref(), Some("ab.cd"));
}

#[test]
fn top_level_label_must_be_lower_case() {
    assert_eq!(Domain::parse("example.COM"), None);
}

#[test]
fn host_line_needs_an_address() {
    assert_eq!(Host::parse("abc.example.com"), None);
    assert_eq!(Host::parse("1234.0.0.1 abc.example.com").map(|h| h.ip), Some("234.0.0.1".to_string()));
    assert_eq!(
        Host::parse("127.0.0.1\tads.example.com").map(|h| h.into_domain()),
        Some(Domain("ads.example.com".to_string()))
    );
}

#[test]
fn cname_lower_case_keyword() {
    let c = CName::parse("a1.example.com cname b2.example.org.").unwrap();
    assert_eq!(c.domain, Domain("a1.example.com".to_string()));
    assert_eq!(c.alias, Domain("b2.example.org".to_string()));
    assert_eq!(CName::parse("a1.example.com CNAME b2.example.org"), None);
    assert_eq!(CName::parse("a1.example.com Cname b2.example.org."), None);
}

#[test]
fn try_parse_reports_lines_without_domain() {
    assert!(Domain::try_parse("").is_err());
    assert_eq!(
        Domain::try_parse("abc.example.com").ok(),
        Some(Domain("abc.example.com".to_string()))
    );
}

#[test]
fn names_that_addr_refuses_hold_no_domain() {
    assert_eq!(Domain::parse("ab_c.example.com"), None);
    assert_eq!(Domain::parse("-ab.example.com"), None);
    assert_eq!(extract_domain_text("ab_c.example.com").as_deref(), Some("ab_c.example.com"));
}

#[test]
fn body_and_label_size_limits() {
    let body200 = "a".repeat(200);
    let line = format!("{body200}.com");
    assert_eq!(extract_domain_text(&line).as_deref(), Some(line.as_str()));
    let body201 = "a".repeat(201);
    let line = format!("{body201}.com");
    assert_eq!(extract_domain_text(&line).as_deref(), Some(&line[1..]));
    assert_eq!(extract_domain_text("ab.abcdefgh").as_deref(), Some("ab.abcdef"));
    assert_eq!(extract_domain_text("ab.c"), None);
    assert_eq!(extract_domain_text("ab.cd").as_deref(), Some("ab.cd"));
}
