use bancuh_dns::store::{
    alias_entry, blocked_verdict, domain_entry, first_found, lookup_keys_of, normalize_name, rand_name,
    store_dir_name,
};

#[test]
fn lookup_keys_broaden_from_most_specific() {
    assert_eq!(
        lookup_keys_of("a.b.c.example.com."),
        vec![
            "a.b.c.example.com.",
            "*.b.c.example.com.",
            "*.c.example.com.",
            "*.example.com.",
            "*.com.",
        ]
    );
}

#[test]
fn wildcard_key_matches_only_proper_subdomains() {
    let key = "*.ads.example.com.".to_string();
    assert!(lookup_keys_of("banner.ads.example.com").contains(&key));
    assert!(!lookup_keys_of("ads.example.com").contains(&key));
    assert!(!lookup_keys_of("ads.example.com.").contains(&key));
}

#[test]
fn exact_key_is_probed_first() {
    let keys = lookup_keys_of("a.b.com");
    assert_eq!(keys, vec!["a.b.com.", "*.b.com.", "*.com."]);
    let mut store = std::collections::HashMap::new();
    store.insert("a.b.com.".to_string(), "exact".to_string());
    store.insert("*.b.com.".to_string(), "wildcard".to_string());
    let found = keys.iter().find_map(|k| store.get(k)).cloned();
    assert_eq!(found, Some("exact".to_string()));
}

#[test]
fn single_label_and_empty_queries() {
    assert_eq!(lookup_keys_of("com."), vec!["com."]);
    assert_eq!(lookup_keys_of("com"), vec!["com."]);
    assert_eq!(lookup_keys_of(""), vec!["."]);
    assert_eq!(lookup_keys_of("a..b."), vec!["a..b.", "*.b."]);
}

#[test]
fn normalize_adds_missing_dot_once() {
    assert_eq!(normalize_name("example.com"), "example.com.");
    assert_eq!(normalize_name("example.com."), "example.com.");
    assert_eq!(normalize_name(""), ".");
}

#[test]
fn entries_hold_normalized_keys() {
    assert_eq!(
        domain_entry("ads.example.com"),
        ("ads.example.com.".to_string(), "true".to_string())
    );
    assert_eq!(
        alias_entry("www.bing.com", "strict.bing.com"),
        ("www.bing.com.".to_string(), "strict.bing.com.".to_string())
    );
}

#[test]
fn random_names_have_prefix_and_token() {
    let a = rand_name();
    let b = rand_name();
    assert_eq!(a.len(), 13);
    assert!(a.starts_with("db-"));
    assert!(a[3..].chars().all(|c| c.is_ascii_alphanumeric()));
    assert_ne!(a, b);
}

#[test]
fn first_found_takes_earliest_probe() {
    assert_eq!(first_found(&vec![None, Some("b".to_string()), Some("c".to_string())]), Some("b".to_string()));
    assert_eq!(first_found(&vec![None, None]), None);
    assert_eq!(first_found(&vec![]), None);
}

#[test]
fn wildcard_store_answers_subdomains_only() {
    let store: std::collections::HashMap<String, String> =
        [("*.ads.example.com.".to_string(), "true".to_string())].into_iter().collect();
    let get = |q: &str| {
        let found: Vec<Option<String>> = lookup_keys_of(q).iter().map(|k| store.get(k).cloned()).collect();
        first_found(&found)
    };
    assert_eq!(get("banner.ads.example.com"), Some("true".to_string()));
    assert_eq!(get("ads.example.com"), None);
}

#[test]
fn verdict_whitelist_wins() {
    assert!(!blocked_verdict(true, true));
    assert!(blocked_verdict(false, true));
    assert!(!blocked_verdict(false, false));
    assert!(!blocked_verdict(true, false));
}

#[test]
fn store_dir_name_prefixes_token() {
    assert_eq!(store_dir_name("Ab3xYz90Qq"), "db-Ab3xYz90Qq");
    assert_eq!(store_dir_name(""), "db-");
}
