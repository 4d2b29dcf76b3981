use bancuh_dns::handler::{
    step, Action, Answer, Event, LookupFailure, RecordData, RecordKind, Reply, ResponseCode, Stage,
    Synthesized,
};
use bancuh_dns::store::{blocked_verdict, lookup_keys_of};
use std::collections::HashMap;

/// A store as a map from key to value, probed in the order of the lookup keys.
fn store_get(store: &HashMap<String, String>, query: &str) -> Option<String> {
    for key in lookup_keys_of(query) {
        if let Some(v) = store.get(&key) {
            return Some(v.clone());
        }
    }
    None
}

fn store_of(entries: &[(&str, &str)]) -> HashMap<String, String> {
    entries.iter().map(|(k, v)| (k.to_string(), v.to_string())).collect()
}

/// Runs one request through the handler against three stores and an upstream
/// that answers every lookup with `upstream`.
fn run(
    blacklist: &HashMap<String, String>,
    whitelist: &HashMap<String, String>,
    rewrites: &HashMap<String, String>,
    upstream: Result<Vec<String>, LookupFailure>,
    op_query: bool,
    name: &str,
    kind: RecordKind,
) -> (Reply<String>, Vec<String>) {
    let mut lookups: Vec<String> = Vec::new();
    let mut event = Event::Request {
        op_query,
        message_query: true,
        name: name.to_string(),
        kind,
    };
    let mut stage = Stage::Start;
    loop {
        let (next, action) = step(stage, event);
        stage = next;
        event = match action {
            Action::GetRedirect(n) => Event::Redirect(store_get(rewrites, &n)),
            Action::CheckBlocked(n) => Event::Blocked(blocked_verdict(
                store_get(whitelist, &n).is_some(),
                store_get(blacklist, &n).is_some(),
            )),
            Action::Lookup { name, .. } => {
                lookups.push(name.clone());
                Event::Looked(match &upstream {
                    Ok(rs) => Ok(rs.iter().map(|r| format!("{r} {name}")).collect()),
                    Err(e) => Err(*e),
                })
            }
            Action::Respond(reply) => return (reply, lookups),
        };
    }
}

fn null_a() -> Answer<String> {
    Answer::Synthesized(Synthesized { ttl: 60, data: RecordData::Ipv4(0) })
}

fn a_record() -> Result<Vec<String>, LookupFailure> {
    Ok(vec!["A 1.2.3.4".to_string()])
}

#[test]
fn blocked_exact_name_gets_null_address() {
    let bl = store_of(&[("doubleclick.net.", "true")]);
    let (reply, lookups) = run(&bl, &HashMap::new(), &HashMap::new(), a_record(), true, "doubleclick.net.", RecordKind::A);
    assert_eq!(reply.code, ResponseCode::NoError);
    assert_eq!(reply.answers, vec![null_a()]);
    assert!(lookups.is_empty());
}

#[test]
fn wildcard_blocks_subdomain_not_apex() {
    let bl = store_of(&[("*.doubleclick.net.", "true")]);
    let (reply, _) = run(&bl, &HashMap::new(), &HashMap::new(), a_record(), true, "ads.doubleclick.net.", RecordKind::A);
    assert_eq!(reply.answers, vec![null_a()]);
    let (reply, _) = run(&bl, &HashMap::new(), &HashMap::new(), a_record(), true, "doubleclick.net.", RecordKind::A);
    assert_eq!(reply.code, ResponseCode::NoError);
    assert_eq!(reply.answers, vec![Answer::Upstream("A 1.2.3.4 doubleclick.net.".to_string())]);
}

#[test]
fn whitelist_beats_wildcard_blacklist() {
    let bl = store_of(&[("*.example.com.", "true")]);
    let wl = store_of(&[("safe.example.com.", "true")]);
    let (reply, _) = run(&bl, &wl, &HashMap::new(), a_record(), true, "safe.example.com.", RecordKind::A);
    assert_eq!(reply.answers, vec![Answer::Upstream("A 1.2.3.4 safe.example.com.".to_string())]);
    let (reply, _) = run(&bl, &wl, &HashMap::new(), a_record(), true, "other.example.com.", RecordKind::A);
    assert_eq!(reply.answers, vec![null_a()]);
}

#[test]
fn whitelist_precedence_on_same_name() {
    let bl = store_of(&[("bad.example.com.", "true")]);
    let wl = store_of(&[("bad.example.com.", "true")]);
    assert!(!blocked_verdict(
        store_get(&wl, "bad.example.com").is_some(),
        store_get(&bl, "bad.example.com").is_some()
    ));
}

#[test]
fn rewrite_gives_cname_then_upstream_records() {
    let rw = store_of(&[("www.bing.com.", "strict.bing.com.")]);
    let (reply, lookups) = run(&HashMap::new(), &HashMap::new(), &rw, a_record(), true, "www.bing.com.", RecordKind::A);
    assert_eq!(reply.code, ResponseCode::NoError);
    assert_eq!(
        reply.answers,
        vec![
            Answer::Synthesized(Synthesized {
                ttl: 60,
                data: RecordData::Cname("strict.bing.com.".to_string())
            }),
            Answer::Upstream("A 1.2.3.4 strict.bing.com.".to_string()),
        ]
    );
    assert_eq!(lookups, vec!["strict.bing.com.".to_string()]);
}

#[test]
fn rewrite_precedes_block() {
    let bl = store_of(&[("x.example.com.", "true")]);
    let rw = store_of(&[("x.example.com.", "y.example.com.")]);
    let (reply, lookups) = run(&bl, &HashMap::new(), &rw, a_record(), true, "x.example.com.", RecordKind::A);
    assert_eq!(reply.code, ResponseCode::NoError);
    assert_eq!(reply.answers.len(), 2);
    assert_eq!(lookups, vec!["y.example.com.".to_string()]);
}

#[test]
fn block_response_shape_per_type() {
    let bl = store_of(&[("ads.example.com.", "true")]);
    let none = HashMap::new();
    let (reply, _) = run(&bl, &none, &none, a_record(), true, "ads.example.com.", RecordKind::A);
    assert_eq!(reply.answers, vec![null_a()]);
    let (reply, _) = run(&bl, &none, &none, a_record(), true, "ads.example.com.", RecordKind::AAAA);
    assert_eq!(reply.code, ResponseCode::NoError);
    assert_eq!(
        reply.answers,
        vec![Answer::Synthesized(Synthesized { ttl: 60, data: RecordData::Ipv6(0) })]
    );
    let (reply, _) = run(&bl, &none, &none, a_record(), true, "ads.example.com.", RecordKind::Other(15));
    assert_eq!(reply.code, ResponseCode::NXDomain);
    assert!(reply.answers.is_empty());
}

#[test]
fn non_query_opcode_is_refused() {
    let none = HashMap::new();
    let (reply, lookups) = run(&none, &none, &none, a_record(), false, "example.org.", RecordKind::A);
    assert_eq!(reply.code, ResponseCode::Refused);
    assert!(reply.answers.is_empty());
    assert!(lookups.is_empty());
}

#[test]
fn empty_ruleset_forwards() {
    let none = HashMap::new();
    let (reply, _) = run(&none, &none, &none, a_record(), true, "example.org.", RecordKind::A);
    assert_eq!(reply.code, ResponseCode::NoError);
    assert_eq!(reply.answers, vec![Answer::Upstream("A 1.2.3.4 example.org.".to_string())]);
}

#[test]
fn upstream_failures_map_to_codes() {
    let none = HashMap::new();
    let nx = Err(LookupFailure::NoRecordsFound { no_error: false });
    let (reply, _) = run(&none, &none, &none, nx, true, "nonexistent.test.", RecordKind::A);
    assert_eq!(reply.code, ResponseCode::NXDomain);
    let empty = Err(LookupFailure::NoRecordsFound { no_error: true });
    let (reply, _) = run(&none, &none, &none, empty, true, "example.org.", RecordKind::Other(15));
    assert_eq!(reply.code, ResponseCode::NoError);
    assert!(reply.answers.is_empty());
    let (reply, _) = run(&none, &none, &none, Err(LookupFailure::Other), true, "example.org.", RecordKind::A);
    assert_eq!(reply.code, ResponseCode::ServFail);
}

#[test]
fn unexpected_event_gives_servfail() {
    let (stage, action) = step::<String>(Stage::Start, Event::Blocked(true));
    assert_eq!(stage, Stage::Done);
    assert_eq!(action, Action::Respond(Reply { code: ResponseCode::ServFail, answers: vec![] }));
    let (_, action) = step::<String>(
        Stage::AwaitRedirect { name: "a.com.".to_string(), kind: RecordKind::A },
        Event::StoreFailed,
    );
    assert_eq!(action, Action::Respond(Reply { code: ResponseCode::ServFail, answers: vec![] }));
}
