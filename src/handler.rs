//! The decisions taken for one DNS request: whether it is refused, rewritten,
//! blocked or forwarded, and what the response holds. The caller performs each
//! step (a store lookup, an upstream lookup) and hands back its outcome.
use vstd::prelude::*;

verus! {

/// Time to live of every record that the filter writes itself.
pub const SYNTH_TTL: u32 = 60;

/// The record types that the filter tells apart.
#[derive(Debug, Clone, Copy, PartialEq, Eq, Structural)]
pub enum RecordKind {
    A,
    AAAA,
    Other(u16),
}

/// Response codes that the filter sets.
#[derive(Debug, Clone, Copy, PartialEq, Eq, Structural)]
pub enum ResponseCode {
    NoError,
    ServFail,
    NXDomain,
    Refused,
}

/// Data of a record that the filter writes itself; its owner is the query name.
#[derive(Debug, PartialEq, Eq)]
pub enum RecordData {
    /// An alias for the query name.
    Cname(String),
    /// An IPv4 address, as a 32-bit number.
    Ipv4(u32),
    /// An IPv6 address, as a 128-bit number.
    Ipv6(u128),
}

/// A record that the filter writes itself.
#[derive(Debug, PartialEq, Eq)]
pub struct Synthesized {
    pub ttl: u32,
    pub data: RecordData,
}

/// A record of a response: written by the filter, or handed over from upstream.
#[derive(Debug, PartialEq, Eq)]
pub enum Answer<R> {
    Synthesized(Synthesized),
    Upstream(R),
}

/// The response to a request: its code and its answer records.
#[derive(Debug, PartialEq, Eq)]
pub struct Reply<R> {
    pub code: ResponseCode,
    pub answers: Vec<Answer<R>>,
}

/// Why an upstream lookup failed.
#[derive(Debug, Clone, Copy, PartialEq, Eq, Structural)]
pub enum LookupFailure {
    /// No records were found; `no_error` where the upstream response code
    /// was NOERROR (the name exists but has no records of the type).
    NoRecordsFound { no_error: bool },
    /// Any other failure.
    Other,
}

/// Where the handling of a request stands.
#[derive(Debug, PartialEq, Eq)]
pub enum Stage<R> {
    /// Nothing received yet.
    Start,
    /// Waiting for the rewrites store's answer for the name.
    AwaitRedirect { name: String, kind: RecordKind },
    /// Waiting to learn whether the name is blocked.
    AwaitBlocked { name: String, kind: RecordKind },
    /// Waiting for an upstream lookup; its records follow `prefix`.
    AwaitLookup { prefix: Vec<Answer<R>> },
    /// The response has been decided.
    Done,
}

/// What the caller hands to the handler.
#[derive(Debug, PartialEq, Eq)]
pub enum Event<R> {
    /// The request: whether its opcode and its message type are QUERY, its
    /// query name and its query type.
    Request { op_query: bool, message_query: bool, name: String, kind: RecordKind },
    /// The rewrites store's answer.
    Redirect(Option<String>),
    /// Whether the name is blocked.
    Blocked(bool),
    /// A store could not be read.
    StoreFailed,
    /// The outcome of the upstream lookup.
    Looked(Result<Vec<R>, LookupFailure>),
}

/// What the caller does next.
#[derive(Debug, PartialEq, Eq)]
pub enum Action<R> {
    /// Look the name up in the rewrites store.
    GetRedirect(String),
    /// Ask whether the name is blocked.
    CheckBlocked(String),
    /// Ask upstream for the records of this name and type.
    Lookup { name: String, kind: RecordKind },
    /// Send this response.
    Respond(Reply<R>),
}

/// The response with `code` and no records.
pub open spec fn bare<R>(code: ResponseCode, a: Action<R>) -> bool {
    a matches Action::Respond(rep) && rep.code == code && rep.answers@.len() == 0
}

/// The record that answers for a blocked name of type A.
pub open spec fn null_a<R>() -> Answer<R> {
    Answer::Synthesized(Synthesized { ttl: 60, data: RecordData::Ipv4(0) })
}

/// The record that answers for a blocked name of type AAAA.
pub open spec fn null_aaaa<R>() -> Answer<R> {
    Answer::Synthesized(Synthesized { ttl: 60, data: RecordData::Ipv6(0) })
}

/// The upstream records as answers.
pub open spec fn upstream<R>(rs: Seq<R>) -> Seq<Answer<R>> {
    rs.map_values(|x: R| Answer::Upstream(x))
}

/// The response to an upstream outcome, after the records in `prefix`.
pub open spec fn lookup_reply<R>(
    prefix: Seq<Answer<R>>,
    outcome: Result<Vec<R>, LookupFailure>,
    a: Action<R>,
) -> bool {
    match outcome {
        Ok(rs) => a matches Action::Respond(rep) && rep.code == ResponseCode::NoError
            && rep.answers@ == prefix + upstream(rs@),
        Err(LookupFailure::NoRecordsFound { no_error: true }) => a matches Action::Respond(rep)
            && rep.code == ResponseCode::NoError && rep.answers@ == prefix,
        Err(LookupFailure::NoRecordsFound { no_error: false }) => bare(ResponseCode::NXDomain, a),
        Err(LookupFailure::Other) => bare(ResponseCode::ServFail, a),
    }
}

fn respond<R>(code: ResponseCode) -> (r: (Stage<R>, Action<R>))
    ensures
        r.0 is Done,
        bare(code, r.1),
{
    (Stage::Done, Action::Respond(Reply { code, answers: Vec::new() }))
}

/// The upstream records, in order, as answers after `prefix`.
fn append_upstream<R>(prefix: Vec<Answer<R>>, records: Vec<R>) -> (r: Vec<Answer<R>>)
    ensures
        r@ == prefix@ + upstream(records@),
{
    let ghost recs = records@;
    let n = records.len();
    let mut rest = records;
    let mut back: Vec<R> = Vec::new();
    while rest.len() > 0
        invariant
            rest@.len() + back@.len() == n == recs.len(),
            rest@ == recs.subrange(0, rest@.len() as int),
            forall|j: int| 0 <= j < back@.len() ==> #[trigger] back@[j] == recs[n - 1 - j],
        decreases rest@.len(),
    {
        let x = rest.pop().unwrap();
        back.push(x);
    }
    let mut out = prefix;
    let ghost start = out@;
    let mut i: usize = 0;
    while i < n
        invariant
            i <= n == recs.len(),
            back@.len() == n - i,
            forall|j: int| 0 <= j < back@.len() ==> #[trigger] back@[j] == recs[n - 1 - j],
            out@ == start + upstream(recs.subrange(0, i as int)),
        decreases n - i,
    {
        let x = back.pop().unwrap();
        proof {
            assert(x == recs[i as int]);
            assert(recs.subrange(0, i + 1) =~= recs.subrange(0, i as int).push(x));
            assert(upstream(recs.subrange(0, i + 1)) =~= upstream(recs.subrange(0, i as int)).push(
                Answer::Upstream(x),
            ));
        }
        out.push(Answer::Upstream(x));
        i = i + 1;
    }
    assert(recs.subrange(0, n as int) =~= recs);
    out
}

/// The next stage and the next action, from the current stage and an event.
///
/// A request whose opcode or message type is not QUERY is refused. Otherwise
/// the rewrites come first: a rewritten name is answered by a CNAME record to
/// its alias followed by the upstream records of the alias. A name that is not
/// rewritten but blocked is answered by the null address for A and AAAA
/// queries, and by NXDOMAIN for any other type. Any other name is forwarded.
/// An upstream failure that found no records gives NXDOMAIN (or, where the
/// upstream code was NOERROR, an empty answer); any other failure, a store
/// failure and an event that does not fit the stage give SERVFAIL.
pub fn step<R>(stage: Stage<R>, event: Event<R>) -> (r: (Stage<R>, Action<R>))
    ensures
        match (stage, event) {
            (Stage::Start, Event::Request { op_query, message_query, name, kind }) => if op_query
                && message_query {
                r.0 == (Stage::AwaitRedirect::<R> { name, kind }) && r.1 == Action::<R>::GetRedirect(
                    name,
                )
            } else {
                r.0 is Done && bare(ResponseCode::Refused, r.1)
            },
            (Stage::AwaitRedirect { name, kind }, Event::Redirect(Some(alias))) => r.0 matches Stage::AwaitLookup { prefix }
                && prefix@ == seq![
                Answer::<R>::Synthesized(Synthesized { ttl: 60, data: RecordData::Cname(alias) }),
            ] && r.1 == (Action::<R>::Lookup { name: alias, kind }),
            (Stage::AwaitRedirect { name, kind }, Event::Redirect(None)) => r.0 == (Stage::AwaitBlocked::<R> { name, kind })
                && r.1 == Action::<R>::CheckBlocked(name),
            (Stage::AwaitBlocked { name, kind }, Event::Blocked(true)) => r.0 is Done && match kind {
                RecordKind::A => r.1 matches Action::Respond(rep) && rep.code == ResponseCode::NoError
                    && rep.answers@ == seq![null_a::<R>()],
                RecordKind::AAAA => r.1 matches Action::Respond(rep) && rep.code
                    == ResponseCode::NoError && rep.answers@ == seq![null_aaaa::<R>()],
                RecordKind::Other(_) => bare(ResponseCode::NXDomain, r.1),
            },
            (Stage::AwaitBlocked { name, kind }, Event::Blocked(false)) => r.0 matches Stage::AwaitLookup { prefix }
                && prefix@.len() == 0 && r.1 == (Action::<R>::Lookup { name, kind }),
            (Stage::AwaitLookup { prefix }, Event::Looked(outcome)) => r.0 is Done && lookup_reply(
                prefix@,
                outcome,
                r.1,
            ),
            _ => r.0 is Done && bare(ResponseCode::ServFail, r.1),
        },
{
    match (stage, event) {
        (Stage::Start, Event::Request { op_query, message_query, name, kind }) => {
            if op_query && message_query {
                let n2 = name.clone();
                (Stage::AwaitRedirect { name, kind }, Action::GetRedirect(n2))
            } else {
                respond(ResponseCode::Refused)
            }
        },
        (Stage::AwaitRedirect { name, kind }, Event::Redirect(Some(alias))) => {
            let mut prefix: Vec<Answer<R>> = Vec::new();
            let target = alias.clone();
            prefix.push(
                Answer::Synthesized(Synthesized { ttl: SYNTH_TTL, data: RecordData::Cname(alias) }),
            );
            (Stage::AwaitLookup { prefix }, Action::Lookup { name: target, kind })
        },
        (Stage::AwaitRedirect { name, kind }, Event::Redirect(None)) => {
            let n2 = name.clone();
            (Stage::AwaitBlocked { name, kind }, Action::CheckBlocked(n2))
        },
        (Stage::AwaitBlocked { name, kind }, Event::Blocked(true)) => {
            match kind {
                RecordKind::A => {
                    let mut answers: Vec<Answer<R>> = Vec::new();
                    answers.push(
                        Answer::Synthesized(Synthesized { ttl: SYNTH_TTL, data: RecordData::Ipv4(0) }),
                    );
                    (Stage::Done, Action::Respond(Reply { code: ResponseCode::NoError, answers }))
                },
                RecordKind::AAAA => {
                    let mut answers: Vec<Answer<R>> = Vec::new();
                    answers.push(
                        Answer::Synthesized(Synthesized { ttl: SYNTH_TTL, data: RecordData::Ipv6(0) }),
                    );
                    (Stage::Done, Action::Respond(Reply { code: ResponseCode::NoError, answers }))
                },
                RecordKind::Other(_) => respond(ResponseCode::NXDomain),
            }
        },
        (Stage::AwaitBlocked { name, kind }, Event::Blocked(false)) => {
            (Stage::AwaitLookup { prefix: Vec::new() }, Action::Lookup { name, kind })
        },
        (Stage::AwaitLookup { prefix }, Event::Looked(outcome)) => {
            match outcome {
                Ok(records) => {
                    let answers = append_upstream(prefix, records);
                    (Stage::Done, Action::Respond(Reply { code: ResponseCode::NoError, answers }))
                },
                Err(LookupFailure::NoRecordsFound { no_error }) => {
                    if no_error {
                        (
                            Stage::Done,
                            Action::Respond(Reply { code: ResponseCode::NoError, answers: prefix }),
                        )
                    } else {
                        respond(ResponseCode::NXDomain)
                    }
                },
                Err(LookupFailure::Other) => respond(ResponseCode::ServFail),
            }
        },
        _ => respond(ResponseCode::ServFail),
    }
}

} // verus!
