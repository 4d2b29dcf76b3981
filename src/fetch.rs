//! The retry policy of a fetch over HTTP: the caller makes each attempt and
//! hands its outcome back.
use vstd::prelude::*;

verus! {

/// Attempts made before a fetch over HTTP gives up.
pub const MAX_ATTEMPTS: u32 = 5;

/// What follows an attempt.
#[derive(Debug, PartialEq, Eq)]
pub enum FetchStep<T, E> {
    /// Make attempt number `0` (counted from one).
    Retry(u32),
    /// The fetch is over, with this result: the body of the attempt that
    /// succeeded, or the error of the last attempt.
    Finished(Result<T, E>),
}

/// What follows attempt number `attempt` (counted from one), given its outcome:
/// a success ends the fetch with its body; a failure leads to the next attempt,
/// unless it was the last one, whose error then ends the fetch.
pub fn after_attempt<T, E>(attempt: u32, outcome: Result<T, E>) -> (r: FetchStep<T, E>)
    requires
        1 <= attempt <= MAX_ATTEMPTS,
    ensures
        outcome is Ok ==> r == FetchStep::<T, E>::Finished(outcome),
        outcome is Err && attempt < MAX_ATTEMPTS ==> r == FetchStep::<T, E>::Retry((attempt + 1) as u32),
        outcome is Err && attempt == MAX_ATTEMPTS ==> r == FetchStep::<T, E>::Finished(outcome),
{
    match outcome {
        Ok(body) => FetchStep::Finished(Ok(body)),
        Err(e) => {
            if attempt < MAX_ATTEMPTS {
                FetchStep::Retry(attempt + 1)
            } else {
                FetchStep::Finished(Err(e))
            }
        },
    }
}

/// The text that the compiler reads from a source: the fetched text, or none
/// at all where the fetch failed (the source is skipped).
pub fn source_text<E>(fetched: Result<String, E>) -> (r: String)
    ensures
        fetched matches Ok(t) ==> r@ == t@,
        fetched is Err ==> r@.len() == 0,
{
    match fetched {
        Ok(t) => t,
        Err(_) => String::new(),
    }
}

} // verus!
