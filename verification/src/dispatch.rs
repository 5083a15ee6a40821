//! The execution dispatcher's decisions: what becomes of a query when it
//! arrives, what is answered and handed on when its evaluation has ended,
//! and what becomes of a query that is given up before it runs.
//!
//! Between the two lies the evaluation itself, which the caller runs away
//! from the path that accepts requests.

use vstd::prelude::*;
use crate::gateway::{Admission, Decision, Gateway, Permit};
use crate::json::Json;
use crate::reply::{
    Reply, completion_view, query_reply, query_reply_of, unavailable_reply, unavailable_reply_of,
};

verus! {

/// What to do with a query that has arrived.
#[derive(Debug, PartialEq, Eq)]
pub enum Arrival {
    /// Evaluate it now, under this permit.
    Run(Permit),
    /// Hold it until a permit is passed to it.
    Wait,
    /// Answer it with this reply; it is not evaluated.
    Reject(Reply),
}

/// What to do once the evaluation of a query has ended.
#[derive(Debug, PartialEq, Eq)]
pub struct Departure {
    /// The reply to the query.
    pub reply: Reply,
    /// The permit under which the request that has waited longest runs now,
    /// if one waited.
    pub next: Option<Permit>,
}

/// Decides what becomes of the query `request` on its arrival: it runs where
/// a permit is free, waits where none is, and is answered as unavailable
/// where the service admits nothing.
pub fn begin_query(gateway: &mut Gateway, request: u64) -> (arrival: Arrival)
    ensures
        final(gateway)@ == old(gateway)@.requested(request),
        match arrival {
            Arrival::Run(permit) => old(gateway)@.decision() == Decision::Granted && permit@
                == request,
            Arrival::Wait => old(gateway)@.decision() == Decision::Deferred,
            Arrival::Reject(reply) => old(gateway)@.decision() == Decision::Refused && reply@
                == unavailable_reply_of(),
        },
{
    match gateway.acquire(request) {
        Admission::Granted(permit) => Arrival::Run(permit),
        Admission::Deferred => Arrival::Wait,
        Admission::Refused => Arrival::Reject(unavailable_reply()),
    }
}

/// Ends the stay of a query whose evaluation, under `permit`, has ended with
/// `completion`. The permit comes back whatever `completion` is: entries, a
/// failure of the runner, or an abnormal end of its execution context. The
/// reply is that of `completion`.
pub fn finish_query(
    gateway: &mut Gateway,
    permit: Permit,
    completion: Result<Result<Vec<Json>, String>, String>,
) -> (departure: Departure)
    ensures
        final(gateway)@ == old(gateway)@.released(),
        departure.reply@ == query_reply_of(completion_view(completion)),
        match departure.next {
            Some(passed) => old(gateway)@.resumed() == Some(passed@),
            None => old(gateway)@.resumed() is None,
        },
{
    let next = gateway.release(permit);
    let reply = query_reply(completion);
    Departure { reply, next }
}

/// Ends the stay of the query `request` that is given up before it runs.
/// Where a permit was passed to it already, `passed` holds it and it comes
/// back, to the request that has waited longest where one waits. Where none
/// was, the query leaves the queue if it waits there.
pub fn abandon_query(gateway: &mut Gateway, request: u64, passed: Option<Permit>) -> (next: Option<
    Permit,
>)
    ensures
        match passed {
            Some(_) => final(gateway)@ == old(gateway)@.released() && match next {
                Some(handed) => old(gateway)@.resumed() == Some(handed@),
                None => old(gateway)@.resumed() is None,
            },
            None => final(gateway)@ == old(gateway)@.withdrawn(request) && next is None,
        },
{
    match passed {
        Some(permit) => gateway.release(permit),
        None => {
            gateway.withdraw(request);
            None
        },
    }
}

} // verus!
