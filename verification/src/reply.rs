//! What the service answers: to a query once its evaluation has ended, to a
//! query that was not admitted, and to a health check.

use vstd::prelude::*;
use crate::json::{Json, JsonView, values_view};

verus! {

/// The status of every reply but the one to a query that was not admitted.
pub const STATUS_OK: u16 = 200;

/// The status of the reply to a query that was not admitted.
pub const STATUS_UNAVAILABLE: u16 = 503;

/// One reply: a status and a body.
#[derive(Debug, PartialEq, Eq)]
pub struct Reply {
    pub status: u16,
    pub body: Json,
}

/// The mathematical value that a [`Reply`] stands for.
pub struct ReplyView {
    pub status: u16,
    pub body: JsonView,
}

impl View for Reply {
    type V = ReplyView;

    open spec fn view(&self) -> ReplyView {
        ReplyView { status: self.status, body: self.body@ }
    }
}

/// How the evaluation of one query ended, as plain values: the entries that
/// the runner returned, the message with which it failed, or, where its
/// execution context ended abnormally, the description of that.
pub open spec fn completion_view(
    completion: Result<Result<Vec<Json>, String>, String>,
) -> Result<Result<Seq<JsonView>, Seq<char>>, Seq<char>> {
    match completion {
        Ok(Ok(entries)) => Ok(Ok(values_view(entries@))),
        Ok(Err(message)) => Ok(Err(message@)),
        Err(description) => Err(description@),
    }
}

/// The body `{ "error": message }`.
pub open spec fn error_body(message: Seq<char>) -> JsonView {
    JsonView::Object(seq![("error"@, JsonView::Text(message))])
}

/// The reply to a query whose evaluation has ended.
///
/// The status is [`STATUS_OK`] in every case. Entries are returned as
/// `{ "results": [..] }`, a failure of the runner as `{ "error": message }`,
/// and an abnormal end of its execution context as `{ "error": .. }` over
/// `"Task join error: "` followed by the description.
pub open spec fn query_reply_of(
    completion: Result<Result<Seq<JsonView>, Seq<char>>, Seq<char>>,
) -> ReplyView {
    ReplyView {
        status: STATUS_OK,
        body: match completion {
            Ok(Ok(entries)) => JsonView::Object(seq![("results"@, JsonView::Array(entries))]),
            Ok(Err(message)) => error_body(message),
            Err(description) => error_body("Task join error: "@ + description),
        },
    }
}

/// The reply to a query that was not admitted: [`STATUS_UNAVAILABLE`], with
/// the body `{ "error": "Service unavailable" }`.
pub open spec fn unavailable_reply_of() -> ReplyView {
    ReplyView { status: STATUS_UNAVAILABLE, body: error_body("Service unavailable"@) }
}

/// The reply to a health check: [`STATUS_OK`], with the body
/// `{ "status": "ok" }`.
pub open spec fn health_reply_of() -> ReplyView {
    ReplyView {
        status: STATUS_OK,
        body: JsonView::Object(seq![("status"@, JsonView::Text("ok"@))]),
    }
}

/// Builds the reply to a query whose evaluation has ended.
pub fn query_reply(completion: Result<Result<Vec<Json>, String>, String>) -> (reply: Reply)
    ensures
        reply@ == query_reply_of(completion_view(completion)),
{
    let body = match completion {
        Ok(Ok(entries)) => Json::singleton("results", Json::array(entries)),
        Ok(Err(message)) => Json::singleton("error", Json::Text(message)),
        Err(description) => {
            let message = String::from_str("Task join error: ").concat(description.as_str());
            Json::singleton("error", Json::Text(message))
        },
    };
    Reply { status: STATUS_OK, body }
}

/// Builds the reply to a query that was not admitted.
pub fn unavailable_reply() -> (reply: Reply)
    ensures
        reply@ == unavailable_reply_of(),
{
    Reply {
        status: STATUS_UNAVAILABLE,
        body: Json::singleton("error", Json::text("Service unavailable")),
    }
}

/// Builds the reply to a health check.
pub fn health_reply() -> (reply: Reply)
    ensures
        reply@ == health_reply_of(),
{
    Reply { status: STATUS_OK, body: Json::singleton("status", Json::text("ok")) }
}

} // verus!
