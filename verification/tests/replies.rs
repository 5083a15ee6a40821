use prolog_service::json::Json;
use prolog_service::reply::{
    health_reply, query_reply, unavailable_reply, Reply, STATUS_OK, STATUS_UNAVAILABLE,
};

fn text(t: &str) -> Json {
    Json::Text(t.to_string())
}

fn object(members: Vec<(&str, Json)>) -> Json {
    Json::Object(members.into_iter().map(|(k, v)| (k.to_string(), v)).collect())
}

#[test]
fn the_statuses_are_200_and_503() {
    assert_eq!(STATUS_OK, 200);
    assert_eq!(STATUS_UNAVAILABLE, 503);
}

#[test]
fn entries_are_returned_as_results() {
    let entries = vec![object(vec![("result", Json::Bool(true))]), object(vec![("X", text("1"))])];
    assert_eq!(
        query_reply(Ok(Ok(entries))),
        Reply {
            status: 200,
            body: object(vec![(
                "results",
                Json::Array(vec![
                    object(vec![("result", Json::Bool(true))]),
                    object(vec![("X", text("1"))]),
                ]),
            )]),
        }
    );
}

#[test]
fn no_entries_are_returned_as_empty_results() {
    assert_eq!(
        query_reply(Ok(Ok(vec![]))),
        Reply { status: 200, body: object(vec![("results", Json::Array(vec![]))]) }
    );
}

#[test]
fn a_failure_of_the_runner_is_an_error_body() {
    assert_eq!(
        query_reply(Ok(Err("no engine".to_string()))),
        Reply { status: 200, body: object(vec![("error", text("no engine"))]) }
    );
}

#[test]
fn a_crash_is_an_error_body_that_says_so() {
    assert_eq!(
        query_reply(Err("task 7 panicked".to_string())),
        Reply {
            status: 200,
            body: object(vec![("error", text("Task join error: task 7 panicked"))]),
        }
    );
}

#[test]
fn a_query_that_is_not_admitted_is_answered_as_unavailable() {
    assert_eq!(
        unavailable_reply(),
        Reply { status: 503, body: object(vec![("error", text("Service unavailable"))]) }
    );
}

#[test]
fn a_health_check_is_answered_with_status_ok() {
    assert_eq!(health_reply(), Reply { status: 200, body: object(vec![("status", text("ok"))]) });
}
