use prolog_service::json::Json;
use prolog_service::runner::{
    entries_of_answers, outcome_of, response_entries, response_entry, Answer, Outcome,
    PROGRAM_MODULE,
};
use prolog_service::term::{Bindings, Term};

fn s(text: &str) -> String {
    text.to_string()
}

fn text(t: &str) -> Json {
    Json::Text(t.to_string())
}

fn object(members: Vec<(&str, Json)>) -> Json {
    Json::Object(members.into_iter().map(|(k, v)| (k.to_string(), v)).collect())
}

#[test]
fn success_without_bindings_is_result_true() {
    assert_eq!(response_entry(&Outcome::True), object(vec![("result", Json::Bool(true))]));
}

#[test]
fn failure_is_result_false() {
    assert_eq!(response_entry(&Outcome::False), object(vec![("result", Json::Bool(false))]));
}

#[test]
fn an_exception_carries_the_encoded_term() {
    let outcome = Outcome::Exception(Term::Compound(s("oops"), vec![Term::Integer(s("7"))]));
    assert_eq!(
        response_entry(&outcome),
        object(vec![(
            "exception",
            object(vec![("functor", text("oops")), ("args", Json::Array(vec![text("7")]))]),
        )])
    );
}

#[test]
fn an_engine_error_carries_its_diagnostic() {
    assert_eq!(
        response_entry(&Outcome::Error(s("out of memory"))),
        object(vec![("error", text("out of memory"))])
    );
}

#[test]
fn an_answer_is_the_object_of_its_bindings() {
    let mut bindings = Bindings::new();
    bindings.insert(s("X"), Term::Integer(s("1")));
    bindings.insert(s("Y"), Term::Atom(s("b")));
    assert_eq!(
        response_entry(&Outcome::Bindings(bindings)),
        object(vec![("X", text("1")), ("Y", text("b"))])
    );
}

#[test]
fn no_outcomes_give_no_entries() {
    assert_eq!(response_entries(&vec![]), vec![]);
}

#[test]
fn there_is_one_entry_for_each_outcome_in_order() {
    let mut bindings = Bindings::new();
    bindings.insert(s("X"), Term::Integer(s("1")));
    let outcomes = vec![
        Outcome::Bindings(bindings),
        Outcome::Error(s("first")),
        Outcome::True,
        Outcome::Error(s("second")),
        Outcome::Exception(Term::Atom(s("stop"))),
        Outcome::False,
    ];
    assert_eq!(
        response_entries(&outcomes),
        vec![
            object(vec![("X", text("1"))]),
            object(vec![("error", text("first"))]),
            object(vec![("result", Json::Bool(true))]),
            object(vec![("error", text("second"))]),
            object(vec![("exception", text("stop"))]),
            object(vec![("result", Json::Bool(false))]),
        ]
    );
}

#[test]
fn an_error_does_not_end_the_entries() {
    let outcomes = vec![Outcome::Error(s("e")), Outcome::True];
    let entries = response_entries(&outcomes);
    assert_eq!(entries.len(), 2);
    assert_eq!(entries[1], object(vec![("result", Json::Bool(true))]));
}

#[test]
fn an_answer_without_terms_is_the_outcome_of_its_kind() {
    assert_eq!(outcome_of(Answer::True), Outcome::True);
    assert_eq!(outcome_of(Answer::False), Outcome::False);
}

#[test]
fn a_raised_term_is_kept_as_it_is() {
    let term = || Term::Compound(s("oops"), vec![Term::Integer(s("7")), Term::Var(s("X"))]);
    assert_eq!(outcome_of(Answer::Exception(term())), Outcome::Exception(term()));
}

#[test]
fn the_text_of_an_error_is_kept_as_it_is() {
    assert_eq!(outcome_of(Answer::Error(s("Atom(\"e\")"))), Outcome::Error(s("Atom(\"e\")")));
}

#[test]
fn pairs_are_bound_in_their_order() {
    let pairs = vec![
        (s("X"), Term::Integer(s("1"))),
        (s("A"), Term::Atom(s("b"))),
        (s("M"), Term::List(vec![])),
    ];
    let mut expected = Bindings::new();
    expected.insert(s("X"), Term::Integer(s("1")));
    expected.insert(s("A"), Term::Atom(s("b")));
    expected.insert(s("M"), Term::List(vec![]));
    assert_eq!(outcome_of(Answer::Bindings(pairs)), Outcome::Bindings(expected));
}

#[test]
fn a_name_that_comes_twice_is_bound_once_to_the_later_term() {
    let pairs = vec![
        (s("X"), Term::Integer(s("1"))),
        (s("Y"), Term::Integer(s("2"))),
        (s("X"), Term::Integer(s("3"))),
    ];
    match outcome_of(Answer::Bindings(pairs)) {
        Outcome::Bindings(bindings) => {
            assert_eq!(bindings.len(), 2);
            assert_eq!(bindings.get(0), Some((&s("X"), &Term::Integer(s("3")))));
            assert_eq!(bindings.get(1), Some((&s("Y"), &Term::Integer(s("2")))));
        }
        other => panic!("not bindings: {:?}", other),
    }
}

#[test]
fn no_pairs_are_no_bindings() {
    assert_eq!(outcome_of(Answer::Bindings(vec![])), Outcome::Bindings(Bindings::new()));
}

#[test]
fn programs_go_into_the_module_user() {
    assert_eq!(PROGRAM_MODULE, "user");
}

#[test]
fn no_answers_give_no_entries() {
    assert_eq!(entries_of_answers(vec![]), vec![]);
}

#[test]
fn there_is_one_entry_for_each_answer_in_order() {
    let answers = vec![
        Answer::Bindings(vec![(s("X"), Term::Integer(s("1")))]),
        Answer::Bindings(vec![(s("X"), Term::Integer(s("2")))]),
        Answer::Error(s("first")),
        Answer::True,
        Answer::Exception(Term::Atom(s("my_error"))),
        Answer::Error(s("second")),
        Answer::False,
    ];
    assert_eq!(
        entries_of_answers(answers),
        vec![
            object(vec![("X", text("1"))]),
            object(vec![("X", text("2"))]),
            object(vec![("error", text("first"))]),
            object(vec![("result", Json::Bool(true))]),
            object(vec![("exception", text("my_error"))]),
            object(vec![("error", text("second"))]),
            object(vec![("result", Json::Bool(false))]),
        ]
    );
}

#[test]
fn answers_that_are_alike_each_get_their_entry() {
    let answers = vec![Answer::True, Answer::True, Answer::True];
    assert_eq!(
        entries_of_answers(answers),
        vec![
            object(vec![("result", Json::Bool(true))]),
            object(vec![("result", Json::Bool(true))]),
            object(vec![("result", Json::Bool(true))]),
        ]
    );
}

#[test]
fn pairs_under_one_name_give_one_member() {
    let answers = vec![Answer::Bindings(vec![
        (s("X"), Term::Integer(s("1"))),
        (s("Y"), Term::Atom(s("b"))),
        (s("X"), Term::Integer(s("3"))),
    ])];
    assert_eq!(
        entries_of_answers(answers),
        vec![object(vec![("X", text("3")), ("Y", text("b"))])]
    );
}
