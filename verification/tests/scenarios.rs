use prolog_service::json::Json;
use prolog_service::runner::{entries_of_answers, Answer, PROGRAM_MODULE};
use prolog_service::term::Term;
use scryer_prolog::{LeafAnswer, MachineBuilder, StreamConfig};

fn term_of(term: scryer_prolog::Term) -> Term {
    match term {
        scryer_prolog::Term::Integer(i) => Term::Integer(i.to_string()),
        scryer_prolog::Term::Rational(r) => Term::Rational(r.to_string()),
        scryer_prolog::Term::Float(f) => Term::Float(f.to_bits()),
        scryer_prolog::Term::Atom(a) => Term::Atom(a),
        scryer_prolog::Term::String(s) => Term::Text(s),
        scryer_prolog::Term::List(items) => Term::List(items.into_iter().map(term_of).collect()),
        scryer_prolog::Term::Compound(name, args) => {
            Term::Compound(name, args.into_iter().map(term_of).collect())
        }
        scryer_prolog::Term::Var(v) => Term::Var(v),
        other => Term::Other(format!("{:?}", other)),
    }
}

fn answer_of(raw: Result<LeafAnswer, scryer_prolog::Term>) -> Answer {
    match raw {
        Ok(LeafAnswer::True) => Answer::True,
        Ok(LeafAnswer::False) => Answer::False,
        Ok(LeafAnswer::Exception(term)) => Answer::Exception(term_of(term)),
        Ok(LeafAnswer::LeafAnswer { bindings, .. }) => Answer::Bindings(
            bindings.into_iter().map(|(name, term)| (name, term_of(term))).collect(),
        ),
        Err(term) => Answer::Error(format!("{:?}", term)),
    }
}

fn run_query(program: &str, query: &str) -> Result<Vec<Json>, String> {
    let mut machine = MachineBuilder::new().with_streams(StreamConfig::in_memory()).build();
    machine.consult_module_string(PROGRAM_MODULE, program);
    let answers: Vec<Answer> = machine.run_query(query).map(answer_of).collect();
    Ok(entries_of_answers(answers))
}

fn text(s: &str) -> Json {
    Json::Text(s.to_string())
}

fn object(members: Vec<(&str, Json)>) -> Json {
    Json::Object(members.into_iter().map(|(k, v)| (k.to_string(), v)).collect())
}

#[test]
fn three_facts_give_three_bindings_in_order() {
    let entries = run_query("fact(1). fact(2). fact(3).", "fact(X).").unwrap();
    assert_eq!(
        entries,
        vec![
            object(vec![("X", text("1"))]),
            object(vec![("X", text("2"))]),
            object(vec![("X", text("3"))]),
        ]
    );
}

#[test]
fn true_gives_result_true() {
    let entries = run_query("", "true.").unwrap();
    assert_eq!(entries, vec![object(vec![("result", Json::Bool(true))])]);
}

#[test]
fn fail_gives_result_false() {
    let entries = run_query("", "fail.").unwrap();
    assert_eq!(entries, vec![object(vec![("result", Json::Bool(false))])]);
}

#[test]
fn a_thrown_atom_gives_an_exception_entry() {
    let entries = run_query("", "throw(my_error).").unwrap();
    assert_eq!(entries, vec![object(vec![("exception", text("my_error"))])]);
}

#[test]
fn a_thrown_compound_is_encoded_with_functor_and_args() {
    let entries = run_query("", "throw(f(1, X)).").unwrap();
    assert_eq!(
        entries,
        vec![object(vec![(
            "exception",
            object(vec![
                ("functor", text("f")),
                ("args", Json::Array(vec![text("1"), object(vec![("var", text("_A"))])])),
            ]),
        )])]
    );
}

#[test]
fn an_engine_error_is_one_entry_with_its_diagnostic() {
    let entries = run_query("", "undefined_predicate_xyz.").unwrap();
    assert_eq!(
        entries,
        vec![object(vec![(
            "error",
            text(
                "Compound(\"error\", [Compound(\"existence_error\", [Atom(\"procedure\"), \
                 Compound(\"/\", [Atom(\"undefined_predicate_xyz\"), Integer(0)])]), \
                 Compound(\"/\", [Atom(\"undefined_predicate_xyz\"), Integer(0)])])"
            ),
        )])]
    );
}

#[test]
fn every_kind_of_term_is_brought_over() {
    let entries =
        run_query("", "X = f(Y, \"abc\", [1, 2.5, a], Z), Z = \"\", W = 'hello world'.").unwrap();
    assert_eq!(
        entries,
        vec![object(vec![
            ("W", text("hello world")),
            (
                "X",
                object(vec![
                    ("functor", text("f")),
                    (
                        "args",
                        Json::Array(vec![
                            object(vec![("var", text("Y"))]),
                            text("abc"),
                            Json::Array(vec![
                                text("1"),
                                Json::Number(2.5f64.to_bits()),
                                text("a"),
                            ]),
                            Json::Array(vec![]),
                        ]),
                    ),
                ]),
            ),
            ("Z", Json::Array(vec![])),
        ])]
    );
}

#[test]
fn numbers_keep_their_kind() {
    let entries = run_query("", "X is 1 rdiv 3 ; X is 2 ** 100 ; X = -7.").unwrap();
    assert_eq!(
        entries,
        vec![
            object(vec![("X", text("1/3"))]),
            object(vec![("X", Json::Number(1267650600228229401496703205376f64.to_bits()))]),
            object(vec![("X", text("-7"))]),
        ]
    );
}

#[test]
fn a_large_integer_keeps_every_digit() {
    let entries = run_query("", "X is 123456789012345678901234567890 * 10.").unwrap();
    assert_eq!(entries, vec![object(vec![("X", text("1234567890123456789012345678900"))])]);
}

#[test]
fn answers_come_in_the_order_of_the_engine() {
    let entries = run_query("a(1). a(2). b(x). b(y).", "a(X), b(Y).").unwrap();
    assert_eq!(
        entries,
        vec![
            object(vec![("X", text("1")), ("Y", text("x"))]),
            object(vec![("X", text("1")), ("Y", text("y"))]),
            object(vec![("X", text("2")), ("Y", text("x"))]),
            object(vec![("X", text("2")), ("Y", text("y"))]),
        ]
    );
}

#[test]
fn a_query_may_use_an_operator_of_its_program() {
    let entries = run_query(":- op(700, xfx, ===>). a ===> b.", "X ===> Y.").unwrap();
    assert_eq!(entries, vec![object(vec![("X", text("a")), ("Y", text("b"))])]);
}

#[test]
fn a_query_in_other_letters_is_read() {
    let entries = run_query("", "X = '\u{e9}t\u{e9}', Y = \"a \\\"b\\\" c\".").unwrap();
    assert_eq!(entries, vec![object(vec![("X", text("\u{e9}t\u{e9}")), ("Y", text("a \"b\" c"))])]);
}
