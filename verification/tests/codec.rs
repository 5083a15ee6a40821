use prolog_service::codec::{convert_bindings_to_json, term_to_json};
use prolog_service::json::Json;
use prolog_service::term::{Bindings, Term};

fn s(text: &str) -> String {
    text.to_string()
}

fn text(t: &str) -> Json {
    Json::Text(t.to_string())
}

fn object(members: Vec<(&str, Json)>) -> Json {
    Json::Object(members.into_iter().map(|(k, v)| (k.to_string(), v)).collect())
}

#[test]
fn an_integer_becomes_its_decimal_text() {
    assert_eq!(term_to_json(&Term::Integer(s("42"))), text("42"));
    assert_eq!(
        term_to_json(&Term::Integer(s("-340282366920938463463374607431768211456"))),
        text("-340282366920938463463374607431768211456")
    );
}

#[test]
fn a_rational_becomes_its_text() {
    assert_eq!(term_to_json(&Term::Rational(s("1/3"))), text("1/3"));
}

#[test]
fn a_float_becomes_a_number() {
    assert_eq!(term_to_json(&Term::Float(2.5f64.to_bits())), Json::Number(2.5f64.to_bits()));
    assert_eq!(term_to_json(&Term::Float(0)), Json::Number(0));
    assert_eq!(
        term_to_json(&Term::Float(f64::NAN.to_bits())),
        Json::Number(f64::NAN.to_bits())
    );
}

#[test]
fn atoms_and_strings_become_texts() {
    assert_eq!(term_to_json(&Term::Atom(s("my_error"))), text("my_error"));
    assert_eq!(term_to_json(&Term::Text(s("hello world"))), text("hello world"));
    assert_eq!(term_to_json(&Term::Atom(s(""))), text(""));
}

#[test]
fn a_list_becomes_an_array_in_order() {
    let list = Term::List(vec![Term::Integer(s("1")), Term::Atom(s("a")), Term::Text(s("b"))]);
    assert_eq!(term_to_json(&list), Json::Array(vec![text("1"), text("a"), text("b")]));
    assert_eq!(term_to_json(&Term::List(vec![])), Json::Array(vec![]));
}

#[test]
fn a_compound_becomes_functor_and_args() {
    let term = Term::Compound(s("point"), vec![Term::Integer(s("1")), Term::Integer(s("2"))]);
    assert_eq!(
        term_to_json(&term),
        object(vec![
            ("functor", text("point")),
            ("args", Json::Array(vec![text("1"), text("2")])),
        ])
    );
}

#[test]
fn a_compound_without_arguments_has_empty_args() {
    assert_eq!(
        term_to_json(&Term::Compound(s("f"), vec![])),
        object(vec![("functor", text("f")), ("args", Json::Array(vec![]))])
    );
}

#[test]
fn a_variable_becomes_a_var_object() {
    assert_eq!(term_to_json(&Term::Var(s("X"))), object(vec![("var", text("X"))]));
}

#[test]
fn an_unknown_term_becomes_its_rendering() {
    assert_eq!(term_to_json(&Term::Other(s("Blob(0x2a)"))), text("Blob(0x2a)"));
}

#[test]
fn nesting_is_encoded_all_the_way_down() {
    let term = Term::List(vec![
        Term::Compound(
            s("f"),
            vec![Term::List(vec![Term::Var(s("Y")), Term::Float(1.0f64.to_bits())])],
        ),
        Term::List(vec![Term::List(vec![])]),
    ]);
    assert_eq!(
        term_to_json(&term),
        Json::Array(vec![
            object(vec![
                ("functor", text("f")),
                (
                    "args",
                    Json::Array(vec![Json::Array(vec![
                        object(vec![("var", text("Y"))]),
                        Json::Number(1.0f64.to_bits()),
                    ])]),
                ),
            ]),
            Json::Array(vec![Json::Array(vec![])]),
        ])
    );
}

#[test]
fn a_deep_list_is_encoded() {
    let mut term = Term::Atom(s("leaf"));
    let mut expected = text("leaf");
    for _ in 0..200 {
        term = Term::List(vec![term]);
        expected = Json::Array(vec![expected]);
    }
    assert_eq!(term_to_json(&term), expected);
}

#[test]
fn no_bindings_become_an_empty_object() {
    assert_eq!(convert_bindings_to_json(&Bindings::new()), Json::Object(vec![]));
}

#[test]
fn bindings_become_members_under_their_names() {
    let mut bindings = Bindings::new();
    bindings.insert(s("X"), Term::Integer(s("1")));
    bindings.insert(s("Name"), Term::Atom(s("alice")));
    bindings.insert(s("Rest"), Term::List(vec![Term::Var(s("_A"))]));
    assert_eq!(
        convert_bindings_to_json(&bindings),
        object(vec![
            ("X", text("1")),
            ("Name", text("alice")),
            ("Rest", Json::Array(vec![object(vec![("var", text("_A"))])])),
        ])
    );
}

#[test]
fn a_name_that_is_bound_again_keeps_its_place() {
    let mut bindings = Bindings::new();
    bindings.insert(s("X"), Term::Integer(s("1")));
    bindings.insert(s("Y"), Term::Integer(s("2")));
    bindings.insert(s("X"), Term::Integer(s("3")));
    assert_eq!(bindings.len(), 2);
    assert_eq!(bindings.get(0), Some((&s("X"), &Term::Integer(s("3")))));
    assert_eq!(bindings.get(1), Some((&s("Y"), &Term::Integer(s("2")))));
    assert_eq!(bindings.get(2), None);
    assert_eq!(
        convert_bindings_to_json(&bindings),
        object(vec![("X", text("3")), ("Y", text("2"))])
    );
}

#[test]
fn a_binding_named_like_an_entry_key_is_kept() {
    let mut bindings = Bindings::new();
    bindings.insert(s("result"), Term::Atom(s("yes")));
    assert_eq!(convert_bindings_to_json(&bindings), object(vec![("result", text("yes"))]));
}

#[test]
fn json_constructors_hold_what_they_are_given() {
    assert_eq!(Json::text("ok"), text("ok"));
    assert_eq!(Json::array(vec![Json::Bool(true)]), Json::Array(vec![Json::Bool(true)]));
    assert_eq!(
        Json::object(vec![(s("a"), Json::Bool(false))]),
        object(vec![("a", Json::Bool(false))])
    );
    assert_eq!(Json::singleton("k", text("v")), object(vec![("k", text("v"))]));
}
