//! The term codec: engine terms and bindings as JSON-like values.

use vstd::prelude::*;
use crate::json::{Json, JsonView, lemma_mapping_of, mapping_of, unique_keys, values_view};
use crate::term::{
    Bindings, Term, TermView, binds, distinct_names, lemma_term_view, terms_view,
};

verus! {

/// The encodings of a list of terms, in order.
pub open spec fn encode_terms(items: Seq<TermView>) -> Seq<JsonView> {
    Seq::new(items.len(), |i: int| encode_term(items[i]))
}

/// The JSON-like value that stands for a term.
///
/// Integers and rationals become their decimal text, floats a number, atoms
/// and strings a text. A list becomes the array of its encoded items. A
/// compound term becomes an object with the members `functor` and `args`, a
/// variable an object with the member `var`. Any other term becomes its
/// rendering as a text.
pub open spec fn encode_term(term: TermView) -> JsonView
    decreases term,
{
    match term {
        TermView::Integer(digits) => JsonView::Text(digits),
        TermView::Rational(digits) => JsonView::Text(digits),
        TermView::Float(bits) => JsonView::Number(bits),
        TermView::Atom(name) => JsonView::Text(name),
        TermView::Text(text) => JsonView::Text(text),
        TermView::List(items) => JsonView::Array(
            Seq::new(
                items.len(),
                |i: int| if 0 <= i < items.len() { encode_term(items[i]) } else { arbitrary() },
            ),
        ),
        TermView::Compound(functor, args) => JsonView::Object(
            seq![
                ("functor"@, JsonView::Text(functor)),
                (
                    "args"@,
                    JsonView::Array(
                        Seq::new(
                            args.len(),
                            |i: int|
                                if 0 <= i < args.len() {
                                    encode_term(args[i])
                                } else {
                                    arbitrary()
                                },
                        ),
                    ),
                ),
            ],
        ),
        TermView::Var(name) => JsonView::Object(seq![("var"@, JsonView::Text(name))]),
        TermView::Other(rendering) => JsonView::Text(rendering),
    }
}

/// What the encoding of a list and of a compound term is, over
/// [`encode_terms`].
pub proof fn lemma_encode_term(term: TermView)
    ensures
        term matches TermView::List(items) ==> encode_term(term) == JsonView::Array(
            encode_terms(items),
        ),
        term matches TermView::Compound(functor, args) ==> encode_term(term) == JsonView::Object(
            seq![
                ("functor"@, JsonView::Text(functor)),
                ("args"@, JsonView::Array(encode_terms(args))),
            ],
        ),
{
    reveal_with_fuel(encode_term, 2);
    match term {
        TermView::List(items) => {
            assert(encode_term(term)->Array_0 =~= encode_terms(items));
        },
        TermView::Compound(functor, args) => {
            let members = encode_term(term)->Object_0;
            assert(members[1].1->Array_0 =~= encode_terms(args));
            assert(members =~= seq![
                ("functor"@, JsonView::Text(functor)),
                ("args"@, JsonView::Array(encode_terms(args))),
            ]);
        },
        _ => {},
    }
}

/// The encoding of a term has no object with two members under one key.
pub proof fn lemma_encoding_has_unique_keys(term: TermView)
    ensures
        unique_keys(encode_term(term)),
    decreases term,
{
    lemma_encode_term(term);
    match term {
        TermView::List(items) => {
            assert forall|i: int| 0 <= i < items.len() implies unique_keys(
                #[trigger] encode_terms(items)[i],
            ) by {
                lemma_encoding_has_unique_keys(items[i]);
            }
            assert(unique_keys(JsonView::Array(encode_terms(items))));
        },
        TermView::Compound(functor, args) => {
            reveal_strlit("functor");
            reveal_strlit("args");
            assert forall|i: int| 0 <= i < args.len() implies unique_keys(
                #[trigger] encode_terms(args)[i],
            ) by {
                lemma_encoding_has_unique_keys(args[i]);
            }
            assert(unique_keys(JsonView::Array(encode_terms(args))));
            let members = seq![
                ("functor"@, JsonView::Text(functor)),
                ("args"@, JsonView::Array(encode_terms(args))),
            ];
            assert("functor"@.len() == 7 && "args"@.len() == 4);
            assert(members[0].0 != members[1].0);
            assert(unique_keys(members[0].1));
            assert(unique_keys(members[1].1));
            assert(unique_keys(JsonView::Object(members)));
        },
        TermView::Var(name) => {
            let members = seq![("var"@, JsonView::Text(name))];
            assert(unique_keys(members[0].1));
            assert(unique_keys(JsonView::Object(members)));
        },
        _ => {},
    }
}

/// The object of bindings of which no two have one name has no two members
/// under one key, at any depth.
pub proof fn lemma_bindings_have_unique_keys(bindings: Seq<(Seq<char>, TermView)>)
    requires
        distinct_names(bindings),
    ensures
        unique_keys(encode_bindings(bindings)),
{
    let members = encode_bindings(bindings)->Object_0;
    assert forall|i: int| 0 <= i < members.len() implies unique_keys(
        (#[trigger] members[i]).1,
    ) by {
        lemma_encoding_has_unique_keys(bindings[i].1);
    }
    assert forall|i: int, j: int| 0 <= i < j < members.len() implies (#[trigger] members[i]).0 != (
    #[trigger] members[j]).0 by {
        assert(bindings[i].0 != bindings[j].0);
    }
}

/// Read as a mapping, the object of bindings binds each name to the
/// encoding of its term and holds no other key, in whatever order the
/// bindings stand.
pub proof fn lemma_bindings_as_mapping(bindings: Seq<(Seq<char>, TermView)>)
    requires
        distinct_names(bindings),
    ensures
        forall|i: int|
            0 <= i < bindings.len() ==> mapping_of(
                encode_bindings(bindings)->Object_0,
            ).dom().contains((#[trigger] bindings[i]).0) && mapping_of(
                encode_bindings(bindings)->Object_0,
            )[bindings[i].0] == encode_term(bindings[i].1),
        forall|key: Seq<char>| #[trigger]
            mapping_of(encode_bindings(bindings)->Object_0).dom().contains(key) ==> binds(
                bindings,
                key,
            ),
{
    let members = encode_bindings(bindings)->Object_0;
    assert forall|i: int, j: int| 0 <= i < j < members.len() implies (#[trigger] members[i]).0 != (
    #[trigger] members[j]).0 by {
        assert(bindings[i].0 != bindings[j].0);
    }
    lemma_mapping_of(members);
    assert forall|i: int| 0 <= i < bindings.len() implies mapping_of(members).dom().contains(
        (#[trigger] bindings[i]).0,
    ) && mapping_of(members)[bindings[i].0] == encode_term(bindings[i].1) by {
        assert(members[i].0 == bindings[i].0);
    }
    assert forall|key: Seq<char>| #[trigger]
        mapping_of(members).dom().contains(key) implies binds(bindings, key) by {
        let i = choose|i: int| 0 <= i < members.len() && (#[trigger] members[i]).0 == key;
        assert(bindings[i].0 == key);
    }
}

/// Encodes each term of `items`, in order.
fn terms_to_json(items: &Vec<Term>) -> (out: Vec<Json>)
    ensures
        values_view(out@) == encode_terms(terms_view(items@)),
    decreases items,
{
    let mut out: Vec<Json> = Vec::new();
    let mut i: usize = 0;
    while i < items.len()
        invariant
            i <= items.len(),
            out@.len() == i,
            forall|k: int| 0 <= k < i ==> out@[k]@ == encode_term(items@[k]@),
        decreases items.len() - i,
    {
        let json = term_to_json(&items[i]);
        out.push(json);
        i += 1;
    }
    assert(values_view(out@) =~= encode_terms(terms_view(items@)));
    out
}

/// Encodes one term.
pub fn term_to_json(term: &Term) -> (json: Json)
    ensures
        json@ == encode_term(term@),
        unique_keys(json@),
    decreases term,
{
    proof {
        lemma_term_view(*term);
        lemma_encode_term(term@);
        lemma_encoding_has_unique_keys(term@);
    }
    match term {
        Term::Integer(digits) => Json::Text(digits.clone()),
        Term::Rational(digits) => Json::Text(digits.clone()),
        Term::Float(bits) => Json::Number(*bits),
        Term::Atom(name) => Json::Text(name.clone()),
        Term::Text(text) => Json::Text(text.clone()),
        Term::List(items) => Json::array(terms_to_json(items)),
        Term::Compound(functor, args) => {
            let mut members: Vec<(String, Json)> = Vec::new();
            members.push((String::from_str("functor"), Json::Text(functor.clone())));
            members.push((String::from_str("args"), Json::array(terms_to_json(args))));
            let json = Json::object(members);
            assert(json@->Object_0 =~= encode_term(term@)->Object_0);
            json
        },
        Term::Var(name) => Json::singleton("var", Json::Text(name.clone())),
        Term::Other(rendering) => Json::Text(rendering.clone()),
    }
}

/// The object that stands for the bindings of one answer: one member for
/// each binding, under the variable's name, holding the encoded term, in the
/// order of the bindings. The order carries no meaning: what a consumer reads
/// is the mapping of the members.
pub open spec fn encode_bindings(bindings: Seq<(Seq<char>, TermView)>) -> JsonView {
    JsonView::Object(
        Seq::new(bindings.len(), |i: int| (bindings[i].0, encode_term(bindings[i].1))),
    )
}

/// Encodes the bindings of one answer.
pub fn convert_bindings_to_json(bindings: &Bindings) -> (json: Json)
    ensures
        json@ == encode_bindings(bindings@),
        unique_keys(json@),
{
    proof {
        use_type_invariant(bindings);
        lemma_bindings_have_unique_keys(bindings@);
    }
    let mut members: Vec<(String, Json)> = Vec::new();
    let mut i: usize = 0;
    while i < bindings.len()
        invariant
            i <= bindings@.len(),
            members@.len() == i,
            forall|k: int|
                0 <= k < i ==> (#[trigger] members@[k]).0@ == bindings@[k].0 && members@[k].1@
                    == encode_term(bindings@[k].1),
        decreases bindings@.len() - i,
    {
        if let Some((name, term)) = bindings.get(i) {
            members.push((name.clone(), term_to_json(term)));
        }
        i += 1;
    }
    let json = Json::object(members);
    assert(json@->Object_0 =~= encode_bindings(bindings@)->Object_0);
    json
}

} // verus!
