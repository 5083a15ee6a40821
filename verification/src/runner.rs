//! The evaluation runner's own part: the answers of the engine, drained in
//! order and handed over as plain values, each turned into one response
//! entry.
//!
//! The engine itself is driven by the caller. It gives up by unwinding, on a
//! query that it cannot read and on some goals, and that can be caught only
//! where the evaluation is run away from everything else.

use vstd::prelude::*;
use crate::codec::{
    convert_bindings_to_json, encode_bindings, encode_term, lemma_bindings_have_unique_keys,
    lemma_encoding_has_unique_keys, term_to_json,
};
use crate::json::{Json, JsonView, unique_keys, values_view};
use crate::term::{Bindings, Term, TermView, bound, distinct_names};

verus! {

/// One element of the result sequence of a query.
#[derive(Debug, PartialEq, Eq)]
pub enum Outcome {
    /// The query succeeded and bound no variable.
    True,
    /// The query failed.
    False,
    /// The query raised a term that is not an error.
    Exception(Term),
    /// The query succeeded with these bindings.
    Bindings(Bindings),
    /// The engine reported an error, held as its diagnostic text.
    Error(String),
}

/// The mathematical value that an [`Outcome`] stands for.
pub enum OutcomeView {
    True,
    False,
    Exception(TermView),
    Bindings(Seq<(Seq<char>, TermView)>),
    Error(Seq<char>),
}

impl View for Outcome {
    type V = OutcomeView;

    open spec fn view(&self) -> OutcomeView {
        match self {
            Outcome::True => OutcomeView::True,
            Outcome::False => OutcomeView::False,
            Outcome::Exception(term) => OutcomeView::Exception(term@),
            Outcome::Bindings(bindings) => OutcomeView::Bindings(bindings@),
            Outcome::Error(diagnostic) => OutcomeView::Error(diagnostic@),
        }
    }
}

/// The views of a list of outcomes, in order.
pub open spec fn outcomes_view(outcomes: Seq<Outcome>) -> Seq<OutcomeView> {
    Seq::new(outcomes.len(), |i: int| outcomes[i]@)
}

/// The response entry of one outcome.
///
/// Success without bindings is `{ "result": true }`, failure
/// `{ "result": false }`, a raised term `{ "exception": .. }` over its
/// encoding, an engine error `{ "error": .. }` over its diagnostic text, and
/// an answer with bindings the object of its encoded bindings.
pub open spec fn entry_of(outcome: OutcomeView) -> JsonView {
    match outcome {
        OutcomeView::True => JsonView::Object(seq![("result"@, JsonView::Bool(true))]),
        OutcomeView::False => JsonView::Object(seq![("result"@, JsonView::Bool(false))]),
        OutcomeView::Exception(term) => JsonView::Object(seq![("exception"@, encode_term(term))]),
        OutcomeView::Bindings(bindings) => encode_bindings(bindings),
        OutcomeView::Error(diagnostic) => JsonView::Object(
            seq![("error"@, JsonView::Text(diagnostic))],
        ),
    }
}

/// The response entries of a sequence of outcomes: one for each, in order.
pub open spec fn entries_of(outcomes: Seq<OutcomeView>) -> Seq<JsonView> {
    Seq::new(outcomes.len(), |i: int| entry_of(outcomes[i]))
}

/// A response entry has no object with two members under one key, as long
/// as no two bindings of the outcome have one name.
pub proof fn lemma_entry_has_unique_keys(outcome: OutcomeView)
    requires
        outcome matches OutcomeView::Bindings(bindings) ==> distinct_names(bindings),
    ensures
        unique_keys(entry_of(outcome)),
{
    match outcome {
        OutcomeView::Exception(term) => {
            lemma_encoding_has_unique_keys(term);
            let members = seq![("exception"@, encode_term(term))];
            assert(unique_keys(members[0].1));
            assert(unique_keys(JsonView::Object(members)));
        },
        OutcomeView::Bindings(bindings) => {
            lemma_bindings_have_unique_keys(bindings);
        },
        OutcomeView::True => {
            let members = seq![("result"@, JsonView::Bool(true))];
            assert(unique_keys(members[0].1));
            assert(unique_keys(JsonView::Object(members)));
        },
        OutcomeView::False => {
            let members = seq![("result"@, JsonView::Bool(false))];
            assert(unique_keys(members[0].1));
            assert(unique_keys(JsonView::Object(members)));
        },
        OutcomeView::Error(diagnostic) => {
            let members = seq![("error"@, JsonView::Text(diagnostic))];
            assert(unique_keys(members[0].1));
            assert(unique_keys(JsonView::Object(members)));
        },
    }
}

/// Turns one outcome into its response entry.
pub fn response_entry(outcome: &Outcome) -> (entry: Json)
    ensures
        entry@ == entry_of(outcome@),
        unique_keys(entry@),
{
    proof {
        if let Outcome::Bindings(bindings) = outcome {
            use_type_invariant(bindings);
        }
        lemma_entry_has_unique_keys(outcome@);
    }
    match outcome {
        Outcome::True => Json::singleton("result", Json::Bool(true)),
        Outcome::False => Json::singleton("result", Json::Bool(false)),
        Outcome::Exception(term) => Json::singleton("exception", term_to_json(term)),
        Outcome::Bindings(bindings) => convert_bindings_to_json(bindings),
        Outcome::Error(diagnostic) => Json::singleton("error", Json::Text(diagnostic.clone())),
    }
}

/// Turns the outcomes of a query into its response entries: as many entries
/// as outcomes, the entry at each position that of the outcome there.
pub fn response_entries(outcomes: &Vec<Outcome>) -> (entries: Vec<Json>)
    ensures
        entries@.len() == outcomes@.len(),
        values_view(entries@) == entries_of(outcomes_view(outcomes@)),
        forall|i: int| 0 <= i < entries@.len() ==> unique_keys(#[trigger] entries@[i]@),
{
    let mut entries: Vec<Json> = Vec::new();
    let mut i: usize = 0;
    while i < outcomes.len()
        invariant
            i <= outcomes@.len(),
            entries@.len() == i,
            forall|k: int| 0 <= k < i ==> (#[trigger] entries@[k])@ == entry_of(outcomes@[k]@),
            forall|k: int| 0 <= k < i ==> unique_keys(#[trigger] entries@[k]@),
        decreases outcomes@.len() - i,
    {
        let entry = response_entry(&outcomes[i]);
        entries.push(entry);
        i += 1;
    }
    assert(values_view(entries@) =~= entries_of(outcomes_view(outcomes@)));
    entries
}

/// One answer as the engine gave it, in plain values: the bindings are the
/// pairs of the engine's map, in its order.
#[derive(Debug, PartialEq, Eq)]
pub enum Answer {
    True,
    False,
    Exception(Term),
    Bindings(Vec<(String, Term)>),
    Error(String),
}

/// The views of a list of pairs, in order.
pub open spec fn pairs_view(pairs: Seq<(String, Term)>) -> Seq<(Seq<char>, TermView)> {
    Seq::new(pairs.len(), |i: int| (pairs[i].0@, pairs[i].1@))
}

/// The outcome that an answer of the engine stands for: the same kind with
/// the same term or text, its pairs bound one after the other.
pub open spec fn converted(answer: Answer) -> OutcomeView {
    match answer {
        Answer::True => OutcomeView::True,
        Answer::False => OutcomeView::False,
        Answer::Exception(term) => OutcomeView::Exception(term@),
        Answer::Bindings(pairs) => OutcomeView::Bindings(bound(pairs_view(pairs@))),
        Answer::Error(diagnostic) => OutcomeView::Error(diagnostic@),
    }
}

/// Converts one answer of the engine into an outcome.
pub fn outcome_of(answer: Answer) -> (outcome: Outcome)
    ensures
        outcome@ == converted(answer),
{
    match answer {
        Answer::True => Outcome::True,
        Answer::False => Outcome::False,
        Answer::Exception(term) => Outcome::Exception(term),
        Answer::Bindings(pairs) => {
            let ghost given = pairs_view(pairs@);
            let mut bindings = Bindings::new();
            assert(given.take(0) =~= Seq::empty());
            for pair in it: pairs
                invariant
                    given == pairs_view(it.seq()),
                    bindings@ == bound(given.take(it.index() as int)),
            {
                let (name, term) = pair;
                bindings.insert(name, term);
                assert(given.take(it.index() + 1).drop_last() =~= given.take(it.index() as int));
            }
            assert(given.take(given.len() as int) =~= given);
            Outcome::Bindings(bindings)
        },
        Answer::Error(diagnostic) => Outcome::Error(diagnostic),
    }
}

/// The module that a program is loaded into: the engine's default one.
pub const PROGRAM_MODULE: &'static str = "user";

/// Turns the answers of a query into its response entries: as many entries
/// as answers, the entry at each place that of the outcome that the answer
/// there stands for.
pub fn entries_of_answers(answers: Vec<Answer>) -> (entries: Vec<Json>)
    ensures
        entries@.len() == answers@.len(),
        forall|i: int|
            0 <= i < answers@.len() ==> (#[trigger] entries@[i])@ == entry_of(
                converted(answers@[i]),
            ),
        forall|i: int| 0 <= i < entries@.len() ==> unique_keys(#[trigger] entries@[i]@),
{
    let ghost given = answers@;
    let mut entries: Vec<Json> = Vec::new();
    for answer in it: answers
        invariant
            given == it.seq(),
            entries@.len() == it.index(),
            forall|i: int|
                0 <= i < it.index() ==> (#[trigger] entries@[i])@ == entry_of(converted(given[i])),
            forall|i: int| 0 <= i < it.index() ==> unique_keys(#[trigger] entries@[i]@),
    {
        let outcome = outcome_of(answer);
        let entry = response_entry(&outcome);
        entries.push(entry);
    }
    entries
}

} // verus!
