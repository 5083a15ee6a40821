//! Engine terms and variable bindings, as plain values.

use vstd::prelude::*;

verus! {

/// One value of the evaluation engine.
///
/// An integer of any size is held as its decimal digits. A rational is held
/// as its numerator and denominator in decimal with `/` between them, and as
/// the numerator alone where the denominator is one. A float is held as the
/// bit pattern of an IEEE-754 binary64 value. `Other` holds the rendering
/// of a kind of term that this library has no variant for.
#[derive(Debug, PartialEq, Eq)]
pub enum Term {
    Integer(String),
    Rational(String),
    Float(u64),
    Atom(String),
    Text(String),
    List(Vec<Term>),
    Compound(String, Vec<Term>),
    Var(String),
    Other(String),
}

/// The mathematical value that a [`Term`] stands for.
pub enum TermView {
    Integer(Seq<char>),
    Rational(Seq<char>),
    Float(u64),
    Atom(Seq<char>),
    Text(Seq<char>),
    List(Seq<TermView>),
    Compound(Seq<char>, Seq<TermView>),
    Var(Seq<char>),
    Other(Seq<char>),
}

impl View for Term {
    type V = TermView;

    open spec fn view(&self) -> TermView
        decreases self,
    {
        match self {
            Term::Integer(digits) => TermView::Integer(digits@),
            Term::Rational(digits) => TermView::Rational(digits@),
            Term::Float(bits) => TermView::Float(*bits),
            Term::Atom(name) => TermView::Atom(name@),
            Term::Text(text) => TermView::Text(text@),
            Term::List(items) => TermView::List(
                Seq::new(
                    items@.len(),
                    |i: int| if 0 <= i < items@.len() { items[i]@ } else { arbitrary() },
                ),
            ),
            Term::Compound(functor, args) => TermView::Compound(
                functor@,
                Seq::new(
                    args@.len(),
                    |i: int| if 0 <= i < args@.len() { args[i]@ } else { arbitrary() },
                ),
            ),
            Term::Var(name) => TermView::Var(name@),
            Term::Other(rendering) => TermView::Other(rendering@),
        }
    }
}

/// The views of a list of terms, in order.
pub open spec fn terms_view(items: Seq<Term>) -> Seq<TermView> {
    Seq::new(items.len(), |i: int| items[i]@)
}

/// What the view of a list and of a compound term is, over [`terms_view`].
pub proof fn lemma_term_view(term: Term)
    ensures
        term matches Term::List(items) ==> term@ == TermView::List(terms_view(items@)),
        term matches Term::Compound(functor, args) ==> term@ == TermView::Compound(
            functor@,
            terms_view(args@),
        ),
{
    reveal_with_fuel(<Term as View>::view, 2);
    match term {
        Term::List(items) => {
            assert(term@->List_0 =~= terms_view(items@));
        },
        Term::Compound(functor, args) => {
            assert(term@->Compound_1 =~= terms_view(args@));
        },
        _ => {},
    }
}

/// Whether no two entries of `entries` have the same name.
pub open spec fn distinct_names(entries: Seq<(Seq<char>, TermView)>) -> bool {
    forall|i: int, j: int|
        0 <= i < j < entries.len() ==> (#[trigger] entries[i]).0 != (#[trigger] entries[j]).0
}

/// Whether some entry of `entries` is named `name`.
pub open spec fn binds(entries: Seq<(Seq<char>, TermView)>, name: Seq<char>) -> bool {
    exists|i: int| 0 <= i < entries.len() && (#[trigger] entries[i]).0 == name
}

/// The variable bindings of one answer: named terms, no name twice, in the
/// order in which the names were first bound.
#[derive(Debug, PartialEq, Eq)]
pub struct Bindings {
    entries: Vec<(String, Term)>,
}

impl View for Bindings {
    type V = Seq<(Seq<char>, TermView)>;

    closed spec fn view(&self) -> Seq<(Seq<char>, TermView)> {
        Seq::new(self.entries@.len(), |i: int| (self.entries@[i].0@, self.entries@[i].1@))
    }
}

impl Bindings {
    /// What holds of every value of this type: no name is bound twice.
    #[verifier::type_invariant]
    pub open spec fn well_formed(self) -> bool {
        distinct_names(self@)
    }

    /// No bindings.
    pub fn new() -> (bindings: Bindings)
        ensures
            bindings@ == Seq::<(Seq<char>, TermView)>::empty(),
    {
        let bindings = Bindings { entries: Vec::new() };
        assert(bindings@ =~= Seq::<(Seq<char>, TermView)>::empty());
        bindings
    }

    /// The number of bindings.
    pub fn len(&self) -> (n: usize)
        ensures
            n == self@.len(),
    {
        self.entries.len()
    }

    /// The name and the term of the binding at position `i`, if there is
    /// one.
    pub fn get(&self, i: usize) -> (binding: Option<(&String, &Term)>)
        ensures
            match binding {
                Some((name, term)) => i < self@.len() && (name@, term@) == self@[i as int],
                None => i >= self@.len(),
            },
    {
        if i < self.entries.len() {
            Some((&self.entries[i].0, &self.entries[i].1))
        } else {
            None
        }
    }

    /// Binds `name` to `term`: in place where `name` is bound already, at the
    /// end where it is not.
    pub fn insert(&mut self, name: String, term: Term)
        ensures
            distinct_names(final(self)@),
            forall|k: int|
                0 <= k < old(self)@.len() && (#[trigger] old(self)@[k]).0 == name@ ==> final(self)@
                    == old(self)@.update(k, (name@, term@)),
            !binds(old(self)@, name@) ==> final(self)@ == old(self)@.push((name@, term@)),
            final(self)@ == inserted(old(self)@, name@, term@),
    {
        proof {
            use_type_invariant(&*self);
        }
        let mut taken = Bindings::new();
        std::mem::swap(self, &mut taken);
        let mut entries = taken.entries;
        let ghost before = old(self)@;
        let mut i: usize = 0;
        while i < entries.len()
            invariant
                i <= entries@.len(),
                before == old(self)@,
                before == Seq::new(entries@.len(), |k: int| (entries@[k].0@, entries@[k].1@)),
                distinct_names(before),
                forall|k: int| 0 <= k < i ==> (#[trigger] before[k]).0 != name@,
            decreases entries@.len() - i,
        {
            if entries[i].0 == name {
                assert(before[i as int].0 == name@);
                entries.set(i, (name, term));
                proof {
                    let after = Seq::new(
                        entries@.len(),
                        |k: int| (entries@[k].0@, entries@[k].1@),
                    );
                    assert(after =~= before.update(i as int, (name@, term@)));
                    assert forall|a: int, b: int| 0 <= a < b < after.len() implies (
                    #[trigger] after[a]).0 != (#[trigger] after[b]).0 by {
                        assert(after[a].0 == before[a].0);
                        assert(after[b].0 == before[b].0);
                    }
                }
                *self = Bindings { entries };
                assert(self@ =~= before.update(i as int, (name@, term@)));
                return ;
            }
            i += 1;
        }
        entries.push((name, term));
        proof {
            let after = Seq::new(entries@.len(), |k: int| (entries@[k].0@, entries@[k].1@));
            assert(after =~= before.push((name@, term@)));
            assert forall|a: int, b: int| 0 <= a < b < after.len() implies (#[trigger] after[a]).0
                != (#[trigger] after[b]).0 by {
                if b < before.len() {
                    assert(after[a] == before[a]);
                    assert(after[b] == before[b]);
                } else {
                    assert(after[a] == before[a]);
                }
            }
        }
        *self = Bindings { entries };
    }
}

/// `entries` once `name` is bound to `term`: in the place of the entry with
/// that name where there is one, at the end where there is none.
pub open spec fn inserted(
    entries: Seq<(Seq<char>, TermView)>,
    name: Seq<char>,
    term: TermView,
) -> Seq<(Seq<char>, TermView)> {
    if binds(entries, name) {
        entries.update(
            choose|k: int| 0 <= k < entries.len() && (#[trigger] entries[k]).0 == name,
            (name, term),
        )
    } else {
        entries.push((name, term))
    }
}

/// The bindings that come of binding `pairs` one after the other, the first
/// one first: each name once, where it came first, with the term that came
/// last under it.
pub open spec fn bound(pairs: Seq<(Seq<char>, TermView)>) -> Seq<(Seq<char>, TermView)>
    decreases pairs.len(),
{
    if pairs.len() == 0 {
        Seq::empty()
    } else {
        inserted(bound(pairs.drop_last()), pairs.last().0, pairs.last().1)
    }
}

} // verus!
