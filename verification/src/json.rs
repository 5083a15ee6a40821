//! The JSON-like value model that every answer of the service is built from.

use vstd::prelude::*;

verus! {

/// A JSON-like value.
///
/// Numbers are carried as the bit pattern of an IEEE-754 binary64 value, and
/// the members of an object keep the order in which they were inserted. Two
/// objects with the same members in another order are therefore two values
/// here, though they stand for one mapping: see [`mapping_of`].
#[derive(Debug, PartialEq, Eq)]
pub enum Json {
    Bool(bool),
    Number(u64),
    Text(String),
    Array(Vec<Json>),
    Object(Vec<(String, Json)>),
}

/// The mathematical value that a [`Json`] stands for.
pub enum JsonView {
    Bool(bool),
    Number(u64),
    Text(Seq<char>),
    Array(Seq<JsonView>),
    Object(Seq<(Seq<char>, JsonView)>),
}

impl View for Json {
    type V = JsonView;

    open spec fn view(&self) -> JsonView
        decreases self,
    {
        match self {
            Json::Bool(b) => JsonView::Bool(*b),
            Json::Number(bits) => JsonView::Number(*bits),
            Json::Text(s) => JsonView::Text(s@),
            Json::Array(items) => JsonView::Array(
                Seq::new(
                    items@.len(),
                    |i: int| if 0 <= i < items@.len() { items[i]@ } else { arbitrary() },
                ),
            ),
            Json::Object(members) => JsonView::Object(
                Seq::new(
                    members@.len(),
                    |i: int|
                        if 0 <= i < members@.len() {
                            (members[i].0@, members[i].1@)
                        } else {
                            arbitrary()
                        },
                ),
            ),
        }
    }
}

/// Whether no object in `json`, at any depth, has two members under one key.
pub open spec fn unique_keys(json: JsonView) -> bool
    decreases json,
{
    match json {
        JsonView::Array(items) => forall|i: int|
            0 <= i < items.len() ==> unique_keys(#[trigger] items[i]),
        JsonView::Object(members) => {
            &&& forall|i: int, j: int|
                0 <= i < j < members.len() ==> (#[trigger] members[i]).0 != (
                #[trigger] members[j]).0
            &&& forall|i: int| 0 <= i < members.len() ==> unique_keys((#[trigger] members[i]).1)
        },
        _ => true,
    }
}

/// The members of an object as the mapping that a consumer reads: each key
/// with its value, and with the value of its last member where a key stands
/// more than once.
pub open spec fn mapping_of(members: Seq<(Seq<char>, JsonView)>) -> Map<Seq<char>, JsonView>
    decreases members.len(),
{
    if members.len() == 0 {
        Map::empty()
    } else {
        mapping_of(members.drop_last()).insert(members.last().0, members.last().1)
    }
}

/// Whether no two members of `members` have one key.
pub open spec fn distinct_keys(members: Seq<(Seq<char>, JsonView)>) -> bool {
    forall|i: int, j: int|
        0 <= i < j < members.len() ==> (#[trigger] members[i]).0 != (#[trigger] members[j]).0
}

/// Members of which no two have one key make the mapping of exactly their
/// keys, each to its value.
pub proof fn lemma_mapping_of(members: Seq<(Seq<char>, JsonView)>)
    requires
        distinct_keys(members),
    ensures
        forall|i: int|
            0 <= i < members.len() ==> mapping_of(members).dom().contains(
                (#[trigger] members[i]).0,
            ) && mapping_of(members)[members[i].0] == members[i].1,
        forall|key: Seq<char>| #[trigger]
            mapping_of(members).dom().contains(key) ==> exists|i: int|
                0 <= i < members.len() && (#[trigger] members[i]).0 == key,
    decreases members.len(),
{
    if members.len() > 0 {
        let earlier = members.drop_last();
        lemma_mapping_of(earlier);
        assert forall|i: int| 0 <= i < members.len() implies mapping_of(members).dom().contains(
            (#[trigger] members[i]).0,
        ) && mapping_of(members)[members[i].0] == members[i].1 by {
            if i < members.len() - 1 {
                assert(earlier[i] == members[i]);
                assert(members[i].0 != members[members.len() - 1].0);
            }
        }
        assert forall|key: Seq<char>| #[trigger]
            mapping_of(members).dom().contains(key) implies exists|i: int|
            0 <= i < members.len() && (#[trigger] members[i]).0 == key by {
            if key == members.last().0 {
                assert(members[members.len() - 1].0 == key);
            } else {
                assert(mapping_of(earlier).dom().contains(key));
                let i = choose|i: int| 0 <= i < earlier.len() && (#[trigger] earlier[i]).0 == key;
                assert(earlier[i] == members[i]);
            }
        }
    }
}

/// The order of the members plays no part in the mapping: two lists of
/// members, no key twice in either, that hold the same members make the same
/// mapping.
pub proof fn lemma_mapping_ignores_order(
    first: Seq<(Seq<char>, JsonView)>,
    second: Seq<(Seq<char>, JsonView)>,
)
    requires
        distinct_keys(first),
        distinct_keys(second),
        forall|i: int| 0 <= i < first.len() ==> second.contains(#[trigger] first[i]),
        forall|j: int| 0 <= j < second.len() ==> first.contains(#[trigger] second[j]),
    ensures
        mapping_of(first) == mapping_of(second),
{
    lemma_mapping_of(first);
    lemma_mapping_of(second);
    assert forall|key: Seq<char>|
        mapping_of(first).dom().contains(key) == mapping_of(second).dom().contains(key) by {
        if mapping_of(first).dom().contains(key) {
            let i = choose|i: int| 0 <= i < first.len() && (#[trigger] first[i]).0 == key;
            let j = choose|j: int| 0 <= j < second.len() && second[j] == first[i];
            assert(second[j].0 == key);
        }
        if mapping_of(second).dom().contains(key) {
            let j = choose|j: int| 0 <= j < second.len() && (#[trigger] second[j]).0 == key;
            let i = choose|i: int| 0 <= i < first.len() && first[i] == second[j];
            assert(first[i].0 == key);
        }
    }
    assert forall|key: Seq<char>| mapping_of(first).dom().contains(key) implies mapping_of(
        first,
    )[key] == mapping_of(second)[key] by {
        let i = choose|i: int| 0 <= i < first.len() && (#[trigger] first[i]).0 == key;
        let j = choose|j: int| 0 <= j < second.len() && second[j] == first[i];
        assert(second[j].0 == key);
    }
    assert(mapping_of(first) =~= mapping_of(second));
}

/// The views of a list of values, in order.
pub open spec fn values_view(items: Seq<Json>) -> Seq<JsonView> {
    Seq::new(items.len(), |i: int| items[i]@)
}

/// The views of the members of an object, in order.
pub open spec fn members_view(members: Seq<(String, Json)>) -> Seq<(Seq<char>, JsonView)> {
    Seq::new(members.len(), |i: int| (members[i].0@, members[i].1@))
}

impl Json {
    /// A text value holding `s`.
    pub fn text(s: &str) -> (json: Json)
        ensures
            json@ == JsonView::Text(s@),
    {
        Json::Text(String::from_str(s))
    }

    /// An array holding `items`, in order.
    pub fn array(items: Vec<Json>) -> (json: Json)
        ensures
            json@ == JsonView::Array(values_view(items@)),
    {
        let json = Json::Array(items);
        proof {
            reveal_with_fuel(<Json as View>::view, 2);
            assert(json@->Array_0 =~= values_view(items@));
        }
        json
    }

    /// An object holding `members`, in order.
    pub fn object(members: Vec<(String, Json)>) -> (json: Json)
        ensures
            json@ == JsonView::Object(members_view(members@)),
    {
        let json = Json::Object(members);
        proof {
            reveal_with_fuel(<Json as View>::view, 2);
            assert(json@->Object_0 =~= members_view(members@));
        }
        json
    }

    /// An object with the one member `key`, holding `value`.
    pub fn singleton(key: &str, value: Json) -> (json: Json)
        ensures
            json@ == JsonView::Object(seq![(key@, value@)]),
    {
        let mut members: Vec<(String, Json)> = Vec::new();
        members.push((String::from_str(key), value));
        let json = Json::object(members);
        assert(json@->Object_0 =~= seq![(key@, value@)]);
        json
    }
}

} // verus!
