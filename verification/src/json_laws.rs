//! What a JSON value says, and what is read of it.

use crate::json::json_text;
use crate::json::members_view;
use crate::json::parsed_json;
use crate::json::put;
use crate::json::views;
use crate::json::Json;
use crate::json::JsonView;
use vstd::prelude::*;

verus! {

/// The member `at` is the one that counts for the name `name`: it has the name and no later one
/// has.
pub open spec fn counts(members: Seq<(String, Json)>, name: Seq<char>, at: int) -> bool {
    &&& 0 <= at < members.len()
    &&& members[at].0@ == name
    &&& forall|k: int| at < k < members.len() ==> (#[trigger] members[k]).0@ != name
}

/// No member has the name `name`.
pub open spec fn lacks(members: Seq<(String, Json)>, name: Seq<char>) -> bool {
    forall|k: int| 0 <= k < members.len() ==> (#[trigger] members[k]).0@ != name
}

/// A value says what it holds: a string its text, an array its elements in order.
pub proof fn value_says_what_it_holds(j: Json)
    ensures
        match j {
            Json::Null => j@ == JsonView::Null,
            Json::Bool(b) => j@ == JsonView::Bool(b),
            Json::Number(n) => j@ == JsonView::Number(n),
            Json::String(s) => j@ == JsonView::String(s@),
            Json::Array(items) => {
                &&& j@ is Array
                &&& j@->Array_0.len() == items@.len()
                &&& forall|i: int|
                    0 <= i < items@.len() ==> #[trigger] j@->Array_0[i] == items@[i]@
            },
            Json::Object(members) => j@ is Object,
        },
{
}

/// An object has a member for each name that one of its entries has, the last of them where
/// several have it, and no others.
pub proof fn object_has_the_members_that_count(members: Seq<(String, Json)>, name: Seq<char>)
    ensures
        lacks(members, name) ==> !members_view(members).dom().contains(name),
        forall|at: int| #[trigger]
            counts(members, name, at) ==> members_view(members).dom().contains(name)
                && members_view(members)[name] == members[at].1@,
    decreases members.len(),
{
    if members.len() > 0 {
        let rest = members.drop_last();
        object_has_the_members_that_count(rest, name);
        if lacks(members, name) {
            assert forall|k: int| 0 <= k < rest.len() implies (#[trigger] rest[k]).0@ != name by {
                assert(members[k].0@ != name);
            }
            assert(members[members.len() - 1].0@ != name);
        }
        assert forall|at: int| #[trigger] counts(members, name, at) implies members_view(
            members,
        ).dom().contains(name) && members_view(members)[name] == members[at].1@ by {
            if at < members.len() - 1 {
                assert(members[members.len() - 1].0@ != name);
                assert forall|k: int| at < k < rest.len() implies (#[trigger] rest[k]).0@
                    != name by {
                    assert(members[k].0@ != name);
                }
                assert(counts(rest, name, at));
            }
        }
    }
}

/// `get` gives the member of an object that counts for the name, and nothing of other values.
pub proof fn get_gives_the_member_that_counts(j: &Json, name: &str, r: Option<&Json>)
    requires
        call_ensures(Json::get, (j, name), r),
    ensures
        match *j {
            Json::Object(members) => {
                &&& lacks(members@, name@) ==> r is None
                &&& forall|at: int| #[trigger]
                    counts(members@, name@, at) ==> r is Some && r->0@ == members@[at].1@
            },
            _ => r is None,
        },
{
    if let Json::Object(members) = *j {
        object_has_the_members_that_count(members@, name@);
    }
}

/// `as_str`, `as_bool` and `as_array` give what a string, a boolean and an array hold, and
/// nothing of other values.
pub proof fn readers_give_what_a_value_holds(
    j: &Json,
    text: Option<&str>,
    truth: Option<bool>,
    items: Option<&Vec<Json>>,
)
    requires
        call_ensures(Json::as_str, (j,), text),
        call_ensures(Json::as_bool, (j,), truth),
        call_ensures(Json::as_array, (j,), items),
    ensures
        match *j {
            Json::String(s) => text is Some && text->0@ == s@,
            _ => text is None,
        },
        truth == match *j {
            Json::Bool(b) => Some(b),
            _ => None,
        },
        match *j {
            Json::Array(elements) => {
                &&& items is Some
                &&& items->0@.len() == elements@.len()
                &&& forall|i: int|
                    0 <= i < elements@.len() ==> (#[trigger] items->0@[i])@ == elements@[i]@
            },
            _ => items is None,
        },
{
    if let Json::Array(elements) = *j {
        let said = j@->Array_0;
        let read = items->0@;
        assert(said.len() == elements@.len());
        assert(said == views(read));
        assert forall|i: int| 0 <= i < elements@.len() implies (#[trigger] read[i])@
            == elements@[i]@ by {
            assert(said[i] == elements@[i]@);
            assert(views(read)[i] == read[i]@);
        }
    }
}

/// `get_str` and `get_array` give what the member holds that counts for the name, where it is a
/// string or an array.
pub proof fn member_readers_give_what_the_member_holds(
    members: Vec<(String, Json)>,
    name: &str,
    at: int,
    text: Option<&str>,
    items: Option<&Vec<Json>>,
)
    requires
        counts(members@, name@, at),
        call_ensures(Json::get_str, (&Json::Object(members), name), text),
        call_ensures(Json::get_array, (&Json::Object(members), name), items),
    ensures
        match members@[at].1@ {
            JsonView::String(s) => text is Some && text->0@ == s,
            _ => text is None,
        },
        match members@[at].1@ {
            JsonView::Array(elements) => {
                &&& items is Some
                &&& items->0@.len() == elements.len()
                &&& forall|i: int|
                    0 <= i < elements.len() ==> (#[trigger] items->0@[i])@ == elements[i]
            },
            _ => items is None,
        },
{
    object_has_the_members_that_count(members@, name@);
    if let JsonView::Array(elements) = members@[at].1@ {
        let read = items->0@;
        assert(elements == views(read));
        assert forall|i: int| 0 <= i < elements.len() implies (#[trigger] read[i])@
            == elements[i] by {
            assert(views(read)[i] == read[i]@);
        }
    }
}

/// A text becomes the JSON string with just that text.
pub proof fn text_becomes_a_string(s: &str, j: Json)
    requires
        call_ensures(Json::text, (s,), j),
    ensures
        j@ == JsonView::String(s@),
{
}

/// A member that is put counts for its name, and the others are as they were.
pub proof fn put_member_counts(
    members: &mut Vec<(String, Json)>,
    name: &str,
    value: Json,
    other: Seq<char>,
)
    requires
        call_ensures(put, (members, name, value), ()),
    ensures
        ({
            let before = members_view(old(members)@);
            let after = members_view(final(members)@);
            &&& after.dom().contains(name@) && after[name@] == value@
            &&& other != name@ ==> (after.dom().contains(other) <==> before.dom().contains(other))
            &&& other != name@ && before.dom().contains(other) ==> after[other] == before[other]
        }),
{
}

/// A copy, and a value that went to `serde_json` and back, say what the value said.
pub proof fn value_survives_the_exchange(j: &Json, copy: Json, v: serde_json::Value, back: Json)
    requires
        call_ensures(Json::clone, (j,), copy),
        call_ensures(Json::to_value, (j,), v),
        call_ensures(Json::from_value, (v,), back),
    ensures
        copy@ == j@,
        back@ == j@,
{
}

/// What is parsed is what `serde_json` reads of the text, and what is rendered is what it writes
/// for the value.
pub proof fn text_is_that_of_serde_json(
    text: &str,
    parsed: Option<Json>,
    j: &Json,
    rendered: Option<String>,
)
    requires
        call_ensures(Json::parse, (text,), parsed),
        call_ensures(Json::render, (j,), rendered),
    ensures
        match parsed_json(text@) {
            Some(value) => parsed is Some && parsed->0@ == value,
            None => parsed is None,
        },
        match json_text(j@) {
            Some(text) => rendered is Some && rendered->0@ == text,
            None => rendered is None,
        },
{
}

} // verus!
