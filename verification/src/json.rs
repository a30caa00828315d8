//! JSON values as plain data, and their exchange with `serde_json`.

use crate::text::decimal;
use crate::text::opt_text;
use crate::text::same_text;
use vstd::prelude::*;

verus! {

broadcast use vstd::map::group_map_axioms;

/// A JSON value.
#[derive(Debug, PartialEq)]
pub enum Json {
    Null,
    Bool(bool),
    Number(serde_json::Number),
    String(String),
    Array(Vec<Json>),
    /// The members in order. Of two members with the same name the later one counts.
    Object(Vec<(String, Json)>),
}

/// What a JSON value says: the order of an object's members says nothing.
#[verifier::ext_equal]
pub enum JsonView {
    Null,
    Bool(bool),
    Number(serde_json::Number),
    String(Seq<char>),
    Array(Seq<JsonView>),
    Object(Map<Seq<char>, JsonView>),
}

impl JsonView {
    /// The member `name` of an object; other values have no members.
    pub open spec fn member(self, name: Seq<char>) -> Option<JsonView> {
        match self {
            JsonView::Object(members) => if members.dom().contains(name) {
                Some(members[name])
            } else {
                None
            },
            _ => None,
        }
    }

    /// The text of a string.
    pub open spec fn text(self) -> Option<Seq<char>> {
        match self {
            JsonView::String(s) => Some(s),
            _ => None,
        }
    }

    /// The elements of an array.
    pub open spec fn elements(self) -> Option<Seq<JsonView>> {
        match self {
            JsonView::Array(items) => Some(items),
            _ => None,
        }
    }

    /// The truth value of a boolean.
    pub open spec fn truth(self) -> Option<bool> {
        match self {
            JsonView::Bool(b) => Some(b),
            _ => None,
        }
    }

    /// The text of the member `name`, where there is such a member and it is a string.
    pub open spec fn text_member(self, name: Seq<char>) -> Option<Seq<char>> {
        match self.member(name) {
            Some(v) => v.text(),
            None => None,
        }
    }

    /// The elements of the member `name`, where there is such a member and it is an array.
    pub open spec fn array_member(self, name: Seq<char>) -> Option<Seq<JsonView>> {
        match self.member(name) {
            Some(v) => v.elements(),
            None => None,
        }
    }

    /// The truth value of the member `name`, where there is such a member and it is a boolean.
    pub open spec fn bool_member(self, name: Seq<char>) -> Option<bool> {
        match self.member(name) {
            Some(v) => v.truth(),
            None => None,
        }
    }
}

/// What `j` says.
pub open spec fn json_view(j: Json) -> JsonView
    decreases j,
{
    match j {
        Json::Null => JsonView::Null,
        Json::Bool(b) => JsonView::Bool(b),
        Json::Number(n) => JsonView::Number(n),
        Json::String(s) => JsonView::String(s@),
        Json::Array(items) => JsonView::Array(
            Seq::new(
                items@.len(),
                |i: int|
                    if 0 <= i < items@.len() {
                        json_view(items@[i])
                    } else {
                        JsonView::Null
                    },
            ),
        ),
        Json::Object(members) => JsonView::Object(members_view(members@)),
    }
}

/// The members of an object by name.
pub open spec fn members_view(members: Seq<(String, Json)>) -> Map<Seq<char>, JsonView>
    decreases members,
{
    if members.len() == 0 {
        Map::empty()
    } else {
        members_view(members.drop_last()).insert(members.last().0@, json_view(members.last().1))
    }
}

impl View for Json {
    type V = JsonView;

    open spec fn view(&self) -> JsonView {
        json_view(*self)
    }
}

/// What a sequence of values says.
pub open spec fn views(items: Seq<Json>) -> Seq<JsonView> {
    items.map_values(|j: Json| j@)
}

/// What a value says that may be absent.
pub open spec fn opt_view(j: Option<Json>) -> Option<JsonView> {
    match j {
        Some(j) => Some(j@),
        None => None,
    }
}

/// An array says what its elements say.
pub broadcast proof fn lemma_array_view(items: Vec<Json>)
    ensures
        #[trigger] json_view(Json::Array(items)) == JsonView::Array(views(items@)),
{
    assert(json_view(Json::Array(items))->Array_0 =~= views(items@));
}

/// A member in front of others counts only where none of them has its name.
proof fn lemma_front_member(front: (String, Json), rest: Seq<(String, Json)>)
    ensures
        members_view(seq![front] + rest) == if members_view(rest).dom().contains(front.0@) {
            members_view(rest)
        } else {
            members_view(rest).insert(front.0@, front.1@)
        },
    decreases rest.len(),
{
    let all = seq![front] + rest;
    if rest.len() == 0 {
        assert(all.drop_last() =~= rest);
        assert(all.last() == front);
    } else {
        assert(all.drop_last() =~= seq![front] + rest.drop_last());
        assert(all.last() == rest.last());
        lemma_front_member(front, rest.drop_last());
        assert(members_view(all) =~= if members_view(rest).dom().contains(front.0@) {
            members_view(rest)
        } else {
            members_view(rest).insert(front.0@, front.1@)
        });
    }
}

/// Adds a member to those of an object, in place of an earlier one with its name.
pub fn put(members: &mut Vec<(String, Json)>, name: &str, value: Json)
    ensures
        members_view(final(members)@) == members_view(old(members)@).insert(name@, value@),
{
    let ghost before = members@;
    members.push((name.to_owned(), value));
    assert(members@.drop_last() =~= before);
}

impl Json {
    /// A JSON string.
    pub fn text(s: &str) -> (j: Json)
        ensures
            j@ == JsonView::String(s@),
    {
        Json::String(s.to_owned())
    }

    /// The member `name` of an object; `None` for every other value.
    pub fn get(&self, name: &str) -> (member: Option<&Json>)
        ensures
            match member {
                Some(v) => self@.member(name@) == Some(v@),
                None => self@.member(name@) is None,
            },
    {
        match self {
            Json::Object(members) => {
                let mut i: usize = members.len();
                assert(members@.take(i as int) =~= members@);
                while i > 0
                    invariant
                        self@ == JsonView::Object(members_view(members@)),
                        i <= members.len(),
                        members_view(members@).dom().contains(name@) == members_view(
                            members@.take(i as int),
                        ).dom().contains(name@),
                        members_view(members@).dom().contains(name@) ==> members_view(
                            members@,
                        )[name@] == members_view(members@.take(i as int))[name@],
                    decreases i,
                {
                    assert(members@.take(i as int).drop_last() =~= members@.take(i - 1));
                    assert(members@.take(i as int).last() == members@[i - 1]);
                    i -= 1;
                    if same_text(members[i].0.as_str(), name) {
                        return Some(&members[i].1);
                    }
                }
                None
            },
            _ => None,
        }
    }

    /// The text of a string.
    pub fn as_str(&self) -> (text: Option<&str>)
        ensures
            match text {
                Some(s) => self@.text() == Some(s@),
                None => self@.text() is None,
            },
    {
        match self {
            Json::String(s) => Some(s.as_str()),
            _ => None,
        }
    }

    /// The elements of an array.
    pub fn as_array(&self) -> (items: Option<&Vec<Json>>)
        ensures
            match items {
                Some(items) => self@.elements() == Some(views(items@)),
                None => self@.elements() is None,
            },
    {
        broadcast use lemma_array_view;

        match self {
            Json::Array(items) => Some(items),
            _ => None,
        }
    }

    /// The truth value of a boolean.
    pub fn as_bool(&self) -> (truth: Option<bool>)
        ensures
            truth == self@.truth(),
    {
        match self {
            Json::Bool(b) => Some(*b),
            _ => None,
        }
    }

    /// The text of the member `name`, where there is such a member and it is a string.
    pub fn get_str(&self, name: &str) -> (text: Option<&str>)
        ensures
            match text {
                Some(s) => self@.text_member(name@) == Some(s@),
                None => self@.text_member(name@) is None,
            },
    {
        match self.get(name) {
            Some(v) => v.as_str(),
            None => None,
        }
    }

    /// The elements of the member `name`, where there is such a member and it is an array.
    pub fn get_array(&self, name: &str) -> (items: Option<&Vec<Json>>)
        ensures
            match items {
                Some(items) => self@.array_member(name@) == Some(views(items@)),
                None => self@.array_member(name@) is None,
            },
    {
        match self.get(name) {
            Some(v) => v.as_array(),
            None => None,
        }
    }
}

impl Clone for Json {
    fn clone(&self) -> (copy: Self)
        ensures
            copy@ == self@,
        decreases self,
    {
        match self {
            Json::Null => Json::Null,
            Json::Bool(b) => Json::Bool(*b),
            Json::Number(n) => Json::Number(n.clone()),
            Json::String(s) => Json::String(s.clone()),
            Json::Array(items) => {
                let mut copies: Vec<Json> = Vec::new();
                let mut i: usize = 0;
                while i < items.len()
                    invariant
                        i <= items.len(),
                        views(copies@) == views(items@).take(i as int),
                        decreases_to!(self => items),
                    decreases items.len() - i,
                {
                    let ghost done = views(copies@);
                    let copy = items[i].clone();
                    copies.push(copy);
                    assert(views(copies@) =~= done.push(copy@));
                    assert(views(items@).take(i + 1) =~= done.push(views(items@)[i as int]));
                    i += 1;
                }
                proof {
                    assert(views(items@).take(i as int) =~= views(items@));
                    lemma_array_view(copies);
                    lemma_array_view(*items);
                }
                Json::Array(copies)
            },
            Json::Object(members) => {
                let mut copies: Vec<(String, Json)> = Vec::new();
                let mut i: usize = 0;
                while i < members.len()
                    invariant
                        i <= members.len(),
                        members_view(copies@) == members_view(members@.take(i as int)),
                        decreases_to!(self => members),
                    decreases members.len() - i,
                {
                    let ghost before = copies@;
                    copies.push((members[i].0.clone(), members[i].1.clone()));
                    assert(copies@.drop_last() =~= before);
                    assert(members@.take(i + 1).drop_last() =~= members@.take(i as int));
                    i += 1;
                }
                assert(members@.take(i as int) =~= members@);
                Json::Object(copies)
            },
        }
    }
}

// ---------------------------------------------------------------------------
// serde_json
// ---------------------------------------------------------------------------

/// `serde_json::Value`, the tree that `serde_json` reads text into and writes text from.
#[verifier::external_type_specification]
#[verifier::external_body]
pub struct ExValue(serde_json::Value);

/// `serde_json::Number`, carried through unread.
#[verifier::external_type_specification]
#[verifier::external_body]
pub struct ExNumber(serde_json::Number);

/// `Number::clone`: the copy is the same number.
pub assume_specification[ <serde_json::Number as Clone>::clone ](
    n: &serde_json::Number,
) -> (copy: serde_json::Number)
    ensures
        copy == *n,
;

/// What a `serde_json::Value` holds.
pub uninterp spec fn value_json(v: serde_json::Value) -> JsonView;

/// What `serde_json` reads out of a text: `None` where the text is not one JSON value.
pub uninterp spec fn parsed_json(text: Seq<char>) -> Option<JsonView>;

/// What `serde_json` writes for a value: `None` where it reports an error.
pub uninterp spec fn json_text(j: JsonView) -> Option<Seq<char>>;

/// The number that `serde_json` makes of an unsigned integer.
pub uninterp spec fn json_number(n: u32) -> serde_json::Number;

/// `serde_json::Number::from` for an unsigned integer. `serde_json` writes the number in decimal.
#[verifier::external_body]
pub(crate) fn number(n: u32) -> (r: serde_json::Number)
    ensures
        r == json_number(n),
        json_text(JsonView::Number(r)) == Some(decimal(n as nat)),
{
    serde_json::Number::from(n)
}

/// The variant and the fields of a `serde_json::Value`, an object as its list of members.
enum ValueParts {
    Null,
    Bool(bool),
    Number(serde_json::Number),
    String(String),
    Array(Vec<serde_json::Value>),
    Object(Vec<(String, serde_json::Value)>),
}

/// What a sequence of `serde_json::Value`s holds.
spec fn value_views(items: Seq<serde_json::Value>) -> Seq<JsonView> {
    items.map_values(|v: serde_json::Value| value_json(v))
}

/// What a list of members holds, by name.
spec fn value_members(members: Seq<(String, serde_json::Value)>) -> Map<Seq<char>, JsonView>
    decreases members.len(),
{
    if members.len() == 0 {
        Map::empty()
    } else {
        value_members(members.drop_last()).insert(
            members.last().0@,
            value_json(members.last().1),
        )
    }
}

/// No two members have the same name.
spec fn names_are_distinct(members: Seq<(String, serde_json::Value)>) -> bool {
    forall|i: int, k: int|
        0 <= i < k < members.len() ==> (#[trigger] members[i]).0@ != (#[trigger] members[k]).0@
}

/// What the parts of a `serde_json::Value` hold.
spec fn parts_json(parts: ValueParts) -> JsonView {
    match parts {
        ValueParts::Null => JsonView::Null,
        ValueParts::Bool(b) => JsonView::Bool(b),
        ValueParts::Number(n) => JsonView::Number(n),
        ValueParts::String(s) => JsonView::String(s@),
        ValueParts::Array(items) => JsonView::Array(value_views(items@)),
        ValueParts::Object(members) => JsonView::Object(value_members(members@)),
    }
}

/// Takes a `serde_json::Value` apart into its variant and fields. The members of an object are
/// those of its `serde_json::Map`, which holds one entry for each name.
#[verifier::external_body]
fn value_into_parts(v: serde_json::Value) -> (parts: ValueParts)
    ensures
        value_json(v) == parts_json(parts),
        parts matches ValueParts::Object(members) ==> names_are_distinct(members@),
{
    match v {
        serde_json::Value::Null => ValueParts::Null,
        serde_json::Value::Bool(b) => ValueParts::Bool(b),
        serde_json::Value::Number(n) => ValueParts::Number(n),
        serde_json::Value::String(s) => ValueParts::String(s),
        serde_json::Value::Array(items) => ValueParts::Array(items),
        serde_json::Value::Object(members) => ValueParts::Object(members.into_iter().collect()),
    }
}

/// Builds the `serde_json::Value` of a variant and its fields. The members of an object, each
/// with a name of its own, become the entries of a `serde_json::Map`.
#[verifier::external_body]
fn value_from_parts(parts: ValueParts) -> (v: serde_json::Value)
    requires
        parts matches ValueParts::Object(members) ==> names_are_distinct(members@),
    ensures
        value_json(v) == parts_json(parts),
{
    match parts {
        ValueParts::Null => serde_json::Value::Null,
        ValueParts::Bool(b) => serde_json::Value::Bool(b),
        ValueParts::Number(n) => serde_json::Value::Number(n),
        ValueParts::String(s) => serde_json::Value::String(s),
        ValueParts::Array(items) => serde_json::Value::Array(items),
        ValueParts::Object(members) => serde_json::Value::Object(members.into_iter().collect()),
    }
}

/// `serde_json::from_str` into a `serde_json::Value`. What it reads depends on the text alone.
#[verifier::external_body]
fn value_from_text(text: &str) -> (v: Option<serde_json::Value>)
    ensures
        match v {
            Some(v) => parsed_json(text@) == Some(value_json(v)),
            None => parsed_json(text@) is None,
        },
{
    serde_json::from_str::<serde_json::Value>(text).ok()
}

/// `serde_json::to_string` of a `serde_json::Value`. What it writes depends on what the value
/// holds alone: a `serde_json::Map` keeps its entries in the order of their names.
#[verifier::external_body]
fn value_to_text(v: &serde_json::Value) -> (text: Option<String>)
    ensures
        opt_text(text) == json_text(value_json(*v)),
{
    serde_json::to_string(v).ok()
}

/// The names of a list of members are those in the list.
proof fn lemma_value_members(members: Seq<(String, serde_json::Value)>)
    ensures
        value_members(members).dom().finite(),
        forall|name: Seq<char>| #[trigger]
            value_members(members).dom().contains(name) <==> exists|i: int|
                0 <= i < members.len() && (#[trigger] members[i]).0@ == name,
        names_are_distinct(members) ==> forall|i: int|
            0 <= i < members.len() ==> value_members(members)[(#[trigger] members[i]).0@]
                == value_json(members[i].1),
    decreases members.len(),
{
    if members.len() > 0 {
        let rest = members.drop_last();
        lemma_value_members(rest);
        assert forall|name: Seq<char>| #[trigger]
            value_members(members).dom().contains(name) <==> exists|i: int|
                0 <= i < members.len() && (#[trigger] members[i]).0@ == name by {
            if value_members(rest).dom().contains(name) {
                let i = choose|i: int| 0 <= i < rest.len() && (#[trigger] rest[i]).0@ == name;
                assert(members[i].0@ == name);
            }
            if exists|i: int| 0 <= i < members.len() && (#[trigger] members[i]).0@ == name {
                let i = choose|i: int| 0 <= i < members.len() && (#[trigger] members[i]).0@ == name;
                if i < rest.len() {
                    assert(rest[i].0@ == name);
                } else {
                    assert(members.last().0@ == name);
                }
            }
            if members.last().0@ == name {
                assert(members[members.len() - 1].0@ == name);
            }
        }
        if names_are_distinct(members) {
            assert(names_are_distinct(rest)) by {
                assert forall|i: int, k: int| 0 <= i < k < rest.len() implies (#[trigger] rest[i]).0@
                    != (#[trigger] rest[k]).0@ by {
                    assert(members[i].0@ != members[k].0@);
                }
            }
            assert forall|i: int| 0 <= i < members.len() implies value_members(
                members,
            )[(#[trigger] members[i]).0@] == value_json(members[i].1) by {
                if i < rest.len() {
                    assert(rest[i] == members[i]);
                    assert(members[i].0@ != members[members.len() - 1].0@);
                }
            }
        }
    }
}

impl Json {
    /// The value that `v` holds.
    pub fn from_value(v: serde_json::Value) -> (j: Json)
        ensures
            j@ == value_json(v),
        decreases value_json(v),
    {
        match value_into_parts(v) {
            ValueParts::Null => Json::Null,
            ValueParts::Bool(b) => Json::Bool(b),
            ValueParts::Number(n) => Json::Number(n),
            ValueParts::String(s) => Json::String(s),
            ValueParts::Array(values) => {
                let ghost all = value_views(values@);
                let mut values = values;
                let mut items: Vec<Json> = Vec::new();
                while values.len() > 0
                    invariant
                        value_json(v) == JsonView::Array(all),
                        all == views(items@) + value_views(values@),
                    decreases values.len(),
                {
                    let ghost before = values@;
                    let ghost done = views(items@);
                    let next = values.remove(0);
                    assert(before[0] == next);
                    assert(all[done.len() as int] == value_json(next));
                    assert(decreases_to!(value_json(v) => value_json(v)->Array_0));
                    assert(decreases_to!(all => all[done.len() as int]));
                    items.push(Json::from_value(next));
                    assert(views(items@) =~= done.push(value_json(next)));
                    assert(all =~= views(items@) + value_views(values@));
                }
                assert(all =~= views(items@));
                proof {
                    lemma_array_view(items);
                }
                Json::Array(items)
            },
            ValueParts::Object(values) => {
                let ghost all = values@;
                proof {
                    lemma_value_members(all);
                }
                let mut values = values;
                let mut members: Vec<(String, Json)> = Vec::new();
                assert(all.take(0) =~= Seq::empty());
                assert(all.skip(0) =~= all);
                while values.len() > 0
                    invariant
                        value_json(v) == JsonView::Object(value_members(all)),
                        value_members(all).dom().finite(),
                        forall|i: int|
                            0 <= i < all.len() ==> value_members(all).dom().contains(
                                (#[trigger] all[i]).0@,
                            ) && value_members(all)[all[i].0@] == value_json(all[i].1),
                        members.len() + values.len() == all.len(),
                        values@ == all.skip(members.len() as int),
                        members_view(members@) == value_members(all.take(members.len() as int)),
                    decreases values.len(),
                {
                    let ghost done = members@;
                    let (name, value) = values.remove(0);
                    let ghost n: int = done.len() as int;
                    assert(all[n] == (name, value));
                    assert(decreases_to!(value_json(v) => value_json(v)->Object_0));
                    assert(decreases_to!(value_members(all) => value_members(all)[all[n].0@]));
                    members.push((name, Json::from_value(value)));
                    assert(members@.drop_last() =~= done);
                    assert(all.take(n + 1).drop_last() =~= all.take(n));
                    assert(values@ =~= all.skip(n + 1));
                }
                assert(all.take(members.len() as int) =~= all);
                Json::Object(members)
            },
        }
    }
}

impl Json {
    /// A `serde_json::Value` that holds this value.
    pub fn to_value(&self) -> (v: serde_json::Value)
        ensures
            value_json(v) == self@,
        decreases self,
    {
        match self {
            Json::Null => value_from_parts(ValueParts::Null),
            Json::Bool(b) => value_from_parts(ValueParts::Bool(*b)),
            Json::Number(n) => value_from_parts(ValueParts::Number(n.clone())),
            Json::String(s) => value_from_parts(ValueParts::String(s.clone())),
            Json::Array(items) => {
                let mut values: Vec<serde_json::Value> = Vec::new();
                let mut i: usize = 0;
                while i < items.len()
                    invariant
                        i <= items.len(),
                        value_views(values@) == views(items@).take(i as int),
                        decreases_to!(self => items),
                    decreases items.len() - i,
                {
                    let ghost done = value_views(values@);
                    let value = items[i].to_value();
                    values.push(value);
                    assert(value_views(values@) =~= done.push(value_json(value)));
                    assert(views(items@).take(i + 1) =~= done.push(views(items@)[i as int]));
                    i += 1;
                }
                proof {
                    assert(views(items@).take(i as int) =~= views(items@));
                    lemma_array_view(*items);
                }
                value_from_parts(ValueParts::Array(values))
            },
            Json::Object(members) => {
                let mut values: Vec<(String, serde_json::Value)> = Vec::new();
                let mut i: usize = members.len();
                assert(members@.skip(i as int) =~= Seq::empty());
                while i > 0
                    invariant
                        i <= members.len(),
                        names_are_distinct(values@),
                        value_members(values@) == members_view(members@.skip(i as int)),
                        decreases_to!(self => members),
                    decreases i,
                {
                    let ghost later = members@.skip(i as int);
                    let ghost before = values@;
                    i -= 1;
                    proof {
                        assert(members@.skip(i as int) =~= seq![members@[i as int]] + later);
                        lemma_front_member(members@[i as int], later);
                        lemma_value_members(before);
                    }
                    if !has_name(&values, members[i].0.as_str()) {
                        values.push((members[i].0.clone(), members[i].1.to_value()));
                        assert(values@.drop_last() =~= before);
                    }
                }
                assert(members@.skip(0) =~= members@);
                value_from_parts(ValueParts::Object(values))
            },
        }
    }

    /// The value that `text` writes out, where it is one.
    pub fn parse(text: &str) -> (j: Option<Json>)
        ensures
            opt_view(j) == parsed_json(text@),
    {
        match value_from_text(text) {
            Some(v) => Some(Json::from_value(v)),
            None => None,
        }
    }

    /// This value written out, where that succeeds.
    pub fn render(&self) -> (text: Option<String>)
        ensures
            opt_text(text) == json_text(self@),
    {
        let v = self.to_value();
        value_to_text(&v)
    }
}

/// Whether one of `members` has the name `name`.
fn has_name(members: &Vec<(String, serde_json::Value)>, name: &str) -> (r: bool)
    ensures
        r == exists|i: int| 0 <= i < members@.len() && (#[trigger] members@[i]).0@ == name@,
{
    let mut i: usize = 0;
    while i < members.len()
        invariant
            i <= members.len(),
            forall|k: int| 0 <= k < i ==> (#[trigger] members@[k]).0@ != name@,
        decreases members.len() - i,
    {
        if same_text(members[i].0.as_str(), name) {
            return true;
        }
        i += 1;
    }
    false
}

} // verus!
