//! JSON row payloads.
//!
//! Payloads are `serde_json::Value`s. [`Json`] is what such a value holds; every function here
//! says what it does over that model.
use vstd::prelude::*;
use crate::text;

verus! {

/// What a JSON value holds. A number is held as the text that it prints as.
pub enum Json {
    Null,
    Bool(bool),
    Number(Seq<char>),
    Text(Seq<char>),
    Array(Seq<Json>),
    Object(Map<Seq<char>, Json>),
}

impl Json {
    /// The members of an object; nothing else has members.
    pub open spec fn members(self) -> Map<Seq<char>, Json> {
        match self {
            Json::Object(members) => members,
            _ => Map::empty(),
        }
    }

    /// The member of that name, `Null` where there is none.
    pub open spec fn member_or_null(self, name: Seq<char>) -> Json {
        if self.members().contains_key(name) {
            self.members()[name]
        } else {
            Json::Null
        }
    }
}

#[verifier::external_type_specification]
#[verifier::external_body]
pub struct ExValue(serde_json::Value);

/// What a `serde_json::Value` holds.
pub uninterp spec fn json(value: serde_json::Value) -> Json;

/// What each of some values holds.
pub open spec fn jsons(values: Seq<serde_json::Value>) -> Seq<Json> {
    values.map_values(|value: serde_json::Value| json(value))
}

/// What an optional value holds.
pub open spec fn json_option(value: Option<serde_json::Value>) -> Option<Json> {
    match value {
        Some(value) => Some(json(value)),
        None => None,
    }
}

/// The text that `serde_json::to_string` gives for an array of values.
pub uninterp spec fn array_text(values: Seq<Json>) -> Seq<char>;

/// `Value::clone` gives a value that holds the same.
pub assume_specification[ <serde_json::Value as Clone>::clone ](
    value: &serde_json::Value,
) -> (copy: serde_json::Value)
    ensures
        json(copy) == json(*value),
;

/// `Value::Null` holds null.
#[verifier::external_body]
pub(crate) fn null() -> (value: serde_json::Value)
    ensures
        json(value) == Json::Null,
{
    serde_json::Value::Null
}

/// `Value::Bool` holds the boolean.
#[verifier::external_body]
pub(crate) fn boolean(b: bool) -> (value: serde_json::Value)
    ensures
        json(value) == Json::Bool(b),
{
    serde_json::Value::Bool(b)
}

/// `Value::String` holds the text.
#[verifier::external_body]
pub(crate) fn string(text: String) -> (value: serde_json::Value)
    ensures
        json(value) == Json::Text(text@),
{
    serde_json::Value::String(text)
}

/// `Value::from` of an unsigned number holds a number that prints in decimal.
#[verifier::external_body]
pub(crate) fn number(n: u64) -> (value: serde_json::Value)
    ensures
        json(value) == Json::Number(text::decimal_text(n as nat)),
{
    serde_json::Value::from(n)
}

/// `Value::Array` holds the values in order.
#[verifier::external_body]
pub(crate) fn array(values: Vec<serde_json::Value>) -> (value: serde_json::Value)
    ensures
        json(value) == Json::Array(jsons(values@)),
{
    serde_json::Value::Array(values)
}

/// `Value::Object` of an empty `serde_json::Map` holds no members.
#[verifier::external_body]
pub(crate) fn object() -> (value: serde_json::Value)
    ensures
        json(value) == Json::Object(Map::empty()),
{
    serde_json::Value::Object(serde_json::Map::new())
}

/// `Value::is_object` tells whether the value is an object.
#[verifier::external_body]
pub(crate) fn is_object(value: &serde_json::Value) -> (b: bool)
    ensures
        b == (json(*value) is Object),
{
    value.is_object()
}

/// `Value::get` by a member's name: the member of an object, nothing on any other value.
#[verifier::external_body]
pub(crate) fn member<'a>(value: &'a serde_json::Value, name: &str) -> (found: Option<
    &'a serde_json::Value,
>)
    ensures
        match found {
            Some(item) => json(*value).members().contains_key(name@) && json(*item) == json(
                *value,
            ).members()[name@],
            None => !json(*value).members().contains_key(name@),
        },
{
    value.get(name)
}

/// `serde_json::Map::insert` on an object: the member of that name is the given value.
#[verifier::external_body]
pub(crate) fn set_member(value: &mut serde_json::Value, name: String, item: serde_json::Value)
    requires
        json(*old(value)) is Object,
    ensures
        json(*final(value)) == Json::Object(json(*old(value)).members().insert(name@, json(item))),
{
    if let serde_json::Value::Object(members) = value {
        members.insert(name, item);
    }
}

/// `serde_json::Map::keys` of an object: the name of each member, once; none on any other value.
#[verifier::external_body]
pub(crate) fn member_names(value: &serde_json::Value) -> (names: Vec<String>)
    ensures
        text::texts(names@).no_duplicates(),
        text::texts(names@).to_set() == json(*value).members().dom(),
{
    match value.as_object() {
        Some(members) => members.keys().cloned().collect(),
        None => Vec::new(),
    }
}

/// `serde_json::to_string` of an array of values. It cannot fail: a member's name is always a
/// string. Arrays that hold different values give different texts.
#[verifier::external_body]
pub(crate) fn render_array(values: &[serde_json::Value]) -> (text: Option<String>)
    ensures
        text is Some,
        text->0@ == array_text(jsons(values@)),
        forall|other: Seq<serde_json::Value>|
            array_text(#[trigger] jsons(other)) == text->0@ ==> jsons(other) == jsons(values@),
{
    serde_json::to_string(values).ok()
}

/// What `serde_json` reads from the text of an array, or what it says of a text that is not one.
pub uninterp spec fn array_in(source: Seq<char>) -> Result<Seq<Json>, Seq<char>>;

/// `serde_json::from_str` of an array of values: what it reads, and what it says of a text that it
/// refuses, depends on the text alone.
#[verifier::external_body]
pub(crate) fn parse_array(source: &str) -> (values: Result<Vec<serde_json::Value>, String>)
    ensures
        match values {
            Ok(values) => array_in(source@) == Ok::<Seq<Json>, Seq<char>>(jsons(values@)),
            Err(reason) => array_in(source@) == Err::<Seq<Json>, Seq<char>>(reason@),
        },
{
    serde_json::from_str::<Vec<serde_json::Value>>(source).map_err(|error| error.to_string())
}

/// What `serde_json` reads from the text of an array of strings, or what it says of a text that is
/// not one.
pub uninterp spec fn strings_in(source: Seq<char>) -> Result<Seq<Seq<char>>, Seq<char>>;

/// `serde_json::from_str` of an array of strings: what it reads, and what it says of a text that it
/// refuses, depends on the text alone.
#[verifier::external_body]
pub(crate) fn parse_strings(source: &str) -> (items: Result<Vec<String>, String>)
    ensures
        match items {
            Ok(items) => strings_in(source@) == Ok::<Seq<Seq<char>>, Seq<char>>(
                text::texts(items@),
            ),
            Err(reason) => strings_in(source@) == Err::<Seq<Seq<char>>, Seq<char>>(reason@),
        },
{
    serde_json::from_str::<Vec<String>>(source).map_err(|error| error.to_string())
}

/// What `serde_json` reads from a text, or what it says of a text that is not one value.
pub uninterp spec fn value_in(source: Seq<char>) -> Result<Json, Seq<char>>;

/// `serde_json::from_str` of a value: what it reads, and what it says of a text that it refuses,
/// depends on the text alone.
#[verifier::external_body]
pub(crate) fn parse_value(source: &str) -> (value: Result<serde_json::Value, String>)
    ensures
        match value {
            Ok(value) => value_in(source@) == Ok::<Json, Seq<char>>(json(value)),
            Err(reason) => value_in(source@) == Err::<Json, Seq<char>>(reason@),
        },
{
    serde_json::from_str::<serde_json::Value>(source).map_err(|error| error.to_string())
}

/// The text that `serde_json::to_string` gives for an array of strings.
pub uninterp spec fn strings_text(items: Seq<Seq<char>>) -> Seq<char>;

/// `serde_json::to_string` of an array of strings. It cannot fail, and what it writes reads back.
#[verifier::external_body]
pub(crate) fn render_strings(items: &Vec<String>) -> (rendered: Option<String>)
    ensures
        rendered is Some,
        rendered->0@ == strings_text(text::texts(items@)),
        strings_in(rendered->0@) is Ok,
        strings_in(rendered->0@)->Ok_0 == text::texts(items@),
{
    serde_json::to_string(items).ok()
}

/// The same values again.
pub(crate) fn clone_values(values: &Vec<serde_json::Value>) -> (copy: Vec<serde_json::Value>)
    ensures
        jsons(copy@) == jsons(values@),
{
    let mut copy: Vec<serde_json::Value> = Vec::new();
    let mut i: usize = 0;
    while i < values.len()
        invariant
            i <= values@.len(),
            jsons(copy@) == jsons(values@).take(i as int),
        decreases values.len() - i,
    {
        let ghost before = jsons(copy@);
        copy.push(values[i].clone());
        proof {
            assert(jsons(copy@) == before.push(json(values@[i as int])));
            assert(jsons(values@).take(i + 1) == jsons(values@).take(i as int).push(
                json(values@[i as int]),
            ));
        }
        i = i + 1;
    }
    proof {
        assert(jsons(values@).take(i as int) == jsons(values@));
    }
    copy
}

/// The same optional value again.
pub(crate) fn clone_option(value: &Option<serde_json::Value>) -> (copy: Option<serde_json::Value>)
    ensures
        json_option(copy) == json_option(*value),
{
    match value {
        Some(value) => Some(value.clone()),
        None => None,
    }
}

/// Every member of `from` set in the object `into`.
pub(crate) fn set_members(into: &mut serde_json::Value, from: &serde_json::Value)
    requires
        json(*old(into)) is Object,
    ensures
        json(*final(into)) == Json::Object(
            json(*old(into)).members().union_prefer_right(json(*from).members()),
        ),
{
    let names = member_names(from);
    let ghost start = json(*into).members();
    let ghost source = json(*from).members();
    let mut i: usize = 0;
    while i < names.len()
        invariant
            i <= names@.len(),
            source == json(*from).members(),
            text::texts(names@).to_set() == source.dom(),
            json(*into) is Object,
            forall|name: Seq<char>| #[trigger] json(*into).members().contains_key(name) <==> (
                start.contains_key(name) || text::texts(names@).take(i as int).contains(name)),
            forall|name: Seq<char>|
                text::texts(names@).take(i as int).contains(name) ==> #[trigger] json(
                    *into,
                ).members()[name] == source[name],
            forall|name: Seq<char>|
                !text::texts(names@).take(i as int).contains(name) && start.contains_key(name)
                    ==> #[trigger] json(*into).members()[name] == start[name],
        decreases names.len() - i,
    {
        let ghost done = text::texts(names@).take(i as int);
        let ghost before = json(*into).members();
        let ghost name = names@[i as int]@;
        proof {
            assert(text::texts(names@)[i as int] == name);
            assert(text::texts(names@).to_set().contains(name));
            assert(source.contains_key(name));
        }
        match member(from, names[i].as_str()) {
            Some(item) => {
                set_member(into, names[i].clone(), item.clone());
            },
            None => {},
        }
        i = i + 1;
        proof {
            assert(json(*into).members() == before.insert(name, source[name]));
            assert(text::texts(names@).take(i as int) == done.push(name));
            assert forall|other: Seq<char>| #[trigger]
                done.push(name).contains(other) <==> (done.contains(other) || other == name) by {
                if done.contains(other) {
                    let j = choose|j: int| 0 <= j < done.len() && done[j] == other;
                    assert(done.push(name)[j] == other);
                }
                if other == name {
                    assert(done.push(name)[done.len() as int] == other);
                }
            }
        }
    }
    proof {
        let all = text::texts(names@);
        assert(all.take(i as int) == all);
        assert forall|name: Seq<char>| all.contains(name) <==> source.contains_key(name) by {
            assert(all.to_set().contains(name) <==> source.dom().contains(name));
        }
        assert(json(*into).members() =~= start.union_prefer_right(source));
    }
}


/// The texts as JSON strings.
pub open spec fn strings(items: Seq<Seq<char>>) -> Seq<Json> {
    items.map_values(|item: Seq<char>| Json::Text(item))
}

/// An array of the strings.
pub(crate) fn string_array(items: &Vec<String>) -> (value: serde_json::Value)
    ensures
        json(value) == Json::Array(strings(text::texts(items@))),
{
    let mut values: Vec<serde_json::Value> = Vec::new();
    let ghost all = strings(text::texts(items@));
    let mut i: usize = 0;
    while i < items.len()
        invariant
            i <= items@.len(),
            all == strings(text::texts(items@)),
            jsons(values@) == all.take(i as int),
        decreases items.len() - i,
    {
        let ghost before = jsons(values@);
        let value = string(items[i].clone());
        let ghost held = json(value);
        values.push(value);
        proof {
            assert(jsons(values@) =~= before.push(held));
            assert(all.take(i + 1) =~= all.take(i as int).push(held));
        }
        i = i + 1;
    }
    proof {
        assert(all.take(i as int) =~= all);
    }
    array(values)
}

} // verus!
