//! JSON values: what they hold, how they are read from bytes, and how they are written.
use crate::text::decimal_int;
use vstd::prelude::*;

verus! {

/// A parsed JSON value of `serde_json`.
#[verifier::external_type_specification]
#[verifier::external_body]
pub struct ExValue(serde_json::Value);

/// What a JSON value holds. A number is known by its text and, where it is a non-negative
/// integer of at most 64 bits, by its value.
pub enum Json {
    Null,
    Bool(bool),
    Number { text: Seq<char>, unsigned: Option<u64> },
    Text(Seq<char>),
    Array(Seq<Json>),
    Object(Map<Seq<char>, Json>),
}

impl Json {
    /// The member `key` of an object.
    pub open spec fn field(self, key: Seq<char>) -> Option<Json> {
        match self {
            Json::Object(members) => if members.contains_key(key) {
                Some(members[key])
            } else {
                None
            },
            _ => None,
        }
    }

    pub open spec fn unsigned(self) -> Option<u64> {
        match self {
            Json::Number { text: _, unsigned } => unsigned,
            _ => None,
        }
    }

    pub open spec fn text(self) -> Option<Seq<char>> {
        match self {
            Json::Text(text) => Some(text),
            _ => None,
        }
    }

    pub open spec fn boolean(self) -> Option<bool> {
        match self {
            Json::Bool(b) => Some(b),
            _ => None,
        }
    }

    pub open spec fn number(self) -> Option<Seq<char>> {
        match self {
            Json::Number { text, unsigned: _ } => Some(text),
            _ => None,
        }
    }

    pub open spec fn items(self) -> Option<Seq<Json>> {
        match self {
            Json::Array(items) => Some(items),
            _ => None,
        }
    }
}

/// The member `key` of an object that may be absent.
pub open spec fn field_of(value: Option<Json>, key: Seq<char>) -> Option<Json> {
    match value {
        Some(v) => v.field(key),
        None => None,
    }
}

pub open spec fn unsigned_of(value: Option<Json>) -> Option<u64> {
    match value {
        Some(v) => v.unsigned(),
        None => None,
    }
}

pub open spec fn text_in(value: Option<Json>) -> Option<Seq<char>> {
    match value {
        Some(v) => v.text(),
        None => None,
    }
}

pub open spec fn boolean_of(value: Option<Json>) -> Option<bool> {
    match value {
        Some(v) => v.boolean(),
        None => None,
    }
}

pub open spec fn number_in(value: Option<Json>) -> Option<Seq<char>> {
    match value {
        Some(v) => v.number(),
        None => None,
    }
}

/// The members of an object written as a list; of two members with one key the later one counts.
pub open spec fn members(entries: Seq<(Seq<char>, Json)>) -> Map<Seq<char>, Json>
    decreases entries.len(),
{
    if entries.len() == 0 {
        Map::empty()
    } else {
        members(entries.drop_last()).insert(entries.last().0, entries.last().1)
    }
}

/// What a JSON value of `serde_json` holds.
pub uninterp spec fn json(value: serde_json::Value) -> Json;

/// What an optional JSON value holds.
pub open spec fn json_option(value: Option<&serde_json::Value>) -> Option<Json> {
    match value {
        Some(v) => Some(json(*v)),
        None => None,
    }
}

/// What the list of named values holds.
pub open spec fn json_entries(entries: Seq<(String, serde_json::Value)>) -> Seq<
    (Seq<char>, Json),
> {
    entries.map_values(|entry: (String, serde_json::Value)| (entry.0@, json(entry.1)))
}

/// What a JSON text holds, or what is told of a text that is not JSON.
pub uninterp spec fn parse_result(bytes: Seq<u8>) -> Result<Json, Seq<char>>;

/// What a JSON text holds, where it is one.
pub open spec fn parsed(bytes: Seq<u8>) -> Option<Json> {
    match parse_result(bytes) {
        Ok(value) => Some(value),
        Err(_) => None,
    }
}

/// The compact text of a JSON value.
pub uninterp spec fn rendered(value: Json) -> Seq<char>;

/// `serde_json::from_slice`: reads a JSON value. Whether the bytes are one, what it holds, and
/// what the error says where they are not, is a function of the bytes.
#[verifier::external_body]
pub(crate) fn parse(bytes: &[u8]) -> (r: Result<serde_json::Value, String>)
    ensures
        match r {
            Ok(value) => parse_result(bytes@) == Ok::<Json, Seq<char>>(json(value)),
            Err(detail) => parse_result(bytes@) == Err::<Json, Seq<char>>(detail@),
        },
{
    match serde_json::from_slice(bytes) {
        Ok(value) => Ok(value),
        Err(error) => Err(error.to_string()),
    }
}

/// `Display` of `serde_json::Value`: the compact text, a function of what the value holds.
#[verifier::external_body]
pub(crate) fn render(value: &serde_json::Value) -> (r: String)
    ensures
        r@ == rendered(json(*value)),
{
    value.to_string()
}

/// `serde_json::Value::get` with a string: the member of an object, and nothing of any other
/// value.
#[verifier::external_body]
pub(crate) fn get<'a>(value: &'a serde_json::Value, key: &str) -> (r: Option<
    &'a serde_json::Value,
>)
    ensures
        json_option(r) == json(*value).field(key@),
{
    value.get(key)
}

/// `serde_json::Value::as_u64`: the value of a number that is a non-negative integer.
#[verifier::external_body]
pub(crate) fn as_u64(value: &serde_json::Value) -> (r: Option<u64>)
    ensures
        r == json(*value).unsigned(),
{
    value.as_u64()
}

/// `serde_json::Value::as_str`: the text of a string.
#[verifier::external_body]
pub(crate) fn as_str(value: &serde_json::Value) -> (r: Option<&str>)
    ensures
        match r {
            Some(text) => json(*value).text() == Some(text@),
            None => json(*value).text() is None,
        },
{
    value.as_str()
}

/// `serde_json::Value::as_bool`: the value of a boolean.
#[verifier::external_body]
pub(crate) fn as_bool(value: &serde_json::Value) -> (r: Option<bool>)
    ensures
        r == json(*value).boolean(),
{
    value.as_bool()
}

/// `serde_json::Value::is_null`.
#[verifier::external_body]
pub(crate) fn is_null(value: &serde_json::Value) -> (r: bool)
    ensures
        r == (json(*value) is Null),
{
    value.is_null()
}

/// `serde_json::Value::as_number` and the text of the number.
#[verifier::external_body]
pub(crate) fn number_text(value: &serde_json::Value) -> (r: Option<String>)
    ensures
        match r {
            Some(text) => json(*value).number() == Some(text@),
            None => json(*value).number() is None,
        },
{
    match value.as_number() {
        Some(number) => Some(number.to_string()),
        None => None,
    }
}

/// `serde_json::Value::as_array`: the items of an array, in order.
#[verifier::external_body]
pub(crate) fn as_array(value: &serde_json::Value) -> (r: Option<&Vec<serde_json::Value>>)
    ensures
        match r {
            Some(items) => json(*value).items() == Some(
                items@.map_values(|item: serde_json::Value| json(item)),
            ),
            None => json(*value).items() is None,
        },
{
    value.as_array()
}

/// `serde_json::Value::Null`.
#[verifier::external_body]
pub(crate) fn null() -> (r: serde_json::Value)
    ensures
        json(r) is Null,
{
    serde_json::Value::Null
}

/// `serde_json::Value::from` of a string.
#[verifier::external_body]
pub(crate) fn string(text: String) -> (r: serde_json::Value)
    ensures
        json(r) == Json::Text(text@),
{
    serde_json::Value::from(text)
}

/// `serde_json::Value::from` of a 64-bit integer: its text is its decimal form.
#[verifier::external_body]
pub(crate) fn integer(i: i64) -> (r: serde_json::Value)
    ensures
        json(r) == (Json::Number {
            text: decimal_int(i as int),
            unsigned: if i >= 0 {
                Some(i as u64)
            } else {
                None
            },
        }),
{
    serde_json::Value::from(i)
}

/// `serde_json::Value::Array`: the array of these items, in order.
#[verifier::external_body]
pub(crate) fn array(items: Vec<serde_json::Value>) -> (r: serde_json::Value)
    ensures
        json(r) == Json::Array(items@.map_values(|item: serde_json::Value| json(item))),
{
    serde_json::Value::Array(items)
}

/// `serde_json::Map::new`: the object without members.
#[verifier::external_body]
pub(crate) fn empty_object() -> (r: serde_json::Value)
    ensures
        json(r) == Json::Object(Map::empty()),
{
    serde_json::Value::Object(serde_json::Map::new())
}

/// `serde_json::Map::insert`: puts a member into an object, in the place of the member with the
/// same key.
#[verifier::external_body]
pub(crate) fn insert(object: &mut serde_json::Value, key: String, value: serde_json::Value)
    requires
        json(*old(object)) is Object,
    ensures
        json(*final(object)) == Json::Object(json(*old(object))->Object_0.insert(key@, json(value))),
{
    match object {
        serde_json::Value::Object(map) => {
            map.insert(key, value);
        },
        _ => {},
    }
}

/// The object with these members; of two members with one key the later one counts.
pub fn object(entries: Vec<(String, serde_json::Value)>) -> (r: serde_json::Value)
    ensures
        json(r) == Json::Object(members(json_entries(entries@))),
{
    let ghost all = json_entries(entries@);
    let mut out = empty_object();
    assert(all.take(0) =~= seq![]);
    for entry in it: entries
        invariant
            all == json_entries(it.seq()),
            json(out) == Json::Object(members(all.take(it.index() as int))),
    {
        let ghost next = all.take(it.index() + 1);
        assert(next.drop_last() =~= all.take(it.index() as int));
        assert(next.last() == (entry.0@, json(entry.1)));
        insert(&mut out, entry.0, entry.1);
    }
    assert(all.take(all.len() as int) =~= all);
    out
}

/// The member `key` of a value that may be absent.
pub fn get_in<'a>(value: Option<&'a serde_json::Value>, key: &str) -> (r: Option<
    &'a serde_json::Value,
>)
    ensures
        json_option(r) == field_of(json_option(value), key@),
{
    match value {
        Some(v) => get(v, key),
        None => None,
    }
}

/// The non-negative integer that the member `key` holds.
pub fn u64_in(value: Option<&serde_json::Value>, key: &str) -> (r: Option<u64>)
    ensures
        r == unsigned_of(field_of(json_option(value), key@)),
{
    match get_in(value, key) {
        Some(v) => as_u64(v),
        None => None,
    }
}

/// The text that the member `key` holds.
pub fn text_at(value: Option<&serde_json::Value>, key: &str) -> (r: Option<String>)
    ensures
        match r {
            Some(text) => text_in(field_of(json_option(value), key@)) == Some(text@),
            None => text_in(field_of(json_option(value), key@)) is None,
        },
{
    match get_in(value, key) {
        Some(v) => match as_str(v) {
            Some(text) => Some(text.to_owned()),
            None => None,
        },
        None => None,
    }
}

/// The boolean that the member `key` holds.
pub fn bool_in(value: Option<&serde_json::Value>, key: &str) -> (r: Option<bool>)
    ensures
        r == boolean_of(field_of(json_option(value), key@)),
{
    match get_in(value, key) {
        Some(v) => as_bool(v),
        None => None,
    }
}

/// The text of the number that the member `key` holds.
pub fn number_at(value: Option<&serde_json::Value>, key: &str) -> (r: Option<String>)
    ensures
        match r {
            Some(text) => number_in(field_of(json_option(value), key@)) == Some(text@),
            None => number_in(field_of(json_option(value), key@)) is None,
        },
{
    match get_in(value, key) {
        Some(v) => number_text(v),
        None => None,
    }
}

/// A member is found under its key and nowhere else, and each kind of value is read only as what
/// it is.
pub proof fn values_are_what_they_are(
    object: Map<Seq<char>, Json>,
    key: Seq<char>,
    value: Json,
    text: Seq<char>,
    count: Option<u64>,
    flag: bool,
    items: Seq<Json>,
)
    ensures
        object.contains_key(key) ==> Json::Object(object).field(key) == Some(object[key]),
        !object.contains_key(key) ==> Json::Object(object).field(key) is None,
        !(value is Object) ==> value.field(key) is None,
        field_of(Some(value), key) == value.field(key),
        field_of(None, key) is None,
        unsigned_of(Some(Json::Number { text, unsigned: count })) == count,
        !(value is Number) ==> unsigned_of(Some(value)) is None && number_in(Some(value)) is None,
        number_in(Some(Json::Number { text, unsigned: count })) == Some(text),
        text_in(Some(Json::Text(text))) == Some(text),
        !(value is Text) ==> text_in(Some(value)) is None,
        boolean_of(Some(Json::Bool(flag))) == Some(flag),
        !(value is Bool) ==> boolean_of(Some(value)) is None,
        Json::Array(items).items() == Some(items),
        !(value is Array) ==> value.items() is None,
        unsigned_of(None) is None,
        number_in(None) is None,
        text_in(None) is None,
        boolean_of(None) is None,
{
}

/// An object written as a list has a member for every key in the list and no other, and of two
/// members with one key the later one stands.
pub proof fn later_members_stand(entries: Seq<(Seq<char>, Json)>, i: int, key: Seq<char>)
    ensures
        0 <= i < entries.len() && (forall|j: int|
            i < j < entries.len() ==> (#[trigger] entries[j]).0 != entries[i].0) ==> {
            &&& members(entries).contains_key(entries[i].0)
            &&& members(entries)[entries[i].0] == entries[i].1
        },
        (forall|j: int| 0 <= j < entries.len() ==> (#[trigger] entries[j]).0 != key)
            ==> !members(entries).contains_key(key),
    decreases entries.len(),
{
    if entries.len() > 0 {
        let before = entries.drop_last();
        later_members_stand(before, i, key);
        assert(forall|j: int| 0 <= j < before.len() ==> before[j] == #[trigger] entries[j]);
        let n = entries.len() - 1;
        assert(entries[n] == entries.last());
        if 0 <= i < n && (forall|j: int|
            i < j < entries.len() ==> (#[trigger] entries[j]).0 != entries[i].0) {
            assert forall|j: int| i < j < before.len() implies (#[trigger] before[j]).0
                != before[i].0 by {
                assert(entries[j].0 != entries[i].0);
            }
            assert(entries[n].0 != entries[i].0);
        }
        if forall|j: int| 0 <= j < entries.len() ==> (#[trigger] entries[j]).0 != key {
            assert forall|j: int| 0 <= j < before.len() implies (#[trigger] before[j]).0 != key by {
                assert(entries[j].0 != key);
            }
            assert(entries[n].0 != key);
        }
    }
}

/// A text is JSON where it can be read, and holds then what was read.
pub proof fn text_is_json_where_it_is_read(bytes: Seq<u8>)
    ensures
        parse_result(bytes) is Ok ==> parsed(bytes) == Some(parse_result(bytes)->Ok_0),
        parse_result(bytes) is Err ==> parsed(bytes) is None,
{
}

/// Values are seen as what they hold, and a list of named values entry by entry.
pub proof fn values_are_seen(
    value: serde_json::Value,
    list: Seq<(String, serde_json::Value)>,
    i: int,
)
    ensures
        json_option(Some(&value)) == Some(json(value)),
        json_option(None) is None,
        json_entries(list).len() == list.len(),
        0 <= i < list.len() ==> json_entries(list)[i] == (list[i].0@, json(list[i].1)),
{
}

} // verus!
