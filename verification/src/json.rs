//! JSON documents: flat objects that are written, and single fields that are read.
//!
//! The documents themselves are written and parsed by `serde_json`.
use serde_json::Value;
use vstd::prelude::*;
use vstd::utf8::encode_utf8;

use crate::bytes::opt_view;

verus! {

/// The text members of an object, as names and values.
pub open spec fn text_members(v: Seq<(String, String)>) -> Seq<(Seq<char>, Seq<char>)> {
    v.map_values(|p: (String, String)| (p.0@, p.1@))
}

/// The number members of an object, as names and values.
pub open spec fn number_members(v: Seq<(String, i64)>) -> Seq<(Seq<char>, int)> {
    v.map_values(|p: (String, i64)| (p.0@, p.1 as int))
}

/// No name occurs twice among the members of an object.
pub open spec fn distinct_names(
    texts: Seq<(Seq<char>, Seq<char>)>,
    numbers: Seq<(Seq<char>, int)>,
) -> bool {
    &&& forall|i: int, j: int|
        0 <= i < j < texts.len() ==> (#[trigger] texts[i]).0 != (#[trigger] texts[j]).0
    &&& forall|i: int, j: int|
        0 <= i < j < numbers.len() ==> (#[trigger] numbers[i]).0 != (#[trigger] numbers[j]).0
    &&& forall|i: int, j: int|
        0 <= i < texts.len() && 0 <= j < numbers.len() ==> (#[trigger] texts[i]).0 != (
        #[trigger] numbers[j]).0
}

/// The compact JSON text of the object with the given members.
pub uninterp spec fn json_object(
    texts: Seq<(Seq<char>, Seq<char>)>,
    numbers: Seq<(Seq<char>, int)>,
) -> Seq<char>;

/// Whether `doc` is a JSON document.
pub uninterp spec fn is_json(doc: Seq<u8>) -> bool;

/// The string that `doc`, an object, has under `name`, if it has one there.
pub uninterp spec fn json_text(doc: Seq<u8>, name: Seq<char>) -> Option<Seq<char>>;

/// The number that `doc`, an object, has under `name`, if it has one there that is neither
/// negative nor a fraction and fits 64 bits.
pub uninterp spec fn json_number(doc: Seq<u8>, name: Seq<char>) -> Option<u64>;

/// The strings that the objects in the array under `list` have under `name`, one for each element,
/// if `doc` is an object with an array there.
pub uninterp spec fn json_list(doc: Seq<u8>, list: Seq<char>, name: Seq<char>) -> Option<
    Seq<Option<Seq<char>>>,
>;

/// A bound on the bytes that text members take: six for each byte of a name or value, which is what
/// the longest escape takes, and six for quotes, colon and comma.
pub open spec fn texts_bound(texts: Seq<(Seq<char>, Seq<char>)>) -> nat
    decreases texts.len(),
{
    if texts.len() == 0 {
        0
    } else {
        texts_bound(texts.drop_last()) + 6 * encode_utf8(texts.last().0).len() + 6 * encode_utf8(
            texts.last().1,
        ).len() + 6
    }
}

/// A bound on the bytes that number members take: six for each byte of a name, twenty for the
/// number, and four for quotes, colon and comma.
pub open spec fn numbers_bound(numbers: Seq<(Seq<char>, int)>) -> nat
    decreases numbers.len(),
{
    if numbers.len() == 0 {
        0
    } else {
        numbers_bound(numbers.drop_last()) + 6 * encode_utf8(numbers.last().0).len() + 24
    }
}

/// `serde_json`'s `Value::Object(..).to_string()`. Where no name occurs twice, parsing the text
/// gives back each member: every string, and every number that is not negative. Braces apart, the
/// text is no longer than its members allow.
#[verifier::external_body]
pub(crate) fn write_object(texts: &Vec<(String, String)>, numbers: &Vec<(String, i64)>) -> (r:
    String)
    ensures
        r@ == json_object(text_members(texts@), number_members(numbers@)),
        is_json(encode_utf8(r@)),
        encode_utf8(r@).len() <= texts_bound(text_members(texts@)) + numbers_bound(
            number_members(numbers@),
        ) + 2,
        distinct_names(text_members(texts@), number_members(numbers@)) ==> {
            &&& forall|i: int|
                0 <= i < texts@.len() ==> json_text(
                    encode_utf8(r@),
                    (#[trigger] texts@[i]).0@,
                ) == Some(texts@[i].1@)
            &&& forall|i: int|
                0 <= i < numbers@.len() && numbers@[i].1 >= 0 ==> json_number(
                    encode_utf8(r@),
                    (#[trigger] numbers@[i]).0@,
                ) == Some(numbers@[i].1 as u64)
        },
{
    let mut members = serde_json::Map::new();
    for (name, value) in texts {
        members.insert(name.clone(), Value::from(value.as_str()));
    }
    for (name, value) in numbers {
        members.insert(name.clone(), Value::from(*value));
    }
    Value::Object(members).to_string()
}

/// The members of the objects in a list, as numbers and texts.
pub open spec fn list_items(v: Seq<(i64, String)>) -> Seq<(int, Seq<char>)> {
    v.map_values(|p: (i64, String)| (p.0 as int, p.1@))
}

/// The compact JSON text of the object with the given members and a list under `list`. Each element
/// of the list is an object with a number under `number` and a string under `text`.
pub uninterp spec fn json_object_with_list(
    texts: Seq<(Seq<char>, Seq<char>)>,
    numbers: Seq<(Seq<char>, int)>,
    list: Seq<char>,
    items: Seq<(int, Seq<char>)>,
    number: Seq<char>,
    text: Seq<char>,
) -> Seq<char>;

/// No member has the name `name`.
pub open spec fn no_member(
    texts: Seq<(Seq<char>, Seq<char>)>,
    numbers: Seq<(Seq<char>, int)>,
    name: Seq<char>,
) -> bool {
    &&& forall|i: int| 0 <= i < texts.len() ==> (#[trigger] texts[i]).0 != name
    &&& forall|i: int| 0 <= i < numbers.len() ==> (#[trigger] numbers[i]).0 != name
}

/// `serde_json`'s `Value::Object(..).to_string()` for an object that holds a list of objects. Where
/// no name occurs twice, parsing the text gives back each member, and the strings in the list.
#[verifier::external_body]
pub(crate) fn write_object_with_list(
    texts: &Vec<(String, String)>,
    numbers: &Vec<(String, i64)>,
    list: &str,
    items: &Vec<(i64, String)>,
    number: &str,
    text: &str,
) -> (r: String)
    ensures
        r@ == json_object_with_list(
            text_members(texts@),
            number_members(numbers@),
            list@,
            list_items(items@),
            number@,
            text@,
        ),
        is_json(encode_utf8(r@)),
        distinct_names(text_members(texts@), number_members(numbers@)) && no_member(
            text_members(texts@),
            number_members(numbers@),
            list@,
        ) ==> {
            &&& forall|i: int|
                0 <= i < texts@.len() ==> json_text(
                    encode_utf8(r@),
                    (#[trigger] texts@[i]).0@,
                ) == Some(texts@[i].1@)
            &&& forall|i: int|
                0 <= i < numbers@.len() && numbers@[i].1 >= 0 ==> json_number(
                    encode_utf8(r@),
                    (#[trigger] numbers@[i]).0@,
                ) == Some(numbers@[i].1 as u64)
            &&& number@ != text@ ==> json_list(encode_utf8(r@), list@, text@) == Some(
                items@.map_values(|p: (i64, String)| Some(p.1@)),
            )
        },
{
    let mut members = serde_json::Map::new();
    for (name, value) in texts { members.insert(name.clone(), Value::from(value.as_str())); }
    for (name, value) in numbers { members.insert(name.clone(), Value::from(*value)); }
    let mut array = Vec::new();
    for item in items {
        let mut pair = serde_json::Map::new();
        pair.insert(number.to_string(), Value::from(item.0));
        pair.insert(text.to_string(), Value::from(item.1.as_str()));
        array.push(Value::Object(pair));
    }
    members.insert(list.to_string(), Value::Array(array));
    Value::Object(members).to_string()
}

/// `serde_json::from_slice::<Value>`: whether it accepts the document.
#[verifier::external_body]
pub(crate) fn parses(doc: &[u8]) -> (r: bool)
    ensures
        r == is_json(doc@),
{
    serde_json::from_slice::<Value>(doc).is_ok()
}

/// `serde_json::from_slice::<Value>`, then `Value::get` and `Value::as_str`.
#[verifier::external_body]
pub(crate) fn read_text(doc: &[u8], name: &str) -> (r: Option<String>)
    ensures
        opt_view(r) == json_text(doc@, name@),
{
    serde_json::from_slice::<Value>(doc).ok()?.get(name)?.as_str().map(|s| s.to_string())
}

/// `serde_json::from_slice::<Value>`, then `Value::get` and `Value::as_u64`.
#[verifier::external_body]
pub(crate) fn read_number(doc: &[u8], name: &str) -> (r: Option<u64>)
    ensures
        r == json_number(doc@, name@),
{
    serde_json::from_slice::<Value>(doc).ok()?.get(name)?.as_u64()
}

/// The views of optional texts.
pub open spec fn optional_texts(v: Seq<Option<String>>) -> Seq<Option<Seq<char>>> {
    v.map_values(|o: Option<String>| opt_view(o))
}

/// `serde_json::from_slice::<Value>`, then `Value::get` and `Value::as_array`, and on each element
/// `Value::get` and `Value::as_str`.
#[verifier::external_body]
pub(crate) fn read_list(doc: &[u8], list: &str, name: &str) -> (r: Option<Vec<Option<String>>>)
    ensures
        match r {
            Some(v) => json_list(doc@, list@, name@) == Some(optional_texts(v@)),
            None => json_list(doc@, list@, name@) is None,
        },
{
    let doc: Value = serde_json::from_slice(doc).ok()?;
    let items = doc.get(list)?.as_array()?;
    Some(items.iter().map(|m| m.get(name).and_then(Value::as_str).map(|s| s.to_string())).collect())
}

} // verus!
