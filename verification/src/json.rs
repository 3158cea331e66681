//! JSON values, as `serde_json` holds, reads and writes them.
//!
//! The items marked `external_body` and the `assume_specification` items are what
//! this library believes of `serde_json` without proof. They speak of a
//! `serde_json::Value` by its contents, [`json_view`].

use serde_json::Value;
use vstd::prelude::*;
use vstd::utf8::*;

use crate::decimal::{decimal, signed_decimal};

verus! {

/// What a JSON value holds.
pub enum JsonView {
    Null,
    Bool(bool),
    /// A number, as the text that it is written as.
    Number(Seq<char>),
    Text(Seq<char>),
    Array(Seq<JsonView>),
    Object(Map<Seq<char>, JsonView>),
}

/// The member of an object under a key: `Null` where there is none, or where the
/// value is no object.
pub open spec fn member(view: JsonView, key: Seq<char>) -> JsonView {
    match view {
        JsonView::Object(members) => if members.contains_key(key) {
            members[key]
        } else {
            JsonView::Null
        },
        _ => JsonView::Null,
    }
}

/// The element of an array at an index: `Null` where there is none, or where the
/// value is no array.
pub open spec fn element(view: JsonView, index: nat) -> JsonView {
    match view {
        JsonView::Array(elements) => if index < elements.len() {
            elements[index as int]
        } else {
            JsonView::Null
        },
        _ => JsonView::Null,
    }
}

/// The text of a string, and `None` for any other value.
pub open spec fn text_of(view: JsonView) -> Option<Seq<char>> {
    match view {
        JsonView::Text(text) => Some(text),
        _ => None,
    }
}

/// Whether a text is a digit, a point and a digit.
pub open spec fn is_tenths(text: Seq<char>) -> bool {
    &&& text.len() == 3
    &&& '0' <= text[0] <= '9'
    &&& text[1] == '.'
    &&& '0' <= text[2] <= '9'
}

/// How deep arrays and objects may be nested in a text that `serde_json` reads.
pub const READABLE_DEPTH: u32 = 127;

/// Whether a value is nested no deeper than `depth`, and has no numbers but integers of
/// 64 bits, signed or unsigned, and tenths.
pub open spec fn is_plain(view: JsonView, depth: nat) -> bool
    decreases view,
{
    match view {
        JsonView::Number(text) => is_tenths(text) || exists|number: int|
            i64::MIN <= number <= u64::MAX && text == #[trigger] signed_decimal(number),
        JsonView::Array(elements) => depth > 0 && forall|i: int|
            0 <= i < elements.len() ==> is_plain(#[trigger] elements[i], (depth - 1) as nat),
        JsonView::Object(members) => depth > 0 && forall|key: Seq<char>|
            members.contains_key(key) ==> is_plain(#[trigger] members[key], (depth - 1) as nat),
        _ => true,
    }
}

/// `serde_json::Value`, a tree of arrays, objects and scalars.
#[verifier::external_type_specification]
#[verifier::external_body]
pub struct ExValue(Value);

/// The contents of a `serde_json::Value`. A number is taken as the text that
/// `serde_json` writes for it, an object as the map from its keys to the contents of
/// its members.
pub uninterp spec fn json_view(value: Value) -> JsonView;

/// What `serde_json::from_str` makes of a text: the contents of the value, or the
/// message of the error.
pub uninterp spec fn parsed_json(text: Seq<char>) -> Result<JsonView, Seq<char>>;

/// The bytes that `serde_json::to_vec` writes for a value with these contents.
pub uninterp spec fn json_bytes(view: JsonView) -> Seq<u8>;

/// Whether bytes are text that `serde_json` reads as a value with these contents.
pub open spec fn reads_as(bytes: Seq<u8>, view: JsonView) -> bool {
    valid_utf8(bytes) && parsed_json(decode_utf8(bytes)) == Ok::<JsonView, Seq<char>>(view)
}

/// The contents of each value of a sequence.
pub open spec fn json_views(values: Seq<Value>) -> Seq<JsonView> {
    Seq::new(values.len(), |i: int| json_view(values[i]))
}

/// The members of an object by their keys, of which no two are the same.
pub open spec fn members_of(members: Seq<(String, Value)>) -> Map<Seq<char>, JsonView>
    decreases members.len(),
{
    if members.len() == 0 {
        Map::empty()
    } else {
        members_of(members.drop_last()).insert(members.last().0@, json_view(members.last().1))
    }
}

/// `Value::as_str`: the text of a string, `None` for any other value.
pub assume_specification[ Value::as_str ](value: &Value) -> (text: Option<&str>)
    ensures
        match text {
            Some(held) => text_of(json_view(*value)) == Some(held@),
            None => text_of(json_view(*value)) is None,
        },
;

/// `Value::as_array`: the elements of an array, `None` for any other value.
pub assume_specification[ Value::as_array ](value: &Value) -> (elements: Option<&Vec<Value>>)
    ensures
        match elements {
            Some(held) => json_view(*value) == JsonView::Array(json_views(held@)),
            None => !(json_view(*value) is Array),
        },
;

/// `<Value as Index<&str>>::index`: the member under a key, `Null` where there is
/// none or the value is no object.
#[verifier::external_body]
pub(crate) fn json_member<'a>(value: &'a Value, key: &str) -> (found: &'a Value)
    ensures
        json_view(*found) == member(json_view(*value), key@),
{
    &value[key]
}

/// `<Value as Index<usize>>::index`: the element at an index, `Null` where there is
/// none or the value is no array.
#[verifier::external_body]
pub(crate) fn json_element<'a>(value: &'a Value, index: usize) -> (found: &'a Value)
    ensures
        json_view(*found) == element(json_view(*value), index as nat),
{
    &value[index]
}

/// `<Value as From<&str>>::from`: a string with this text.
#[verifier::external_body]
pub(crate) fn json_text(text: &str) -> (value: Value)
    ensures
        json_view(value) == JsonView::Text(text@),
{
    Value::from(text)
}

/// `<Value as From<bool>>::from`: the truth value as it is.
#[verifier::external_body]
pub(crate) fn json_bool(truth: bool) -> (value: Value)
    ensures
        json_view(value) == JsonView::Bool(truth),
{
    Value::from(truth)
}

/// `<Value as From<u32>>::from`: the number as it is, which is written in decimal.
#[verifier::external_body]
pub(crate) fn json_number(number: u32) -> (value: Value)
    ensures
        json_view(value) == JsonView::Number(decimal(number as nat)),
{
    Value::from(number)
}

/// `<Value as From<Vec<Value>>>::from`: an array of the values, in their order.
#[verifier::external_body]
pub(crate) fn json_array(elements: Vec<Value>) -> (value: Value)
    ensures
        json_view(value) == JsonView::Array(json_views(elements@)),
{
    Value::from(elements)
}

/// `<Value as FromIterator<(String, Value)>>::from_iter`: an object of the members, each
/// of which has a key of its own.
#[verifier::external_body]
pub(crate) fn json_object(members: Vec<(String, Value)>) -> (value: Value)
    requires
        forall|i: int, j: int|
            0 <= i < j < members@.len() ==> (#[trigger] members@[i]).0@ != (
            #[trigger] members@[j]).0@,
    ensures
        json_view(value) == JsonView::Object(members_of(members@)),
{
    Value::from_iter(members)
}

/// `serde_json::from_str`, into a `Value`. What it makes of a text depends on the
/// text alone. A digit, a point and a digit make a number, which is written as it
/// was read; of other texts nothing is claimed but that they have one result.
#[verifier::external_body]
pub(crate) fn parse_json(text: &str) -> (parsed: Result<Value, String>)
    ensures
        match parsed {
            Ok(value) => parsed_json(text@) == Ok::<JsonView, Seq<char>>(json_view(value)),
            Err(message) => parsed_json(text@) == Err::<JsonView, Seq<char>>(message@),
        },
        is_tenths(text@) ==> parsed is Ok && json_view(parsed->Ok_0) == JsonView::Number(text@),
{
    serde_json::from_str::<Value>(text).map_err(|error| error.to_string())
}

/// `serde_json::to_vec`, of a `Value`. What it writes depends on the contents alone.
/// It fails only on keys that are no strings or where a type refuses to be written,
/// and a `Value` has no such keys and refuses nothing. It writes UTF-8, and
/// `serde_json::from_str` reads a plain value back as it was; of values that are nested
/// deeper or hold other numbers this is not claimed.
#[verifier::external_body]
pub(crate) fn render_json(value: &Value) -> (bytes: Vec<u8>)
    ensures
        bytes@ == json_bytes(json_view(*value)),
        valid_utf8(bytes@),
        is_plain(json_view(*value), READABLE_DEPTH as nat) ==> reads_as(bytes@, json_view(*value)),
{
    serde_json::to_vec(value).expect("a JSON value can be written")
}

/// A member is found under its key, whatever else the object holds. There is none under
/// a key that the object does not have, and none in anything but an object.
pub proof fn members_are_found_under_their_keys(
    view: JsonView,
    members: Map<Seq<char>, JsonView>,
    key: Seq<char>,
)
    ensures
        view == JsonView::Object(members) && members.contains_key(key) ==> member(view, key)
            == members[key],
        view == JsonView::Object(members) && !members.contains_key(key) ==> member(view, key)
            == JsonView::Null,
        !(view is Object) ==> member(view, key) == JsonView::Null,
{
}

/// An element is found at its index. There is none behind the end of an array, and none
/// in anything but an array.
pub proof fn elements_are_found_at_their_indices(
    view: JsonView,
    elements: Seq<JsonView>,
    index: nat,
)
    ensures
        view == JsonView::Array(elements) && index < elements.len() ==> element(view, index)
            == elements[index as int],
        view == JsonView::Array(elements) && index >= elements.len() ==> element(view, index)
            == JsonView::Null,
        !(view is Array) ==> element(view, index) == JsonView::Null,
{
}

} // verus!
