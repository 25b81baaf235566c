//! The calls into `serde_json` and `uuid`, and the parts of `std` without a
//! specification in `vstd`. Nothing in this file is proved: each item states what the
//! code behind it does.
use crate::json::JsonView;
use vstd::prelude::*;
use vstd::utf8::{decode_utf8, valid_utf8};

verus! {

/// `serde_json::Value`, a JSON value of any shape. Its contents are `value_view`.
#[verifier::external_type_specification]
#[verifier::external_body]
pub struct ExValue(serde_json::Value);

/// `serde_json::Map`, the members of a JSON object. Its contents are `map_view`.
#[verifier::external_type_specification]
#[verifier::external_body]
#[verifier::reject_recursive_types(K)]
#[verifier::reject_recursive_types(V)]
pub struct ExMap<K, V>(serde_json::Map<K, V>);

/// `serde_json::Number`, carried through without being read.
#[verifier::external_type_specification]
#[verifier::external_body]
pub struct ExNumber(serde_json::Number);

/// `serde_json::Error`, what a failed serialization returns.
#[verifier::external_type_specification]
#[verifier::external_body]
pub struct ExSerdeError(serde_json::Error);

/// What a `serde_json::Value` holds.
pub uninterp spec fn value_view(value: serde_json::Value) -> JsonView;

/// What a `serde_json::Map` holds, by its keys.
pub uninterp spec fn map_view(map: serde_json::Map<String, serde_json::Value>) -> Map<
    Seq<char>,
    JsonView,
>;

/// The compact text that `serde_json::to_string` makes of a value with the given contents.
pub uninterp spec fn serialized(json: JsonView) -> Seq<char>;

/// The outermost layer of a borrowed `serde_json::Value`.
pub enum ValueNode<'a> {
    Null,
    Bool(bool),
    Number(&'a serde_json::Number),
    String(&'a String),
    Array(&'a Vec<serde_json::Value>),
    Object(Vec<(&'a String, &'a serde_json::Value)>),
}

/// The object with these members. Where a key occurs more than once, its last member counts.
pub open spec fn entries_view(entries: Seq<(Seq<char>, JsonView)>) -> Map<Seq<char>, JsonView>
    decreases entries.len(),
{
    if entries.len() == 0 {
        Map::empty()
    } else {
        entries_view(entries.drop_last()).insert(entries.last().0, entries.last().1)
    }
}

impl<'a> ValueNode<'a> {
    /// No two members of an object have the same key.
    pub open spec fn distinct_keys(&self) -> bool {
        self matches ValueNode::Object(entries) ==> forall|i: int, j: int|
            0 <= i < j < entries@.len() ==> #[trigger] entries@[i].0@ != #[trigger] entries@[j].0@
    }

    pub open spec fn view(&self) -> JsonView {
        match self {
            ValueNode::Null => JsonView::Null,
            ValueNode::Bool(flag) => JsonView::Bool(*flag),
            ValueNode::Number(number) => JsonView::Number(**number),
            ValueNode::String(text) => JsonView::String(text@),
            ValueNode::Array(items) => JsonView::Array(
                items@.map_values(|item: serde_json::Value| value_view(item)),
            ),
            ValueNode::Object(entries) => JsonView::Object(
                entries_view(
                    entries@.map_values(
                        |entry: (&'a String, &'a serde_json::Value)|
                            (entry.0@, value_view(*entry.1)),
                    ),
                ),
            ),
        }
    }
}

/// Tells the variants of a `serde_json::Value` apart. The result holds what the value
/// holds; the members of an object come with their keys, each key once.
#[verifier::external_body]
pub(crate) fn open_value(value: &serde_json::Value) -> (node: ValueNode<'_>)
    ensures
        node.view() == value_view(*value),
        node.distinct_keys(),
{
    match value {
        serde_json::Value::Null => ValueNode::Null,
        serde_json::Value::Bool(flag) => ValueNode::Bool(*flag),
        serde_json::Value::Number(number) => ValueNode::Number(number),
        serde_json::Value::String(text) => ValueNode::String(text),
        serde_json::Value::Array(items) => ValueNode::Array(items),
        serde_json::Value::Object(map) => ValueNode::Object(map.iter().collect()),
    }
}

/// The outermost layer of a `serde_json::Value` that is about to be made.
pub enum ValueParts {
    Null,
    Bool(bool),
    Number(serde_json::Number),
    String(String),
    Array(Vec<serde_json::Value>),
    Object(serde_json::Map<String, serde_json::Value>),
}

impl ValueParts {
    pub open spec fn view(&self) -> JsonView {
        match self {
            ValueParts::Null => JsonView::Null,
            ValueParts::Bool(flag) => JsonView::Bool(*flag),
            ValueParts::Number(number) => JsonView::Number(*number),
            ValueParts::String(text) => JsonView::String(text@),
            ValueParts::Array(items) => JsonView::Array(
                items@.map_values(|item: serde_json::Value| value_view(item)),
            ),
            ValueParts::Object(map) => JsonView::Object(map_view(*map)),
        }
    }
}

/// `serde_json::Map::new`: a map without members.
#[verifier::external_body]
pub(crate) fn new_map() -> (empty: serde_json::Map<String, serde_json::Value>)
    ensures
        JsonView::Object(map_view(empty)) == JsonView::Object(Map::empty()),
{
    serde_json::Map::new()
}

/// `serde_json::Map::insert`: adds a member, or replaces the value of the one with that key.
#[verifier::external_body]
pub(crate) fn insert_member(
    map: &mut serde_json::Map<String, serde_json::Value>,
    key: String,
    value: serde_json::Value,
)
    ensures
        map_view(*final(map)) == map_view(*old(map)).insert(key@, value_view(value)),
{
    map.insert(key, value);
}

/// Makes a `serde_json::Value` by its constructors. The result holds what the parts hold.
#[verifier::external_body]
pub(crate) fn close_value(parts: ValueParts) -> (value: serde_json::Value)
    ensures
        value_view(value) == parts.view(),
{
    match parts {
        ValueParts::Null => serde_json::Value::Null,
        ValueParts::Bool(flag) => serde_json::Value::Bool(flag),
        ValueParts::Number(number) => serde_json::Value::Number(number),
        ValueParts::String(text) => serde_json::Value::String(text),
        ValueParts::Array(items) => serde_json::Value::Array(items),
        ValueParts::Object(map) => serde_json::Value::Object(map),
    }
}

/// The text that a serialization gave, if it succeeded.
pub open spec fn ok_text(result: Result<String, serde_json::Error>) -> Option<Seq<char>> {
    match result {
        Ok(text) => Some(text@),
        Err(_) => None,
    }
}

/// `serde_json::to_string` on a value: its compact text, which depends on nothing but what
/// the value holds, as a `serde_json::Map` is a B-tree, which is walked in the order of its
/// keys. It does not fail: `Value` serializes without errors of its own, its keys are strings,
/// and the text is written to memory. The text of an object without members is `{}`.
#[verifier::external_body]
pub(crate) fn value_to_string(value: &serde_json::Value) -> (result: Result<
    String,
    serde_json::Error,
>)
    ensures
        ok_text(result) == Some(serialized(value_view(*value))),
        value_view(*value) == JsonView::Object(Map::empty()) ==> ok_text(result) == Some(
            seq!['{', '}'],
        ),
{
    serde_json::to_string(value)
}

/// The text that `String::from_utf8_lossy` makes of some bytes.
pub uninterp spec fn utf8_lossy(bytes: Seq<u8>) -> Seq<char>;

/// `String::from_utf8_lossy`, owned: valid UTF-8 is decoded. What is not valid is replaced
/// by U+FFFD; where exactly those characters stand is left to the name.
#[verifier::external_body]
pub(crate) fn decode_utf8_lossy(bytes: &[u8]) -> (text: String)
    ensures
        text@ == utf8_lossy(bytes@),
        valid_utf8(bytes@) ==> text@ == decode_utf8(bytes@),
{
    String::from_utf8_lossy(bytes).into_owned()
}

/// Whether a character is a hexadecimal digit in lower case.
pub open spec fn lower_hex(ch: char) -> bool {
    '0' <= ch <= '9' || 'a' <= ch <= 'f'
}

/// Whether a text has the form of a random UUID without hyphens: thirty-two hexadecimal
/// digits, with the version and the variant of a random UUID in their places.
pub open spec fn random_uuid_form(text: Seq<char>) -> bool {
    &&& text.len() == 32
    &&& forall|i: int| 0 <= i < text.len() ==> lower_hex(#[trigger] text[i])
    &&& text[12] == '4'
    &&& text[16] == '8' || text[16] == '9' || text[16] == 'a' || text[16] == 'b'
}

/// `uuid::Uuid::new_v4` in its `simple` form. Which UUID comes is left to chance, and that
/// no two are equal is not claimed. It panics where the system has no source of randomness.
#[verifier::external_body]
pub(crate) fn random_uuid() -> (text: String)
    ensures
        random_uuid_form(text@),
{
    uuid::Uuid::new_v4().simple().to_string()
}

/// `==` on `str`: true exactly of the same text.
pub assume_specification[ <str as PartialEq>::eq ](left: &str, right: &str) -> (same: bool)
    ensures
        same == (left@ == right@),
;

/// `String::push`: appends one character.
pub assume_specification[ std::string::String::push ](text: &mut std::string::String, ch: char)
    ensures
        final(text)@ == old(text)@.push(ch),
;

/// `Clone` of `serde_json::Number`, which holds nothing but a machine number: the clone is
/// the same number.
#[verifier::external_body]
pub(crate) fn clone_number(number: &serde_json::Number) -> (copy: serde_json::Number)
    ensures
        copy == *number,
{
    number.clone()
}

} // verus!
