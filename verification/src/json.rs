//! JSON values that the contracts can look into.
use crate::outside::{
    clone_number, close_value, entries_view, insert_member, map_view, new_map, open_value,
    serialized, value_to_string, value_view, ValueNode, ValueParts,
};
use vstd::prelude::*;

verus! {

/// A JSON value as a mathematical object.
#[verifier::ext_equal]
pub enum JsonView {
    Null,
    Bool(bool),
    Number(serde_json::Number),
    String(Seq<char>),
    Array(Seq<JsonView>),
    Object(Map<Seq<char>, JsonView>),
}

impl JsonView {
    /// The member of that name, if the value is an object that has one.
    pub open spec fn field(self, key: Seq<char>) -> Option<JsonView> {
        match self {
            JsonView::Object(members) => if members.contains_key(key) {
                Some(members[key])
            } else {
                None
            },
            _ => None,
        }
    }

    /// The text, if the value is a string.
    pub open spec fn text(self) -> Option<Seq<char>> {
        match self {
            JsonView::String(text) => Some(text),
            _ => None,
        }
    }

    /// The text of the member of that name, if there is one and it is a string.
    pub open spec fn text_field(self, key: Seq<char>) -> Option<Seq<char>> {
        match self.field(key) {
            Some(value) => value.text(),
            None => None,
        }
    }
}

/// A JSON value.
#[derive(Debug, PartialEq)]
pub enum Json {
    Null,
    Bool(bool),
    Number(serde_json::Number),
    String(String),
    Array(Vec<Json>),
    /// The members in the order in which they were written. Where a key occurs more than
    /// once, its last member counts.
    Object(Vec<Member>),
}

/// One member of a JSON object.
#[derive(Debug, PartialEq)]
pub struct Member {
    pub key: String,
    pub value: Json,
}

/// What a JSON value holds.
pub open spec fn json_view(json: Json) -> JsonView
    decreases json,
{
    match json {
        Json::Null => JsonView::Null,
        Json::Bool(flag) => JsonView::Bool(flag),
        Json::Number(number) => JsonView::Number(number),
        Json::String(text) => JsonView::String(text@),
        Json::Array(items) => JsonView::Array(items_view(items@)),
        Json::Object(members) => JsonView::Object(members_view(members@)),
    }
}

/// What the items of an array hold.
pub open spec fn items_view(items: Seq<Json>) -> Seq<JsonView>
    decreases items,
{
    if items.len() == 0 {
        Seq::empty()
    } else {
        items_view(items.drop_last()).push(json_view(items.last()))
    }
}

/// What the members of an object hold, by their keys.
pub open spec fn members_view(members: Seq<Member>) -> Map<Seq<char>, JsonView>
    decreases members,
{
    if members.len() == 0 {
        Map::empty()
    } else {
        members_view(members.drop_last()).insert(
            members.last().key@,
            json_view(members.last().value),
        )
    }
}

impl View for Json {
    type V = JsonView;

    open spec fn view(&self) -> JsonView {
        json_view(*self)
    }
}

impl DeepView for Json {
    type V = JsonView;

    open spec fn deep_view(&self) -> JsonView {
        json_view(*self)
    }
}

pub proof fn lemma_items_view(items: Seq<Json>)
    ensures
        items_view(items).len() == items.len(),
        forall|i: int|
            0 <= i < items.len() ==> #[trigger] items_view(items)[i] == json_view(items[i]),
    decreases items.len(),
{
    if items.len() > 0 {
        lemma_items_view(items.drop_last());
    }
}

proof fn lemma_entries_view(entries: Seq<(Seq<char>, JsonView)>)
    requires
        forall|a: int, b: int|
            0 <= a < b < entries.len() ==> #[trigger] entries[a].0 != #[trigger] entries[b].0,
    ensures
        entries_view(entries).dom().finite(),
        forall|a: int|
            0 <= a < entries.len() ==> entries_view(entries).contains_key(#[trigger] entries[a].0)
                && entries_view(entries)[entries[a].0] == entries[a].1,
    decreases entries.len(),
{
    if entries.len() > 0 {
        lemma_entries_view(entries.drop_last());
        let front = entries.drop_last();
        assert forall|a: int| 0 <= a < entries.len() implies entries_view(entries).contains_key(
            #[trigger] entries[a].0,
        ) && entries_view(entries)[entries[a].0] == entries[a].1 by {
            if a < front.len() {
                assert(front[a] == entries[a]);
                assert(entries[a].0 != entries[entries.len() - 1].0);
            }
        }
    }
}

impl Json {
    /// Converts from the JSON value type of `serde_json`.
    pub fn from_value(value: &serde_json::Value) -> (json: Json)
        ensures
            json@ == value_view(*value),
        decreases value_view(*value),
    {
        match open_value(value) {
            ValueNode::Null => Json::Null,
            ValueNode::Bool(flag) => Json::Bool(flag),
            ValueNode::Number(number) => Json::Number(clone_number(number)),
            ValueNode::String(text) => Json::String(text.clone()),
            ValueNode::Array(values) => {
                let ghost views = values@.map_values(|item: serde_json::Value| value_view(item));
                let mut items: Vec<Json> = Vec::new();
                let mut i: usize = 0;
                while i < values.len()
                    invariant
                        i <= values.len(),
                        views == values@.map_values(|item: serde_json::Value| value_view(item)),
                        value_view(*value) == JsonView::Array(views),
                        items_view(items@) == views.take(i as int),
                    decreases values.len() - i,
                {
                    assert(views[i as int] == value_view(values@[i as int]));
                    assert(decreases_to!(value_view(*value) => value_view(*value)->Array_0));
                    assert(decreases_to!(views => views[i as int]));
                    let item = Json::from_value(&values[i]);
                    let ghost before = items@;
                    items.push(item);
                    assert(items@.drop_last() == before);
                    assert(views.take(i + 1) == views.take(i as int).push(views[i as int]));
                    i = i + 1;
                }
                assert(views.take(i as int) == views);
                Json::Array(items)
            },
            ValueNode::Object(entries) => {
                let ghost pairs = entries@.map_values(
                    |entry: (&String, &serde_json::Value)| (entry.0@, value_view(*entry.1)),
                );
                let mut members: Vec<Member> = Vec::new();
                let mut i: usize = 0;
                while i < entries.len()
                    invariant
                        i <= entries.len(),
                        pairs == entries@.map_values(
                            |entry: (&String, &serde_json::Value)| (entry.0@, value_view(*entry.1)),
                        ),
                        forall|a: int, b: int|
                            0 <= a < b < pairs.len() ==> #[trigger] pairs[a].0
                                != #[trigger] pairs[b].0,
                        value_view(*value) == JsonView::Object(entries_view(pairs)),
                        members_view(members@) == entries_view(pairs.take(i as int)),
                    decreases entries.len() - i,
                {
                    proof {
                        assert(pairs[i as int] == (
                            entries@[i as int].0@,
                            value_view(*entries@[i as int].1),
                        ));
                        lemma_entries_view(pairs);
                        let map = entries_view(pairs);
                        assert(decreases_to!(value_view(*value) => value_view(*value)->Object_0));
                        assert(map.contains_key(pairs[i as int].0));
                        assert(decreases_to!(map => map[pairs[i as int].0]));
                        assert(pairs.take(i + 1).drop_last() == pairs.take(i as int));
                    }
                    let key = entries[i].0.clone();
                    let item = Json::from_value(entries[i].1);
                    let ghost before = members@;
                    members.push(Member { key, value: item });
                    assert(members@.drop_last() == before);
                    i = i + 1;
                }
                assert(pairs.take(i as int) == pairs);
                Json::Object(members)
            },
        }
    }

    /// Converts to the JSON value type of `serde_json`.
    pub fn to_value(&self) -> (value: serde_json::Value)
        ensures
            value_view(value) == self@,
        decreases self,
    {
        match self {
            Json::Null => close_value(ValueParts::Null),
            Json::Bool(flag) => close_value(ValueParts::Bool(*flag)),
            Json::Number(number) => close_value(ValueParts::Number(clone_number(number))),
            Json::String(text) => close_value(ValueParts::String(text.clone())),
            Json::Array(items) => {
                let mut values: Vec<serde_json::Value> = Vec::new();
                let mut i: usize = 0;
                while i < items.len()
                    invariant
                        i <= items.len(),
                        *self == Json::Array(*items),
                        values@.map_values(|item: serde_json::Value| value_view(item))
                            == items_view(items@.take(i as int)),
                    decreases items.len() - i,
                {
                    proof {
                        lemma_array_decreases(*self, i as int);
                    }
                    let value = items[i].to_value();
                    let ghost before = values@;
                    values.push(value);
                    assert(items@.take(i + 1).drop_last() == items@.take(i as int));
                    assert(values@.map_values(|item: serde_json::Value| value_view(item))
                        == before.map_values(|item: serde_json::Value| value_view(item)).push(
                        value_view(value),
                    ));
                    i = i + 1;
                }
                assert(items@.take(i as int) == items@);
                close_value(ValueParts::Array(values))
            },
            Json::Object(members) => {
                let mut map = new_map();
                let mut i: usize = 0;
                while i < members.len()
                    invariant
                        i <= members.len(),
                        *self == Json::Object(*members),
                        map_view(map) == members_view(members@.take(i as int)),
                    decreases members.len() - i,
                {
                    proof {
                        lemma_object_decreases(*self, i as int);
                    }
                    let value = members[i].value.to_value();
                    let key = members[i].key.clone();
                    insert_member(&mut map, key, value);
                    assert(members@.take(i + 1).drop_last() == members@.take(i as int));
                    i = i + 1;
                }
                assert(members@.take(i as int) == members@);
                close_value(ValueParts::Object(map))
            },
        }
    }

    /// The compact text of the value.
    pub fn to_text(&self) -> (text: String)
        ensures
            text@ == serialized(self@),
            self@ == JsonView::Object(Map::empty()) ==> text@ == seq!['{', '}'],
    {
        text_or_default(value_to_string(&self.to_value()))
    }

    /// The member of that name, if the value is an object that has one.
    pub fn get(&self, key: &str) -> (member: Option<&Json>)
        ensures
            match member {
                Some(value) => self@.field(key@) == Some(value@),
                None => self@.field(key@) is None,
            },
    {
        match self {
            Json::Object(members) => {
                let mut i: usize = members.len();
                while i > 0
                    invariant
                        i <= members.len(),
                        *self == Json::Object(*members),
                        forall|j: int|
                            i <= j < members.len() ==> #[trigger] members@[j].key@ != key@,
                    decreases i,
                {
                    i = i - 1;
                    if *members[i].key.as_str() == *key {
                        proof {
                            lemma_last_member(members@, i as int);
                        }
                        return Some(&members[i].value);
                    }
                }
                proof {
                    lemma_no_member(members@, key@);
                }
                None
            },
            _ => None,
        }
    }

    /// The text, if the value is a string.
    pub fn as_str(&self) -> (text: Option<&str>)
        ensures
            match text {
                Some(text) => self@.text() == Some(text@),
                None => self@.text() is None,
            },
    {
        match self {
            Json::String(text) => Some(text.as_str()),
            _ => None,
        }
    }

    /// The text of the member of that name, if there is one and it is a string.
    pub fn get_str(&self, key: &str) -> (text: Option<&str>)
        ensures
            match text {
                Some(text) => self@.text_field(key@) == Some(text@),
                None => self@.text_field(key@) is None,
            },
    {
        match self.get(key) {
            Some(value) => value.as_str(),
            None => None,
        }
    }
}

/// The text that a serialization gave, or the empty text where it failed.
pub fn text_or_default(result: Result<String, serde_json::Error>) -> (text: String)
    ensures
        text@ == (match result {
            Ok(text) => text@,
            Err(_) => Seq::empty(),
        }),
{
    match result {
        Ok(text) => text,
        Err(_) => String::new(),
    }
}

/// An object without members.
pub fn empty_object() -> (json: Json)
    ensures
        json@ == JsonView::Object(Map::empty()),
{
    Json::Object(Vec::new())
}

/// An array is larger than its items.
proof fn lemma_array_decreases(json: Json, i: int)
    requires
        json is Array,
        0 <= i < json->Array_0@.len(),
    ensures
        decreases_to!(json => json->Array_0@[i]),
{
    let items = json->Array_0;
    assert(decreases_to!(json => json->Array_0));
    assert(decreases_to!(items => items@));
    assert(decreases_to!(items@ => items@[i]));
}

/// An object is larger than the values of its members.
proof fn lemma_object_decreases(json: Json, i: int)
    requires
        json is Object,
        0 <= i < json->Object_0@.len(),
    ensures
        decreases_to!(json => json->Object_0@[i].value),
{
    let members = json->Object_0;
    assert(decreases_to!(json => json->Object_0));
    assert(decreases_to!(members => members@));
    assert(decreases_to!(members@ => members@[i]));
    assert(decreases_to!(members@[i] => members@[i].value));
}

proof fn lemma_last_member(members: Seq<Member>, i: int)
    requires
        0 <= i < members.len(),
        forall|j: int| i < j < members.len() ==> #[trigger] members[j].key@ != members[i].key@,
    ensures
        members_view(members).contains_key(members[i].key@),
        members_view(members)[members[i].key@] == json_view(members[i].value),
    decreases members.len(),
{
    if i < members.len() - 1 {
        lemma_last_member(members.drop_last(), i);
        assert(members[members.len() - 1].key@ != members[i].key@);
    }
}

proof fn lemma_no_member(members: Seq<Member>, key: Seq<char>)
    requires
        forall|j: int| 0 <= j < members.len() ==> #[trigger] members[j].key@ != key,
    ensures
        !members_view(members).contains_key(key),
    decreases members.len(),
{
    if members.len() > 0 {
        lemma_no_member(members.drop_last(), key);
        assert(members[members.len() - 1].key@ != key);
    }
}

impl Clone for Json {
    fn clone(&self) -> (copy: Json)
        ensures
            copy@ == self@,
        decreases self,
    {
        match self {
            Json::Null => Json::Null,
            Json::Bool(flag) => Json::Bool(*flag),
            Json::Number(number) => Json::Number(clone_number(number)),
            Json::String(text) => Json::String(text.clone()),
            Json::Array(items) => {
                let mut copies: Vec<Json> = Vec::new();
                let mut i: usize = 0;
                while i < items.len()
                    invariant
                        i <= items.len(),
                        *self == Json::Array(*items),
                        items_view(copies@) == items_view(items@.take(i as int)),
                    decreases items.len() - i,
                {
                    proof {
                        lemma_array_decreases(*self, i as int);
                    }
                    let item = items[i].clone();
                    let ghost before = copies@;
                    copies.push(item);
                    assert(copies@.drop_last() == before);
                    assert(items@.take(i + 1).drop_last() == items@.take(i as int));
                    i = i + 1;
                }
                assert(items@.take(i as int) == items@);
                Json::Array(copies)
            },
            Json::Object(members) => {
                let mut copies: Vec<Member> = Vec::new();
                let mut i: usize = 0;
                while i < members.len()
                    invariant
                        i <= members.len(),
                        *self == Json::Object(*members),
                        members_view(copies@) == members_view(members@.take(i as int)),
                    decreases members.len() - i,
                {
                    proof {
                        lemma_object_decreases(*self, i as int);
                    }
                    let value = members[i].value.clone();
                    let key = members[i].key.clone();
                    let ghost before = copies@;
                    copies.push(Member { key, value });
                    assert(copies@.drop_last() == before);
                    assert(members@.take(i + 1).drop_last() == members@.take(i as int));
                    i = i + 1;
                }
                assert(members@.take(i as int) == members@);
                Json::Object(copies)
            },
        }
    }
}

} // verus!
