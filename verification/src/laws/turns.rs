//! The turns of a conversation, in terms of the members of their blocks.
use crate::json::JsonView;
use crate::laws::texts::law_concatenating_keeps_everything;
use crate::messages::{
    assistant_messages, assistant_turn, call_with_arguments, conversation_messages, member_texts,
    text_parts, tool_result_content, tool_result_messages, tool_use_calls, turn_messages,
    user_messages,
};
use crate::outside::serialized;
use crate::text::joined;
use crate::types::ApiMessageView;
use crate::wire::{OAIMessageView, OAIToolCallView};
use vstd::prelude::*;

verus! {

/// The text that stands under a key of an object.
pub open spec fn text_at(json: JsonView, key: Seq<char>) -> Option<Seq<char>> {
    if json is Object && json->Object_0.contains_key(key) && json->Object_0[key] is String {
        Some(json->Object_0[key]->String_0)
    } else {
        None
    }
}

/// The text that stands under a key of an object, or the empty text.
pub open spec fn text_at_or_empty(json: JsonView, key: Seq<char>) -> Seq<char> {
    if text_at(json, key) is Some {
        text_at(json, key)->0
    } else {
        Seq::empty()
    }
}

/// The blocks of a type.
pub open spec fn blocks_of_type(blocks: Seq<JsonView>, kind: Seq<char>) -> Seq<JsonView> {
    blocks.filter(|block: JsonView| text_at(block, "type"@) == Some(kind))
}

/// The texts that stand under `text` in those values that have such a text.
pub open spec fn texts_of(items: Seq<JsonView>) -> Seq<Seq<char>> {
    items.filter(|item: JsonView| text_at(item, "text"@) is Some).map_values(
        |item: JsonView| text_at(item, "text"@)->0,
    )
}

/// The members of an object are those of its map, and no other value has members.
pub proof fn law_members_are_those_of_the_map(json: JsonView, key: Seq<char>)
    ensures
        json.field(key) is Some <==> json is Object && json->Object_0.contains_key(key),
        json.field(key) matches Some(value) ==> value == json->Object_0[key],
        json.text() is Some <==> json is String,
        json.text() matches Some(text) ==> json == JsonView::String(text),
        json.text_field(key) == text_at(json, key),
{
}

proof fn lemma_member_texts(items: Seq<JsonView>)
    ensures
        member_texts(items) == texts_of(items),
    decreases items.len(),
{
    reveal(Seq::filter);
    let has_text = |item: JsonView| text_at(item, "text"@) is Some;
    let text = |item: JsonView| text_at(item, "text"@)->0;
    if items.len() > 0 {
        lemma_member_texts(items.drop_last());
        let front = items.drop_last().filter(has_text);
        assert(front.push(items.last()).map_values(text) == front.map_values(text).push(
            text(items.last()),
        ));
    }
    assert(member_texts(items) == items.filter(has_text).map_values(text));
}

proof fn lemma_text_parts(blocks: Seq<JsonView>)
    ensures
        text_parts(blocks) == texts_of(blocks_of_type(blocks, "text"@)),
    decreases blocks.len(),
{
    reveal(Seq::filter);
    let typed = |block: JsonView| text_at(block, "type"@) == Some("text"@);
    let has_text = |item: JsonView| text_at(item, "text"@) is Some;
    let text = |item: JsonView| text_at(item, "text"@)->0;
    if blocks.len() > 0 {
        let front = blocks.drop_last();
        let last = blocks.last();
        lemma_text_parts(front);
        let before = front.filter(typed);
        assert(before.push(last).drop_last() == before);
        let texts = before.filter(has_text);
        assert(texts.push(last).map_values(text) == texts.map_values(text).push(text(last)));
    }
    assert(text_parts(blocks) == blocks.filter(typed).filter(has_text).map_values(text));
}

/// What a tool gave is the string under `content` itself, whole; or else the texts of the array
/// under `content`, joined by line feeds; or else the string under `output`; or else empty.
pub proof fn law_result_content_is_the_member(block: JsonView)
    ensures
        ({
            let content = tool_result_content(block);
            let has_content = block is Object && block->Object_0.contains_key("content"@);
            let member = block->Object_0["content"@];
            &&& has_content && member is String ==> JsonView::String(content) == member
            &&& has_content && member is Array ==> content == joined(texts_of(member->Array_0))
            &&& !has_content || !(member is String || member is Array) ==> content
                == text_at_or_empty(block, "output"@)
        }),
{
    if block is Object && block->Object_0.contains_key("content"@) {
        if let JsonView::Array(items) = block->Object_0["content"@] {
            lemma_member_texts(items);
        }
    }
}

/// Whether a message is a tool's answer with what the block holds.
pub open spec fn answers(message: OAIMessageView, block: JsonView) -> bool {
    let has_content = block is Object && block->Object_0.contains_key("content"@);
    let member = block->Object_0["content"@];
    &&& message.role == "tool"@
    &&& message.tool_calls is None
    &&& message.tool_call_id == Some(text_at_or_empty(block, "tool_use_id"@))
    &&& has_content && member is String ==> message.content == Some(member)
    &&& has_content && member is Array ==> message.content == Some(
        JsonView::String(joined(texts_of(member->Array_0))),
    )
    &&& !has_content || !(member is String || member is Array) ==> message.content == Some(
        JsonView::String(text_at_or_empty(block, "output"@)),
    )
}

proof fn lemma_tool_results(blocks: Seq<JsonView>)
    ensures
        tool_result_messages(blocks).len() == blocks_of_type(blocks, "tool_result"@).len(),
        forall|i: int|
            0 <= i < tool_result_messages(blocks).len() ==> answers(
                #[trigger] tool_result_messages(blocks)[i],
                blocks_of_type(blocks, "tool_result"@)[i],
            ),
    decreases blocks.len(),
{
    reveal(Seq::filter);
    if blocks.len() > 0 {
        lemma_tool_results(blocks.drop_last());
        law_result_content_is_the_member(blocks.last());
        let front = tool_result_messages(blocks.drop_last());
        let messages = tool_result_messages(blocks);
        let results = blocks_of_type(blocks, "tool_result"@);
        assert forall|i: int| 0 <= i < messages.len() implies answers(
            #[trigger] messages[i],
            results[i],
        ) by {
            if i < front.len() {
                assert(messages[i] == front[i]);
            }
        }
    }
}

/// A user's turn becomes one message with its texts, joined by line feeds, if it has any, and
/// behind it one message for each tool result, in their order, with what that result holds.
pub proof fn law_user_turn_says_what_its_blocks_hold(blocks: Seq<JsonView>)
    ensures
        ({
            let texts = texts_of(blocks_of_type(blocks, "text"@));
            let results = blocks_of_type(blocks, "tool_result"@);
            let lead = if texts.len() > 0 {
                1int
            } else {
                0int
            };
            let messages = user_messages(blocks);
            &&& messages.len() == lead + results.len()
            &&& texts.len() > 0 ==> messages[0] == OAIMessageView {
                role: "user"@,
                content: Some(JsonView::String(joined(texts))),
                tool_calls: None,
                tool_call_id: None,
            }
            &&& forall|i: int|
                0 <= i < results.len() ==> answers(messages[lead + i], #[trigger] results[i])
        }),
{
    lemma_text_parts(blocks);
    lemma_tool_results(blocks);
    let results = blocks_of_type(blocks, "tool_result"@);
    let parts = text_parts(blocks);
    let lead = if parts.len() > 0 {
        1int
    } else {
        0int
    };
    assert forall|i: int| 0 <= i < results.len() implies answers(
        user_messages(blocks)[lead + i],
        #[trigger] results[i],
    ) by {
        assert(user_messages(blocks)[lead + i] == tool_result_messages(blocks)[i]);
    }
}

/// Whether a call is that of a tool use: with its `id` and its `name`, whole, and with its
/// `input` as JSON text.
pub open spec fn calls(call: OAIToolCallView, block: JsonView) -> bool {
    let has_input = block is Object && block->Object_0.contains_key("input"@);
    &&& call.id == text_at_or_empty(block, "id"@)
    &&& call.name == text_at_or_empty(block, "name"@)
    &&& call.call_type == "function"@
    &&& has_input ==> call.arguments == serialized(block->Object_0["input"@])
    &&& !has_input ==> call.arguments == seq!['{', '}']
}

/// A tool use becomes a call with its `id`, its `name` and the given arguments, all whole.
pub proof fn law_call_holds_the_members(block: JsonView, arguments: Seq<char>)
    ensures
        ({
            let call = call_with_arguments(block, arguments);
            &&& call.id == text_at_or_empty(block, "id"@)
            &&& call.name == text_at_or_empty(block, "name"@)
            &&& call.call_type == "function"@
            &&& call.arguments == arguments
        }),
{
}

proof fn lemma_tool_uses(blocks: Seq<JsonView>)
    ensures
        tool_use_calls(blocks).len() == blocks_of_type(blocks, "tool_use"@).len(),
        forall|i: int|
            0 <= i < tool_use_calls(blocks).len() ==> calls(
                #[trigger] tool_use_calls(blocks)[i],
                blocks_of_type(blocks, "tool_use"@)[i],
            ),
    decreases blocks.len(),
{
    reveal(Seq::filter);
    if blocks.len() > 0 {
        lemma_tool_uses(blocks.drop_last());
        let front = tool_use_calls(blocks.drop_last());
        let made = tool_use_calls(blocks);
        let uses = blocks_of_type(blocks, "tool_use"@);
        assert forall|i: int| 0 <= i < made.len() implies calls(#[trigger] made[i], uses[i]) by {
            if i < front.len() {
                assert(made[i] == front[i]);
            }
        }
    }
}

/// An assistant who said some text and made some calls is one message that holds both, whole; an
/// empty text and an empty list of calls are absent from it. Who did neither is no message.
pub proof fn law_assistant_message_holds_text_and_calls(
    text: Seq<char>,
    made: Seq<OAIToolCallView>,
)
    ensures
        assistant_turn(text, made) is None <==> text.len() == 0 && made.len() == 0,
        assistant_turn(text, made) matches Some(message) ==> {
            &&& message.role == "assistant"@
            &&& message.tool_call_id is None
            &&& text.len() > 0 ==> message.content == Some(JsonView::String(text))
            &&& text.len() == 0 ==> message.content is None
            &&& made.len() > 0 ==> message.tool_calls == Some(made)
            &&& made.len() == 0 ==> message.tool_calls is None
        },
{
}

/// An assistant's turn becomes one message, if it says or calls anything. Its content is all of
/// its texts one after the other, whole, and absent where that is empty; its calls are those of
/// its tool uses, in their order, and absent where there are none.
pub proof fn law_assistant_turn_says_what_its_blocks_hold(blocks: Seq<JsonView>)
    ensures
        ({
            let text = texts_of(blocks_of_type(blocks, "text"@)).flatten();
            let uses = blocks_of_type(blocks, "tool_use"@);
            let messages = assistant_messages(blocks);
            &&& text.len() == 0 && uses.len() == 0 ==> messages.len() == 0
            &&& text.len() > 0 || uses.len() > 0 ==> {
                &&& messages.len() == 1
                &&& messages[0].role == "assistant"@
                &&& messages[0].tool_call_id is None
                &&& text.len() > 0 ==> messages[0].content == Some(JsonView::String(text))
                &&& text.len() == 0 ==> messages[0].content is None
                &&& uses.len() == 0 ==> messages[0].tool_calls is None
                &&& uses.len() > 0 ==> messages[0].tool_calls is Some
                    && messages[0].tool_calls->0.len() == uses.len()
                &&& forall|i: int|
                    0 <= i < uses.len() ==> calls(
                        messages[0].tool_calls->0[i],
                        #[trigger] uses[i],
                    )
            }
        }),
{
    lemma_text_parts(blocks);
    lemma_tool_uses(blocks);
    law_concatenating_keeps_everything(text_parts(blocks));
    let uses = blocks_of_type(blocks, "tool_use"@);
    assert forall|i: int| 0 <= i < uses.len() implies calls(
        assistant_messages(blocks)[0].tool_calls->0[i],
        #[trigger] uses[i],
    ) by {
        assert(assistant_messages(blocks)[0].tool_calls == Some(tool_use_calls(blocks)));
    }
}

/// A turn alone becomes the messages of that turn: a text one message with the same role and the
/// same text; blocks of a user or an assistant what those blocks say; blocks of anybody else one
/// message with the same role and the same blocks; and anything else nothing.
pub proof fn law_turn_is_converted_by_its_role(turn: ApiMessageView)
    ensures
        ({
            let messages = conversation_messages(seq![turn]);
            let as_it_is = seq![
                OAIMessageView {
                    role: turn.role,
                    content: Some(turn.content),
                    tool_calls: None,
                    tool_call_id: None,
                },
            ];
            &&& turn.content is String ==> messages == as_it_is
            &&& turn.content is Array && turn.role == "user"@ ==> messages == user_messages(
                turn.content->Array_0,
            )
            &&& turn.content is Array && turn.role == "assistant"@ ==> messages
                == assistant_messages(turn.content->Array_0)
            &&& turn.content is Array && turn.role != "user"@ && turn.role != "assistant"@
                ==> messages == as_it_is
            &&& !(turn.content is String) && !(turn.content is Array) ==> messages.len() == 0
        }),
{
    reveal_strlit("user");
    reveal_strlit("assistant");
    assert("user"@.len() != "assistant"@.len());
    reveal_with_fuel(conversation_messages, 2);
    assert(seq![turn].drop_last() == Seq::<ApiMessageView>::empty());
    assert(conversation_messages(seq![turn]) == turn_messages(turn));
}

} // verus!
