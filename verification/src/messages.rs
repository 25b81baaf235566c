//! From Anthropic-style messages and tools to those of the OpenAI wire format.
use crate::json::{empty_object, items_view, json_view, lemma_items_view, Json, JsonView};
use crate::outside::serialized;
use crate::text::{join_lines, joined};
use crate::types::{ApiMessage, ApiMessageView, ApiToolDefinition, ApiToolDefinitionView};
use crate::wire::{
    OAIFunction, OAIFunctionCall, OAIMessage, OAIMessageView, OAITool, OAIToolCall,
    OAIToolCallView, OAIToolView,
};
use vstd::prelude::*;

verus! {

/// A message that holds a JSON value and no tool calls.
pub open spec fn plain_message(role: Seq<char>, content: JsonView) -> OAIMessageView {
    OAIMessageView { role, content: Some(content), tool_calls: None, tool_call_id: None }
}

/// What the tool call with that identifier gave.
pub open spec fn tool_message(id: Seq<char>, content: Seq<char>) -> OAIMessageView {
    OAIMessageView {
        role: "tool"@,
        content: Some(JsonView::String(content)),
        tool_calls: None,
        tool_call_id: Some(id),
    }
}

/// The text, or the empty text where there is none.
pub open spec fn or_empty(text: Option<Seq<char>>) -> Seq<char> {
    match text {
        Some(text) => text,
        None => Seq::empty(),
    }
}

/// Whether a content block is of that type.
pub open spec fn block_is(block: JsonView, block_type: Seq<char>) -> bool {
    block.text_field("type"@) == Some(block_type)
}

/// The text that a block of a turn adds to its text parts, if it adds one.
pub open spec fn block_text(block: JsonView) -> Option<Seq<char>> {
    if block_is(block, "text"@) {
        block.text_field("text"@)
    } else {
        None
    }
}

/// The text parts of a turn: one for each of its text blocks that holds a text.
pub open spec fn text_parts(blocks: Seq<JsonView>) -> Seq<Seq<char>>
    decreases blocks.len(),
{
    if blocks.len() == 0 {
        Seq::empty()
    } else {
        match block_text(blocks.last()) {
            Some(text) => text_parts(blocks.drop_last()).push(text),
            None => text_parts(blocks.drop_last()),
        }
    }
}

/// The texts of those values that have a text member named `text`.
pub open spec fn member_texts(items: Seq<JsonView>) -> Seq<Seq<char>>
    decreases items.len(),
{
    if items.len() == 0 {
        Seq::empty()
    } else {
        match items.last().text_field("text"@) {
            Some(text) => member_texts(items.drop_last()).push(text),
            None => member_texts(items.drop_last()),
        }
    }
}

/// The content of a tool result: its text, or the texts of its blocks on lines of their own,
/// or else its `output`.
pub open spec fn tool_result_content(block: JsonView) -> Seq<char> {
    match block.field("content"@) {
        Some(JsonView::String(text)) => text,
        Some(JsonView::Array(items)) => joined(member_texts(items)),
        _ => or_empty(block.text_field("output"@)),
    }
}

/// One tool message for each tool result of a user's turn.
pub open spec fn tool_result_messages(blocks: Seq<JsonView>) -> Seq<OAIMessageView>
    decreases blocks.len(),
{
    if blocks.len() == 0 {
        Seq::empty()
    } else {
        let front = tool_result_messages(blocks.drop_last());
        let block = blocks.last();
        if block_is(block, "tool_result"@) {
            front.push(
                tool_message(
                    or_empty(block.text_field("tool_use_id"@)),
                    tool_result_content(block),
                ),
            )
        } else {
            front
        }
    }
}

/// The messages of a user's turn: its text, if it has any, then its tool results.
pub open spec fn user_messages(blocks: Seq<JsonView>) -> Seq<OAIMessageView> {
    let parts = text_parts(blocks);
    let text = if parts.len() == 0 {
        Seq::empty()
    } else {
        seq![plain_message("user"@, JsonView::String(joined(parts)))]
    };
    text + tool_result_messages(blocks)
}

/// The parts one after the other.
pub open spec fn concatenated(parts: Seq<Seq<char>>) -> Seq<char>
    decreases parts.len(),
{
    if parts.len() == 0 {
        Seq::empty()
    } else {
        concatenated(parts.drop_last()) + parts.last()
    }
}

/// The arguments of a tool use as JSON text: its input, or else an object without members.
pub open spec fn tool_use_arguments(block: JsonView) -> Seq<char> {
    match block.field("input"@) {
        Some(input) => serialized(input),
        None => seq!['{', '}'],
    }
}

/// The tool call that a tool use stands for, with the given arguments.
pub open spec fn call_with_arguments(block: JsonView, arguments: Seq<char>) -> OAIToolCallView {
    OAIToolCallView {
        id: or_empty(block.text_field("id"@)),
        call_type: "function"@,
        name: or_empty(block.text_field("name"@)),
        arguments,
    }
}

/// The tool call that a tool use stands for.
pub open spec fn tool_use_call(block: JsonView) -> OAIToolCallView {
    call_with_arguments(block, tool_use_arguments(block))
}

/// One tool call for each tool use of an assistant's turn.
pub open spec fn tool_use_calls(blocks: Seq<JsonView>) -> Seq<OAIToolCallView>
    decreases blocks.len(),
{
    if blocks.len() == 0 {
        Seq::empty()
    } else {
        let front = tool_use_calls(blocks.drop_last());
        if block_is(blocks.last(), "tool_use"@) {
            front.push(tool_use_call(blocks.last()))
        } else {
            front
        }
    }
}

/// The message of an assistant's turn, if there is something to say: its text and its tool
/// calls together.
pub open spec fn assistant_messages(blocks: Seq<JsonView>) -> Seq<OAIMessageView> {
    match assistant_turn(concatenated(text_parts(blocks)), tool_use_calls(blocks)) {
        Some(message) => seq![message],
        None => Seq::empty(),
    }
}

/// The message of an assistant who said that text and made those calls, if any.
pub open spec fn assistant_turn(text: Seq<char>, calls: Seq<OAIToolCallView>) -> Option<
    OAIMessageView,
> {
    if text.len() == 0 && calls.len() == 0 {
        None
    } else {
        Some(
            OAIMessageView {
                role: "assistant"@,
                content: if text.len() == 0 {
                    None
                } else {
                    Some(JsonView::String(text))
                },
                tool_calls: if calls.len() == 0 {
                    None
                } else {
                    Some(calls)
                },
                tool_call_id: None,
            },
        )
    }
}

/// The messages that one turn becomes.
pub open spec fn turn_messages(message: ApiMessageView) -> Seq<OAIMessageView> {
    match message.content {
        JsonView::String(text) => seq![plain_message(message.role, message.content)],
        JsonView::Array(blocks) => if message.role == "user"@ {
            user_messages(blocks)
        } else if message.role == "assistant"@ {
            assistant_messages(blocks)
        } else {
            seq![plain_message(message.role, message.content)]
        },
        _ => Seq::empty(),
    }
}

/// The messages that a conversation becomes, turn by turn.
pub open spec fn conversation_messages(messages: Seq<ApiMessageView>) -> Seq<OAIMessageView>
    decreases messages.len(),
{
    if messages.len() == 0 {
        Seq::empty()
    } else {
        conversation_messages(messages.drop_last()) + turn_messages(messages.last())
    }
}

/// The tool of the wire format that a tool definition becomes.
pub open spec fn wire_tool(tool: ApiToolDefinitionView) -> OAIToolView {
    OAIToolView {
        tool_type: "function"@,
        name: tool.name,
        description: tool.description,
        parameters: tool.input_schema,
    }
}

/// The texts of those values that have a text member named `text`.
fn collect_member_texts(items: &[Json]) -> (texts: Vec<String>)
    ensures
        texts.deep_view() == member_texts(items_view(items@)),
{
    let ghost views = items_view(items@);
    proof {
        lemma_items_view(items@);
    }
    let mut texts: Vec<String> = Vec::new();
    let mut i: usize = 0;
    while i < items.len()
        invariant
            i <= items.len(),
            views.len() == items.len(),
            forall|j: int| 0 <= j < items.len() ==> #[trigger] views[j] == json_view(items@[j]),
            texts.deep_view() == member_texts(views.take(i as int)),
        decreases items.len() - i,
    {
        assert(views.take(i + 1).drop_last() == views.take(i as int));
        if let Some(text) = items[i].get_str("text") {
            let ghost before = texts.deep_view();
            texts.push(text.to_string());
            assert(texts.deep_view() == before.push(text@));
        }
        i = i + 1;
    }
    assert(views.take(i as int) == views);
    texts
}

/// Extract the text content from a tool_result block.
pub fn extract_tool_result_content(block: &Json) -> (content: String)
    ensures
        content@ == tool_result_content(block@),
{
    match block.get("content") {
        Some(Json::String(text)) => text.clone(),
        Some(Json::Array(items)) => join_lines(&collect_member_texts(items)),
        _ => match block.get_str("output") {
            Some(text) => text.to_string(),
            None => String::new(),
        },
    }
}

/// The text of a block, or the empty text where there is none.
fn text_or_empty(text: Option<&str>) -> (owned: String)
    ensures
        owned@ == (match text {
            Some(text) => text@,
            None => Seq::empty(),
        }),
{
    match text {
        Some(text) => text.to_string(),
        None => String::new(),
    }
}

/// Whether a content block is of that type.
fn is_block(block: &Json, block_type: &str) -> (is: bool)
    ensures
        is == block_is(block@, block_type@),
{
    match block.get_str("type") {
        Some(found) => *found == *block_type,
        None => false,
    }
}

/// Convert user-turn content blocks.
/// Text blocks become one "user" message.
/// tool_result blocks become individual "tool" messages.
pub fn convert_user_blocks(blocks: &[Json], out: &mut Vec<OAIMessage>)
    ensures
        final(out).deep_view() == old(out).deep_view() + user_messages(items_view(blocks@)),
{
    let ghost views = items_view(blocks@);
    proof {
        lemma_items_view(blocks@);
        reveal_strlit("text");
        reveal_strlit("tool_result");
        assert("text"@.len() != "tool_result"@.len());
    }
    let mut parts: Vec<String> = Vec::new();
    let mut results: Vec<(String, String)> = Vec::new();
    let ghost result_message = |result: (String, String)| tool_message(result.0@, result.1@);
    let mut i: usize = 0;
    while i < blocks.len()
        invariant
            i <= blocks.len(),
            views.len() == blocks.len(),
            forall|j: int| 0 <= j < blocks.len() ==> #[trigger] views[j] == json_view(blocks@[j]),
            "text"@ != "tool_result"@,
            parts.deep_view() == text_parts(views.take(i as int)),
            result_message == (|result: (String, String)| tool_message(result.0@, result.1@)),
            results@.map_values(result_message) == tool_result_messages(views.take(i as int)),
        decreases blocks.len() - i,
    {
        let block = &blocks[i];
        assert(views.take(i + 1).drop_last() == views.take(i as int));
        if is_block(block, "text") {
            if let Some(text) = block.get_str("text") {
                let ghost before = parts.deep_view();
                parts.push(text.to_string());
                assert(parts.deep_view() == before.push(text@));
            }
        } else if is_block(block, "tool_result") {
            let id = text_or_empty(block.get_str("tool_use_id"));
            let content = extract_tool_result_content(block);
            let ghost before = results@;
            results.push((id, content));
            assert(results@.map_values(result_message) == before.map_values(result_message).push(
                tool_message(id@, content@),
            ));
        }
        i = i + 1;
    }
    assert(views.take(i as int) == views);

    let ghost start = out.deep_view();
    if parts.len() > 0 {
        let message = OAIMessage {
            role: "user".to_string(),
            content: Some(Json::String(join_lines(&parts))),
            tool_calls: None,
            tool_call_id: None,
        };
        out.push(message);
        assert(out.deep_view() == start.push(message@));
    }
    let ghost with_text = out.deep_view();
    let ghost messages = results@.map_values(result_message);
    let mut next: usize = 0;
    while next < results.len()
        invariant
            next <= results.len(),
            result_message == (|result: (String, String)| tool_message(result.0@, result.1@)),
            messages == results@.map_values(result_message),
            out.deep_view() == with_text + messages.take(next as int),
        decreases results.len() - next,
    {
        let message = OAIMessage {
            role: "tool".to_string(),
            content: Some(Json::String(results[next].1.clone())),
            tool_calls: None,
            tool_call_id: Some(results[next].0.clone()),
        };
        let ghost before = out.deep_view();
        out.push(message);
        assert(message@ == messages[next as int]);
        assert(out.deep_view() == before.push(message@));
        assert(messages.take(next + 1) == messages.take(next as int).push(messages[next as int]));
        next = next + 1;
    }
    assert(messages.take(next as int) == messages);
    assert(out.deep_view() == start + user_messages(views));
}

/// The tool call that a tool_use block stands for, given the text of its arguments.
pub fn tool_use_to_call(block: &Json, arguments: String) -> (call: OAIToolCall)
    ensures
        call@ == call_with_arguments(block@, arguments@),
{
    OAIToolCall {
        id: text_or_empty(block.get_str("id")),
        call_type: "function".to_string(),
        function: OAIFunctionCall { name: text_or_empty(block.get_str("name")), arguments },
    }
}

/// The "assistant" message with that text and those tool calls, if there is something to say.
pub fn assistant_message(text: String, calls: Vec<OAIToolCall>) -> (message: Option<OAIMessage>)
    ensures
        message.deep_view() == assistant_turn(text@, calls.deep_view()),
{
    let content = if text.as_str().is_empty() {
        None
    } else {
        Some(Json::String(text))
    };
    let tool_calls = if calls.len() == 0 {
        None
    } else {
        Some(calls)
    };
    if content.is_some() || tool_calls.is_some() {
        Some(
            OAIMessage { role: "assistant".to_string(), content, tool_calls, tool_call_id: None },
        )
    } else {
        None
    }
}

/// Convert assistant-turn content blocks.
/// Combines text blocks and tool_use blocks into one "assistant" message. Thinking blocks are
/// not sent to OpenAI models.
pub fn convert_assistant_blocks(blocks: &[Json], out: &mut Vec<OAIMessage>)
    ensures
        final(out).deep_view() == old(out).deep_view() + assistant_messages(items_view(blocks@)),
{
    let ghost views = items_view(blocks@);
    proof {
        lemma_items_view(blocks@);
        reveal_strlit("text");
        reveal_strlit("tool_use");
        assert("text"@.len() != "tool_use"@.len());
    }
    let mut text_content = String::new();
    let mut tool_calls: Vec<OAIToolCall> = Vec::new();
    let mut i: usize = 0;
    while i < blocks.len()
        invariant
            i <= blocks.len(),
            views.len() == blocks.len(),
            forall|j: int| 0 <= j < blocks.len() ==> #[trigger] views[j] == json_view(blocks@[j]),
            "text"@ != "tool_use"@,
            text_content@ == concatenated(text_parts(views.take(i as int))),
            tool_calls.deep_view() == tool_use_calls(views.take(i as int)),
        decreases blocks.len() - i,
    {
        let block = &blocks[i];
        let ghost parts = text_parts(views.take(i as int));
        assert(views.take(i + 1).drop_last() == views.take(i as int));
        if is_block(block, "text") {
            if let Some(text) = block.get_str("text") {
                text_content.append(text);
                assert(parts.push(text@).drop_last() == parts);
            }
        } else if is_block(block, "tool_use") {
            let arguments = match block.get("input") {
                Some(input) => input.to_text(),
                None => empty_object().to_text(),
            };
            let call = tool_use_to_call(block, arguments);
            let ghost before = tool_calls.deep_view();
            tool_calls.push(call);
            assert(call@ == tool_use_call(block@));
            assert(tool_calls.deep_view() == before.push(call@));
        }
        i = i + 1;
    }
    assert(views.take(i as int) == views);

    if let Some(message) = assistant_message(text_content, tool_calls) {
        let ghost before = out.deep_view();
        out.push(message);
        assert(out.deep_view() == before + seq![message@]);
    }
}

/// Convert a slice of Anthropic-style `ApiMessage`s into OpenAI-style messages.
///
/// Anthropic packs tool results as extra items inside the *user* turn's content-block array.
/// OpenAI expects them as separate messages with role "tool". The conversion also merges the
/// text and the tool-use blocks of an assistant turn, because OpenAI expects a single
/// `tool_calls` field instead of interleaved blocks.
pub fn convert_messages(messages: &[ApiMessage]) -> (out: Vec<OAIMessage>)
    ensures
        out.deep_view() == conversation_messages(messages.deep_view()),
{
    let ghost views = messages.deep_view();
    let mut out: Vec<OAIMessage> = Vec::new();
    let mut i: usize = 0;
    while i < messages.len()
        invariant
            i <= messages.len(),
            views == messages.deep_view(),
            out.deep_view() == conversation_messages(views.take(i as int)),
        decreases messages.len() - i,
    {
        let message = &messages[i];
        let ghost before = out.deep_view();
        assert(views[i as int] == message@);
        assert(views.take(i + 1).drop_last() == views.take(i as int));
        match &message.content {
            Json::String(text) => {
                let converted = OAIMessage {
                    role: message.role.clone(),
                    content: Some(Json::String(text.clone())),
                    tool_calls: None,
                    tool_call_id: None,
                };
                out.push(converted);
                assert(out.deep_view() == before + seq![converted@]);
            },
            Json::Array(blocks) => {
                if *message.role.as_str() == *"user" {
                    convert_user_blocks(blocks, &mut out);
                } else if *message.role.as_str() == *"assistant" {
                    convert_assistant_blocks(blocks, &mut out);
                } else {
                    // Unknown role: pass through as it is.
                    let converted = OAIMessage {
                        role: message.role.clone(),
                        content: Some(message.content.clone()),
                        tool_calls: None,
                        tool_call_id: None,
                    };
                    out.push(converted);
                    assert(out.deep_view() == before + seq![converted@]);
                }
            },
            _ => {
                assert(before + Seq::<OAIMessageView>::empty() == before);
            },
        }
        i = i + 1;
    }
    assert(views.take(i as int) == views);
    out
}

/// Convert tool definitions into the tools of the wire format.
pub fn convert_tools(tools: &[ApiToolDefinition]) -> (out: Vec<OAITool>)
    ensures
        out.deep_view() == tools.deep_view().map_values(
            |tool: ApiToolDefinitionView| wire_tool(tool),
        ),
{
    let ghost convert = |tool: ApiToolDefinitionView| wire_tool(tool);
    let mut out: Vec<OAITool> = Vec::new();
    let mut i: usize = 0;
    while i < tools.len()
        invariant
            i <= tools.len(),
            convert == (|tool: ApiToolDefinitionView| wire_tool(tool)),
            out.deep_view() == tools.deep_view().map_values(convert).take(i as int),
        decreases tools.len() - i,
    {
        let tool = OAITool {
            tool_type: "function".to_string(),
            function: OAIFunction {
                name: tools[i].name.clone(),
                description: tools[i].description.clone(),
                parameters: tools[i].input_schema.clone(),
            },
        };
        let ghost before = out.deep_view();
        out.push(tool);
        assert(out.deep_view() == before.push(tool@));
        let ghost all = tools.deep_view().map_values(convert);
        assert(all[i as int] == tool@);
        assert(all.take(i + 1) == all.take(i as int).push(all[i as int]));
        i = i + 1;
    }
    assert(out.deep_view() == tools.deep_view().map_values(convert));
    out
}

} // verus!
