//! What the views hold: every field of a value, whole and as it is. Two values with the same view
//! hold the same.
use crate::client::Header;
use crate::json::{lemma_items_view, members_view, Json, JsonView, Member};
use crate::session::{SessionAction, SessionActionView};
use crate::types::{
    ApiMessage, ApiToolDefinition, ContentBlock, ContentBlockView, ContentDelta, ContentDeltaView,
    CreateMessageRequest, StreamEvent, StreamEventView, SystemBlock, SystemPrompt,
    SystemPromptView, UsageInfo,
};
use crate::wire::{
    OAIChoice, OAIChunk, OAIFunctionDelta, OAIMessage, OAIRequest, OAITool, OAIToolCall,
    OAIToolCallDelta,
};
use vstd::prelude::*;

verus! {

/// The text of a string that may be absent.
pub open spec fn text_of_option(text: Option<String>) -> Option<Seq<char>> {
    if text is Some {
        Some(text->0@)
    } else {
        None
    }
}

/// A JSON value is seen as what it is: a string as its characters, an array as its items in their
/// order.
pub proof fn law_json_is_seen_whole(json: Json)
    ensures
        json.deep_view() == json@,
        json is Null <==> json@ is Null,
        json is Bool <==> json@ is Bool,
        json is Number <==> json@ is Number,
        json is String <==> json@ is String,
        json is Array <==> json@ is Array,
        json is Object <==> json@ is Object,
        json matches Json::Bool(flag) ==> json@ == JsonView::Bool(flag),
        json matches Json::Number(number) ==> json@ == JsonView::Number(number),
        json matches Json::String(text) ==> json@ == JsonView::String(text@),
        json matches Json::Array(items) ==> json@->Array_0.len() == items@.len() && forall|i: int|
            0 <= i < items@.len() ==> json@->Array_0[i] == (#[trigger] items@[i])@,
{
    if let Json::Array(items) = json {
        lemma_items_view(items@);
    }
}

proof fn lemma_members(members: Seq<Member>, key: Seq<char>)
    ensures
        members_view(members).contains_key(key) <==> exists|i: int|
            0 <= i < members.len() && (#[trigger] members[i]).key@ == key,
    decreases members.len(),
{
    if members.len() > 0 {
        let front = members.drop_last();
        lemma_members(front, key);
        assert(members_view(members).contains_key(key) == (members_view(front).contains_key(key)
            || members.last().key@ == key));
        if members_view(front).contains_key(key) {
            let i = choose|i: int| 0 <= i < front.len() && (#[trigger] front[i]).key@ == key;
            assert(members[i] == front[i]);
        }
        if members.last().key@ == key {
            assert(members[members.len() - 1].key@ == key);
        }
        if exists|i: int| 0 <= i < members.len() && (#[trigger] members[i]).key@ == key {
            let i = choose|i: int| 0 <= i < members.len() && (#[trigger] members[i]).key@ == key;
            if i < front.len() {
                assert(front[i] == members[i]);
            }
        }
    }
}

proof fn lemma_last_counts(members: Seq<Member>, i: int)
    requires
        0 <= i < members.len(),
        forall|j: int| i < j < members.len() ==> (#[trigger] members[j]).key@ != members[i].key@,
    ensures
        members_view(members)[members[i].key@] == members[i].value@,
    decreases members.len(),
{
    if i < members.len() - 1 {
        let front = members.drop_last();
        assert(front[i] == members[i]);
        assert(members[members.len() - 1].key@ != members[i].key@);
        assert forall|j: int| i < j < front.len() implies (#[trigger] front[j]).key@
            != front[i].key@ by {
            assert(front[j] == members[j]);
        }
        lemma_last_counts(front, i);
    }
}

/// An object has a key where one of its members has it, and the last such member is its value.
pub proof fn law_objects_are_seen_by_their_members(members: Vec<Member>, key: Seq<char>, i: int)
    ensures
        ({
            let json = Json::Object(members);
            &&& json@ is Object
            &&& json@->Object_0.contains_key(key) <==> exists|at: int|
                0 <= at < members@.len() && (#[trigger] members@[at]).key@ == key
            &&& (0 <= i < members@.len() && forall|j: int|
                i < j < members@.len() ==> (#[trigger] members@[j]).key@ != members@[i].key@)
                ==> json@->Object_0[members@[i].key@] == members@[i].value@
        }),
{
    lemma_members(members@, key);
    if 0 <= i < members@.len() && forall|j: int|
        i < j < members@.len() ==> (#[trigger] members@[j]).key@ != members@[i].key@ {
        lemma_last_counts(members@, i);
    }
}

/// A turn, a tool, a block of a system prompt and a header are seen by all of their fields.
pub proof fn law_inputs_are_seen_whole(
    message: ApiMessage,
    tool: ApiToolDefinition,
    block: SystemBlock,
    header: Header,
)
    ensures
        message@.role == message.role@,
        message@.content == message.content@,
        message.deep_view() == message@,
        tool@.name == tool.name@,
        tool@.description == tool.description@,
        tool@.input_schema == tool.input_schema@,
        tool.deep_view() == tool@,
        block@ == block.text@,
        block.deep_view() == block@,
        header@ == (header.name@, header.value@),
        header.deep_view() == header@,
{
}

/// A system prompt is seen as its text or as its blocks in their order.
pub proof fn law_system_prompts_are_seen_whole(system: SystemPrompt)
    ensures
        system.deep_view() == system@,
        system matches SystemPrompt::Text(text) ==> system@ == SystemPromptView::Text(text@),
        system matches SystemPrompt::Blocks(blocks) ==> system@ is Blocks
            && system@->Blocks_0.len() == blocks@.len() && forall|i: int|
            0 <= i < blocks@.len() ==> system@->Blocks_0[i] == (#[trigger] blocks@[i]).text@,
{
}

/// A request is seen by all of its fields, its turns and tools in their order.
pub proof fn law_requests_are_seen_whole(request: CreateMessageRequest)
    ensures
        request@.model == request.model@,
        request@.max_tokens == request.max_tokens,
        request@.temperature == request.temperature,
        request@.messages.len() == request.messages@.len(),
        forall|i: int|
            0 <= i < request.messages@.len() ==> request@.messages[i] == (
            #[trigger] request.messages@[i])@,
        request@.system is Some <==> request.system is Some,
        request.system matches Some(system) ==> request@.system->0 == system@,
        request@.tools is Some <==> request.tools is Some,
        request.tools matches Some(tools) ==> request@.tools->0.len() == tools@.len() && forall|
            i: int,
        |
            0 <= i < tools@.len() ==> request@.tools->0[i] == (#[trigger] tools@[i])@,
{
}

/// The body of a request is seen by all of its fields, its messages and tools in their order.
pub proof fn law_bodies_are_seen_whole(body: OAIRequest)
    ensures
        body@.model == body.model@,
        body@.messages.len() == body.messages@.len(),
        forall|i: int|
            0 <= i < body.messages@.len() ==> body@.messages[i] == (#[trigger] body.messages@[i])@,
        body@.tools is Some <==> body.tools is Some,
        body.tools matches Some(tools) ==> body@.tools->0.len() == tools@.len() && forall|i: int|
            0 <= i < tools@.len() ==> body@.tools->0[i] == (#[trigger] tools@[i])@,
        body@.tool_choice is Some <==> body.tool_choice is Some,
        body.tool_choice matches Some(choice) ==> body@.tool_choice->0 == choice@,
        body@.stream == body.stream,
        body@.stream_options == body.stream_options,
        body@.max_tokens == body.max_tokens,
        body@.temperature == body.temperature,
{
}

/// A message of the body is seen by all of its fields, its calls in their order.
pub proof fn law_messages_are_seen_whole(message: OAIMessage)
    ensures
        message.deep_view() == message@,
        message@.role == message.role@,
        message@.content is Some <==> message.content is Some,
        message.content matches Some(content) ==> message@.content->0 == content@,
        message@.tool_call_id == text_of_option(message.tool_call_id),
        message@.tool_calls is Some <==> message.tool_calls is Some,
        message.tool_calls matches Some(calls) ==> message@.tool_calls->0.len() == calls@.len()
            && forall|i: int|
            0 <= i < calls@.len() ==> message@.tool_calls->0[i] == (#[trigger] calls@[i])@,
{
}

/// A call and a tool of the body are seen by all of their fields.
pub proof fn law_calls_and_tools_are_seen_whole(call: OAIToolCall, tool: OAITool)
    ensures
        call.deep_view() == call@,
        call@.id == call.id@,
        call@.call_type == call.call_type@,
        call@.name == call.function.name@,
        call@.arguments == call.function.arguments@,
        tool.deep_view() == tool@,
        tool@.tool_type == tool.tool_type@,
        tool@.name == tool.function.name@,
        tool@.description == tool.function.description@,
        tool@.parameters == tool.function.parameters@,
{
}

/// A chunk is seen by its choices in their order and by its usage.
pub proof fn law_chunks_are_seen_whole(chunk: OAIChunk)
    ensures
        chunk@.usage == chunk.usage,
        chunk@.choices.len() == chunk.choices@.len(),
        forall|i: int|
            0 <= i < chunk.choices@.len() ==> chunk@.choices[i] == (#[trigger] chunk.choices@[i])@,
{
}

/// A choice is seen by its text, its deltas of tool calls in their order, and why it ended.
pub proof fn law_choices_are_seen_whole(choice: OAIChoice)
    ensures
        choice.deep_view() == choice@,
        choice@.content == text_of_option(choice.delta.content),
        choice@.finish_reason == text_of_option(choice.finish_reason),
        choice@.tool_calls is Some <==> choice.delta.tool_calls is Some,
        choice.delta.tool_calls matches Some(deltas) ==> choice@.tool_calls->0.len()
            == deltas@.len() && forall|i: int|
            0 <= i < deltas@.len() ==> choice@.tool_calls->0[i] == (#[trigger] deltas@[i])@,
{
}

/// A delta of a tool call is seen by all of its fields.
pub proof fn law_deltas_are_seen_whole(delta: OAIToolCallDelta, function: OAIFunctionDelta)
    ensures
        delta.deep_view() == delta@,
        delta@.index == delta.index,
        delta@.id == text_of_option(delta.id),
        delta@.function is Some <==> delta.function is Some,
        delta.function matches Some(named) ==> delta@.function->0 == named@,
        function.deep_view() == function@,
        function@.name == text_of_option(function.name),
        function@.arguments == text_of_option(function.arguments),
{
}

/// A block and a piece of a block are seen by all of their fields.
pub proof fn law_blocks_are_seen_whole(block: ContentBlock, delta: ContentDelta)
    ensures
        block matches ContentBlock::Text { text } ==> block@ == (ContentBlockView::Text {
            text: text@,
        }),
        block matches ContentBlock::ToolUse { id, name, input } ==> block@ == (
        ContentBlockView::ToolUse { id: id@, name: name@, input: input@ }),
        delta matches ContentDelta::TextDelta { text } ==> delta@ == (ContentDeltaView::TextDelta {
            text: text@,
        }),
        delta matches ContentDelta::InputJsonDelta { partial_json } ==> delta@ == (
        ContentDeltaView::InputJsonDelta { partial_json: partial_json@ }),
{
}

/// An event is seen by all of its fields.
pub proof fn law_events_are_seen_whole(event: StreamEvent)
    ensures
        event.deep_view() == event@,
        event matches StreamEvent::MessageStart { id, model, usage } ==> event@ == (
        StreamEventView::MessageStart { id: id@, model: model@, usage }),
        event matches StreamEvent::ContentBlockStart { index, content_block } ==> event@ == (
        StreamEventView::ContentBlockStart {
            index: index as nat,
            content_block: content_block@,
        }),
        event matches StreamEvent::ContentBlockDelta { index, delta } ==> event@ == (
        StreamEventView::ContentBlockDelta { index: index as nat, delta: delta@ }),
        event matches StreamEvent::ContentBlockStop { index } ==> event@ == (
        StreamEventView::ContentBlockStop { index: index as nat }),
        event matches StreamEvent::MessageDelta { stop_reason, usage } ==> event@ == (
        StreamEventView::MessageDelta { stop_reason: text_of_option(stop_reason), usage }),
        event is MessageStop <==> event@ is MessageStop,
        event matches StreamEvent::Error { error_type, message } ==> event@ == (
        StreamEventView::Error { error_type: error_type@, message: message@ }),
{
}

/// An action of a session is seen with what it carries.
pub proof fn law_actions_are_seen_whole(action: SessionAction)
    ensures
        action matches SessionAction::Emit(event) ==> action@ == SessionActionView::Emit(event@),
        action matches SessionAction::FeedLine(line) ==> action@ == SessionActionView::FeedLine(
            line@,
        ),
        action matches SessionAction::DecodeChunk(data) ==> action@
            == SessionActionView::DecodeChunk(data@),
        action is ReadBytes <==> action@ is ReadBytes,
        action is Finish <==> action@ is Finish,
{
}

/// Nothing used is no tokens of any kind.
pub proof fn law_nothing_used_is_no_tokens()
    ensures
        UsageInfo::zero().input_tokens == 0,
        UsageInfo::zero().output_tokens == 0,
        UsageInfo::zero().cache_creation_input_tokens == 0,
        UsageInfo::zero().cache_read_input_tokens == 0,
{
}

} // verus!
