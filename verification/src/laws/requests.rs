//! The request as it is sent, and the response as it is handed back.
use crate::client::{request_headers, response_blocks, wire_request};
use crate::json::{Json, JsonView};
use crate::laws::conversation::law_turns_are_independent;
use crate::laws::turns::law_turn_is_converted_by_its_role;
use crate::messages::conversation_messages;
use crate::text::joined;
use crate::types::{ApiMessageView, CreateMessageRequestView, MessageContent, SystemPromptView};
use crate::wire::OAIMessageView;
use vstd::prelude::*;

verus! {

/// The messages of the body are the system message, if there is a system prompt, and behind it
/// all the messages that the conversation becomes, each at its place.
pub proof fn law_whole_conversation_is_sent(request: CreateMessageRequestView)
    ensures
        ({
            let messages = wire_request(request).messages;
            let converted = conversation_messages(request.messages);
            let lead = if request.system is Some {
                1int
            } else {
                0int
            };
            &&& messages.len() == lead + converted.len()
            &&& forall|i: int|
                0 <= i < converted.len() ==> messages[lead + i] == #[trigger] converted[i]
        }),
{
}

/// The system message holds the system prompt whole: its text, or the texts of its blocks joined
/// by line feeds.
pub proof fn law_system_prompt_is_sent_whole(request: CreateMessageRequestView)
    requires
        request.system is Some,
    ensures
        ({
            let message = wire_request(request).messages[0];
            &&& message.role == "system"@
            &&& message.tool_calls is None
            &&& message.tool_call_id is None
            &&& request.system->0 matches SystemPromptView::Text(text) ==> message.content == Some(
                JsonView::String(text),
            )
            &&& request.system->0 matches SystemPromptView::Blocks(blocks) ==> message.content
                == Some(JsonView::String(joined(blocks)))
        }),
{
}

proof fn lemma_plain_turns(turns: Seq<ApiMessageView>)
    requires
        forall|i: int| 0 <= i < turns.len() ==> (#[trigger] turns[i]).content is String,
    ensures
        conversation_messages(turns).len() == turns.len(),
        forall|i: int|
            0 <= i < turns.len() ==> conversation_messages(turns)[i] == (OAIMessageView {
                role: (#[trigger] turns[i]).role,
                content: Some(turns[i].content),
                tool_calls: None,
                tool_call_id: None,
            }),
    decreases turns.len(),
{
    if turns.len() > 0 {
        let front = turns.drop_last();
        assert forall|i: int| 0 <= i < front.len() implies (#[trigger] front[
            i
        ]).content is String by {
            assert(front[i] == turns[i]);
        }
        lemma_plain_turns(front);
        assert(turns[turns.len() - 1].content is String);
        law_turn_is_converted_by_its_role(turns.last());
        law_turns_are_independent(front, seq![turns.last()]);
        assert(front + seq![turns.last()] == turns);
        assert forall|i: int| 0 <= i < turns.len() implies conversation_messages(turns)[i] == (
        OAIMessageView {
            role: (#[trigger] turns[i]).role,
            content: Some(turns[i].content),
            tool_calls: None,
            tool_call_id: None,
        }) by {
            if i < front.len() {
                assert(front[i] == turns[i]);
            }
        }
    }
}

/// A conversation of plain texts is sent turn for turn: as many messages as turns, each with the
/// role and the text of its turn.
pub proof fn law_plain_conversation_is_sent_turn_for_turn(request: CreateMessageRequestView)
    requires
        forall|i: int|
            0 <= i < request.messages.len() ==> (#[trigger] request.messages[i]).content is String,
    ensures
        ({
            let messages = wire_request(request).messages;
            let lead = if request.system is Some {
                1int
            } else {
                0int
            };
            &&& messages.len() == lead + request.messages.len()
            &&& forall|i: int|
                0 <= i < request.messages.len() ==> messages[lead + i] == (OAIMessageView {
                    role: (#[trigger] request.messages[i]).role,
                    content: Some(request.messages[i].content),
                    tool_calls: None,
                    tool_call_id: None,
                })
        }),
{
    law_whole_conversation_is_sent(request);
    lemma_plain_turns(request.messages);
    let converted = conversation_messages(request.messages);
    let lead = if request.system is Some {
        1int
    } else {
        0int
    };
    assert forall|i: int| 0 <= i < request.messages.len() implies wire_request(request).messages[
    lead + i] == (OAIMessageView {
        role: (#[trigger] request.messages[i]).role,
        content: Some(request.messages[i].content),
        tool_calls: None,
        tool_call_id: None,
    }) by {
        assert(converted[i].role == request.messages[i].role);
    }
}

/// The model and the sampling settings are sent as they were asked for, and the answer is always
/// asked for as a stream with a report of the usage.
pub proof fn law_settings_are_sent(request: CreateMessageRequestView)
    ensures
        wire_request(request).model == request.model,
        wire_request(request).max_tokens == Some(request.max_tokens),
        wire_request(request).temperature == request.temperature,
        wire_request(request).stream,
        wire_request(request).stream_options is Some,
        wire_request(request).stream_options->0.include_usage,
{
}

/// Every tool that is offered is sent, at its place and whole, and the model may choose; without
/// tools nothing is said of them.
pub proof fn law_every_tool_is_offered(request: CreateMessageRequestView)
    ensures
        ({
            let body = wire_request(request);
            let offered = request.tools is Some && request.tools->0.len() > 0;
            &&& !offered ==> body.tools is None && body.tool_choice is None
            &&& offered ==> {
                let tools = request.tools->0;
                &&& body.tool_choice == Some(JsonView::String("auto"@))
                &&& body.tools is Some
                &&& body.tools->0.len() == tools.len()
                &&& forall|i: int|
                    0 <= i < tools.len() ==> {
                        let sent = body.tools->0[i];
                        &&& sent.tool_type == "function"@
                        &&& sent.name == (#[trigger] tools[i]).name
                        &&& sent.description == tools[i].description
                        &&& sent.parameters == tools[i].input_schema
                    }
            }
        }),
{
}

/// A request says that its body is JSON and that it takes an event stream, and shows the key,
/// whole, if there is one.
pub proof fn law_headers_show_the_key(api_key: Seq<char>)
    ensures
        ({
            let headers = request_headers(api_key);
            &&& headers.len() == (if api_key.len() > 0 {
                3int
            } else {
                2int
            })
            &&& headers[0] == ("content-type"@, "application/json"@)
            &&& headers[1] == ("accept"@, "text/event-stream"@)
            &&& api_key.len() > 0 ==> headers[2].0 == "Authorization"@ && headers[2].1
                == "Bearer "@ + api_key
        }),
{
}

/// A text that was generated is handed back as one block of type `text` with that text, whole,
/// and no other member.
pub proof fn law_text_is_handed_back_whole(text: String)
    ensures
        ({
            let blocks = response_blocks(MessageContent::Text(text));
            &&& blocks.len() == 1
            &&& blocks[0] is Object
            &&& blocks[0]->Object_0.contains_pair("type"@, JsonView::String("text"@))
            &&& blocks[0]->Object_0.contains_pair("text"@, JsonView::String(text@))
            &&& forall|key: Seq<char>| #[trigger]
                blocks[0]->Object_0.contains_key(key) ==> key == "type"@ || key == "text"@
        }),
{
    reveal_strlit("type");
    reveal_strlit("text");
    assert("type"@[1] == 'y' && "text"@[1] == 'e');
}

/// Blocks that were generated are handed back as they are, all of them in their order; what is no
/// array of blocks is handed back as none.
pub proof fn law_blocks_are_handed_back_as_they_are(value: Option<Json>)
    ensures
        ({
            let blocks = response_blocks(MessageContent::Blocks(value));
            &&& value is Some && value->0@ is Array ==> JsonView::Array(blocks) == value->0@
            &&& value is None || !(value->0@ is Array) ==> blocks.len() == 0
        }),
{
}

} // verus!
