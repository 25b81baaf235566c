//! What the client asks an endpoint, and what it makes of the answer.
use crate::json::{
    items_view, json_view, lemma_items_view, members_view, Json, JsonView, Member,
};
use crate::messages::{
    conversation_messages, convert_messages, convert_tools, plain_message, wire_tool,
};
use crate::stream::{message_id_form, new_message_id};
use crate::text::{join_lines, joined};
use crate::types::{
    ApiToolDefinitionView, ClaudeError, ClientConfig, CreateMessageRequest,
    CreateMessageRequestView, CreateMessageResponse, MessageContent, StreamEvent, StreamEventView,
    SystemBlock, SystemPrompt, SystemPromptView, UsageInfo,
};
use crate::wire::{OAIMessage, OAIMessageView, OAIRequest, OAIRequestView, OAIStreamOptions};
use vstd::prelude::*;

verus! {

/// An API client for any OpenAI-compatible endpoint: where it asks, and with which key.
#[derive(Debug)]
pub struct OpenAICompatibleClient {
    pub config: ClientConfig,
}

/// One header of an HTTP request.
#[derive(Debug, PartialEq)]
pub struct Header {
    pub name: String,
    pub value: String,
}

impl View for Header {
    type V = (Seq<char>, Seq<char>);

    open spec fn view(&self) -> (Seq<char>, Seq<char>) {
        (self.name@, self.value@)
    }
}

impl DeepView for Header {
    type V = (Seq<char>, Seq<char>);

    open spec fn deep_view(&self) -> (Seq<char>, Seq<char>) {
        self@
    }
}

/// The text of a system prompt: blocks stand on lines of their own.
pub open spec fn system_text(system: SystemPromptView) -> Seq<char> {
    match system {
        SystemPromptView::Text(text) => text,
        SystemPromptView::Blocks(blocks) => joined(blocks),
    }
}

/// The "system" message of a request, if it has a system prompt.
pub open spec fn system_messages(system: Option<SystemPromptView>) -> Seq<OAIMessageView> {
    match system {
        Some(system) => seq![
            plain_message("system"@, JsonView::String(system_text(system))),
        ],
        None => Seq::empty(),
    }
}

/// Whether a request offers tools.
pub open spec fn offers_tools(request: CreateMessageRequestView) -> bool {
    request.tools is Some && request.tools->0.len() > 0
}

/// The body that a request becomes: streamed, with a report of the usage. The model may choose
/// among the tools, if there are any.
pub open spec fn wire_request(request: CreateMessageRequestView) -> OAIRequestView {
    OAIRequestView {
        model: request.model,
        messages: system_messages(request.system) + conversation_messages(request.messages),
        tools: if offers_tools(request) {
            Some(request.tools->0.map_values(|tool: ApiToolDefinitionView| wire_tool(tool)))
        } else {
            None
        },
        tool_choice: if offers_tools(request) {
            Some(JsonView::String("auto"@))
        } else {
            None
        },
        stream: true,
        stream_options: Some(OAIStreamOptions { include_usage: true }),
        max_tokens: Some(request.max_tokens),
        temperature: request.temperature,
    }
}

/// The headers of a request: the authorization only where there is a key.
pub open spec fn request_headers(api_key: Seq<char>) -> Seq<(Seq<char>, Seq<char>)> {
    let common = seq![
        ("content-type"@, "application/json"@),
        ("accept"@, "text/event-stream"@),
    ];
    if api_key.len() == 0 {
        common
    } else {
        common.push(("Authorization"@, "Bearer "@ + api_key))
    }
}

/// The content of a response: the JSON value of a text block, or those of the blocks.
pub open spec fn response_blocks(content: MessageContent) -> Seq<JsonView> {
    match content {
        MessageContent::Text(text) => seq![text_block(text@)],
        MessageContent::Blocks(value) => match value {
            Some(value) => match value@ {
                JsonView::Array(items) => items,
                _ => Seq::empty(),
            },
            None => Seq::empty(),
        },
    }
}

/// The JSON value of a text block.
pub open spec fn text_block(text: Seq<char>) -> JsonView {
    JsonView::Object(
        Map::<Seq<char>, JsonView>::empty().insert("type"@, JsonView::String("text"@)).insert(
            "text"@,
            JsonView::String(text),
        ),
    )
}

impl OpenAICompatibleClient {
    /// Build a new client. An empty `config.api_key` is allowed (e.g. Ollama running locally
    /// without authentication).
    pub fn new(config: ClientConfig) -> (client: Self)
        ensures
            client.config == config,
    {
        OpenAICompatibleClient { config }
    }

    /// The address that requests are sent to.
    pub fn endpoint(&self) -> (url: String)
        ensures
            url@ == self.config.api_base@ + "/v1/chat/completions"@,
    {
        let mut url = self.config.api_base.clone();
        url.append("/v1/chat/completions");
        url
    }

    /// The headers of a request, in order. The key goes into an `Authorization` header, which
    /// is there only when a key is provided.
    pub fn headers(&self) -> (headers: Vec<Header>)
        ensures
            headers.deep_view() == request_headers(self.config.api_key@),
    {
        let mut headers: Vec<Header> = Vec::new();
        headers.push(
            Header {
                name: "content-type".to_string(),
                value: "application/json".to_string(),
            },
        );
        headers.push(
            Header { name: "accept".to_string(), value: "text/event-stream".to_string() },
        );
        if !self.config.api_key.as_str().is_empty() {
            let mut value = "Bearer ".to_string();
            value.append(self.config.api_key.as_str());
            headers.push(Header { name: "Authorization".to_string(), value });
        }
        assert(headers.deep_view() == request_headers(self.config.api_key@));
        headers
    }

    /// Convert a request into the body that the endpoint takes.
    pub fn convert_request(&self, req: CreateMessageRequest) -> (result: Result<
        OAIRequest,
        ClaudeError,
    >)
        ensures
            result matches Ok(request) && request@ == wire_request(req@),
    {
        let mut messages: Vec<OAIMessage> = Vec::new();
        if let Some(system) = &req.system {
            let text = match system {
                SystemPrompt::Text(text) => text.clone(),
                SystemPrompt::Blocks(blocks) => join_lines(&system_lines(blocks)),
            };
            messages.push(
                OAIMessage {
                    role: "system".to_string(),
                    content: Some(Json::String(text)),
                    tool_calls: None,
                    tool_call_id: None,
                },
            );
        }
        assert(messages.deep_view() == system_messages(req@.system));
        let mut history = convert_messages(&req.messages);
        let ghost first = messages.deep_view();
        let ghost second = history.deep_view();
        messages.append(&mut history);
        assert(messages.deep_view() == first + second);

        let (tools, tool_choice) = match &req.tools {
            Some(definitions) => if definitions.len() == 0 {
                (None, None)
            } else {
                (
                    Some(convert_tools(definitions)),
                    Some(Json::String("auto".to_string())),
                )
            },
            None => (None, None),
        };
        Ok(
            OAIRequest {
                model: req.model,
                messages,
                tools,
                tool_choice,
                stream: true,
                stream_options: Some(OAIStreamOptions { include_usage: true }),
                max_tokens: Some(req.max_tokens),
                temperature: req.temperature,
            },
        )
    }

    /// The response for a finished message, with a new identifier.
    pub fn message_response(
        &self,
        content: MessageContent,
        usage: UsageInfo,
        stop_reason: Option<String>,
    ) -> (response: CreateMessageResponse)
        ensures
            message_id_form(response.id@),
            response.response_type@ == "message"@,
            response.role@ == "assistant"@,
            response.content.deep_view() == response_blocks(content),
            response.model@ == self.config.api_base@,
            response.stop_reason == stop_reason,
            response.stop_sequence is None,
            response.usage == usage,
    {
        self.message_response_with_id(new_message_id(), content, usage, stop_reason)
    }

    /// The response for a finished message, with the given identifier.
    pub fn message_response_with_id(
        &self,
        id: String,
        content: MessageContent,
        usage: UsageInfo,
        stop_reason: Option<String>,
    ) -> (response: CreateMessageResponse)
        ensures
            response.id == id,
            response.response_type@ == "message"@,
            response.role@ == "assistant"@,
            response.content.deep_view() == response_blocks(content),
            response.model@ == self.config.api_base@,
            response.stop_reason == stop_reason,
            response.stop_sequence is None,
            response.usage == usage,
    {
        CreateMessageResponse {
            id,
            response_type: "message".to_string(),
            role: "assistant".to_string(),
            content: response_content(content),
            model: self.config.api_base.clone(),
            stop_reason,
            stop_sequence: None,
            usage,
        }
    }
}

/// The content of a response.
pub fn response_content(content: MessageContent) -> (blocks: Vec<Json>)
    ensures
        blocks.deep_view() == response_blocks(content),
{
    match content {
        MessageContent::Text(text) => {
            let mut members: Vec<Member> = Vec::new();
            members.push(
                Member { key: "type".to_string(), value: Json::String("text".to_string()) },
            );
            let ghost first = members@;
            members.push(Member { key: "text".to_string(), value: Json::String(text) });
            proof {
                reveal_with_fuel(json_view, 3);
                reveal_with_fuel(members_view, 3);
                assert(members@.drop_last() == first);
                assert(first.drop_last() == Seq::<Member>::empty());
            }
            let mut blocks: Vec<Json> = Vec::new();
            let block = Json::Object(members);
            blocks.push(block);
            assert(blocks.deep_view() == seq![block@]);
            blocks
        },
        MessageContent::Blocks(value) => match value {
            Some(Json::Array(items)) => {
                proof {
                    lemma_items_view(items@);
                    assert(items.deep_view() == items_view(items@));
                }
                items
            },
            _ => {
                let blocks: Vec<Json> = Vec::new();
                assert(blocks.deep_view() == Seq::<JsonView>::empty());
                blocks
            },
        },
    }
}

/// The texts of the blocks of a system prompt.
fn system_lines(blocks: &Vec<SystemBlock>) -> (lines: Vec<String>)
    ensures
        lines.deep_view() == blocks.deep_view(),
{
    let mut lines: Vec<String> = Vec::new();
    let mut i: usize = 0;
    while i < blocks.len()
        invariant
            i <= blocks.len(),
            lines.deep_view() == blocks.deep_view().take(i as int),
        decreases blocks.len() - i,
    {
        let ghost before = lines.deep_view();
        lines.push(blocks[i].text.clone());
        assert(lines.deep_view() == before.push(blocks@[i as int].text@));
        assert(blocks.deep_view().take(i + 1) == blocks.deep_view().take(i as int).push(
            blocks@[i as int].text@,
        ));
        i = i + 1;
    }
    assert(lines.deep_view() == blocks.deep_view());
    lines
}

/// Whether an HTTP status is a success.
pub fn is_success(status: u16) -> (success: bool)
    ensures
        success == (200 <= status < 300),
{
    200 <= status && status < 300
}

/// The error for an answer whose status is no success, with the text of its body.
pub fn status_error(status: u16, message: String) -> (error: ClaudeError)
    ensures
        error == (ClaudeError::ApiStatus { status, message }),
{
    ClaudeError::ApiStatus { status, message }
}

/// The event that tells a receiver that the reading of the answer failed.
pub fn stream_error_event(message: String) -> (event: StreamEvent)
    ensures
        event@ == (StreamEventView::Error { error_type: "stream_error"@, message: message@ }),
{
    StreamEvent::Error { error_type: "stream_error".to_string(), message }
}

/// Whether an event ends the message, so that nothing more is waited for.
pub fn ends_message(event: &StreamEvent) -> (ends: bool)
    ensures
        ends == (event@ is MessageStop),
{
    match event {
        StreamEvent::MessageStop => true,
        _ => false,
    }
}

} // verus!
