//! The request, response and event types of the Anthropic-style interface.
use crate::json::{Json, JsonView};
use vstd::prelude::*;

verus! {

/// Where the endpoint is, and the key that it asks for.
#[derive(Debug)]
pub struct ClientConfig {
    /// The address that the path of the endpoint is appended to.
    pub api_base: String,
    /// The key, empty where the endpoint wants none.
    pub api_key: String,
}

/// One turn of the conversation.
#[derive(Debug)]
pub struct ApiMessage {
    pub role: String,
    /// A text, or an array of content blocks.
    pub content: Json,
}

pub struct ApiMessageView {
    pub role: Seq<char>,
    pub content: JsonView,
}

impl View for ApiMessage {
    type V = ApiMessageView;

    open spec fn view(&self) -> ApiMessageView {
        ApiMessageView { role: self.role@, content: self.content@ }
    }
}

impl DeepView for ApiMessage {
    type V = ApiMessageView;

    open spec fn deep_view(&self) -> ApiMessageView {
        self@
    }
}

/// A tool that the model may call.
#[derive(Debug)]
pub struct ApiToolDefinition {
    pub name: String,
    pub description: String,
    /// The JSON schema of the tool's arguments.
    pub input_schema: Json,
}

pub struct ApiToolDefinitionView {
    pub name: Seq<char>,
    pub description: Seq<char>,
    pub input_schema: JsonView,
}

impl View for ApiToolDefinition {
    type V = ApiToolDefinitionView;

    open spec fn view(&self) -> ApiToolDefinitionView {
        ApiToolDefinitionView {
            name: self.name@,
            description: self.description@,
            input_schema: self.input_schema@,
        }
    }
}

impl DeepView for ApiToolDefinition {
    type V = ApiToolDefinitionView;

    open spec fn deep_view(&self) -> ApiToolDefinitionView {
        self@
    }
}

/// One block of a system prompt.
#[derive(Debug)]
pub struct SystemBlock {
    pub text: String,
}

impl View for SystemBlock {
    type V = Seq<char>;

    open spec fn view(&self) -> Seq<char> {
        self.text@
    }
}

impl DeepView for SystemBlock {
    type V = Seq<char>;

    open spec fn deep_view(&self) -> Seq<char> {
        self@
    }
}

/// A system prompt, as one text or as blocks.
#[derive(Debug)]
pub enum SystemPrompt {
    Text(String),
    Blocks(Vec<SystemBlock>),
}

pub enum SystemPromptView {
    Text(Seq<char>),
    Blocks(Seq<Seq<char>>),
}

impl View for SystemPrompt {
    type V = SystemPromptView;

    open spec fn view(&self) -> SystemPromptView {
        match self {
            SystemPrompt::Text(text) => SystemPromptView::Text(text@),
            SystemPrompt::Blocks(blocks) => SystemPromptView::Blocks(blocks.deep_view()),
        }
    }
}

impl DeepView for SystemPrompt {
    type V = SystemPromptView;

    open spec fn deep_view(&self) -> SystemPromptView {
        self@
    }
}

/// A request to generate a message.
#[derive(Debug)]
pub struct CreateMessageRequest {
    pub model: String,
    pub max_tokens: u32,
    pub messages: Vec<ApiMessage>,
    pub system: Option<SystemPrompt>,
    pub tools: Option<Vec<ApiToolDefinition>>,
    /// The sampling temperature, as the bits of a single-precision IEEE 754 number.
    pub temperature: Option<u32>,
}

pub struct CreateMessageRequestView {
    pub model: Seq<char>,
    pub max_tokens: u32,
    pub messages: Seq<ApiMessageView>,
    pub system: Option<SystemPromptView>,
    pub tools: Option<Seq<ApiToolDefinitionView>>,
    pub temperature: Option<u32>,
}

impl View for CreateMessageRequest {
    type V = CreateMessageRequestView;

    open spec fn view(&self) -> CreateMessageRequestView {
        CreateMessageRequestView {
            model: self.model@,
            max_tokens: self.max_tokens,
            messages: self.messages.deep_view(),
            system: self.system.deep_view(),
            tools: self.tools.deep_view(),
            temperature: self.temperature,
        }
    }
}

/// How many tokens a message took.
#[derive(Debug, Clone, Copy, PartialEq, Eq, Structural)]
pub struct UsageInfo {
    pub input_tokens: u64,
    pub output_tokens: u64,
    pub cache_creation_input_tokens: u64,
    pub cache_read_input_tokens: u64,
}

impl UsageInfo {
    /// Nothing used.
    pub open spec fn zero() -> UsageInfo {
        UsageInfo {
            input_tokens: 0,
            output_tokens: 0,
            cache_creation_input_tokens: 0,
            cache_read_input_tokens: 0,
        }
    }
}

impl Default for UsageInfo {
    fn default() -> (usage: UsageInfo)
        ensures
            usage == UsageInfo::zero(),
    {
        UsageInfo {
            input_tokens: 0,
            output_tokens: 0,
            cache_creation_input_tokens: 0,
            cache_read_input_tokens: 0,
        }
    }
}

/// One block of a generated message.
#[derive(Debug, PartialEq)]
pub enum ContentBlock {
    Text { text: String },
    ToolUse { id: String, name: String, input: Json },
}

pub enum ContentBlockView {
    Text { text: Seq<char> },
    ToolUse { id: Seq<char>, name: Seq<char>, input: JsonView },
}

impl View for ContentBlock {
    type V = ContentBlockView;

    open spec fn view(&self) -> ContentBlockView {
        match self {
            ContentBlock::Text { text } => ContentBlockView::Text { text: text@ },
            ContentBlock::ToolUse { id, name, input } => ContentBlockView::ToolUse {
                id: id@,
                name: name@,
                input: input@,
            },
        }
    }
}

/// A piece of a block.
#[derive(Debug, PartialEq)]
pub enum ContentDelta {
    TextDelta { text: String },
    InputJsonDelta { partial_json: String },
}

pub enum ContentDeltaView {
    TextDelta { text: Seq<char> },
    InputJsonDelta { partial_json: Seq<char> },
}

impl View for ContentDelta {
    type V = ContentDeltaView;

    open spec fn view(&self) -> ContentDeltaView {
        match self {
            ContentDelta::TextDelta { text } => ContentDeltaView::TextDelta { text: text@ },
            ContentDelta::InputJsonDelta { partial_json } => ContentDeltaView::InputJsonDelta {
                partial_json: partial_json@,
            },
        }
    }
}

/// One event of a streamed message.
#[derive(Debug, PartialEq)]
#[allow(inconsistent_fields)]
pub enum StreamEvent {
    MessageStart { id: String, model: String, usage: UsageInfo },
    ContentBlockStart { index: usize, content_block: ContentBlock },
    ContentBlockDelta { index: usize, delta: ContentDelta },
    ContentBlockStop { index: usize },
    MessageDelta { stop_reason: Option<String>, usage: Option<UsageInfo> },
    MessageStop,
    Error { error_type: String, message: String },
}

#[allow(inconsistent_fields)]
pub enum StreamEventView {
    MessageStart { id: Seq<char>, model: Seq<char>, usage: UsageInfo },
    ContentBlockStart { index: nat, content_block: ContentBlockView },
    ContentBlockDelta { index: nat, delta: ContentDeltaView },
    ContentBlockStop { index: nat },
    MessageDelta { stop_reason: Option<Seq<char>>, usage: Option<UsageInfo> },
    MessageStop,
    Error { error_type: Seq<char>, message: Seq<char> },
}

impl View for StreamEvent {
    type V = StreamEventView;

    open spec fn view(&self) -> StreamEventView {
        match self {
            StreamEvent::MessageStart { id, model, usage } => StreamEventView::MessageStart {
                id: id@,
                model: model@,
                usage: *usage,
            },
            StreamEvent::ContentBlockStart { index, content_block } =>
                StreamEventView::ContentBlockStart {
                index: *index as nat,
                content_block: content_block@,
            },
            StreamEvent::ContentBlockDelta { index, delta } => StreamEventView::ContentBlockDelta {
                index: *index as nat,
                delta: delta@,
            },
            StreamEvent::ContentBlockStop { index } => StreamEventView::ContentBlockStop {
                index: *index as nat,
            },
            StreamEvent::MessageDelta { stop_reason, usage } => StreamEventView::MessageDelta {
                stop_reason: stop_reason.deep_view(),
                usage: *usage,
            },
            StreamEvent::MessageStop => StreamEventView::MessageStop,
            StreamEvent::Error { error_type, message } => StreamEventView::Error {
                error_type: error_type@,
                message: message@,
            },
        }
    }
}

impl DeepView for StreamEvent {
    type V = StreamEventView;

    open spec fn deep_view(&self) -> StreamEventView {
        self@
    }
}

/// The content of a finished message.
#[derive(Debug)]
pub enum MessageContent {
    Text(String),
    /// The JSON value of the content blocks, or `None` where they could not be serialized.
    Blocks(Option<Json>),
}

/// A finished message.
#[derive(Debug)]
pub struct CreateMessageResponse {
    pub id: String,
    pub response_type: String,
    pub role: String,
    pub content: Vec<Json>,
    pub model: String,
    pub stop_reason: Option<String>,
    pub stop_sequence: Option<String>,
    pub usage: UsageInfo,
}

/// Why a message could not be generated.
#[derive(Debug, PartialEq)]
pub enum ClaudeError {
    /// The endpoint answered with a status that is no success.
    ApiStatus { status: u16, message: String },
}

} // verus!
