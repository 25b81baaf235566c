//! The types of the OpenAI wire format: the request, and the chunks of a streamed answer.
use crate::json::{Json, JsonView};
use vstd::prelude::*;

verus! {

/// The body of a request.
#[derive(Debug)]
pub struct OAIRequest {
    pub model: String,
    pub messages: Vec<OAIMessage>,
    pub tools: Option<Vec<OAITool>>,
    pub tool_choice: Option<Json>,
    pub stream: bool,
    pub stream_options: Option<OAIStreamOptions>,
    pub max_tokens: Option<u32>,
    /// The sampling temperature, as the bits of a single-precision IEEE 754 number.
    pub temperature: Option<u32>,
}

pub struct OAIRequestView {
    pub model: Seq<char>,
    pub messages: Seq<OAIMessageView>,
    pub tools: Option<Seq<OAIToolView>>,
    pub tool_choice: Option<JsonView>,
    pub stream: bool,
    pub stream_options: Option<OAIStreamOptions>,
    pub max_tokens: Option<u32>,
    pub temperature: Option<u32>,
}

impl View for OAIRequest {
    type V = OAIRequestView;

    open spec fn view(&self) -> OAIRequestView {
        OAIRequestView {
            model: self.model@,
            messages: self.messages.deep_view(),
            tools: self.tools.deep_view(),
            tool_choice: self.tool_choice.deep_view(),
            stream: self.stream,
            stream_options: self.stream_options,
            max_tokens: self.max_tokens,
            temperature: self.temperature,
        }
    }
}

/// One message of a request.
#[derive(Debug, PartialEq)]
pub struct OAIMessage {
    pub role: String,
    pub content: Option<Json>,
    pub tool_calls: Option<Vec<OAIToolCall>>,
    pub tool_call_id: Option<String>,
}

pub struct OAIMessageView {
    pub role: Seq<char>,
    pub content: Option<JsonView>,
    pub tool_calls: Option<Seq<OAIToolCallView>>,
    pub tool_call_id: Option<Seq<char>>,
}

impl View for OAIMessage {
    type V = OAIMessageView;

    open spec fn view(&self) -> OAIMessageView {
        OAIMessageView {
            role: self.role@,
            content: self.content.deep_view(),
            tool_calls: self.tool_calls.deep_view(),
            tool_call_id: self.tool_call_id.deep_view(),
        }
    }
}

impl DeepView for OAIMessage {
    type V = OAIMessageView;

    open spec fn deep_view(&self) -> OAIMessageView {
        self@
    }
}

/// A call of a tool that the model made.
#[derive(Debug, PartialEq)]
pub struct OAIToolCall {
    pub id: String,
    pub call_type: String,
    pub function: OAIFunctionCall,
}

/// The function of a tool call, with its arguments as JSON text.
#[derive(Debug, PartialEq)]
pub struct OAIFunctionCall {
    pub name: String,
    pub arguments: String,
}

pub struct OAIToolCallView {
    pub id: Seq<char>,
    pub call_type: Seq<char>,
    pub name: Seq<char>,
    pub arguments: Seq<char>,
}

impl View for OAIToolCall {
    type V = OAIToolCallView;

    open spec fn view(&self) -> OAIToolCallView {
        OAIToolCallView {
            id: self.id@,
            call_type: self.call_type@,
            name: self.function.name@,
            arguments: self.function.arguments@,
        }
    }
}

impl DeepView for OAIToolCall {
    type V = OAIToolCallView;

    open spec fn deep_view(&self) -> OAIToolCallView {
        self@
    }
}

/// A tool that the model may call.
#[derive(Debug, PartialEq)]
pub struct OAITool {
    pub tool_type: String,
    pub function: OAIFunction,
}

/// What a tool is called, what it is for, and the schema of its arguments.
#[derive(Debug, PartialEq)]
pub struct OAIFunction {
    pub name: String,
    pub description: String,
    pub parameters: Json,
}

pub struct OAIToolView {
    pub tool_type: Seq<char>,
    pub name: Seq<char>,
    pub description: Seq<char>,
    pub parameters: JsonView,
}

impl View for OAITool {
    type V = OAIToolView;

    open spec fn view(&self) -> OAIToolView {
        OAIToolView {
            tool_type: self.tool_type@,
            name: self.function.name@,
            description: self.function.description@,
            parameters: self.function.parameters@,
        }
    }
}

impl DeepView for OAITool {
    type V = OAIToolView;

    open spec fn deep_view(&self) -> OAIToolView {
        self@
    }
}

/// What a streamed answer holds beside its content.
#[derive(Debug, Clone, Copy, PartialEq, Eq, Structural)]
pub struct OAIStreamOptions {
    pub include_usage: bool,
}

/// One chunk of a streamed answer.
#[derive(Debug)]
pub struct OAIChunk {
    pub choices: Vec<OAIChoice>,
    pub usage: Option<OAIUsage>,
}

pub struct OAIChunkView {
    pub choices: Seq<OAIChoiceView>,
    pub usage: Option<OAIUsage>,
}

impl View for OAIChunk {
    type V = OAIChunkView;

    open spec fn view(&self) -> OAIChunkView {
        OAIChunkView { choices: self.choices.deep_view(), usage: self.usage }
    }
}

/// One of the alternatives that a chunk carries.
#[derive(Debug)]
pub struct OAIChoice {
    pub delta: OAIDelta,
    pub finish_reason: Option<String>,
}

pub struct OAIChoiceView {
    pub content: Option<Seq<char>>,
    pub tool_calls: Option<Seq<OAIToolCallDeltaView>>,
    pub finish_reason: Option<Seq<char>>,
}

impl View for OAIChoice {
    type V = OAIChoiceView;

    open spec fn view(&self) -> OAIChoiceView {
        OAIChoiceView {
            content: self.delta.content.deep_view(),
            tool_calls: self.delta.tool_calls.deep_view(),
            finish_reason: self.finish_reason.deep_view(),
        }
    }
}

impl DeepView for OAIChoice {
    type V = OAIChoiceView;

    open spec fn deep_view(&self) -> OAIChoiceView {
        self@
    }
}

/// What a chunk adds to the message.
#[derive(Debug)]
pub struct OAIDelta {
    pub content: Option<String>,
    pub tool_calls: Option<Vec<OAIToolCallDelta>>,
}

/// What a chunk adds to the tool call with the given index.
#[derive(Debug)]
pub struct OAIToolCallDelta {
    pub index: usize,
    pub id: Option<String>,
    pub function: Option<OAIFunctionDelta>,
}

/// The name of a called function, in the first delta of a tool call, and a piece of the text
/// of its arguments.
#[derive(Debug)]
pub struct OAIFunctionDelta {
    pub name: Option<String>,
    pub arguments: Option<String>,
}

pub struct OAIFunctionDeltaView {
    pub name: Option<Seq<char>>,
    pub arguments: Option<Seq<char>>,
}

impl View for OAIFunctionDelta {
    type V = OAIFunctionDeltaView;

    open spec fn view(&self) -> OAIFunctionDeltaView {
        OAIFunctionDeltaView {
            name: self.name.deep_view(),
            arguments: self.arguments.deep_view(),
        }
    }
}

impl DeepView for OAIFunctionDelta {
    type V = OAIFunctionDeltaView;

    open spec fn deep_view(&self) -> OAIFunctionDeltaView {
        self@
    }
}

pub struct OAIToolCallDeltaView {
    pub index: usize,
    pub id: Option<Seq<char>>,
    pub function: Option<OAIFunctionDeltaView>,
}

impl View for OAIToolCallDelta {
    type V = OAIToolCallDeltaView;

    open spec fn view(&self) -> OAIToolCallDeltaView {
        OAIToolCallDeltaView {
            index: self.index,
            id: self.id.deep_view(),
            function: self.function.deep_view(),
        }
    }
}

impl DeepView for OAIToolCallDelta {
    type V = OAIToolCallDeltaView;

    open spec fn deep_view(&self) -> OAIToolCallDeltaView {
        self@
    }
}

/// How many tokens the prompt and the answer took.
#[derive(Debug, Clone, Copy, PartialEq, Eq, Structural)]
pub struct OAIUsage {
    pub prompt_tokens: u64,
    pub completion_tokens: u64,
}

} // verus!
