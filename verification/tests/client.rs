use openai_compat::client::{
    ends_message, is_success, response_content, status_error, stream_error_event, Header,
    OpenAICompatibleClient,
};
use openai_compat::json::Json;
use openai_compat::types::{
    ApiMessage, ApiToolDefinition, ClaudeError, ClientConfig, CreateMessageRequest, MessageContent,
    StreamEvent, SystemBlock, SystemPrompt, UsageInfo,
};
use openai_compat::wire::{OAIFunction, OAIMessage, OAIStreamOptions, OAITool};

fn client(api_key: &str) -> OpenAICompatibleClient {
    OpenAICompatibleClient::new(ClientConfig {
        api_base: "http://localhost:11434".to_string(),
        api_key: api_key.to_string(),
    })
}

fn json(text: &str) -> Json {
    let value: serde_json::Value = serde_json::from_str(text).unwrap();
    Json::from_value(&value)
}

fn message(role: &str, text: &str) -> OAIMessage {
    OAIMessage {
        role: role.to_string(),
        content: Some(Json::String(text.to_string())),
        tool_calls: None,
        tool_call_id: None,
    }
}

fn header(name: &str, value: &str) -> Header {
    Header { name: name.to_string(), value: value.to_string() }
}

fn request() -> CreateMessageRequest {
    CreateMessageRequest {
        model: "llama3".to_string(),
        max_tokens: 512,
        messages: vec![ApiMessage { role: "user".to_string(), content: json("\"hello\"") }],
        system: None,
        tools: None,
        temperature: None,
    }
}

fn tool() -> ApiToolDefinition {
    ApiToolDefinition {
        name: "ls".to_string(),
        description: "Lists files".to_string(),
        input_schema: json(r#"{"type":"object"}"#),
    }
}

fn usage() -> UsageInfo {
    UsageInfo {
        input_tokens: 3,
        output_tokens: 4,
        cache_creation_input_tokens: 0,
        cache_read_input_tokens: 0,
    }
}

#[test]
fn the_endpoint_is_below_the_base() {
    assert_eq!(client("").endpoint(), "http://localhost:11434/v1/chat/completions");
}

#[test]
fn without_a_key_there_is_no_authorization() {
    assert_eq!(
        client("").headers(),
        vec![header("content-type", "application/json"), header("accept", "text/event-stream")]
    );
}

#[test]
fn a_key_is_sent_as_a_bearer_token() {
    assert_eq!(
        client("abc").headers(),
        vec![
            header("content-type", "application/json"),
            header("accept", "text/event-stream"),
            header("Authorization", "Bearer abc"),
        ]
    );
}

#[test]
fn a_request_is_streamed_and_asks_for_the_usage() {
    let converted = client("").convert_request(request()).unwrap();
    assert_eq!(converted.model, "llama3");
    assert_eq!(converted.messages, vec![message("user", "hello")]);
    assert_eq!(converted.tools, None);
    assert_eq!(converted.tool_choice, None);
    assert!(converted.stream);
    assert_eq!(converted.stream_options, Some(OAIStreamOptions { include_usage: true }));
    assert_eq!(converted.max_tokens, Some(512));
    assert_eq!(converted.temperature, None);
}

#[test]
fn the_temperature_is_handed_on() {
    let mut request = request();
    request.temperature = Some(0.7f32.to_bits());
    let converted = client("").convert_request(request).unwrap();
    assert_eq!(converted.temperature.map(f32::from_bits), Some(0.7));
}

#[test]
fn a_system_prompt_comes_first() {
    let mut request = request();
    request.system = Some(SystemPrompt::Text("Be brief".to_string()));
    let converted = client("").convert_request(request).unwrap();
    assert_eq!(converted.messages, vec![message("system", "Be brief"), message("user", "hello")]);
}

#[test]
fn the_blocks_of_a_system_prompt_are_lines() {
    let mut request = request();
    request.system = Some(SystemPrompt::Blocks(vec![
        SystemBlock { text: "One".to_string() },
        SystemBlock { text: String::new() },
        SystemBlock { text: "Two".to_string() },
    ]));
    let converted = client("").convert_request(request).unwrap();
    assert_eq!(converted.messages[0], message("system", "One\n\nTwo"));
}

#[test]
fn an_empty_system_prompt_is_still_sent() {
    let mut request = request();
    request.system = Some(SystemPrompt::Blocks(Vec::new()));
    let converted = client("").convert_request(request).unwrap();
    assert_eq!(converted.messages, vec![message("system", ""), message("user", "hello")]);
}

#[test]
fn tools_are_offered_for_the_model_to_choose() {
    let mut request = request();
    request.tools = Some(vec![tool()]);
    let converted = client("").convert_request(request).unwrap();
    assert_eq!(
        converted.tools,
        Some(vec![OAITool {
            tool_type: "function".to_string(),
            function: OAIFunction {
                name: "ls".to_string(),
                description: "Lists files".to_string(),
                parameters: json(r#"{"type":"object"}"#),
            },
        }])
    );
    assert_eq!(converted.tool_choice, Some(Json::String("auto".to_string())));
}

#[test]
fn an_empty_list_of_tools_is_none() {
    let mut request = request();
    request.tools = Some(Vec::new());
    let converted = client("").convert_request(request).unwrap();
    assert_eq!(converted.tools, None);
    assert_eq!(converted.tool_choice, None);
}

#[test]
fn a_text_becomes_a_text_block() {
    let content = response_content(MessageContent::Text("hi".to_string()));
    assert_eq!(content.len(), 1);
    assert_eq!(content[0].to_text(), r#"{"text":"hi","type":"text"}"#);
}

#[test]
fn blocks_stay_as_they_are() {
    let blocks = r#"[{"type":"text","text":"a"},{"type":"tool_use","id":"i","input":{}}]"#;
    let content = response_content(MessageContent::Blocks(Some(json(blocks))));
    assert_eq!(Json::Array(content), json(blocks));
}

#[test]
fn blocks_that_are_no_array_give_no_content() {
    assert_eq!(response_content(MessageContent::Blocks(None)), vec![]);
    assert_eq!(response_content(MessageContent::Blocks(Some(Json::Null))), vec![]);
    assert_eq!(response_content(MessageContent::Blocks(Some(json("{}")))), vec![]);
}

#[test]
fn a_response_holds_the_message() {
    let response = client("").message_response_with_id(
        "msg_1".to_string(),
        MessageContent::Blocks(Some(json("[1]"))),
        usage(),
        Some("end_turn".to_string()),
    );
    assert_eq!(response.id, "msg_1");
    assert_eq!(response.response_type, "message");
    assert_eq!(response.role, "assistant");
    assert_eq!(response.content, vec![json("1")]);
    assert_eq!(response.model, "http://localhost:11434");
    assert_eq!(response.stop_reason, Some("end_turn".to_string()));
    assert_eq!(response.stop_sequence, None);
    assert_eq!(response.usage, usage());
}

#[test]
fn a_response_gets_a_new_identifier() {
    let content = || MessageContent::Text(String::new());
    let first = client("").message_response(content(), usage(), None);
    let second = client("").message_response(content(), usage(), None);
    assert!(first.id.starts_with("msg_"));
    assert_eq!(first.id.len(), 36);
    assert_ne!(first.id, second.id);
    assert_eq!(first.stop_reason, None);
    assert_eq!(first.content[0].get_str("text"), Some(""));
}

#[test]
fn only_the_two_hundreds_are_successes() {
    assert!(is_success(200));
    assert!(is_success(299));
    assert!(!is_success(199));
    assert!(!is_success(300));
    assert!(!is_success(404));
    assert!(!is_success(500));
}

#[test]
fn a_refused_request_reports_status_and_body() {
    assert_eq!(
        status_error(401, "no key".to_string()),
        ClaudeError::ApiStatus { status: 401, message: "no key".to_string() }
    );
}

#[test]
fn a_failed_reading_is_an_event() {
    assert_eq!(
        stream_error_event("broken pipe".to_string()),
        StreamEvent::Error {
            error_type: "stream_error".to_string(),
            message: "broken pipe".to_string(),
        }
    );
}

#[test]
fn only_the_stop_ends_a_message() {
    assert!(ends_message(&StreamEvent::MessageStop));
    assert!(!ends_message(&StreamEvent::ContentBlockStop { index: 0 }));
    assert!(!ends_message(&StreamEvent::MessageDelta { stop_reason: None, usage: None }));
}
