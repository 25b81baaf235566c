use openai_compat::json::Json;
use openai_compat::messages::{
    assistant_message, convert_assistant_blocks, convert_messages, convert_tools,
    convert_user_blocks, extract_tool_result_content, tool_use_to_call,
};
use openai_compat::types::{ApiMessage, ApiToolDefinition};
use openai_compat::wire::{OAIFunction, OAIFunctionCall, OAIMessage, OAITool, OAIToolCall};

fn json(text: &str) -> Json {
    let value: serde_json::Value = serde_json::from_str(text).unwrap();
    Json::from_value(&value)
}

fn blocks(text: &str) -> Vec<Json> {
    match json(text) {
        Json::Array(items) => items,
        _ => panic!("not an array"),
    }
}

fn plain(role: &str, text: &str) -> OAIMessage {
    OAIMessage {
        role: role.to_string(),
        content: Some(Json::String(text.to_string())),
        tool_calls: None,
        tool_call_id: None,
    }
}

fn tool(id: &str, text: &str) -> OAIMessage {
    OAIMessage { tool_call_id: Some(id.to_string()), ..plain("tool", text) }
}

fn call(id: &str, name: &str, arguments: &str) -> OAIToolCall {
    OAIToolCall {
        id: id.to_string(),
        call_type: "function".to_string(),
        function: OAIFunctionCall { name: name.to_string(), arguments: arguments.to_string() },
    }
}

fn turn(role: &str, content: &str) -> ApiMessage {
    ApiMessage { role: role.to_string(), content: json(content) }
}

fn user(text: &str) -> Vec<OAIMessage> {
    let mut out = Vec::new();
    convert_user_blocks(&blocks(text), &mut out);
    out
}

fn assistant(text: &str) -> Vec<OAIMessage> {
    let mut out = Vec::new();
    convert_assistant_blocks(&blocks(text), &mut out);
    out
}

#[test]
fn content_of_a_tool_result_is_its_text() {
    assert_eq!(extract_tool_result_content(&json(r#"{"content":"done","output":"no"}"#)), "done");
}

#[test]
fn content_of_a_tool_result_is_joined_from_its_blocks() {
    let block = json(
        r#"{"content":[{"type":"text","text":"a"},{"type":"image"},{"text":"b"},{"text":5},"x"]}"#,
    );
    assert_eq!(extract_tool_result_content(&block), "a\nb");
    assert_eq!(extract_tool_result_content(&json(r#"{"content":[],"output":"no"}"#)), "");
}

#[test]
fn content_of_a_tool_result_falls_back_to_its_output() {
    assert_eq!(extract_tool_result_content(&json(r#"{"output":"out"}"#)), "out");
    assert_eq!(extract_tool_result_content(&json(r#"{"content":null,"output":"out"}"#)), "out");
    assert_eq!(extract_tool_result_content(&json(r#"{"content":{"text":"t"}}"#)), "");
    assert_eq!(extract_tool_result_content(&json(r#"{"output":7}"#)), "");
    assert_eq!(extract_tool_result_content(&json(r#"{}"#)), "");
}

#[test]
fn text_of_a_user_comes_before_tool_results() {
    let out = user(
        r#"[{"type":"tool_result","tool_use_id":"t1","content":"r1"},
            {"type":"text","text":"one"},
            {"type":"tool_result","content":[{"text":"r2"},{"text":"r3"}]},
            {"type":"image","source":{}},
            {"type":"text"},
            {"text":"untyped"},
            {"type":"text","text":"two"}]"#,
    );
    assert_eq!(out, vec![plain("user", "one\ntwo"), tool("t1", "r1"), tool("", "r2\nr3")]);
}

#[test]
fn tool_results_alone_make_no_user_message() {
    let out = user(r#"[{"type":"tool_result","tool_use_id":"t","output":"o"}]"#);
    assert_eq!(out, vec![tool("t", "o")]);
    assert_eq!(user("[]"), vec![]);
}

#[test]
fn an_empty_text_block_is_still_a_text() {
    assert_eq!(user(r#"[{"type":"text","text":""}]"#), vec![plain("user", "")]);
}

#[test]
fn user_messages_are_appended() {
    let mut out = vec![plain("system", "s")];
    convert_user_blocks(&blocks(r#"[{"type":"text","text":"u"}]"#), &mut out);
    assert_eq!(out, vec![plain("system", "s"), plain("user", "u")]);
}

#[test]
fn text_and_tool_uses_of_an_assistant_are_one_message() {
    let out = assistant(
        r#"[{"type":"thinking","thinking":"hm"},
            {"type":"text","text":"I "},
            {"type":"tool_use","id":"c1","name":"ls","input":{"path":"/","all":true}},
            {"type":"redacted_thinking","data":"x"},
            {"type":"text","text":"look."},
            {"type":"tool_use"},
            {"type":"server_tool_use","id":"c3"}]"#,
    );
    assert_eq!(
        out,
        vec![OAIMessage {
            tool_calls: Some(vec![
                call("c1", "ls", r#"{"all":true,"path":"/"}"#),
                call("", "", "{}"),
            ]),
            ..plain("assistant", "I look.")
        }]
    );
}

#[test]
fn an_assistant_without_text_has_no_content() {
    let out = assistant(r#"[{"type":"tool_use","id":"c","name":"n","input":[1,"a"]}]"#);
    assert_eq!(
        out,
        vec![OAIMessage {
            role: "assistant".to_string(),
            content: None,
            tool_calls: Some(vec![call("c", "n", "[1,\"a\"]")]),
            tool_call_id: None,
        }]
    );
}

#[test]
fn an_assistant_with_nothing_to_say_is_left_out() {
    assert_eq!(assistant("[]"), vec![]);
    assert_eq!(assistant(r#"[{"type":"thinking","thinking":"hm"}]"#), vec![]);
    assert_eq!(assistant(r#"[{"type":"text","text":""}]"#), vec![]);
}

#[test]
fn a_tool_use_becomes_a_call_with_the_given_arguments() {
    let block = json(r#"{"type":"tool_use","id":"i","name":"n","input":{"a":1}}"#);
    assert_eq!(tool_use_to_call(&block, "args".to_string()), call("i", "n", "args"));
    assert_eq!(tool_use_to_call(&Json::Null, String::new()), call("", "", ""));
}

#[test]
fn an_assistant_message_needs_a_text_or_a_call() {
    assert_eq!(assistant_message(String::new(), Vec::new()), None);
    assert_eq!(
        assistant_message("t".to_string(), Vec::new()),
        Some(plain("assistant", "t"))
    );
    assert_eq!(
        assistant_message(String::new(), vec![call("i", "n", "{}")]),
        Some(OAIMessage {
            role: "assistant".to_string(),
            content: None,
            tool_calls: Some(vec![call("i", "n", "{}")]),
            tool_call_id: None,
        })
    );
}

#[test]
fn a_conversation_is_converted_turn_by_turn() {
    let turns = vec![
        turn("user", r#""hello""#),
        turn("assistant", r#"[{"type":"text","text":"hi"}]"#),
        turn("user", r#"[{"type":"tool_result","tool_use_id":"t","content":"r"}]"#),
        turn("assistant", "null"),
        turn("user", "7"),
        turn("user", r#"{"type":"text","text":"no array"}"#),
        turn("developer", r#"[{"type":"text","text":"as it is"},1]"#),
        turn("other", r#""kept""#),
    ];
    assert_eq!(
        convert_messages(&turns),
        vec![
            plain("user", "hello"),
            plain("assistant", "hi"),
            tool("t", "r"),
            OAIMessage {
                role: "developer".to_string(),
                content: Some(json(r#"[{"type":"text","text":"as it is"},1]"#)),
                tool_calls: None,
                tool_call_id: None,
            },
            plain("other", "kept"),
        ]
    );
    let mut halves = convert_messages(&turns[..3]);
    halves.extend(convert_messages(&turns[3..]));
    assert_eq!(halves, convert_messages(&turns));
}

#[test]
fn blocks_of_other_types_change_nothing() {
    let without = r#"[{"type":"text","text":"a"},{"type":"tool_use","id":"i","name":"n"}]"#;
    let with = r#"[{"type":"text","text":"a"},{"type":"thinking"},{"type":"document"},
        {"type":"tool_result","content":"r"},{"type":"tool_use","id":"i","name":"n"}]"#;
    assert_eq!(assistant(with), assistant(without));
    let without = r#"[{"type":"text","text":"a"},{"type":"tool_result","content":"r"}]"#;
    let with = r#"[{"type":"text","text":"a"},{"type":"tool_use"},{"type":"image"},
        {"type":"tool_result","content":"r"},"text"]"#;
    assert_eq!(user(with), user(without));
}

#[test]
fn tools_become_functions() {
    let tools = vec![
        ApiToolDefinition {
            name: "ls".to_string(),
            description: "Lists files".to_string(),
            input_schema: json(r#"{"type":"object","properties":{"path":{"type":"string"}}}"#),
        },
        ApiToolDefinition {
            name: "pwd".to_string(),
            description: String::new(),
            input_schema: Json::Null,
        },
    ];
    assert_eq!(
        convert_tools(&tools),
        vec![
            OAITool {
                tool_type: "function".to_string(),
                function: OAIFunction {
                    name: "ls".to_string(),
                    description: "Lists files".to_string(),
                    parameters: json(
                        r#"{"type":"object","properties":{"path":{"type":"string"}}}"#
                    ),
                },
            },
            OAITool {
                tool_type: "function".to_string(),
                function: OAIFunction {
                    name: "pwd".to_string(),
                    description: String::new(),
                    parameters: Json::Null,
                },
            },
        ]
    );
    assert_eq!(convert_tools(&[]), vec![]);
}

#[test]
fn turns_without_text_or_blocks_change_nothing() {
    for content in ["null", "true", "3", r#"{"type":"text","text":"t"}"#] {
        let with = vec![turn("user", "\"a\""), turn("user", content), turn("user", "\"b\"")];
        let without = vec![turn("user", "\"a\""), turn("user", "\"b\"")];
        assert_eq!(convert_messages(&with), convert_messages(&without));
    }
}
