use openai_compat::json::Json;
use openai_compat::stream::{
    convert_finish_reason, message_id_of, new_message_id, OAIStreamConverter,
};
use openai_compat::types::{ContentBlock, ContentDelta, StreamEvent, UsageInfo};
use openai_compat::wire::{
    OAIChoice, OAIChunk, OAIDelta, OAIFunctionDelta, OAIToolCallDelta, OAIUsage,
};

fn some(text: &str) -> Option<String> {
    Some(text.to_string())
}

fn choice(
    content: Option<String>,
    tool_calls: Option<Vec<OAIToolCallDelta>>,
    finish_reason: Option<String>,
) -> OAIChoice {
    OAIChoice { delta: OAIDelta { content, tool_calls }, finish_reason }
}

fn chunk(choice: OAIChoice) -> OAIChunk {
    OAIChunk { choices: vec![choice], usage: None }
}

fn text_chunk(text: &str) -> OAIChunk {
    chunk(choice(some(text), None, None))
}

fn calls_chunk(calls: Vec<OAIToolCallDelta>) -> OAIChunk {
    chunk(choice(None, Some(calls), None))
}

fn finish_chunk(reason: &str) -> OAIChunk {
    chunk(choice(None, None, some(reason)))
}

fn call(
    index: usize,
    id: Option<&str>,
    name: Option<&str>,
    arguments: Option<&str>,
) -> OAIToolCallDelta {
    OAIToolCallDelta {
        index,
        id: id.map(|id| id.to_string()),
        function: Some(OAIFunctionDelta {
            name: name.map(|name| name.to_string()),
            arguments: arguments.map(|arguments| arguments.to_string()),
        }),
    }
}

fn text_start(index: usize) -> StreamEvent {
    StreamEvent::ContentBlockStart {
        index,
        content_block: ContentBlock::Text { text: String::new() },
    }
}

fn text_delta(index: usize, text: &str) -> StreamEvent {
    StreamEvent::ContentBlockDelta {
        index,
        delta: ContentDelta::TextDelta { text: text.to_string() },
    }
}

fn tool_start(index: usize, id: &str, name: &str) -> StreamEvent {
    StreamEvent::ContentBlockStart {
        index,
        content_block: ContentBlock::ToolUse {
            id: id.to_string(),
            name: name.to_string(),
            input: Json::Object(Vec::new()),
        },
    }
}

fn tool_delta(index: usize, partial_json: &str) -> StreamEvent {
    StreamEvent::ContentBlockDelta {
        index,
        delta: ContentDelta::InputJsonDelta { partial_json: partial_json.to_string() },
    }
}

fn stop(index: usize) -> StreamEvent {
    StreamEvent::ContentBlockStop { index }
}

fn message_delta(reason: &str, usage: Option<UsageInfo>) -> StreamEvent {
    StreamEvent::MessageDelta { stop_reason: some(reason), usage }
}

fn converter() -> OAIStreamConverter {
    OAIStreamConverter::with_message_id("msg_test".to_string())
}

fn run(chunks: Vec<OAIChunk>) -> Vec<StreamEvent> {
    let mut converter = converter();
    let mut events = Vec::new();
    for chunk in chunks {
        assert!(converter.has_room(&chunk));
        converter.process_chunk(chunk, &mut events);
    }
    events
}

fn check_id(id: &str) {
    assert_eq!(id.len(), 36);
    assert!(id.starts_with("msg_"));
    let digits = &id[4..];
    assert!(digits.chars().all(|ch| ch.is_ascii_digit() || ('a'..='f').contains(&ch)));
    assert_eq!(&digits[12..13], "4");
    assert!("89ab".contains(&digits[16..17]));
}

#[test]
fn message_identifiers_have_their_form_and_differ() {
    let first = new_message_id();
    let second = new_message_id();
    check_id(&first);
    check_id(&second);
    assert_ne!(first, second);
}

#[test]
fn a_message_identifier_holds_the_random_text() {
    assert_eq!(message_id_of("0af"), "msg_0af");
    assert_eq!(message_id_of(""), "msg_");
}

#[test]
fn a_message_starts_with_its_identifier() {
    assert_eq!(
        converter().emit_message_start(),
        StreamEvent::MessageStart {
            id: "msg_test".to_string(),
            model: String::new(),
            usage: UsageInfo {
                input_tokens: 0,
                output_tokens: 0,
                cache_creation_input_tokens: 0,
                cache_read_input_tokens: 0,
            },
        }
    );
    match OAIStreamConverter::new().emit_message_start() {
        StreamEvent::MessageStart { id, .. } => check_id(&id),
        _ => panic!("no start"),
    }
}

#[test]
fn finish_reasons_are_translated() {
    assert_eq!(convert_finish_reason("stop"), "end_turn");
    assert_eq!(convert_finish_reason("tool_calls"), "tool_use");
    assert_eq!(convert_finish_reason("length"), "max_tokens");
    assert_eq!(convert_finish_reason("content_filter"), "content_filter");
    assert_eq!(convert_finish_reason(""), "");
}

#[test]
fn text_opens_one_block() {
    assert_eq!(
        run(vec![text_chunk("Hel"), text_chunk(""), text_chunk("lo")]),
        vec![text_start(0), text_delta(0, "Hel"), text_delta(0, "lo")]
    );
}

#[test]
fn the_end_closes_the_text_and_reports_the_usage() {
    let mut last = chunk(choice(some("!"), None, some("stop")));
    last.usage = Some(OAIUsage { prompt_tokens: 11, completion_tokens: 7 });
    let usage = UsageInfo {
        input_tokens: 11,
        output_tokens: 7,
        cache_creation_input_tokens: 0,
        cache_read_input_tokens: 0,
    };
    assert_eq!(
        run(vec![text_chunk("a"), last]),
        vec![
            text_start(0),
            text_delta(0, "a"),
            text_delta(0, "!"),
            stop(0),
            message_delta("end_turn", Some(usage)),
            StreamEvent::MessageStop,
        ]
    );
}

#[test]
fn an_end_without_blocks() {
    assert_eq!(
        run(vec![finish_chunk("length")]),
        vec![message_delta("max_tokens", None), StreamEvent::MessageStop]
    );
}

#[test]
fn a_tool_call_closes_the_text_and_collects_its_arguments() {
    assert_eq!(
        run(vec![
            text_chunk("Let me see"),
            calls_chunk(vec![call(0, Some("c1"), Some("ls"), Some(""))]),
            calls_chunk(vec![call(0, None, None, Some("{\"a\""))]),
            calls_chunk(vec![call(0, None, None, Some(""))]),
            calls_chunk(vec![call(0, None, None, Some(":1}"))]),
            finish_chunk("tool_calls"),
        ]),
        vec![
            text_start(0),
            text_delta(0, "Let me see"),
            stop(0),
            tool_start(1, "c1", "ls"),
            tool_delta(1, "{\"a\""),
            tool_delta(1, ":1}"),
            stop(1),
            message_delta("tool_use", None),
            StreamEvent::MessageStop,
        ]
    );
}

#[test]
fn a_tool_call_without_identifier_is_named_by_its_index() {
    assert_eq!(
        run(vec![calls_chunk(vec![call(12, None, Some("f"), Some("{}"))])]),
        vec![tool_start(0, "call_12", "f"), tool_delta(0, "{}")]
    );
}

#[test]
fn interleaved_tool_calls_keep_their_blocks() {
    assert_eq!(
        run(vec![
            calls_chunk(vec![
                call(0, Some("a"), Some("f"), None),
                call(1, Some("b"), Some("g"), Some("x")),
            ]),
            calls_chunk(vec![call(1, None, None, Some("y")), call(0, None, None, Some("z"))]),
        ]),
        vec![
            tool_start(0, "a", "f"),
            tool_start(1, "b", "g"),
            tool_delta(1, "x"),
            tool_delta(1, "y"),
            tool_delta(0, "z"),
        ]
    );
}

#[test]
fn text_behind_a_tool_call_opens_a_new_block() {
    assert_eq!(
        run(vec![
            text_chunk("a"),
            calls_chunk(vec![call(0, Some("c"), Some("f"), None)]),
            text_chunk("b"),
            calls_chunk(vec![call(0, None, None, Some("{}"))]),
            text_chunk("c"),
        ]),
        vec![
            text_start(0),
            text_delta(0, "a"),
            stop(0),
            tool_start(1, "c", "f"),
            text_start(2),
            text_delta(2, "b"),
            tool_delta(1, "{}"),
            text_delta(2, "c"),
        ]
    );
}

#[test]
fn arguments_of_an_unknown_call_are_dropped() {
    let silent = OAIToolCallDelta { index: 0, id: some("c"), function: None };
    assert_eq!(run(vec![calls_chunk(vec![call(3, None, None, Some("x")), silent])]), vec![]);
}

#[test]
fn every_open_call_is_ended_once_in_some_order() {
    let events = run(vec![
        text_chunk("t"),
        calls_chunk((0..5).map(|index| call(index * 7, Some("i"), Some("f"), None)).collect()),
        text_chunk("u"),
        finish_chunk("tool_calls"),
    ]);
    let ends: Vec<usize> = events
        .iter()
        .filter_map(|event| match event {
            StreamEvent::ContentBlockStop { index } => Some(*index),
            _ => None,
        })
        .collect();
    assert_eq!(ends[..2], [0, 6]);
    let mut sorted = ends.clone();
    sorted.sort();
    assert_eq!(sorted, vec![0, 1, 2, 3, 4, 5, 6]);
    assert_eq!(events[events.len() - 2], message_delta("tool_use", None));
    assert_eq!(events[events.len() - 1], StreamEvent::MessageStop);
}

#[test]
fn blocks_are_ended_in_the_order_of_the_calls() {
    let mut converter = converter();
    let mut events = Vec::new();
    let calls = vec![call(4, Some("a"), Some("f"), None), call(9, Some("b"), Some("g"), None)];
    converter.process_chunk(calls_chunk(calls), &mut events);
    converter.process_chunk(text_chunk("t"), &mut events);
    events.clear();
    converter.process_finish(&vec![9, 4], "stop", None, &mut events);
    assert_eq!(
        events,
        vec![
            stop(2),
            stop(1),
            stop(0),
            message_delta("end_turn", None),
            StreamEvent::MessageStop,
        ]
    );
    events.clear();
    converter.process_finish(&Vec::new(), "stop", None, &mut events);
    assert_eq!(events, vec![message_delta("end_turn", None), StreamEvent::MessageStop]);
}

#[test]
fn a_call_that_is_named_again_leaves_its_first_block_open() {
    assert_eq!(
        run(vec![
            calls_chunk(vec![call(0, Some("a"), Some("f"), None)]),
            calls_chunk(vec![call(0, Some("b"), Some("g"), Some("x"))]),
            finish_chunk("stop"),
        ]),
        vec![
            tool_start(0, "a", "f"),
            tool_start(1, "b", "g"),
            tool_delta(1, "x"),
            stop(1),
            message_delta("end_turn", None),
            StreamEvent::MessageStop,
        ]
    );
}

#[test]
fn only_the_first_choice_counts() {
    let several = OAIChunk {
        choices: vec![
            choice(some("first"), None, None),
            choice(some("second"), None, some("stop")),
        ],
        usage: None,
    };
    assert_eq!(run(vec![several]), vec![text_start(0), text_delta(0, "first")]);
}

#[test]
fn a_chunk_without_choices_adds_nothing() {
    let report = OAIChunk {
        choices: Vec::new(),
        usage: Some(OAIUsage { prompt_tokens: 1, completion_tokens: 2 }),
    };
    assert_eq!(run(vec![report]), vec![]);
}

#[test]
fn indices_go_on_behind_an_end() {
    assert_eq!(
        run(vec![text_chunk("a"), finish_chunk("stop"), text_chunk("b")]),
        vec![
            text_start(0),
            text_delta(0, "a"),
            stop(0),
            message_delta("end_turn", None),
            StreamEvent::MessageStop,
            text_start(1),
            text_delta(1, "b"),
        ]
    );
}

#[test]
fn events_are_appended() {
    let mut events = vec![StreamEvent::MessageStop];
    converter().process_chunk(text_chunk("a"), &mut events);
    assert_eq!(events, vec![StreamEvent::MessageStop, text_start(0), text_delta(0, "a")]);
}

#[test]
fn the_text_of_a_message_is_kept() {
    let pieces = ["a", "", "b\n", "\u{1f600}"];
    let mut chunks: Vec<OAIChunk> = pieces.iter().map(|piece| text_chunk(piece)).collect();
    chunks.insert(2, calls_chunk(vec![call(0, None, Some("f"), Some("{}"))]));
    let text: String = run(chunks)
        .iter()
        .filter_map(|event| match event {
            StreamEvent::ContentBlockDelta { delta: ContentDelta::TextDelta { text }, .. } => {
                Some(text.as_str())
            }
            _ => None,
        })
        .collect();
    assert_eq!(text, pieces.concat());
}

#[test]
fn the_arguments_of_a_call_are_kept() {
    let events = run(vec![
        calls_chunk(vec![call(0, None, Some("f"), Some("{")), call(1, None, Some("g"), None)]),
        calls_chunk(vec![call(1, None, None, Some("[")), call(0, None, None, Some("}"))]),
        calls_chunk(vec![call(1, None, None, Some("]"))]),
    ]);
    let arguments = |block: usize| -> String {
        events
            .iter()
            .filter_map(|event| match event {
                StreamEvent::ContentBlockDelta {
                    index,
                    delta: ContentDelta::InputJsonDelta { partial_json },
                } if *index == block => Some(partial_json.as_str()),
                _ => None,
            })
            .collect()
    };
    assert_eq!(arguments(0), "{}");
    assert_eq!(arguments(1), "[]");
}

#[test]
fn the_arguments_behind_a_renaming_go_to_the_new_block() {
    let events = run(vec![
        calls_chunk(vec![call(0, None, Some("f"), Some("a")), call(0, None, None, Some("b"))]),
        calls_chunk(vec![
            call(0, None, None, Some("c")),
            call(0, None, Some("g"), Some("d")),
            call(0, None, None, Some("e")),
        ]),
        chunk(choice(None, Some(vec![call(0, None, None, Some("h"))]), some("stop"))),
        calls_chunk(vec![call(0, None, None, Some("lost"))]),
    ]);
    let arguments = |block: usize| -> String {
        events
            .iter()
            .filter_map(|event| match event {
                StreamEvent::ContentBlockDelta {
                    index,
                    delta: ContentDelta::InputJsonDelta { partial_json },
                } if *index == block => Some(partial_json.as_str()),
                _ => None,
            })
            .collect()
    };
    assert_eq!(arguments(0), "abc");
    assert_eq!(arguments(1), "deh");
    assert!(!events.contains(&tool_delta(0, "lost")));
    assert!(!events.contains(&tool_delta(1, "lost")));
}

#[test]
fn pieces_go_to_blocks_of_their_kind() {
    let events = run(vec![
        text_chunk("a"),
        calls_chunk(vec![call(0, None, Some("f"), Some("{"))]),
        text_chunk("b"),
        calls_chunk(vec![call(0, None, None, Some("}")), call(1, None, Some("g"), None)]),
        text_chunk("c"),
        finish_chunk("stop"),
    ]);
    let mut texts: Vec<usize> = Vec::new();
    let mut tools: Vec<usize> = Vec::new();
    for event in &events {
        match event {
            StreamEvent::ContentBlockStart { index, content_block: ContentBlock::Text { .. } } => {
                assert!(texts.is_empty());
                texts.push(*index);
            }
            StreamEvent::ContentBlockStart { index, .. } => tools.push(*index),
            StreamEvent::ContentBlockDelta { index, delta: ContentDelta::TextDelta { .. } } => {
                assert!(texts.contains(index));
            }
            StreamEvent::ContentBlockDelta { index, .. } => assert!(tools.contains(index)),
            StreamEvent::ContentBlockStop { index } => {
                texts.retain(|open| open != index);
                tools.retain(|open| open != index);
            }
            _ => {}
        }
    }
    assert!(texts.is_empty() && tools.is_empty());
}

#[test]
fn usage_counts_only_where_the_message_ends() {
    let mut early = text_chunk("a");
    early.usage = Some(OAIUsage { prompt_tokens: 5, completion_tokens: 6 });
    assert_eq!(run(vec![early]), run(vec![text_chunk("a")]));
}

#[test]
fn only_the_order_of_the_ends_may_differ() {
    let chunks = || {
        vec![
            calls_chunk((0..4).map(|index| call(index, None, Some("f"), None)).collect()),
            finish_chunk("tool_calls"),
        ]
    };
    let first = run(chunks());
    for _ in 0..8 {
        let second = run(chunks());
        assert_eq!(first.len(), second.len());
        for (left, right) in first.iter().zip(&second) {
            let ends = |event: &StreamEvent| matches!(event, StreamEvent::ContentBlockStop { .. });
            assert!(left == right || (ends(left) && ends(right)));
        }
        assert!(first.iter().all(|event| second.contains(event)));
    }
}
