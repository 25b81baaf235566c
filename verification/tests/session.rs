use openai_compat::session::{SessionAction, StreamSession};
use openai_compat::stream::OAIStreamConverter;
use openai_compat::types::{ContentBlock, ContentDelta, StreamEvent, UsageInfo};
use openai_compat::wire::{OAIChoice, OAIChunk, OAIDelta};

fn session() -> StreamSession {
    StreamSession::with_converter(OAIStreamConverter::with_message_id("msg_s".to_string()))
}

fn text_chunk(text: &str, finish_reason: Option<&str>) -> OAIChunk {
    OAIChunk {
        choices: vec![OAIChoice {
            delta: OAIDelta { content: Some(text.to_string()), tool_calls: None },
            finish_reason: finish_reason.map(|reason| reason.to_string()),
        }],
        usage: None,
    }
}

fn line(text: &str) -> SessionAction {
    SessionAction::FeedLine(text.to_string())
}

fn text_start(index: usize) -> SessionAction {
    SessionAction::Emit(StreamEvent::ContentBlockStart {
        index,
        content_block: ContentBlock::Text { text: String::new() },
    })
}

fn text_delta(index: usize, text: &str) -> SessionAction {
    SessionAction::Emit(StreamEvent::ContentBlockDelta {
        index,
        delta: ContentDelta::TextDelta { text: text.to_string() },
    })
}

/// The lines that a session hands on for some deliveries, none of which completes a frame.
fn lines_of(deliveries: &[&str]) -> Vec<String> {
    let mut session = session();
    let mut lines = Vec::new();
    for delivery in deliveries {
        let mut action = session.on_text(delivery);
        while let SessionAction::FeedLine(found) = action {
            lines.push(found);
            action = session.on_frame(None);
        }
        assert_eq!(action, SessionAction::ReadBytes);
    }
    lines
}

#[test]
fn a_session_starts_with_the_message() {
    let mut session = session();
    assert_eq!(
        session.start(),
        SessionAction::Emit(StreamEvent::MessageStart {
            id: "msg_s".to_string(),
            model: String::new(),
            usage: UsageInfo::default(),
        })
    );
    assert_eq!(session.on_sent(true), SessionAction::ReadBytes);
}

#[test]
fn a_new_session_has_a_new_identifier() {
    let ids: Vec<String> = (0..2)
        .map(|_| match StreamSession::new().start() {
            SessionAction::Emit(StreamEvent::MessageStart { id, .. }) => id,
            _ => panic!("no start"),
        })
        .collect();
    assert!(ids.iter().all(|id| id.starts_with("msg_") && id.len() == 36));
    assert_ne!(ids[0], ids[1]);
}

#[test]
fn a_receiver_that_is_gone_ends_the_reading() {
    let mut session = session();
    assert_eq!(session.on_text("data: x\n"), line("data: x"));
    assert_eq!(session.on_sent(false), SessionAction::Finish);
}

#[test]
fn the_end_of_the_answer_ends_the_reading() {
    let mut session = session();
    assert_eq!(session.on_text("data: unfinished"), SessionAction::ReadBytes);
    assert_eq!(session.on_end(), SessionAction::Finish);
}

#[test]
fn lines_are_handed_on_in_order() {
    assert_eq!(lines_of(&["a\nb\r\nc"]), vec!["a", "b"]);
    assert_eq!(lines_of(&["a\r\r\n\n"]), vec!["a", "", ""]);
    assert_eq!(lines_of(&[""]), Vec::<String>::new());
    assert_eq!(lines_of(&["\n"]), vec!["", ""]);
}

#[test]
fn an_unfinished_line_waits_for_its_rest() {
    assert_eq!(lines_of(&["da", "ta: x", "\n"]), vec!["data: x", ""]);
    assert_eq!(lines_of(&["a\nb", "c\nd"]), vec!["a", "bc"]);
}

#[test]
fn cuts_inside_a_line_do_not_matter() {
    let whole = "data: one\r\n\r\ndata: two\n\n";
    for cut in 1..whole.len() {
        let (first, second) = whole.split_at(cut);
        if !first.ends_with('\n') {
            assert_eq!(lines_of(&[first, second]), lines_of(&[whole]), "{}", cut);
        }
    }
}

#[test]
fn a_cut_behind_a_line_feed_adds_an_empty_line() {
    assert_eq!(lines_of(&["data: a\ndata: b\n\n"]), vec!["data: a", "data: b", "", ""]);
    assert_eq!(
        lines_of(&["data: a\n", "data: b\n\n"]),
        vec!["data: a", "", "data: b", "", ""]
    );
}

#[test]
fn bytes_are_decoded() {
    let mut session = session();
    assert_eq!(session.on_bytes("d\u{e9}\n".as_bytes()), line("d\u{e9}"));
    assert_eq!(session.on_frame(None), line(""));
    assert_eq!(session.on_frame(None), SessionAction::ReadBytes);
    assert_eq!(session.on_bytes(&[b'a', 0xff, b'b', b'\n']), line("a\u{fffd}b"));
}

#[test]
fn each_delivery_is_decoded_on_its_own() {
    let mut session = session();
    assert_eq!(session.on_bytes(&[b'a', 0xc3]), SessionAction::ReadBytes);
    assert_eq!(session.on_bytes(&[0xa9, b'\n']), line("a\u{fffd}\u{fffd}"));
}

#[test]
fn the_done_marker_ends_the_reading() {
    let mut session = session();
    assert_eq!(session.on_text("data: [DONE]\n\nmore\n"), line("data: [DONE]"));
    assert_eq!(session.on_frame(Some("[DONE]".to_string())), SessionAction::Finish);
    assert_eq!(session.on_frame(Some(" [DONE]\t".to_string())), SessionAction::Finish);
    assert_eq!(
        session.on_frame(Some("[done]".to_string())),
        SessionAction::DecodeChunk("[done]".to_string())
    );
    assert_eq!(
        session.on_frame(Some(String::new())),
        SessionAction::DecodeChunk(String::new())
    );
}

#[test]
fn a_frame_is_decoded_as_it_is() {
    let mut session = session();
    assert_eq!(
        session.on_frame(Some(" {} ".to_string())),
        SessionAction::DecodeChunk(" {} ".to_string())
    );
}

#[test]
fn a_chunk_that_cannot_be_parsed_is_passed_over() {
    let mut session = session();
    assert_eq!(session.on_text("a\nb"), line("a"));
    assert_eq!(session.on_chunk(None), SessionAction::ReadBytes);
}

#[test]
fn events_are_sent_before_the_next_line() {
    let mut session = session();
    assert_eq!(session.on_text("data: 1\n\ndata: 2\n"), line("data: 1"));
    assert_eq!(session.on_frame(None), line(""));
    let chunk = text_chunk("hi", Some("stop"));
    assert!(session.has_room(&chunk));
    assert_eq!(session.on_chunk(Some(chunk)), text_start(0));
    assert_eq!(session.on_sent(true), text_delta(0, "hi"));
    assert_eq!(
        session.on_sent(true),
        SessionAction::Emit(StreamEvent::ContentBlockStop { index: 0 })
    );
    assert_eq!(
        session.on_sent(true),
        SessionAction::Emit(StreamEvent::MessageDelta {
            stop_reason: Some("end_turn".to_string()),
            usage: None,
        })
    );
    assert_eq!(session.on_sent(true), SessionAction::Emit(StreamEvent::MessageStop));
    assert_eq!(session.on_sent(true), line("data: 2"));
    assert_eq!(session.on_frame(None), line(""));
    assert_eq!(session.on_frame(None), SessionAction::ReadBytes);
}

#[test]
fn the_message_goes_on_with_the_next_chunk() {
    let mut session = session();
    assert_eq!(session.on_chunk(Some(text_chunk("a", None))), text_start(0));
    assert_eq!(session.on_sent(true), text_delta(0, "a"));
    assert_eq!(session.on_sent(true), SessionAction::ReadBytes);
    assert_eq!(session.on_chunk(Some(text_chunk("b", None))), text_delta(0, "b"));
    assert_eq!(session.on_sent(true), SessionAction::ReadBytes);
}

#[test]
fn a_chunk_without_events_reads_on() {
    let mut session = session();
    let empty = OAIChunk { choices: Vec::new(), usage: None };
    assert_eq!(session.on_chunk(Some(empty)), SessionAction::ReadBytes);
}

#[test]
fn every_event_and_every_line_comes_once() {
    let mut session = session();
    let mut sent = Vec::new();
    let mut lines = Vec::new();
    let mut deliveries = vec!["x\r\ny\n", "z"].into_iter();
    let mut action = session.start();
    loop {
        action = match action {
            SessionAction::Emit(event) => {
                sent.push(event);
                session.on_sent(true)
            }
            SessionAction::ReadBytes => match deliveries.next() {
                Some(delivery) => session.on_bytes(delivery.as_bytes()),
                None => session.on_end(),
            },
            SessionAction::FeedLine(found) => {
                let frame = if found.is_empty() { None } else { Some(found.clone()) };
                lines.push(found);
                session.on_frame(frame)
            }
            SessionAction::DecodeChunk(data) => session.on_chunk(Some(text_chunk(&data, None))),
            SessionAction::Finish => break,
        };
    }
    assert_eq!(lines, vec!["x", "y", ""]);
    assert_eq!(sent.len(), 4);
    assert_eq!(SessionAction::Emit(sent.remove(3)), text_delta(0, "y"));
    assert_eq!(SessionAction::Emit(sent.remove(2)), text_delta(0, "x"));
    assert_eq!(SessionAction::Emit(sent.remove(1)), text_start(0));
}

/// What is sent for an answer in these deliveries. The parser takes `data: ` lines, and an empty
/// line completes a frame; data in braces is a chunk with that text.
fn sent_for(deliveries: &[&str]) -> Vec<StreamEvent> {
    let mut session = session();
    let mut sent = Vec::new();
    let mut frame: Option<String> = None;
    let mut deliveries = deliveries.iter();
    let mut action = session.start();
    loop {
        action = match action {
            SessionAction::Emit(event) => {
                sent.push(event);
                session.on_sent(true)
            }
            SessionAction::ReadBytes => match deliveries.next() {
                Some(delivery) => session.on_bytes(delivery.as_bytes()),
                None => session.on_end(),
            },
            SessionAction::FeedLine(found) => {
                let completed = if found.is_empty() { frame.take() } else { None };
                if let Some(data) = found.strip_prefix("data: ") {
                    frame = Some(data.to_string());
                }
                session.on_frame(completed)
            }
            SessionAction::DecodeChunk(data) => {
                let text = data.strip_prefix('{').and_then(|data| data.strip_suffix('}'));
                session.on_chunk(text.map(|text| text_chunk(text, None)))
            }
            SessionAction::Finish => return sent,
        };
    }
}

#[test]
fn one_line_frames_are_read_however_they_are_cut() {
    let whole = "data: {a}\r\n\r\ndata: {b}\n\ndata: [DONE]\n\ndata: {c}\n\n";
    let expected = sent_for(&[whole]);
    assert_eq!(expected.len(), 4);
    for first in 0..=whole.len() {
        for second in first..=whole.len() {
            let cut = [&whole[..first], &whole[first..second], &whole[second..]];
            assert_eq!(sent_for(&cut), expected, "{} {}", first, second);
        }
    }
}

#[test]
fn malformed_frames_are_skipped() {
    let without = "data: {a}\n\ndata: {b}\n\n";
    let with = "data: oops\n\ndata: {a}\n\ndata: \n\ndata: {b}\n\ndata: {\n\n";
    assert_eq!(sent_for(&[with]), sent_for(&[without]));
    assert_eq!(sent_for(&[without]).len(), 4);
}

#[test]
fn a_frame_that_is_no_chunk_goes_on_like_no_frame() {
    let mut with = session();
    let mut without = session();
    assert_eq!(with.on_text("a\nb\nc"), without.on_text("a\nb\nc"));
    assert_eq!(
        with.on_frame(Some("oops".to_string())),
        SessionAction::DecodeChunk("oops".to_string())
    );
    assert_eq!(with.on_chunk(None), without.on_frame(None));
    assert_eq!(with.on_frame(None), without.on_frame(None));
}

#[test]
fn an_unfinished_last_line_is_dropped() {
    let whole = "data: {a}\n\ndata: {b}\n\n";
    assert_eq!(sent_for(&[whole, "data: {lost}"]), sent_for(&[whole]));
    assert_eq!(sent_for(&["data: {a}\n\ndata: {b}\n\ndata: {lo", "st}"]), sent_for(&[whole]));
}

#[test]
fn an_answer_starts_one_message_and_holds_no_error() {
    let sent = sent_for(&["data: {a}\n\ndata: oops\n\n", "noise\n\ndata: {b}\n\n"]);
    let is_start = |event: &StreamEvent| matches!(event, StreamEvent::MessageStart { .. });
    assert!(is_start(&sent[0]));
    assert_eq!(sent.iter().filter(|event| is_start(event)).count(), 1);
    assert!(!sent.iter().any(|event| matches!(event, StreamEvent::Error { .. })));
}
