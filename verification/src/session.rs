//! The decisions of reading a streamed answer: what to do next, whatever comes.
use crate::outside::{decode_utf8_lossy, utf8_lossy};
use crate::stream::{initial, message_id_form, message_start, ConverterView, OAIStreamConverter};
use crate::text::{
    ends_line, split_at_line_feeds, split_lines, trim, trim_trailing_cr, trimmed,
    without_trailing_cr,
};
use crate::types::{StreamEvent, StreamEventView};
use crate::wire::{OAIChunk, OAIChunkView};
use std::collections::VecDeque;
use vstd::prelude::*;
use vstd::utf8::{decode_utf8, valid_utf8};

verus! {

/// What the reader of a stream does next.
#[derive(Debug, PartialEq)]
pub enum SessionAction {
    /// Show the event to the handler and send it to the receiver.
    Emit(StreamEvent),
    /// Wait for the next bytes of the answer.
    ReadBytes,
    /// Give the line to the parser of server-sent events.
    FeedLine(String),
    /// Parse the data of a frame as a chunk.
    DecodeChunk(String),
    /// Stop reading.
    Finish,
}

pub enum SessionActionView {
    Emit(StreamEventView),
    ReadBytes,
    FeedLine(Seq<char>),
    DecodeChunk(Seq<char>),
    Finish,
}

impl View for SessionAction {
    type V = SessionActionView;

    open spec fn view(&self) -> SessionActionView {
        match self {
            SessionAction::Emit(event) => SessionActionView::Emit(event@),
            SessionAction::ReadBytes => SessionActionView::ReadBytes,
            SessionAction::FeedLine(line) => SessionActionView::FeedLine(line@),
            SessionAction::DecodeChunk(data) => SessionActionView::DecodeChunk(data@),
            SessionAction::Finish => SessionActionView::Finish,
        }
    }
}

/// The lines to hand on when the text that is at hand is `combined`. Where it ends with a line
/// feed, the empty part behind that is one of them.
pub open spec fn ready_lines(combined: Seq<char>) -> Seq<Seq<char>> {
    if ends_line(combined) {
        split_lines(combined)
    } else {
        split_lines(combined).drop_last()
    }
}

/// The beginning of a line that is still incomplete when the text at hand is `combined`.
pub open spec fn incomplete_line(combined: Seq<char>) -> Seq<char> {
    if ends_line(combined) {
        Seq::empty()
    } else {
        split_lines(combined).last()
    }
}

/// Whether the data of a frame marks the end of the stream.
pub open spec fn is_done_marker(data: Seq<char>) -> bool {
    trimmed(data) == "[DONE]"@
}

/// The state of reading a stream.
pub struct SessionView {
    pub converter: ConverterView,
    /// The beginning of the line whose end has not come yet.
    pub leftover: Seq<char>,
    /// The lines that wait for the parser.
    pub lines: Seq<Seq<char>>,
    /// The events that wait to be sent.
    pub events: Seq<StreamEventView>,
}

impl SessionView {
    /// The next thing to do: send the first event that waits, or else parse the first line
    /// that waits, or else read on.
    pub open spec fn next_action(self) -> SessionActionView {
        if self.events.len() > 0 {
            SessionActionView::Emit(self.events[0])
        } else if self.lines.len() > 0 {
            SessionActionView::FeedLine(without_trailing_cr(self.lines[0]))
        } else {
            SessionActionView::ReadBytes
        }
    }

    /// The state in which the next thing to do is being done.
    pub open spec fn advanced(self) -> SessionView {
        if self.events.len() > 0 {
            SessionView { events: self.events.drop_first(), ..self }
        } else if self.lines.len() > 0 {
            SessionView { lines: self.lines.drop_first(), ..self }
        } else {
            self
        }
    }

    /// The state after more text has come.
    pub open spec fn with_text(self, text: Seq<char>) -> SessionView {
        SessionView {
            leftover: incomplete_line(self.leftover + text),
            lines: self.lines + ready_lines(self.leftover + text),
            ..self
        }
    }

    /// The state after a chunk that adds these events.
    pub open spec fn with_chunk(
        self,
        chunk: OAIChunkView,
        added: Seq<StreamEventView>,
    ) -> SessionView {
        SessionView {
            converter: self.converter.after_chunk(chunk),
            events: self.events + added,
            ..self
        }
    }
}

/// The state before anything has come.
pub open spec fn initial_session(message_id: Seq<char>) -> SessionView {
    SessionView {
        converter: initial(message_id),
        leftover: Seq::empty(),
        lines: Seq::empty(),
        events: Seq::empty(),
    }
}

/// Reads a streamed answer. Each method takes what came of the last action and returns the
/// next action; the first action is that of `start`.
pub struct StreamSession {
    converter: OAIStreamConverter,
    leftover: String,
    lines: VecDeque<String>,
    events: VecDeque<StreamEvent>,
}

impl View for StreamSession {
    type V = SessionView;

    closed spec fn view(&self) -> SessionView {
        SessionView {
            converter: self.converter@,
            leftover: self.leftover@,
            lines: self.lines.deep_view(),
            events: self.events.deep_view(),
        }
    }
}

impl StreamSession {
    /// A session for a new message, with a new identifier.
    pub fn new() -> (session: Self)
        ensures
            session@.converter.wf(),
            session@ == initial_session(session@.converter.message_id),
            message_id_form(session@.converter.message_id),
    {
        StreamSession::with_converter(OAIStreamConverter::new())
    }

    /// A session that feeds the given converter.
    pub fn with_converter(converter: OAIStreamConverter) -> (session: Self)
        ensures
            session@.converter.wf(),
            session@.converter == converter@,
            session@ == (SessionView {
                converter: converter@,
                ..initial_session(converter@.message_id)
            }),
    {
        proof {
            use_type_invariant(&converter);
        }
        let session = StreamSession {
            converter,
            leftover: String::new(),
            lines: VecDeque::new(),
            events: VecDeque::new(),
        };
        assert(session@.lines == Seq::<Seq<char>>::empty());
        assert(session@.events == Seq::<StreamEventView>::empty());
        session
    }

    /// The first action: to emit the start of the message, so that a reader can show it at
    /// once.
    pub fn start(&self) -> (action: SessionAction)
        ensures
            action@ == SessionActionView::Emit(message_start(self@.converter.message_id)),
    {
        SessionAction::Emit(self.converter.emit_message_start())
    }

    /// The next thing to do.
    fn next(&mut self) -> (action: SessionAction)
        ensures
            action@ == old(self)@.next_action(),
            final(self)@ == old(self)@.advanced(),
    {
        match self.events.pop_front() {
            Some(event) => {
                assert(self@.events == old(self)@.events.drop_first());
                SessionAction::Emit(event)
            },
            None => match self.lines.pop_front() {
                Some(line) => {
                    assert(self@.lines == old(self)@.lines.drop_first());
                    SessionAction::FeedLine(trim_trailing_cr(line.as_str()))
                },
                None => SessionAction::ReadBytes,
            },
        }
    }

    /// An event was sent, or could not be because the receiver is gone, which ends the
    /// reading.
    pub fn on_sent(&mut self, delivered: bool) -> (action: SessionAction)
        ensures
            delivered ==> action@ == old(self)@.next_action() && final(self)@
                == old(self)@.advanced(),
            !delivered ==> action@ == SessionActionView::Finish && final(self)@ == old(self)@,
    {
        if delivered {
            self.next()
        } else {
            SessionAction::Finish
        }
    }

    /// Bytes of the answer have come. Each delivery is decoded on its own.
    pub fn on_bytes(&mut self, bytes: &[u8]) -> (action: SessionAction)
        ensures
            action@ == old(self)@.with_text(utf8_lossy(bytes@)).next_action(),
            final(self)@ == old(self)@.with_text(utf8_lossy(bytes@)).advanced(),
            valid_utf8(bytes@) ==> action@ == old(self)@.with_text(
                decode_utf8(bytes@),
            ).next_action() && final(self)@ == old(self)@.with_text(
                decode_utf8(bytes@),
            ).advanced(),
    {
        let text = decode_utf8_lossy(bytes);
        self.on_text(text.as_str())
    }

    /// Text of the answer has come.
    pub fn on_text(&mut self, text: &str) -> (action: SessionAction)
        ensures
            action@ == old(self)@.with_text(text@).next_action(),
            final(self)@ == old(self)@.with_text(text@).advanced(),
    {
        let mut combined = self.leftover.clone();
        combined.append(text);
        let mut parts = split_at_line_feeds(combined.as_str());
        let ghost all = parts.deep_view();
        if ends_with_line_feed(combined.as_str()) {
            self.leftover = String::new();
        } else {
            match parts.pop() {
                Some(part) => {
                    assert(parts.deep_view() == all.drop_last());
                    self.leftover = part;
                },
                None => {},
            }
        }
        let ghost waiting = self.lines.deep_view();
        let mut i: usize = 0;
        while i < parts.len()
            invariant
                i <= parts.len(),
                self.lines.deep_view() == waiting + parts.deep_view().take(i as int),
                self.leftover@ == incomplete_line(combined@),
                self.events == old(self).events,
                self.converter == old(self).converter,
            decreases parts.len() - i,
        {
            let ghost before = self.lines.deep_view();
            self.lines.push_back(parts[i].clone());
            assert(self.lines.deep_view() == before.push(parts@[i as int]@));
            assert(parts.deep_view().take(i + 1) == parts.deep_view().take(i as int).push(
                parts@[i as int]@,
            ));
            i = i + 1;
        }
        assert(parts.deep_view().take(i as int) == parts.deep_view());
        self.next()
    }

    /// The answer is over.
    pub fn on_end(&self) -> (action: SessionAction)
        ensures
            action@ == SessionActionView::Finish,
    {
        SessionAction::Finish
    }

    /// The parser took a line, and gave the data of the frame that it completes, if any.
    /// `[DONE]` marks the end of the stream.
    pub fn on_frame(&mut self, data: Option<String>) -> (action: SessionAction)
        ensures
            match data {
                Some(data) => final(self)@ == old(self)@ && action@ == (if is_done_marker(data@) {
                    SessionActionView::Finish
                } else {
                    SessionActionView::DecodeChunk(data@)
                }),
                None => action@ == old(self)@.next_action() && final(self)@
                    == old(self)@.advanced(),
            },
    {
        match data {
            Some(data) => if *trim(data.as_str()).as_str() == *"[DONE]" {
                SessionAction::Finish
            } else {
                SessionAction::DecodeChunk(data)
            },
            None => self.next(),
        }
    }

    /// Whether the indices of the blocks that a chunk starts fit the machine's integers.
    pub fn has_room(&self, chunk: &OAIChunk) -> (room: bool)
        ensures
            room == self@.converter.has_room(chunk@),
    {
        self.converter.has_room(chunk)
    }

    /// The data of a frame was parsed as a chunk, or could not be, which is no reason to stop.
    pub fn on_chunk(&mut self, chunk: Option<OAIChunk>) -> (action: SessionAction)
        requires
            chunk matches Some(chunk) ==> old(self)@.converter.has_room(chunk@),
        ensures
            final(self)@.converter.wf(),
            match chunk {
                Some(chunk) => exists|added: Seq<StreamEventView>|
                    #![trigger old(self)@.converter.emits(chunk@, added)]
                    old(self)@.converter.emits(chunk@, added) && action@ == old(self)@.with_chunk(
                        chunk@,
                        added,
                    ).next_action() && final(self)@ == old(self)@.with_chunk(
                        chunk@,
                        added,
                    ).advanced(),
                None => action@ == old(self)@.next_action() && final(self)@
                    == old(self)@.advanced(),
            },
    {
        proof {
            use_type_invariant(&self.converter);
        }
        match chunk {
            Some(chunk) => {
                let ghost view = chunk@;
                let mut events: Vec<StreamEvent> = Vec::new();
                self.converter.process_chunk(chunk, &mut events);
                let ghost added = events.deep_view();
                assert(added.skip(0) == added);
                let ghost waiting = self.events.deep_view();
                let mut queue: VecDeque<StreamEvent> = VecDeque::new();
                while events.len() > 0
                    invariant
                        added == events.deep_view() + queue.deep_view(),
                    decreases events.len(),
                {
                    let ghost front = events.deep_view();
                    let ghost back = queue.deep_view();
                    if let Some(event) = events.pop() {
                        queue.push_front(event);
                        assert(events.deep_view() == front.drop_last());
                        assert(queue.deep_view() == seq![front.last()] + back);
                    }
                }
                assert(queue.deep_view() == added);
                self.events.append(&mut queue);
                assert(self.events.deep_view() == waiting + added);
                assert(self@ == old(self)@.with_chunk(view, added));
                self.next()
            },
            None => self.next(),
        }
    }
}

/// Whether the last character is a line feed.
fn ends_with_line_feed(text: &str) -> (ends: bool)
    ensures
        ends == ends_line(text@),
{
    let length = text.unicode_len();
    length > 0 && text.get_char(length - 1) == '\n'
}

} // verus!
