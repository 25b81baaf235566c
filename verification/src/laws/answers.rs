//! Whole answers: what is sent for all that an endpoint delivers.
use crate::laws::ending::{
    about_block, law_chunks_keep_the_state_valid, law_finish_ends_the_message,
};
use crate::laws::orders::{
    law_only_the_order_of_ends_is_open, lemma_same_append, same_but_for_ends,
};
use crate::laws::reading::{
    complete_lines, law_lines_make_up_the_text, lemma_single_line, lemma_split_append,
};
use crate::messages::concatenated;
use crate::session::{
    incomplete_line, initial_session, is_done_marker, ready_lines, SessionActionView, SessionView,
};
use crate::stream::{finish_reason, initial, message_start, ConverterView};
use crate::text::{ends_line, split_lines, without_trailing_cr};
use crate::types::StreamEventView;
use crate::wire::OAIChunkView;
use vstd::prelude::*;

verus! {

/// Who performs the actions of a session, with a parser whose states are `P`.
#[verifier::reject_recursive_types(P)]
pub struct Host<P> {
    /// The state of the parser after a line, and the data of the frame that it completes.
    pub feed: spec_fn(P, Seq<char>) -> (P, Option<Seq<char>>),
    /// The chunk that the data of a frame is, if it is one.
    pub decode: spec_fn(Seq<char>) -> Option<OAIChunkView>,
    /// The events that a chunk adds in a state.
    pub adds: spec_fn(ConverterView, OAIChunkView) -> Seq<StreamEventView>,
}

impl<P> Host<P> {
    /// Whether the events that a chunk adds are among those that it may add.
    pub open spec fn adds_what_chunks_emit(self) -> bool {
        forall|state: ConverterView, chunk: OAIChunkView|
            #![trigger (self.adds)(state, chunk)]
            state.wf() ==> state.emits(chunk, (self.adds)(state, chunk))
    }

    /// Whether two hosts have the same parser and the same decoder, so that nothing but the
    /// order in which tool calls are ended can differ in what chunks add.
    pub open spec fn is_alike(self, other: Host<P>) -> bool {
        &&& self.feed == other.feed
        &&& self.decode == other.decode
        &&& self.adds_what_chunks_emit()
        &&& other.adds_what_chunks_emit()
    }
}

/// How many lines an action and a state have still before them, each of them as two steps.
pub open spec fn line_steps(state: SessionView, action: SessionActionView) -> nat {
    2 * state.lines.len() + (match action {
        SessionActionView::FeedLine(_) => 2nat,
        SessionActionView::DecodeChunk(_) => 1nat,
        _ => 0nat,
    })
}

/// How many events an action and a state have still before them.
pub open spec fn event_steps(state: SessionView, action: SessionActionView) -> nat {
    state.events.len() + (match action {
        SessionActionView::Emit(_) => 1nat,
        _ => 0nat,
    })
}

/// The events that are sent when an action is performed, and then each next one to the end,
/// while the answer comes in these deliveries. The receiver stays.
pub open spec fn answer<P>(
    host: Host<P>,
    state: SessionView,
    parser: P,
    action: SessionActionView,
    deliveries: Seq<Seq<char>>,
) -> Seq<StreamEventView>
    decreases deliveries.len(), line_steps(state, action), event_steps(state, action),
{
    match action {
        SessionActionView::Emit(event) => seq![event] + answer(
            host,
            state.advanced(),
            parser,
            state.next_action(),
            deliveries,
        ),
        SessionActionView::ReadBytes => if deliveries.len() == 0 {
            Seq::empty()
        } else {
            let read = state.with_text(deliveries[0]);
            answer(host, read.advanced(), parser, read.next_action(), deliveries.drop_first())
        },
        SessionActionView::FeedLine(line) => {
            let fed = (host.feed)(parser, line);
            match fed.1 {
                Some(data) => if is_done_marker(data) {
                    Seq::empty()
                } else {
                    answer(host, state, fed.0, SessionActionView::DecodeChunk(data), deliveries)
                },
                None => answer(host, state.advanced(), fed.0, state.next_action(), deliveries),
            }
        },
        SessionActionView::DecodeChunk(data) => {
            let decoded = match (host.decode)(data) {
                Some(chunk) => state.with_chunk(chunk, (host.adds)(state.converter, chunk)),
                None => state,
            };
            answer(host, decoded.advanced(), parser, decoded.next_action(), deliveries)
        },
        SessionActionView::Finish => Seq::empty(),
    }
}

/// The events that are sent for a whole answer, from the first action of a session on.
pub open spec fn whole_answer<P>(
    host: Host<P>,
    parser: P,
    message_id: Seq<char>,
    deliveries: Seq<Seq<char>>,
) -> Seq<StreamEventView> {
    answer(
        host,
        initial_session(message_id),
        parser,
        SessionActionView::Emit(message_start(message_id)),
        deliveries,
    )
}

/// The lines that deliveries add behind the beginning of a line.
pub open spec fn delivered_lines(leftover: Seq<char>, deliveries: Seq<Seq<char>>) -> Seq<Seq<char>>
    decreases deliveries.len(),
{
    if deliveries.len() == 0 {
        Seq::empty()
    } else {
        ready_lines(leftover + deliveries[0]) + delivered_lines(
            incomplete_line(leftover + deliveries[0]),
            deliveries.drop_first(),
        )
    }
}

/// The events that lines add, up to the end of the stream.
pub open spec fn lines_events<P>(
    host: Host<P>,
    converter: ConverterView,
    parser: P,
    lines: Seq<Seq<char>>,
) -> Seq<StreamEventView>
    decreases lines.len(),
{
    if lines.len() == 0 {
        Seq::empty()
    } else {
        let fed = (host.feed)(parser, without_trailing_cr(lines[0]));
        match fed.1 {
            Some(data) => if is_done_marker(data) {
                Seq::empty()
            } else {
                match (host.decode)(data) {
                    Some(chunk) => (host.adds)(converter, chunk) + lines_events(
                        host,
                        converter.after_chunk(chunk),
                        fed.0,
                        lines.drop_first(),
                    ),
                    None => lines_events(host, converter, fed.0, lines.drop_first()),
                }
            },
            None => lines_events(host, converter, fed.0, lines.drop_first()),
        }
    }
}

proof fn lemma_answer<P>(
    host: Host<P>,
    state: SessionView,
    parser: P,
    deliveries: Seq<Seq<char>>,
)
    ensures
        answer(host, state.advanced(), parser, state.next_action(), deliveries) == state.events
            + lines_events(
            host,
            state.converter,
            parser,
            state.lines + delivered_lines(state.leftover, deliveries),
        ),
    decreases deliveries.len(), state.lines.len(), state.events.len(),
{
    let next = state.advanced();
    let later = delivered_lines(state.leftover, deliveries);
    let lines = state.lines + later;
    let events = lines_events(host, state.converter, parser, lines);
    let whole = answer(host, next, parser, state.next_action(), deliveries);
    if state.events.len() > 0 {
        lemma_answer(host, next, parser, deliveries);
        assert(seq![state.events[0]] + (next.events + events) == state.events + events);
    } else {
        assert(state.events + events == events);
        assert(forall|more: Seq<StreamEventView>| #[trigger] (next.events + more) == more);
        if state.lines.len() > 0 {
            let line = without_trailing_cr(state.lines[0]);
            let fed = (host.feed)(parser, line);
            assert(lines[0] == state.lines[0]);
            assert(lines.drop_first() == next.lines + later);
            match fed.1 {
                Some(data) => if !is_done_marker(data) {
                    let decode = SessionActionView::DecodeChunk(data);
                    assert(whole == answer(host, next, fed.0, decode, deliveries));
                    match (host.decode)(data) {
                        Some(chunk) => {
                            let added = (host.adds)(next.converter, chunk);
                            let decoded = next.with_chunk(chunk, added);
                            lemma_answer(host, decoded, fed.0, deliveries);
                            assert(decoded.events == added);
                        },
                        None => {
                            lemma_answer(host, next, fed.0, deliveries);
                        },
                    }
                },
                None => {
                    lemma_answer(host, next, fed.0, deliveries);
                },
            }
        } else if deliveries.len() > 0 {
            let read = state.with_text(deliveries[0]);
            lemma_answer(host, read, parser, deliveries.drop_first());
            assert(lines == read.lines + delivered_lines(read.leftover, deliveries.drop_first()));
            assert(read.events + events == events);
        } else {
            assert(lines == Seq::<Seq<char>>::empty());
        }
    }
}

/// What is sent for an answer is the start of the message, and then, in the order of the lines,
/// what the frames add that they complete, up to the end of the stream.
pub proof fn law_answer_is_that_of_its_lines<P>(
    host: Host<P>,
    parser: P,
    message_id: Seq<char>,
    deliveries: Seq<Seq<char>>,
)
    ensures
        whole_answer(host, parser, message_id, deliveries) == seq![message_start(message_id)]
            + lines_events(
            host,
            initial(message_id),
            parser,
            delivered_lines(Seq::empty(), deliveries),
        ),
{
    let state = initial_session(message_id);
    lemma_answer(host, state, parser, deliveries);
    let lines = delivered_lines(Seq::empty(), deliveries);
    assert(state.lines + lines == lines);
    assert(state.events + lines_events(host, initial(message_id), parser, lines) == lines_events(
        host,
        initial(message_id),
        parser,
        lines,
    ));
}

/// Whether `found` holds the lines in their order, with an empty line added behind some of them.
pub open spec fn padded(lines: Seq<Seq<char>>, found: Seq<Seq<char>>) -> bool
    decreases lines.len(),
{
    if lines.len() == 0 {
        found.len() == 0
    } else {
        &&& found.len() > 0
        &&& found[0] == lines[0]
        &&& {
            ||| padded(lines.drop_first(), found.drop_first())
            ||| found.len() > 1 && found[1].len() == 0 && padded(
                lines.drop_first(),
                found.drop_first().drop_first(),
            )
        }
    }
}

proof fn lemma_padded_append(
    first: Seq<Seq<char>>,
    first_found: Seq<Seq<char>>,
    second: Seq<Seq<char>>,
    second_found: Seq<Seq<char>>,
)
    requires
        padded(first, first_found),
        padded(second, second_found),
    ensures
        padded(first + second, first_found + second_found),
    decreases first.len(),
{
    let lines = first + second;
    let found = first_found + second_found;
    if first.len() == 0 {
        assert(lines == second);
        assert(found == second_found);
    } else {
        assert(lines.drop_first() == first.drop_first() + second);
        assert(found.drop_first() == first_found.drop_first() + second_found);
        if padded(first.drop_first(), first_found.drop_first()) {
            lemma_padded_append(
                first.drop_first(),
                first_found.drop_first(),
                second,
                second_found,
            );
        } else {
            let rest = first_found.drop_first().drop_first();
            assert(found.drop_first().drop_first() == rest + second_found);
            lemma_padded_append(first.drop_first(), rest, second, second_found);
        }
    }
}

/// Lines are padded by themselves, and by themselves with an empty line behind the last.
proof fn lemma_padded_itself(lines: Seq<Seq<char>>)
    ensures
        padded(lines, lines),
        lines.len() > 0 ==> padded(lines, lines.push(Seq::empty())),
    decreases lines.len(),
{
    if lines.len() > 0 {
        lemma_padded_itself(lines.drop_first());
        let found = lines.push(Seq::empty());
        if lines.len() == 1 {
            assert(found[1] == Seq::<char>::empty());
            assert(found.drop_first().drop_first() == Seq::<Seq<char>>::empty());
            assert(padded(lines.drop_first(), found.drop_first().drop_first()));
            assert(padded(lines, found));
        } else {
            assert(found.drop_first() == lines.drop_first().push(Seq::empty()));
        }
    }
}

proof fn lemma_concatenated_first(parts: Seq<Seq<char>>)
    requires
        parts.len() > 0,
    ensures
        concatenated(parts) == parts[0] + concatenated(parts.drop_first()),
    decreases parts.len(),
{
    if parts.len() == 1 {
        assert(parts.drop_last() == Seq::<Seq<char>>::empty());
        assert(parts.drop_first() == Seq::<Seq<char>>::empty());
        assert(concatenated(parts) == parts[0] + concatenated(parts.drop_first()));
    } else {
        lemma_concatenated_first(parts.drop_last());
        assert(parts.drop_last().drop_first() == parts.drop_first().drop_last());
        assert(concatenated(parts) == parts[0] + concatenated(parts.drop_first()));
    }
}

/// However a text is cut into deliveries, they add its complete lines in their order, with an
/// empty line behind some of them.
pub proof fn law_deliveries_pad_the_lines(leftover: Seq<char>, deliveries: Seq<Seq<char>>)
    requires
        !leftover.contains('\n'),
    ensures
        padded(
            complete_lines(leftover + concatenated(deliveries)),
            delivered_lines(leftover, deliveries),
        ),
    decreases deliveries.len(),
{
    if deliveries.len() == 0 {
        assert(leftover + concatenated(deliveries) == leftover);
        lemma_single_line(leftover);
    } else {
        let rest = deliveries.drop_first();
        let combined = leftover + deliveries[0];
        lemma_concatenated_first(deliveries);
        assert(leftover + concatenated(deliveries) == combined + concatenated(rest));
        law_lines_make_up_the_text(combined);
        let parts = split_lines(combined);
        let kept = incomplete_line(combined);
        assert(kept == parts.last());
        assert(!parts[parts.len() - 1].contains('\n'));
        law_deliveries_pad_the_lines(kept, rest);
        lemma_split_append(combined, concatenated(rest));
        law_lines_make_up_the_text(kept + concatenated(rest));
        assert(complete_lines(combined + concatenated(rest)) == complete_lines(combined)
            + complete_lines(kept + concatenated(rest)));
        lemma_padded_itself(complete_lines(combined));
        if ends_line(combined) {
            law_lines_make_up_the_text(combined.drop_last());
            assert(ready_lines(combined) == complete_lines(combined).push(Seq::empty()));
        }
        lemma_padded_append(
            complete_lines(combined),
            ready_lines(combined),
            complete_lines(kept + concatenated(rest)),
            delivered_lines(kept, rest),
        );
    }
}

/// A frame of one line, and the empty line that ends it, with or without carriage returns.
pub struct OneLineFrame {
    pub line: Seq<char>,
    pub blank: Seq<char>,
    /// What the parser gives for the frame.
    pub data: Seq<char>,
}

impl OneLineFrame {
    /// The text of the frame.
    pub open spec fn text(self) -> Seq<char> {
        self.line.push('\n') + self.blank.push('\n')
    }

    /// Whether a parser at rest takes the line, and gives the data and is at rest again when an
    /// empty line follows.
    pub open spec fn is_taken_by<P>(self, host: Host<P>, rest: P) -> bool {
        let taken = (host.feed)(rest, without_trailing_cr(self.line));
        &&& !self.line.contains('\n')
        &&& !self.blank.contains('\n')
        &&& without_trailing_cr(self.blank).len() == 0
        &&& taken.1 is None
        &&& (host.feed)(taken.0, Seq::empty()) == (rest, Some(self.data))
    }

    /// Whether the data is neither a chunk nor the end of the stream.
    pub open spec fn is_malformed<P>(self, host: Host<P>) -> bool {
        !is_done_marker(self.data) && (host.decode)(self.data) is None
    }
}

/// Whether a parser at rest is not disturbed by an empty line.
pub open spec fn rests<P>(host: Host<P>, rest: P) -> bool {
    (host.feed)(rest, Seq::empty()) == (rest, None::<Seq<char>>)
}

/// The text of several frames.
pub open spec fn frames_text(frames: Seq<OneLineFrame>) -> Seq<char>
    decreases frames.len(),
{
    if frames.len() == 0 {
        Seq::empty()
    } else {
        frames[0].text() + frames_text(frames.drop_first())
    }
}

/// The lines of several frames.
spec fn frames_lines(frames: Seq<OneLineFrame>) -> Seq<Seq<char>>
    decreases frames.len(),
{
    if frames.len() == 0 {
        Seq::empty()
    } else {
        seq![frames[0].line, frames[0].blank] + frames_lines(frames.drop_first())
    }
}

/// The events that the data of several frames add, up to the end of the stream. Data that is no
/// chunk adds nothing.
pub open spec fn frames_events<P>(
    host: Host<P>,
    converter: ConverterView,
    frames: Seq<OneLineFrame>,
) -> Seq<StreamEventView>
    decreases frames.len(),
{
    if frames.len() == 0 || is_done_marker(frames[0].data) {
        Seq::empty()
    } else {
        match (host.decode)(frames[0].data) {
            Some(chunk) => (host.adds)(converter, chunk) + frames_events(
                host,
                converter.after_chunk(chunk),
                frames.drop_first(),
            ),
            None => frames_events(host, converter, frames.drop_first()),
        }
    }
}

proof fn lemma_line_first(line: Seq<char>, rest: Seq<char>)
    requires
        !line.contains('\n'),
    ensures
        complete_lines(line.push('\n') + rest) == seq![line] + complete_lines(rest),
{
    let ended = line.push('\n');
    lemma_single_line(line);
    assert(ended.drop_last() == line);
    assert(split_lines(ended) == seq![line].push(Seq::empty()));
    lemma_split_append(ended, rest);
    law_lines_make_up_the_text(rest);
    assert(Seq::<char>::empty() + rest == rest);
    assert(seq![line].push(Seq::<char>::empty()).drop_last() == seq![line]);
    assert(complete_lines(ended + rest) == seq![line] + complete_lines(rest));
}

proof fn lemma_frames_lines<P>(
    host: Host<P>,
    rest: P,
    frames: Seq<OneLineFrame>,
    tail: Seq<char>,
)
    requires
        !tail.contains('\n'),
        forall|i: int| 0 <= i < frames.len() ==> (#[trigger] frames[i]).is_taken_by(host, rest),
    ensures
        complete_lines(frames_text(frames) + tail) == frames_lines(frames),
    decreases frames.len(),
{
    if frames.len() == 0 {
        assert(frames_text(frames) + tail == tail);
        lemma_single_line(tail);
    } else {
        let others = frames.drop_first();
        assert forall|i: int| 0 <= i < others.len() implies (#[trigger] others[i]).is_taken_by(
            host,
            rest,
        ) by {
            assert(others[i] == frames[i + 1]);
        }
        lemma_frames_lines(host, rest, others, tail);
        let frame = frames[0];
        let text = frames_text(others) + tail;
        let behind = frame.blank.push('\n') + text;
        assert(frames_text(frames) + tail == frame.line.push('\n') + behind);
        lemma_line_first(frame.line, behind);
        lemma_line_first(frame.blank, text);
        assert(seq![frame.line] + (seq![frame.blank] + frames_lines(others)) == seq![
            frame.line,
            frame.blank,
        ] + frames_lines(others));
    }
}

/// An empty line changes nothing where the parser is at rest.
proof fn lemma_blank_at_rest<P>(
    host: Host<P>,
    converter: ConverterView,
    rest: P,
    lines: Seq<Seq<char>>,
)
    requires
        rests(host, rest),
        lines.len() > 0,
        without_trailing_cr(lines[0]).len() == 0,
    ensures
        lines_events(host, converter, rest, lines) == lines_events(
            host,
            converter,
            rest,
            lines.drop_first(),
        ),
{
    assert(without_trailing_cr(lines[0]) == Seq::<char>::empty());
}

/// The lines of frames, with an empty line added behind some of them, add what the frames add.
proof fn lemma_padded_frames<P>(
    host: Host<P>,
    converter: ConverterView,
    rest: P,
    frames: Seq<OneLineFrame>,
    found: Seq<Seq<char>>,
)
    requires
        rests(host, rest),
        forall|i: int| 0 <= i < frames.len() ==> (#[trigger] frames[i]).is_taken_by(host, rest),
        padded(frames_lines(frames), found),
    ensures
        lines_events(host, converter, rest, found) == frames_events(host, converter, frames),
    decreases frames.len(),
{
    if frames.len() > 0 {
        let frame = frames[0];
        let others = frames.drop_first();
        assert(frame.is_taken_by(host, rest));
        assert forall|i: int| 0 <= i < others.len() implies (#[trigger] others[i]).is_taken_by(
            host,
            rest,
        ) by {
            assert(others[i] == frames[i + 1]);
        }
        let lines = frames_lines(frames);
        let inside = (host.feed)(rest, without_trailing_cr(frame.line)).0;
        let behind = lines.drop_first();
        assert(behind == seq![frame.blank] + frames_lines(others));
        assert(behind.drop_first() == frames_lines(others));
        let fed = found.drop_first();
        assert(lines_events(host, converter, rest, found) == lines_events(
            host,
            converter,
            inside,
            fed,
        ));
        let after = match (host.decode)(frame.data) {
            Some(chunk) => converter.after_chunk(chunk),
            None => converter,
        };
        assert(without_trailing_cr(Seq::<char>::empty()) == Seq::<char>::empty());
        assert(without_trailing_cr(frame.blank) == Seq::<char>::empty());
        // Whatever empty line comes first, it completes the frame.
        let completed = fed.drop_first();
        if padded(behind, fed) {
            if padded(frames_lines(others), completed) {
                lemma_padded_frames(host, after, rest, others, completed);
            } else {
                assert(completed[0] == fed[1]);
                assert(completed[0] == Seq::<char>::empty());
                lemma_blank_at_rest(host, after, rest, completed);
                lemma_padded_frames(host, after, rest, others, completed.drop_first());
            }
            assert(without_trailing_cr(fed[0]) == Seq::<char>::empty());
        } else {
            assert(fed[0] == found[1]);
            assert(fed[0] == Seq::<char>::empty());
            assert(padded(behind, completed));
            lemma_blank_at_rest(host, after, rest, completed);
            let next = completed.drop_first();
            if padded(frames_lines(others), next) {
                lemma_padded_frames(host, after, rest, others, next);
            } else {
                assert(next[0] == completed[1]);
                assert(next[0] == Seq::<char>::empty());
                lemma_blank_at_rest(host, after, rest, next);
                lemma_padded_frames(host, after, rest, others, next.drop_first());
            }
            assert(without_trailing_cr(fed[0]) == Seq::<char>::empty());
        }
        assert(lines_events(host, after, rest, completed) == frames_events(host, after, others));
    }
}

/// An answer of frames of one line each is read frame by frame, however it is cut: in the middle
/// of a line, between a carriage return and its line feed, or between the two line feeds of a
/// frame. A last line that no line feed ends is dropped.
pub proof fn law_frames_are_read_however_they_are_cut<P>(
    host: Host<P>,
    rest: P,
    message_id: Seq<char>,
    frames: Seq<OneLineFrame>,
    tail: Seq<char>,
    deliveries: Seq<Seq<char>>,
)
    requires
        rests(host, rest),
        forall|i: int| 0 <= i < frames.len() ==> (#[trigger] frames[i]).is_taken_by(host, rest),
        !tail.contains('\n'),
        concatenated(deliveries) == frames_text(frames) + tail,
    ensures
        whole_answer(host, rest, message_id, deliveries) == seq![message_start(message_id)]
            + frames_events(host, initial(message_id), frames),
{
    law_answer_is_that_of_its_lines(host, rest, message_id, deliveries);
    law_deliveries_pad_the_lines(Seq::empty(), deliveries);
    assert(Seq::<char>::empty() + concatenated(deliveries) == concatenated(deliveries));
    lemma_frames_lines(host, rest, frames, tail);
    lemma_padded_frames(
        host,
        initial(message_id),
        rest,
        frames,
        delivered_lines(Seq::empty(), deliveries),
    );
}

/// Frames that are malformed add nothing.
pub proof fn lemma_malformed_add_nothing<P>(
    host: Host<P>,
    converter: ConverterView,
    frames: Seq<OneLineFrame>,
)
    ensures
        frames_events(host, converter, frames) == frames_events(
            host,
            converter,
            frames.filter(|frame: OneLineFrame| !frame.is_malformed(host)),
        ),
    decreases frames.len(),
{
    let sound = |frame: OneLineFrame| !frame.is_malformed(host);
    reveal(Seq::filter);
    if frames.len() > 0 {
        let frame = frames[0];
        let others = frames.drop_first();
        let kept = frames.filter(sound);
        assert(frames == seq![frame] + others);
        Seq::filter_distributes_over_add(seq![frame], others, sound);
        assert(seq![frame].drop_last() == Seq::<OneLineFrame>::empty());
        reveal_with_fuel(Seq::filter, 2);
        if sound(frame) {
            assert(seq![frame].filter(sound) == seq![frame]);
            assert(kept == seq![frame] + others.filter(sound));
            assert(kept.drop_first() == others.filter(sound));
            match (host.decode)(frame.data) {
                Some(chunk) => {
                    lemma_malformed_add_nothing(host, converter.after_chunk(chunk), others);
                },
                None => {},
            }
        } else {
            assert(seq![frame].filter(sound) == Seq::<OneLineFrame>::empty());
            assert(kept == others.filter(sound));
            lemma_malformed_add_nothing(host, converter, others);
        }
    }
}

/// Hosts that are alike get the same events out of frames, but for the order in which tool calls
/// are ended.
pub proof fn lemma_alike<P>(
    host: Host<P>,
    other: Host<P>,
    converter: ConverterView,
    frames: Seq<OneLineFrame>,
)
    requires
        host.is_alike(other),
        converter.wf(),
    ensures
        same_but_for_ends(
            frames_events(host, converter, frames),
            frames_events(other, converter, frames),
        ),
        host.adds == other.adds ==> frames_events(host, converter, frames) == frames_events(
            other,
            converter,
            frames,
        ),
    decreases frames.len(),
{
    if frames.len() > 0 && !is_done_marker(frames[0].data) {
        let rest = frames.drop_first();
        match (host.decode)(frames[0].data) {
            Some(chunk) => {
                let left = (host.adds)(converter, chunk);
                let right = (other.adds)(converter, chunk);
                let after = converter.after_chunk(chunk);
                law_only_the_order_of_ends_is_open(converter, chunk, left, right);
                law_chunks_keep_the_state_valid(converter, chunk);
                lemma_alike(host, other, after, rest);
                lemma_same_append(
                    left,
                    right,
                    frames_events(host, after, rest),
                    frames_events(other, after, rest),
                );
            },
            None => {
                lemma_alike(host, other, converter, rest);
            },
        }
    }
}

/// Whether an event is neither the start of a message nor an error.
pub open spec fn goes_on_quietly(event: StreamEventView) -> bool {
    !(event is MessageStart) && !(event is Error)
}

proof fn lemma_lines_go_on<P>(
    host: Host<P>,
    converter: ConverterView,
    parser: P,
    lines: Seq<Seq<char>>,
)
    requires
        host.adds_what_chunks_emit(),
        converter.wf(),
    ensures
        forall|i: int|
            0 <= i < lines_events(host, converter, parser, lines).len() ==> goes_on_quietly(
                #[trigger] lines_events(host, converter, parser, lines)[i],
            ),
    decreases lines.len(),
{
    if lines.len() > 0 {
        let fed = (host.feed)(parser, without_trailing_cr(lines[0]));
        let rest = lines.drop_first();
        let decoded = match fed.1 {
            Some(data) => (host.decode)(data),
            None => None,
        };
        match decoded {
            Some(chunk) => {
                let added = (host.adds)(converter, chunk);
                let after = converter.after_chunk(chunk);
                law_finish_ends_the_message(converter, chunk, added);
                law_chunks_keep_the_state_valid(converter, chunk);
                lemma_lines_go_on(host, after, fed.0, rest);
                assert forall|i: int| 0 <= i < added.len() implies goes_on_quietly(
                    #[trigger] added[i],
                ) by {
                    if finish_reason(chunk) is None {
                        assert(about_block(added[i]));
                    } else if i < added.len() - 2 {
                        assert(added.take(added.len() - 2)[i] == added[i]);
                    } else {
                        assert(added.skip(added.len() - 2)[i - (added.len() - 2)] == added[i]);
                    }
                }
                let later = lines_events(host, after, fed.0, rest);
                let events = lines_events(host, converter, parser, lines);
                assert(events == added + later || events.len() == 0);
                assert forall|i: int| 0 <= i < (added + later).len() implies goes_on_quietly(
                    #[trigger] (added + later)[i],
                ) by {
                    if i >= added.len() {
                        assert((added + later)[i] == later[i - added.len()]);
                    }
                }
            },
            None => {
                lemma_lines_go_on(host, converter, fed.0, rest);
                let events = lines_events(host, converter, parser, lines);
                assert(events == lines_events(host, converter, fed.0, rest) || events.len() == 0);
            },
        }
    }
}

/// Whatever comes, exactly one event of an answer starts a message, and it is the first; and
/// nothing that comes is answered with an error event.
pub proof fn law_answer_starts_one_message<P>(
    host: Host<P>,
    parser: P,
    message_id: Seq<char>,
    deliveries: Seq<Seq<char>>,
)
    requires
        host.adds_what_chunks_emit(),
    ensures
        ({
            let events = whole_answer(host, parser, message_id, deliveries);
            &&& events.len() > 0
            &&& events[0] == message_start(message_id)
            &&& forall|i: int| 0 < i < events.len() ==> goes_on_quietly(#[trigger] events[i])
        }),
{
    law_answer_is_that_of_its_lines(host, parser, message_id, deliveries);
    let lines = delivered_lines(Seq::empty(), deliveries);
    lemma_lines_go_on(host, initial(message_id), parser, lines);
    let later = lines_events(host, initial(message_id), parser, lines);
    let events = whole_answer(host, parser, message_id, deliveries);
    assert forall|i: int| 0 < i < events.len() implies goes_on_quietly(#[trigger] events[i]) by {
        assert(events[i] == later[i - 1]);
    }
}

} // verus!
