//! The reading of an answer: how its text is cut into lines, and what is done in which order.
use crate::session::{incomplete_line, ready_lines, SessionActionView, SessionView};
use crate::text::{ends_line, joined, split_lines, without_trailing_cr};
use crate::types::StreamEventView;
use crate::wire::OAIChunkView;
use vstd::prelude::*;

verus! {

/// Cutting a text at its line feeds loses nothing: the parts, joined by line feeds, are the
/// text, and no part holds a line feed.
pub proof fn law_lines_make_up_the_text(text: Seq<char>)
    ensures
        split_lines(text).len() > 0,
        joined(split_lines(text)) == text,
        forall|i: int| 0 <= i < split_lines(text).len() ==> !(#[trigger] split_lines(
            text,
        )[i]).contains('\n'),
    decreases text.len(),
{
    let parts = split_lines(text);
    if text.len() == 0 {
        assert(joined(parts) == parts[0]);
        assert(!parts[0].contains('\n'));
    } else {
        let front = split_lines(text.drop_last());
        let last = text.last();
        law_lines_make_up_the_text(text.drop_last());
        assert(text == text.drop_last().push(last));
        if last == '\n' {
            assert(parts.drop_last() == front);
            assert(joined(parts) == text.drop_last().push('\n') + Seq::<char>::empty());
            assert forall|i: int| 0 <= i < parts.len() implies !(#[trigger] parts[i]).contains(
                '\n',
            ) by {
                if i < front.len() {
                    assert(parts[i] == front[i]);
                }
            }
        } else {
            let grown = front.last().push(last);
            assert(parts.drop_last() == front.drop_last());
            assert(joined(parts) == joined(front).push(last)) by {
                if front.len() == 1 {
                    assert(joined(parts) == grown);
                } else {
                    let head = joined(front.drop_last()).push('\n');
                    assert(head + grown == (head + front.last()).push(last));
                }
            }
            assert forall|i: int| 0 <= i < parts.len() implies !(#[trigger] parts[i]).contains(
                '\n',
            ) by {
                if i < front.len() - 1 {
                    assert(parts[i] == front[i]);
                } else {
                    assert(parts[i] == grown);
                    assert(!front[front.len() - 1].contains('\n'));
                    if grown.contains('\n') {
                        let at = choose|at: int| 0 <= at < grown.len() && grown[at] == '\n';
                        assert(at < front.last().len());
                        assert(front.last()[at] == '\n');
                    }
                }
            }
        }
    }
}

/// What is handed on and what is kept back make up the text at hand, cut at every line feed.
/// Where the text ends with a line feed nothing is kept back.
pub proof fn law_reading_loses_nothing(combined: Seq<char>)
    ensures
        combined.len() > 0 && combined.last() == '\n' ==> joined(ready_lines(combined)) == combined
            && incomplete_line(combined) == Seq::<char>::empty(),
        combined.len() == 0 || combined.last() != '\n' ==> joined(
            ready_lines(combined).push(incomplete_line(combined)),
        ) == combined,
        !incomplete_line(combined).contains('\n'),
        forall|i: int|
            0 <= i < ready_lines(combined).len() ==> !(#[trigger] ready_lines(
                combined,
            )[i]).contains('\n'),
{
    law_lines_make_up_the_text(combined);
    let parts = split_lines(combined);
    assert forall|i: int| 0 <= i < ready_lines(combined).len() implies !(#[trigger] ready_lines(
        combined,
    )[i]).contains('\n') by {
        assert(ready_lines(combined)[i] == parts[i]);
    }
    if !ends_line(combined) {
        assert(parts.drop_last().push(parts.last()) == parts);
        assert(!parts[parts.len() - 1].contains('\n'));
    }
}

/// The lines of a text that is continued: those before its last line stay, and the last one is
/// continued.
pub proof fn lemma_split_append(first: Seq<char>, second: Seq<char>)
    ensures
        split_lines(first).len() > 0,
        split_lines(first + second) == split_lines(first).drop_last() + split_lines(
            split_lines(first).last() + second,
        ),
    decreases second.len(),
{
    law_lines_make_up_the_text(first);
    let head = split_lines(first).drop_last();
    let tail = split_lines(first).last();
    if second.len() == 0 {
        assert(first + second == first);
        assert(tail + second == tail);
        assert(!split_lines(first)[split_lines(first).len() - 1].contains('\n'));
        lemma_single_line(tail);
        assert(head + seq![tail] == split_lines(first));
    } else {
        let shorter = second.drop_last();
        lemma_split_append(first, shorter);
        assert((first + second).drop_last() == first + shorter);
        assert((tail + second).drop_last() == tail + shorter);
        law_lines_make_up_the_text(tail + shorter);
        let rest = split_lines(tail + shorter);
        if second.last() == '\n' {
            assert((head + rest).push(Seq::empty()) == head + rest.push(Seq::empty()));
        } else {
            let grown = rest.last().push(second.last());
            assert((head + rest).drop_last() == head + rest.drop_last());
            assert((head + rest).last() == rest.last());
            assert((head + rest.drop_last()).push(grown) == head + rest.drop_last().push(grown));
        }
    }
}

/// A text without line feeds is one line.
pub proof fn lemma_single_line(text: Seq<char>)
    requires
        !text.contains('\n'),
    ensures
        split_lines(text) == seq![text],
    decreases text.len(),
{
    if text.len() > 0 {
        let front = text.drop_last();
        assert(!front.contains('\n')) by {
            if front.contains('\n') {
                let at = choose|at: int| 0 <= at < front.len() && front[at] == '\n';
                assert(text[at] == '\n');
            }
        }
        assert(text[text.len() - 1] != '\n');
        lemma_single_line(front);
        assert(text == front.push(text.last()));
        let grown = front.push(text.last());
        assert(split_lines(text) == seq![front].drop_last().push(grown));
        assert(seq![front].drop_last().push(grown) == seq![grown]);
    } else {
        assert(text == Seq::<char>::empty());
    }
}

/// Where an answer is cut on its way does not matter, unless it is cut right behind a line
/// feed: two pieces of text give the lines that they give as one.
pub proof fn law_cuts_do_not_matter(state: SessionView, first: Seq<char>, second: Seq<char>)
    requires
        !ends_line(state.leftover + first),
    ensures
        state.with_text(first).with_text(second) == state.with_text(first + second),
{
    let combined = state.leftover + first;
    let kept = incomplete_line(combined);
    lemma_split_append(combined, second);
    law_lines_make_up_the_text(combined);
    assert(state.leftover + (first + second) == combined + second);
    let whole = combined + second;
    let late = kept + second;
    assert(kept == split_lines(combined).last());
    law_lines_make_up_the_text(late);
    let head = split_lines(combined).drop_last();
    assert(split_lines(whole) == head + split_lines(late));
    assert(ends_line(whole) == ends_line(late)) by {
        if second.len() > 0 {
            assert(whole.last() == second.last());
            assert(late.last() == second.last());
        } else {
            assert(whole == combined);
            assert(late == kept);
            assert(!split_lines(combined)[split_lines(combined).len() - 1].contains('\n'));
            if ends_line(kept) {
                assert(kept[kept.len() - 1] == '\n');
                assert(kept.contains('\n'));
            }
        }
    }
    assert(ready_lines(whole) == head + ready_lines(late));
    assert(incomplete_line(whole) == incomplete_line(late));
    assert(state.lines + ready_lines(whole) == state.lines + head + ready_lines(late));
}

/// The lines of a text that are complete: those that a line feed ends.
pub open spec fn complete_lines(text: Seq<char>) -> Seq<Seq<char>> {
    split_lines(text).drop_last()
}

/// Where an answer is cut right behind a line feed, exactly one empty line is added at that
/// place, and nothing else changes.
pub proof fn law_cut_behind_a_line_feed_adds_an_empty_line(
    state: SessionView,
    first: Seq<char>,
    second: Seq<char>,
)
    requires
        ends_line(state.leftover + first),
        second.len() > 0,
    ensures
        ({
            let whole = state.with_text(first + second);
            let place = state.lines.len() + complete_lines(state.leftover + first).len();
            &&& place <= whole.lines.len()
            &&& state.with_text(first).with_text(second) == SessionView {
                lines: whole.lines.insert(place as int, Seq::empty()),
                ..whole
            }
        }),
{
    let combined = state.leftover + first;
    let head = complete_lines(combined);
    lemma_split_append(combined, second);
    law_lines_make_up_the_text(combined);
    law_lines_make_up_the_text(second);
    assert(state.leftover + (first + second) == combined + second);
    assert(split_lines(combined).last() == Seq::<char>::empty());
    assert(Seq::<char>::empty() + second == second);
    assert(split_lines(combined) == head.push(Seq::empty()));
    assert((combined + second).last() == second.last());
    let whole = combined + second;
    assert(split_lines(whole) == head + split_lines(second));
    assert(ready_lines(whole) == head + ready_lines(second));
    assert(incomplete_line(whole) == incomplete_line(second));
    let place = state.lines.len() + head.len();
    assert(state.lines + split_lines(combined) + ready_lines(second) == (state.lines + ready_lines(
        whole,
    )).insert(place as int, Seq::empty()));
}

/// The state after the next things to do were done so many times, with nothing new coming in.
pub open spec fn advanced_times(state: SessionView, times: nat) -> SessionView
    decreases times,
{
    if times == 0 {
        state
    } else {
        advanced_times(state, (times - 1) as nat).advanced()
    }
}

/// The events that wait are sent in their order, and before any line is parsed; then the lines
/// are parsed in their order, and before more is read.
pub proof fn law_waiting_work_is_done_in_order(state: SessionView, times: nat)
    requires
        times <= state.events.len() + state.lines.len(),
    ensures
        times < state.events.len() ==> advanced_times(state, times).next_action()
            == SessionActionView::Emit(state.events[times as int]),
        state.events.len() <= times < state.events.len() + state.lines.len() ==> advanced_times(
            state,
            times,
        ).next_action() == SessionActionView::FeedLine(
            without_trailing_cr(state.lines[times - state.events.len()]),
        ),
        times == state.events.len() + state.lines.len() ==> advanced_times(
            state,
            times,
        ).next_action() == SessionActionView::ReadBytes,
{
    lemma_advanced_times(state, times);
}

proof fn lemma_advanced_times(state: SessionView, times: nat)
    requires
        times <= state.events.len() + state.lines.len(),
    ensures
        ({
            let sent = if times <= state.events.len() {
                times as int
            } else {
                state.events.len() as int
            };
            advanced_times(state, times) == SessionView {
                events: state.events.skip(sent),
                lines: state.lines.skip(times - sent),
                ..state
            }
        }),
    decreases times,
{
    if times == 0 {
        assert(state.events.skip(0) == state.events);
        assert(state.lines.skip(0) == state.lines);
    } else {
        let before = (times - 1) as nat;
        lemma_advanced_times(state, before);
        if times <= state.events.len() {
            assert(state.events.skip(before as int).drop_first() == state.events.skip(
                times as int,
            ));
            assert(state.lines.skip(0) == state.lines);
        } else {
            let sent = state.events.len() as int;
            assert(state.events.skip(sent) == Seq::<StreamEventView>::empty());
            assert(state.lines.skip(before - sent).drop_first() == state.lines.skip(
                times - sent,
            ));
        }
    }
}

/// What may come of an action, in the terms of the contracts of a session.
pub enum SessionInputView {
    /// An event was sent.
    Sent,
    /// Text has come.
    Text(Seq<char>),
    /// A line was parsed, and completes no frame.
    NoFrame,
    /// A line was parsed, and completes a frame with that data.
    Frame(Seq<char>),
    /// The data of a frame is a chunk, which adds these events.
    Chunk(OAIChunkView, Seq<StreamEventView>),
    /// The data of a frame is no chunk.
    NoChunk,
}

/// The state that an input is added to before the next thing to do is looked for.
pub open spec fn taken(state: SessionView, input: SessionInputView) -> SessionView {
    match input {
        SessionInputView::Text(text) => state.with_text(text),
        SessionInputView::Chunk(chunk, added) => state.with_chunk(chunk, added),
        _ => state,
    }
}

/// The state after an input.
pub open spec fn after_input(state: SessionView, input: SessionInputView) -> SessionView {
    match input {
        SessionInputView::Frame(_) => state,
        _ => taken(state, input).advanced(),
    }
}

/// The state after several inputs.
pub open spec fn after_inputs(state: SessionView, inputs: Seq<SessionInputView>) -> SessionView
    decreases inputs.len(),
{
    if inputs.len() == 0 {
        state
    } else {
        after_input(after_inputs(state, inputs.drop_last()), inputs.last())
    }
}

/// The events that the actions for several inputs emit.
pub open spec fn sent_events(state: SessionView, inputs: Seq<SessionInputView>) -> Seq<
    StreamEventView,
>
    decreases inputs.len(),
{
    if inputs.len() == 0 {
        Seq::empty()
    } else {
        let front = sent_events(state, inputs.drop_last());
        let before = taken(after_inputs(state, inputs.drop_last()), inputs.last());
        match before.next_action() {
            SessionActionView::Emit(event) => if inputs.last() is Frame {
                front
            } else {
                front.push(event)
            },
            _ => front,
        }
    }
}

/// The lines that the actions for several inputs hand to the parser.
pub open spec fn parsed_lines(state: SessionView, inputs: Seq<SessionInputView>) -> Seq<Seq<char>>
    decreases inputs.len(),
{
    if inputs.len() == 0 {
        Seq::empty()
    } else {
        let front = parsed_lines(state, inputs.drop_last());
        let before = taken(after_inputs(state, inputs.drop_last()), inputs.last());
        match before.next_action() {
            SessionActionView::FeedLine(line) => if inputs.last() is Frame {
                front
            } else {
                front.push(line)
            },
            _ => front,
        }
    }
}

/// The events that the chunks among several inputs add.
pub open spec fn added_events(inputs: Seq<SessionInputView>) -> Seq<StreamEventView>
    decreases inputs.len(),
{
    if inputs.len() == 0 {
        Seq::empty()
    } else {
        let front = added_events(inputs.drop_last());
        match inputs.last() {
            SessionInputView::Chunk(_, added) => front + added,
            _ => front,
        }
    }
}

/// The lines that several inputs add.
pub open spec fn added_lines(state: SessionView, inputs: Seq<SessionInputView>) -> Seq<Seq<char>>
    decreases inputs.len(),
{
    if inputs.len() == 0 {
        Seq::empty()
    } else {
        let front = added_lines(state, inputs.drop_last());
        match inputs.last() {
            SessionInputView::Text(text) => front + ready_lines(
                after_inputs(state, inputs.drop_last()).leftover + text,
            ),
            _ => front,
        }
    }
}

/// Each event is sent once, in its order: whatever comes, the events that were sent and those
/// that wait are those that waited at first and those that the chunks added.
pub proof fn law_every_event_is_sent_once(state: SessionView, inputs: Seq<SessionInputView>)
    ensures
        sent_events(state, inputs) + after_inputs(state, inputs).events == state.events
            + added_events(inputs),
    decreases inputs.len(),
{
    if inputs.len() == 0 {
        assert(Seq::<StreamEventView>::empty() + state.events == state.events
            + Seq::<StreamEventView>::empty());
    } else {
        law_every_event_is_sent_once(state, inputs.drop_last());
        let front = sent_events(state, inputs.drop_last());
        let middle = after_inputs(state, inputs.drop_last());
        let before = taken(middle, inputs.last());
        assert(front + before.events == state.events + added_events(inputs)) by {
            if let SessionInputView::Chunk(_, added) = inputs.last() {
                assert(front + (middle.events + added) == (front + middle.events) + added);
                assert(state.events + (added_events(inputs.drop_last()) + added) == (state.events
                    + added_events(inputs.drop_last())) + added);
            }
        }
        if !(inputs.last() is Frame) && before.events.len() > 0 {
            assert(front + before.events == front.push(before.events[0])
                + before.events.drop_first());
        }
    }
}

/// Each line is parsed once, in its order, without the carriage returns at its end: whatever
/// comes, the lines that were parsed and those that wait are those that waited at first and
/// those that the text added.
pub proof fn law_every_line_is_parsed_once(state: SessionView, inputs: Seq<SessionInputView>)
    ensures
        parsed_lines(state, inputs) + trimmed_lines(after_inputs(state, inputs).lines)
            == trimmed_lines(state.lines + added_lines(state, inputs)),
    decreases inputs.len(),
{
    if inputs.len() == 0 {
        assert(state.lines + Seq::<Seq<char>>::empty() == state.lines);
        assert(Seq::<Seq<char>>::empty() + trimmed_lines(state.lines) == trimmed_lines(
            state.lines,
        ));
    } else {
        law_every_line_is_parsed_once(state, inputs.drop_last());
        let front = parsed_lines(state, inputs.drop_last());
        let middle = after_inputs(state, inputs.drop_last());
        let before = taken(middle, inputs.last());
        let earlier = state.lines + added_lines(state, inputs.drop_last());
        assert(front + trimmed_lines(before.lines) == trimmed_lines(
            state.lines + added_lines(state, inputs),
        )) by {
            if let SessionInputView::Text(text) = inputs.last() {
                let ready = ready_lines(middle.leftover + text);
                assert(trimmed_lines(middle.lines + ready) == trimmed_lines(middle.lines)
                    + trimmed_lines(ready));
                assert(state.lines + added_lines(state, inputs) == earlier + ready);
                assert(trimmed_lines(earlier + ready) == trimmed_lines(earlier) + trimmed_lines(
                    ready,
                ));
                assert(front + (trimmed_lines(middle.lines) + trimmed_lines(ready)) == (front
                    + trimmed_lines(middle.lines)) + trimmed_lines(ready));
            }
        }
        if !(inputs.last() is Frame) && before.events.len() == 0 && before.lines.len() > 0 {
            assert(trimmed_lines(before.lines.drop_first()) == trimmed_lines(
                before.lines,
            ).drop_first());
            assert(front + trimmed_lines(before.lines) == front.push(
                without_trailing_cr(before.lines[0]),
            ) + trimmed_lines(before.lines).drop_first());
        }
    }
}

proof fn lemma_inputs_append(
    state: SessionView,
    first: Seq<SessionInputView>,
    second: Seq<SessionInputView>,
)
    ensures
        after_inputs(state, first + second) == after_inputs(after_inputs(state, first), second),
        sent_events(state, first + second) == sent_events(state, first) + sent_events(
            after_inputs(state, first),
            second,
        ),
        parsed_lines(state, first + second) == parsed_lines(state, first) + parsed_lines(
            after_inputs(state, first),
            second,
        ),
    decreases second.len(),
{
    if second.len() == 0 {
        assert(first + second == first);
        assert(sent_events(state, first) + Seq::<StreamEventView>::empty() == sent_events(
            state,
            first,
        ));
        assert(parsed_lines(state, first) + Seq::<Seq<char>>::empty() == parsed_lines(
            state,
            first,
        ));
    } else {
        lemma_inputs_append(state, first, second.drop_last());
        assert((first + second).drop_last() == first + second.drop_last());
        assert(sent_events(state, first + second) == sent_events(state, first) + sent_events(
            after_inputs(state, first),
            second,
        ));
        assert(parsed_lines(state, first + second) == parsed_lines(state, first) + parsed_lines(
            after_inputs(state, first),
            second,
        ));
    }
}

/// A frame whose data is no chunk is passed over: all goes on as behind a line that completes no
/// frame.
pub proof fn law_frame_without_chunk_is_passed_over(
    state: SessionView,
    before: Seq<SessionInputView>,
    data: Seq<char>,
    behind: Seq<SessionInputView>,
)
    ensures
        ({
            let with = before + seq![SessionInputView::Frame(data), SessionInputView::NoChunk]
                + behind;
            let without = before + seq![SessionInputView::NoFrame] + behind;
            &&& after_inputs(state, with) == after_inputs(state, without)
            &&& sent_events(state, with) == sent_events(state, without)
            &&& parsed_lines(state, with) == parsed_lines(state, without)
        }),
{
    let frame = SessionInputView::Frame(data);
    let middle = after_inputs(state, before);
    let with = seq![frame, SessionInputView::NoChunk];
    let without = seq![SessionInputView::NoFrame];
    assert(with.drop_last() == seq![frame]);
    assert(seq![frame].drop_last() == Seq::<SessionInputView>::empty());
    assert(without.drop_last() == Seq::<SessionInputView>::empty());
    reveal_with_fuel(after_inputs, 3);
    reveal_with_fuel(sent_events, 3);
    reveal_with_fuel(parsed_lines, 3);
    assert(after_inputs(middle, with) == after_inputs(middle, without));
    assert(sent_events(middle, with) == sent_events(middle, without));
    assert(parsed_lines(middle, with) == parsed_lines(middle, without));
    lemma_inputs_append(state, before, with);
    lemma_inputs_append(state, before, without);
    lemma_inputs_append(state, before + with, behind);
    lemma_inputs_append(state, before + without, behind);
}

/// The lines without the carriage returns at their ends.
pub open spec fn trimmed_lines(lines: Seq<Seq<char>>) -> Seq<Seq<char>> {
    lines.map_values(|line: Seq<char>| without_trailing_cr(line))
}

} // verus!
