//! The steps of a session, in terms of what waits and what comes.
use crate::laws::reading::law_reading_loses_nothing;
use crate::session::{initial_session, ready_lines, SessionActionView, SessionView};
use crate::text::{joined, without_trailing_cr};
use crate::types::StreamEventView;
use crate::wire::OAIChunkView;
use vstd::prelude::*;

verus! {

/// A session starts with nothing that waits.
pub proof fn law_session_starts_with_nothing(message_id: Seq<char>)
    ensures
        ({
            let state = initial_session(message_id);
            &&& state.leftover.len() == 0
            &&& state.lines.len() == 0
            &&& state.events.len() == 0
            &&& state.converter.next_block_index == 0
            &&& !state.converter.text_block_open
            &&& state.converter.tools == Map::<usize, nat>::empty()
            &&& state.converter.message_id == message_id
        }),
{
}

/// Going on takes the first of the events that wait, or else the first of the lines, and leaves
/// all else as it is. What it takes is what the next action hands out, a line without the carriage
/// returns at its end; where nothing waits, more is read.
pub proof fn law_going_on_takes_the_first(state: SessionView)
    ensures
        ({
            let next = state.advanced();
            &&& next.converter == state.converter
            &&& next.leftover == state.leftover
            &&& match state.next_action() {
                SessionActionView::Emit(event) => state.events == seq![event] + next.events
                    && next.lines == state.lines,
                SessionActionView::FeedLine(line) => state.events.len() == 0 && next.events.len()
                    == 0 && state.lines.len() == next.lines.len() + 1 && next.lines
                    == state.lines.skip(1) && line == without_trailing_cr(state.lines[0]),
                SessionActionView::ReadBytes => state.events.len() == 0 && state.lines.len() == 0
                    && next == state,
                _ => false,
            }
        }),
{
    if state.events.len() > 0 {
        assert(state.events == seq![state.events[0]] + state.events.drop_first());
    } else if state.lines.len() > 0 {
        assert(state.lines.drop_first() == state.lines.skip(1));
    }
}

/// Text that comes is put behind the beginning of the line that was kept, and all of it is there
/// afterwards: in the lines that are added behind those that wait, and in the beginning of a line
/// that is kept. Nothing else changes.
pub proof fn law_text_that_comes_is_there(state: SessionView, text: Seq<char>)
    ensures
        ({
            let next = state.with_text(text);
            let combined = state.leftover + text;
            let added = next.lines.skip(state.lines.len() as int);
            &&& next.converter == state.converter
            &&& next.events == state.events
            &&& next.lines.len() >= state.lines.len()
            &&& next.lines.take(state.lines.len() as int) == state.lines
            &&& combined.len() > 0 && combined.last() == '\n' ==> joined(added) == combined
                && next.leftover.len() == 0
            &&& combined.len() == 0 || combined.last() != '\n' ==> joined(
                added.push(next.leftover),
            ) == combined
            &&& !next.leftover.contains('\n')
            &&& forall|i: int| 0 <= i < added.len() ==> !(#[trigger] added[i]).contains('\n')
        }),
{
    law_reading_loses_nothing(state.leftover + text);
    let next = state.with_text(text);
    let added = next.lines.skip(state.lines.len() as int);
    assert(added == ready_lines(state.leftover + text));
    assert(next.lines.take(state.lines.len() as int) == state.lines);
}

/// A chunk puts the events that it adds behind those that wait, all of them, and changes the
/// conversion as the chunk does. Nothing else changes.
pub proof fn law_events_of_a_chunk_wait_behind_the_others(
    state: SessionView,
    chunk: OAIChunkView,
    added: Seq<StreamEventView>,
)
    ensures
        ({
            let next = state.with_chunk(chunk, added);
            &&& next.converter == state.converter.after_chunk(chunk)
            &&& next.leftover == state.leftover
            &&& next.lines == state.lines
            &&& next.events.len() == state.events.len() + added.len()
            &&& next.events.take(state.events.len() as int) == state.events
            &&& next.events.skip(state.events.len() as int) == added
        }),
{
}

} // verus!
