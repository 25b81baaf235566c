//! The end of a message, and what a chunk leaves as it is.
use crate::stream::{
    call_deltas, finish_reason, lists_keys, stop_reason, usage_info, ConverterView,
};
use crate::types::StreamEventView;
use crate::wire::{OAIChunkView, OAIToolCallDeltaView};
use vstd::prelude::*;

verus! {

/// Whether an event is about a content block.
pub open spec fn about_block(event: StreamEventView) -> bool {
    event is ContentBlockStart || event is ContentBlockDelta || event is ContentBlockStop
}

/// Whether all events are about content blocks.
pub open spec fn all_about_blocks(events: Seq<StreamEventView>) -> bool {
    forall|i: int| 0 <= i < events.len() ==> about_block(#[trigger] events[i])
}

proof fn lemma_tools_events_about_blocks(state: ConverterView, deltas: Seq<OAIToolCallDeltaView>)
    ensures
        all_about_blocks(state.tools_events(deltas)),
    decreases deltas.len(),
{
    if deltas.len() > 0 {
        lemma_tools_events_about_blocks(state, deltas.drop_last());
    }
}

/// A chunk that says why the message ended ends it: behind what it says of the content blocks
/// stand the reason and the usage, and then the end of the message. Any other chunk says
/// nothing but of content blocks, so that a message is started and ended by nothing else.
pub proof fn law_finish_ends_the_message(
    state: ConverterView,
    chunk: OAIChunkView,
    events: Seq<StreamEventView>,
)
    requires
        state.emits(chunk, events),
    ensures
        finish_reason(chunk) matches Some(reason) ==> events.len() >= 2 && all_about_blocks(
            events.take(events.len() - 2),
        ) && events.skip(events.len() - 2) == seq![
            StreamEventView::MessageDelta {
                stop_reason: Some(stop_reason(reason)),
                usage: usage_info(chunk.usage),
            },
            StreamEventView::MessageStop,
        ],
        finish_reason(chunk) is None ==> all_about_blocks(events),
{
    if chunk.choices.len() > 0 {
        let choice = chunk.choices[0];
        lemma_tools_events_about_blocks(
            state.after_text(choice.content),
            call_deltas(choice.tool_calls),
        );
    }
    let front = state.delta_events(chunk);
    assert(all_about_blocks(front));
    if let Some(reason) = finish_reason(chunk) {
        let after = state.after_deltas(chunk);
        let order = choose|order: Seq<usize>|
            #![trigger lists_keys(order, after.tools)]
            lists_keys(order, after.tools) && events == state.chunk_events(chunk, order);
        let ending = seq![
            StreamEventView::MessageDelta {
                stop_reason: Some(stop_reason(reason)),
                usage: usage_info(chunk.usage),
            },
            StreamEventView::MessageStop,
        ];
        let blocks = front + (after.text_stop() + after.tool_stops(order));
        assert(events == blocks + ending);
        assert(events.take(events.len() - 2) == blocks);
        assert(events.skip(events.len() - 2) == ending);
    }
}

proof fn lemma_tools_keep(state: ConverterView, deltas: Seq<OAIToolCallDeltaView>)
    requires
        state.wf(),
    ensures
        state.after_tools(deltas).wf(),
        state.after_tools(deltas).message_id == state.message_id,
        state.after_tools(deltas).next_block_index >= state.next_block_index,
    decreases deltas.len(),
{
    if deltas.len() > 0 {
        lemma_tools_keep(state, deltas.drop_last());
    }
}

/// Whatever chunk comes, the state stays valid, the message keeps its identifier, and no index
/// of a block is given twice: the index of the next block never falls.
pub proof fn law_chunks_keep_the_state_valid(state: ConverterView, chunk: OAIChunkView)
    requires
        state.wf(),
    ensures
        state.after_chunk(chunk).wf(),
        state.after_chunk(chunk).message_id == state.message_id,
        state.after_chunk(chunk).next_block_index >= state.next_block_index,
{
    if chunk.choices.len() > 0 {
        let choice = chunk.choices[0];
        lemma_tools_keep(state.after_text(choice.content), call_deltas(choice.tool_calls));
    }
}

/// Only the first choice of a chunk counts, and its usage only where it ends the message.
pub proof fn law_first_choice_counts(
    state: ConverterView,
    chunk: OAIChunkView,
    other: OAIChunkView,
    events: Seq<StreamEventView>,
)
    requires
        chunk.choices.len() > 0,
        other.choices.len() > 0,
        chunk.choices[0] == other.choices[0],
        chunk.usage == other.usage || finish_reason(chunk) is None,
    ensures
        state.emits(chunk, events) == state.emits(other, events),
        state.after_chunk(chunk) == state.after_chunk(other),
{
    assert(state.after_deltas(chunk) == state.after_deltas(other));
    assert(state.delta_events(chunk) == state.delta_events(other));
    if finish_reason(chunk) is Some {
        assert forall|order: Seq<usize>| state.chunk_events(chunk, order) == state.chunk_events(
            other,
            order,
        ) by {}
    }
}

/// A chunk without choices, such as one that reports the usage alone, changes nothing.
pub proof fn law_no_choice_changes_nothing(
    state: ConverterView,
    chunk: OAIChunkView,
    events: Seq<StreamEventView>,
)
    requires
        chunk.choices.len() == 0,
    ensures
        state.emits(chunk, events) == (events == Seq::<StreamEventView>::empty()),
        state.after_chunk(chunk) == state,
{
}

} // verus!
