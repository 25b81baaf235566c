//! The kinds of blocks: text goes to text blocks, arguments go to the blocks of tool calls.
use crate::laws::blocks::{apart, flat, lemma_run_leads, lemma_text_leads, lemma_tools_lead};
use crate::stream::{
    argument_events, call_deltas, has_text, initial, lists_keys, starts_call, stop_reason,
    usage_info, ConverterView,
};
use crate::types::{ContentBlockView, ContentDeltaView, StreamEventView};
use crate::wire::{OAIChunkView, OAIToolCallDeltaView};
use vstd::prelude::*;

verus! {

/// The open blocks, by their kinds.
pub struct OpenBlocks {
    pub texts: Set<nat>,
    pub tools: Set<nat>,
}

impl OpenBlocks {
    /// No block is open.
    pub open spec fn none() -> OpenBlocks {
        OpenBlocks { texts: Set::empty(), tools: Set::empty() }
    }

    /// Whether at most one text block is open.
    pub open spec fn at_most_one_text(self) -> bool {
        forall|left: nat, right: nat| #[trigger]
            self.texts.contains(left) && #[trigger] self.texts.contains(right) ==> left == right
    }

    /// The open blocks after an event.
    pub open spec fn after_event(self, event: StreamEventView) -> OpenBlocks {
        match event {
            StreamEventView::ContentBlockStart { index, content_block } => match content_block {
                ContentBlockView::Text { .. } => OpenBlocks {
                    texts: self.texts.insert(index),
                    ..self
                },
                ContentBlockView::ToolUse { .. } => OpenBlocks {
                    tools: self.tools.insert(index),
                    ..self
                },
            },
            StreamEventView::ContentBlockStop { index } => OpenBlocks {
                texts: self.texts.remove(index),
                tools: self.tools.remove(index),
            },
            _ => self,
        }
    }

    /// The open blocks after several events.
    pub open spec fn after(self, events: Seq<StreamEventView>) -> OpenBlocks
        decreases events.len(),
    {
        if events.len() == 0 {
            self
        } else {
            self.after(events.drop_last()).after_event(events.last())
        }
    }

    /// Whether an event suits the open blocks: a piece of text goes to an open text block, a
    /// piece of arguments to an open block of a tool call, and a text block is started only
    /// where none is open.
    pub open spec fn suits(self, event: StreamEventView) -> bool {
        match event {
            StreamEventView::ContentBlockStart { content_block, .. } => content_block is Text
                ==> self.texts == Set::<nat>::empty(),
            StreamEventView::ContentBlockDelta { index, delta } => match delta {
                ContentDeltaView::TextDelta { .. } => self.texts.contains(index),
                ContentDeltaView::InputJsonDelta { .. } => self.tools.contains(index),
            },
            _ => true,
        }
    }

    /// Whether each of several events suits the blocks that are open by then.
    pub open spec fn suit(self, events: Seq<StreamEventView>) -> bool
        decreases events.len(),
    {
        events.len() > 0 ==> self.suit(events.drop_last()) && self.after(
            events.drop_last(),
        ).suits(events.last())
    }
}

/// Whether the open blocks are those of a state: its open text block and no other, and at least
/// the blocks of its known calls.
spec fn matches_state(open: OpenBlocks, state: ConverterView) -> bool {
    &&& open.texts == (if state.text_block_open {
        Set::empty().insert((state.next_block_index - 1) as nat)
    } else {
        Set::empty()
    })
    &&& forall|call: usize| #[trigger]
        state.tools.contains_key(call) ==> open.tools.contains(state.tools[call])
}

proof fn lemma_append(
    open: OpenBlocks,
    first: Seq<StreamEventView>,
    second: Seq<StreamEventView>,
)
    ensures
        open.after(first + second) == open.after(first).after(second),
        open.suit(first + second) == (open.suit(first) && open.after(first).suit(second)),
    decreases second.len(),
{
    if second.len() == 0 {
        assert(first + second == first);
    } else {
        lemma_append(open, first, second.drop_last());
        assert((first + second).drop_last() == first + second.drop_last());
    }
}

proof fn lemma_one(open: OpenBlocks, event: StreamEventView)
    ensures
        open.after(seq![event]) == open.after_event(event),
        open.suit(seq![event]) == open.suits(event),
{
    reveal_with_fuel(OpenBlocks::after, 2);
    reveal_with_fuel(OpenBlocks::suit, 2);
    assert(seq![event].drop_last() == Seq::<StreamEventView>::empty());
}

proof fn lemma_text(open: OpenBlocks, state: ConverterView, content: Option<Seq<char>>)
    requires
        matches_state(open, state),
    ensures
        open.suit(state.text_events(content)),
        matches_state(open.after(state.text_events(content)), state.after_text(content)),
{
    let events = state.text_events(content);
    if has_text(content) {
        let start = events.drop_last();
        let delta = events.last();
        assert(events == start + seq![delta]);
        if state.text_block_open {
            assert(start == Seq::<StreamEventView>::empty());
        } else {
            assert(start == seq![start[0]]);
            lemma_one(open, start[0]);
        }
        lemma_one(open.after(start), delta);
        lemma_append(open, start, seq![delta]);
    }
}

proof fn lemma_text_stop(open: OpenBlocks, state: ConverterView)
    requires
        state.wf(),
        matches_state(open, state),
    ensures
        open.suit(state.text_stop()),
        matches_state(
            open.after(state.text_stop()),
            (ConverterView { text_block_open: false, ..state }),
        ),
{
    if state.text_block_open {
        assert(state.text_stop() == seq![state.text_stop()[0]]);
        lemma_one(open, state.text_stop()[0]);
        assert(open.after(state.text_stop()).texts == Set::<nat>::empty());
    }
}

proof fn lemma_arguments(open: OpenBlocks, index: nat, arguments: Option<Seq<char>>)
    requires
        open.tools.contains(index),
    ensures
        open.suit(argument_events(index, arguments)),
        open.after(argument_events(index, arguments)) == open,
{
    let events = argument_events(index, arguments);
    if has_text(arguments) {
        assert(events == seq![events[0]]);
        lemma_one(open, events[0]);
    }
}

proof fn lemma_tool(open: OpenBlocks, state: ConverterView, delta: OAIToolCallDeltaView)
    requires
        state.wf(),
        matches_state(open, state),
    ensures
        open.suit(state.tool_events(delta)),
        matches_state(open.after(state.tool_events(delta)), state.after_tool(delta)),
{
    if starts_call(delta) {
        let arguments = delta.function->0.arguments;
        let stop = state.text_stop();
        let start = state.tool_events(delta)[stop.len() as int];
        let pieces = argument_events(state.next_block_index, arguments);
        assert(state.tool_events(delta) == stop + seq![start] + pieces);
        lemma_text_stop(open, state);
        let closed = open.after(stop);
        lemma_one(closed, start);
        lemma_append(open, stop, seq![start]);
        let started = open.after(stop + seq![start]);
        lemma_arguments(started, state.next_block_index, arguments);
        lemma_append(open, stop + seq![start], pieces);
        assert(matches_state(started, state.after_tool(delta)));
    } else if delta.function is Some && state.tools.contains_key(delta.index) {
        lemma_arguments(open, state.tools[delta.index], delta.function->0.arguments);
    }
}

proof fn lemma_tools(
    open: OpenBlocks,
    state: ConverterView,
    deltas: Seq<OAIToolCallDeltaView>,
)
    requires
        state.wf(),
        matches_state(open, state),
    ensures
        open.suit(state.tools_events(deltas)),
        matches_state(open.after(state.tools_events(deltas)), state.after_tools(deltas)),
    decreases deltas.len(),
{
    if deltas.len() > 0 {
        let front = deltas.drop_last();
        let middle = state.after_tools(front);
        lemma_tools(open, state, front);
        assert(apart(state, Set::empty()));
        lemma_tools_lead(state, front, Set::empty());
        lemma_tool(open.after(state.tools_events(front)), middle, deltas.last());
        lemma_append(open, state.tools_events(front), middle.tool_events(deltas.last()));
    }
}

/// Events that only end blocks or the message suit any open blocks.
proof fn lemma_ends(open: OpenBlocks, events: Seq<StreamEventView>)
    requires
        open.texts == Set::<nat>::empty(),
        forall|i: int|
            0 <= i < events.len() ==> (#[trigger] events[i]) is ContentBlockStop || events[
                i
            ] is MessageDelta || events[i] is MessageStop,
    ensures
        open.suit(events),
        open.after(events).texts == Set::<nat>::empty(),
    decreases events.len(),
{
    if events.len() > 0 {
        let front = events.drop_last();
        assert forall|i: int| 0 <= i < front.len() implies (#[trigger] front[
            i
        ]) is ContentBlockStop || front[i] is MessageDelta || front[i] is MessageStop by {
            assert(front[i] == events[i]);
        }
        lemma_ends(open, front);
        let last = events[events.len() - 1];
        assert(last is ContentBlockStop || last is MessageDelta || last is MessageStop);
        assert(open.after(events).texts == Set::<nat>::empty());
    }
}

proof fn lemma_chunk(
    open: OpenBlocks,
    state: ConverterView,
    chunk: OAIChunkView,
    added: Seq<StreamEventView>,
)
    requires
        state.wf(),
        matches_state(open, state),
        state.emits(chunk, added),
    ensures
        open.suit(added),
        matches_state(open.after(added), state.after_chunk(chunk)),
{
    if chunk.choices.len() > 0 {
        let choice = chunk.choices[0];
        let calls = call_deltas(choice.tool_calls);
        let middle = state.after_text(choice.content);
        let text = state.text_events(choice.content);
        let after = state.after_deltas(chunk);
        lemma_text(open, state, choice.content);
        assert(apart(state, Set::empty()));
        lemma_text_leads(state, choice.content, Set::empty());
        lemma_tools(open.after(text), middle, calls);
        assert(apart(middle, Set::empty()));
        lemma_tools_lead(middle, calls, Set::empty());
        lemma_append(open, text, middle.tools_events(calls));
        if let Some(reason) = choice.finish_reason {
            let order = choose|order: Seq<usize>|
                #![trigger lists_keys(order, state.after_deltas(chunk).tools)]
                lists_keys(order, state.after_deltas(chunk).tools) && added
                    == state.chunk_events(chunk, order);
            let deltas = state.delta_events(chunk);
            let ends = after.finish_events(order, reason, chunk.usage);
            let stop = after.text_stop();
            let rest = after.tool_stops(order) + seq![
                StreamEventView::MessageDelta {
                    stop_reason: Some(stop_reason(reason)),
                    usage: usage_info(chunk.usage),
                },
                StreamEventView::MessageStop,
            ];
            lemma_text_stop(open.after(deltas), after);
            lemma_ends(open.after(deltas).after(stop), rest);
            lemma_append(open.after(deltas), stop, rest);
            assert(ends == stop + rest);
            lemma_append(open, deltas, ends);
        }
    }
}

proof fn lemma_run(
    open: OpenBlocks,
    state: ConverterView,
    chunks: Seq<OAIChunkView>,
    added: Seq<Seq<StreamEventView>>,
)
    requires
        state.wf(),
        matches_state(open, state),
        state.runs(chunks, added),
    ensures
        open.suit(flat(added)),
        matches_state(open.after(flat(added)), state.after_chunks(chunks)),
    decreases chunks.len(),
{
    if chunks.len() > 0 {
        let front = chunks.drop_last();
        lemma_run(open, state, front, added.drop_last());
        lemma_run_leads(state, front, added.drop_last());
        let before = flat(added.drop_last());
        lemma_chunk(open.after(before), state.after_chunks(front), chunks.last(), added.last());
        lemma_append(open, before, added.last());
    }
}

/// At most one text block is open after events that suit their blocks.
proof fn lemma_at_most_one_text(events: Seq<StreamEventView>, count: int)
    requires
        OpenBlocks::none().suit(events),
        0 <= count <= events.len(),
    ensures
        OpenBlocks::none().after(events.take(count)).at_most_one_text(),
    decreases events.len(), count,
{
    if count < events.len() {
        lemma_at_most_one_text(events.drop_last(), count);
        assert(events.drop_last().take(count) == events.take(count));
    } else if count > 0 {
        lemma_at_most_one_text(events.drop_last(), count - 1);
        assert(events.drop_last().take(count - 1) == events.drop_last());
        assert(events.take(count) == events);
    }
}

/// Whatever chunks come, a piece of text goes to an open text block, and a piece of arguments
/// to an open block of a tool call. At any time at most one text block is open.
pub proof fn law_pieces_suit_their_blocks(
    message_id: Seq<char>,
    chunks: Seq<OAIChunkView>,
    added: Seq<Seq<StreamEventView>>,
)
    requires
        initial(message_id).runs(chunks, added),
    ensures
        OpenBlocks::none().suit(flat(added)),
        forall|count: int|
            0 <= count <= flat(added).len() ==> OpenBlocks::none().after(
                #[trigger] flat(added).take(count),
            ).at_most_one_text(),
{
    lemma_run(OpenBlocks::none(), initial(message_id), chunks, added);
    assert forall|count: int| 0 <= count <= flat(added).len() implies OpenBlocks::none().after(
        #[trigger] flat(added).take(count),
    ).at_most_one_text() by {
        lemma_at_most_one_text(flat(added), count);
    }
}

} // verus!
