//! The content of a message: nothing of its text and of its arguments is lost.
use crate::laws::blocks::{
    apart, flat, lemma_run_leads, lemma_text_leads, lemma_tool_leads, lemma_tools_lead,
};
use crate::laws::ending::law_chunks_keep_the_state_valid;
use crate::messages::or_empty;
use crate::stream::{
    argument_events, call_deltas, finish_reason, has_text, lists_keys, starts_call, ConverterView,
};
use crate::types::{ContentDeltaView, StreamEventView};
use crate::wire::{OAIChunkView, OAIToolCallDeltaView, OAIUsage};
use vstd::prelude::*;

verus! {

/// The text that events add to the message.
pub open spec fn emitted_text(events: Seq<StreamEventView>) -> Seq<char>
    decreases events.len(),
{
    if events.len() == 0 {
        Seq::empty()
    } else {
        let before = emitted_text(events.drop_last());
        match events.last() {
            StreamEventView::ContentBlockDelta {
                delta: ContentDeltaView::TextDelta { text },
                ..
            } => before + text,
            _ => before,
        }
    }
}

/// The text of the arguments that events add to a block.
pub open spec fn emitted_arguments(block: nat, events: Seq<StreamEventView>) -> Seq<char>
    decreases events.len(),
{
    if events.len() == 0 {
        Seq::empty()
    } else {
        let before = emitted_arguments(block, events.drop_last());
        match events.last() {
            StreamEventView::ContentBlockDelta {
                index,
                delta: ContentDeltaView::InputJsonDelta { partial_json },
            } => if index == block {
                before + partial_json
            } else {
                before
            },
            _ => before,
        }
    }
}

/// The text that a chunk carries.
pub open spec fn chunk_text(chunk: OAIChunkView) -> Seq<char> {
    if chunk.choices.len() == 0 {
        Seq::empty()
    } else {
        or_empty(chunk.choices[0].content)
    }
}

/// The text that several chunks carry.
pub open spec fn chunks_text(chunks: Seq<OAIChunkView>) -> Seq<char>
    decreases chunks.len(),
{
    if chunks.len() == 0 {
        Seq::empty()
    } else {
        chunks_text(chunks.drop_last()) + chunk_text(chunks.last())
    }
}

/// The piece of the arguments of a call that a delta carries.
pub open spec fn call_piece(call: usize, delta: OAIToolCallDeltaView) -> Seq<char> {
    match delta.function {
        Some(function) => if delta.index == call {
            or_empty(function.arguments)
        } else {
            Seq::empty()
        },
        None => Seq::empty(),
    }
}

/// The deltas of tool calls that a chunk carries.
pub open spec fn chunk_calls(chunk: OAIChunkView) -> Seq<OAIToolCallDeltaView> {
    if chunk.choices.len() == 0 {
        Seq::empty()
    } else {
        call_deltas(chunk.choices[0].tool_calls)
    }
}

/// Whether a delta names the call.
pub open spec fn names(call: usize, delta: OAIToolCallDeltaView) -> bool {
    starts_call(delta) && delta.index == call
}

/// Whether no delta names the call.
pub open spec fn never_named(call: usize, deltas: Seq<OAIToolCallDeltaView>) -> bool {
    forall|i: int| 0 <= i < deltas.len() ==> !names(call, #[trigger] deltas[i])
}

/// The pieces of the arguments of a call that several deltas carry, up to the first of them that
/// names the call.
pub open spec fn pieces_until_named(call: usize, deltas: Seq<OAIToolCallDeltaView>) -> Seq<char>
    decreases deltas.len(),
{
    if deltas.len() == 0 {
        Seq::empty()
    } else if never_named(call, deltas) {
        pieces_until_named(call, deltas.drop_last()) + call_piece(call, deltas.last())
    } else {
        pieces_until_named(call, deltas.drop_last())
    }
}

/// Whether a call that is known before several chunks is known behind them as the same: none
/// of them names it again, and none ends the message.
pub open spec fn goes_on(call: usize, chunks: Seq<OAIChunkView>) -> bool {
    forall|i: int|
        0 <= i < chunks.len() ==> never_named(call, chunk_calls(#[trigger] chunks[i]))
            && finish_reason(chunks[i]) is None
}

/// The pieces of the arguments of a call that several chunks carry, up to the first delta that
/// names the call, or else up to the end of the first chunk that ends the message.
pub open spec fn pieces_until_over(call: usize, chunks: Seq<OAIChunkView>) -> Seq<char>
    decreases chunks.len(),
{
    if chunks.len() == 0 {
        Seq::empty()
    } else if goes_on(call, chunks.drop_last()) {
        pieces_until_over(call, chunks.drop_last()) + pieces_until_named(
            call,
            chunk_calls(chunks.last()),
        )
    } else {
        pieces_until_over(call, chunks.drop_last())
    }
}

proof fn lemma_emitted_append(
    block: nat,
    first: Seq<StreamEventView>,
    second: Seq<StreamEventView>,
)
    ensures
        emitted_text(first + second) == emitted_text(first) + emitted_text(second),
        emitted_arguments(block, first + second) == emitted_arguments(block, first)
            + emitted_arguments(block, second),
    decreases second.len(),
{
    if second.len() == 0 {
        assert(first + second == first);
        assert(emitted_text(first) + emitted_text(second) == emitted_text(first));
    } else {
        lemma_emitted_append(block, first, second.drop_last());
        assert((first + second).drop_last() == first + second.drop_last());
        assert(emitted_text(first + second) == emitted_text(first) + emitted_text(second));
        assert(emitted_arguments(block, first + second) == emitted_arguments(block, first)
            + emitted_arguments(block, second));
    }
}

/// Whether an event carries text or arguments.
spec fn is_delta(event: StreamEventView) -> bool {
    event is ContentBlockDelta
}

proof fn lemma_emitted_nothing(block: nat, events: Seq<StreamEventView>)
    requires
        forall|i: int| 0 <= i < events.len() ==> !is_delta(#[trigger] events[i]),
    ensures
        emitted_text(events) == Seq::<char>::empty(),
        emitted_arguments(block, events) == Seq::<char>::empty(),
    decreases events.len(),
{
    if events.len() > 0 {
        assert forall|i: int| 0 <= i < events.drop_last().len() implies !is_delta(
            #[trigger] events.drop_last()[i],
        ) by {
            assert(!is_delta(events[i]));
        }
        lemma_emitted_nothing(block, events.drop_last());
        assert(!is_delta(events[events.len() - 1]));
    }
}

/// One event that carries text or arguments.
proof fn lemma_emitted_single(block: nat, event: StreamEventView)
    ensures
        emitted_text(seq![event]) == (match event {
            StreamEventView::ContentBlockDelta {
                delta: ContentDeltaView::TextDelta { text },
                ..
            } => text,
            _ => Seq::empty(),
        }),
        emitted_arguments(block, seq![event]) == (match event {
            StreamEventView::ContentBlockDelta {
                index,
                delta: ContentDeltaView::InputJsonDelta { partial_json },
            } => if index == block {
                partial_json
            } else {
                Seq::empty()
            },
            _ => Seq::empty(),
        }),
{
    reveal_with_fuel(emitted_text, 2);
    reveal_with_fuel(emitted_arguments, 2);
    assert(seq![event].drop_last() == Seq::<StreamEventView>::empty());
    assert(forall|text: Seq<char>| #[trigger] (Seq::<char>::empty() + text) == text);
}

proof fn lemma_text_events_emit(state: ConverterView, content: Option<Seq<char>>, block: nat)
    ensures
        emitted_text(state.text_events(content)) == or_empty(content),
        emitted_arguments(block, state.text_events(content)) == Seq::<char>::empty(),
{
    let events = state.text_events(content);
    if has_text(content) {
        let start = events.drop_last();
        let delta = events.last();
        assert(events == start + seq![delta]);
        lemma_emitted_nothing(block, start);
        lemma_emitted_single(block, delta);
        lemma_emitted_append(block, start, seq![delta]);
        assert(Seq::<char>::empty() + content->0 == content->0);
        assert(Seq::<char>::empty() + Seq::<char>::empty() == Seq::<char>::empty());
    } else {
        assert(or_empty(content) == Seq::<char>::empty());
    }
}

proof fn lemma_argument_events_emit(index: nat, arguments: Option<Seq<char>>, block: nat)
    ensures
        emitted_text(argument_events(index, arguments)) == Seq::<char>::empty(),
        emitted_arguments(block, argument_events(index, arguments)) == (if index == block {
            or_empty(arguments)
        } else {
            Seq::empty()
        }),
{
    let events = argument_events(index, arguments);
    if has_text(arguments) {
        assert(events == seq![events[0]]);
        lemma_emitted_single(block, events[0]);
    } else {
        assert(or_empty(arguments) == Seq::<char>::empty());
    }
}

/// The block that a delta of a tool call adds to, if there is one.
spec fn target(state: ConverterView, delta: OAIToolCallDeltaView) -> Option<nat> {
    if starts_call(delta) {
        Some(state.next_block_index)
    } else if delta.function is Some && state.tools.contains_key(delta.index) {
        Some(state.tools[delta.index])
    } else {
        None
    }
}

proof fn lemma_tool_events_emit(state: ConverterView, delta: OAIToolCallDeltaView, block: nat)
    ensures
        emitted_text(state.tool_events(delta)) == Seq::<char>::empty(),
        emitted_arguments(block, state.tool_events(delta)) == (if target(state, delta) == Some(
            block,
        ) {
            or_empty(delta.function->0.arguments)
        } else {
            Seq::empty()
        }),
{
    if starts_call(delta) {
        let arguments = delta.function->0.arguments;
        let pieces = argument_events(state.next_block_index, arguments);
        let start = state.tool_events(delta).take(state.text_stop().len() as int + 1);
        assert(state.tool_events(delta) == start + pieces);
        lemma_emitted_nothing(block, start);
        lemma_argument_events_emit(state.next_block_index, arguments, block);
        lemma_emitted_append(block, start, pieces);
        assert(forall|text: Seq<char>| #[trigger] (Seq::<char>::empty() + text) == text);
    } else if target(state, delta) is Some {
        lemma_argument_events_emit(
            state.tools[delta.index],
            delta.function->0.arguments,
            block,
        );
    }
}

proof fn lemma_tools_events_emit_no_text(
    state: ConverterView,
    deltas: Seq<OAIToolCallDeltaView>,
)
    ensures
        emitted_text(state.tools_events(deltas)) == Seq::<char>::empty(),
    decreases deltas.len(),
{
    if deltas.len() > 0 {
        let front = deltas.drop_last();
        let middle = state.after_tools(front);
        lemma_tools_events_emit_no_text(state, front);
        lemma_tool_events_emit(middle, deltas.last(), 0);
        lemma_emitted_append(0, state.tools_events(front), middle.tool_events(deltas.last()));
    }
}

proof fn lemma_finish_events_emit(
    state: ConverterView,
    order: Seq<usize>,
    reason: Seq<char>,
    usage: Option<OAIUsage>,
    block: nat,
)
    ensures
        emitted_text(state.finish_events(order, reason, usage)) == Seq::<char>::empty(),
        emitted_arguments(block, state.finish_events(order, reason, usage))
            == Seq::<char>::empty(),
{
    let events = state.finish_events(order, reason, usage);
    assert forall|i: int| 0 <= i < events.len() implies !is_delta(#[trigger] events[i]) by {
        let stops = state.text_stop() + state.tool_stops(order);
        if i < stops.len() {
            assert(events[i] == stops[i]);
        }
    }
    lemma_emitted_nothing(block, events);
}

/// The text of a chunk goes into its events, whole and once.
pub proof fn law_chunk_text_is_kept(
    state: ConverterView,
    chunk: OAIChunkView,
    added: Seq<StreamEventView>,
)
    requires
        state.emits(chunk, added),
    ensures
        emitted_text(added) == chunk_text(chunk),
{
    if chunk.choices.len() > 0 {
        let choice = chunk.choices[0];
        let middle = state.after_text(choice.content);
        let calls = call_deltas(choice.tool_calls);
        lemma_text_events_emit(state, choice.content, 0);
        lemma_tools_events_emit_no_text(middle, calls);
        lemma_emitted_append(0, state.text_events(choice.content), middle.tools_events(calls));
        assert(forall|text: Seq<char>| #[trigger] (text + Seq::<char>::empty()) == text);
        if let Some(reason) = choice.finish_reason {
            let order = choose|order: Seq<usize>|
                #![trigger lists_keys(order, state.after_deltas(chunk).tools)]
                lists_keys(order, state.after_deltas(chunk).tools) && added
                    == state.chunk_events(chunk, order);
            let after = state.after_deltas(chunk);
            lemma_finish_events_emit(after, order, reason, chunk.usage, 0);
            lemma_emitted_append(
                0,
                state.delta_events(chunk),
                after.finish_events(order, reason, chunk.usage),
            );
        }
    }
}

/// The text of a message is that of its chunks, one after the other: nothing is lost, nothing
/// is added, and nothing changes its place.
pub proof fn law_message_text_is_kept(
    state: ConverterView,
    chunks: Seq<OAIChunkView>,
    added: Seq<Seq<StreamEventView>>,
)
    requires
        state.runs(chunks, added),
    ensures
        emitted_text(flat(added)) == chunks_text(chunks),
    decreases chunks.len(),
{
    if chunks.len() > 0 {
        let front = chunks.drop_last();
        law_message_text_is_kept(state, front, added.drop_last());
        law_chunk_text_is_kept(state.after_chunks(front), chunks.last(), added.last());
        lemma_emitted_append(0, flat(added.drop_last()), added.last());
    }
}

/// Whether a block was started, but is no longer that of a known call.
spec fn left_behind(state: ConverterView, block: nat) -> bool {
    &&& block < state.next_block_index
    &&& forall|call: usize| #[trigger]
        state.tools.contains_key(call) ==> state.tools[call] != block
}

/// Whether a block is that of the call, as long as the call goes on, and else left behind.
spec fn block_of(state: ConverterView, call: usize, block: nat, on: bool) -> bool {
    if on {
        state.tools.contains_key(call) && state.tools[call] == block
    } else {
        left_behind(state, block)
    }
}

/// A block that is left behind stays so, and gets no more arguments.
proof fn lemma_left_behind(
    state: ConverterView,
    deltas: Seq<OAIToolCallDeltaView>,
    block: nat,
)
    requires
        left_behind(state, block),
    ensures
        left_behind(state.after_tools(deltas), block),
        emitted_arguments(block, state.tools_events(deltas)) == Seq::<char>::empty(),
    decreases deltas.len(),
{
    if deltas.len() > 0 {
        let front = deltas.drop_last();
        let middle = state.after_tools(front);
        lemma_left_behind(state, front, block);
        lemma_tool_events_emit(middle, deltas.last(), block);
        lemma_emitted_append(block, state.tools_events(front), middle.tool_events(deltas.last()));
    }
}

/// The block of a known call gets the pieces that deltas carry until one names the call again.
proof fn lemma_known_call(
    state: ConverterView,
    deltas: Seq<OAIToolCallDeltaView>,
    call: usize,
    block: nat,
)
    requires
        state.wf(),
        block_of(state, call, block, true),
    ensures
        state.after_tools(deltas).wf(),
        block_of(state.after_tools(deltas), call, block, never_named(call, deltas)),
        emitted_arguments(block, state.tools_events(deltas)) == pieces_until_named(call, deltas),
    decreases deltas.len(),
{
    if deltas.len() > 0 {
        let front = deltas.drop_last();
        let last = deltas.last();
        let middle = state.after_tools(front);
        let after = state.after_tools(deltas);
        lemma_known_call(state, front, call, block);
        assert(apart(middle, Set::empty()));
        lemma_tool_leads(middle, last, Set::empty());
        lemma_tool_events_emit(middle, last, block);
        lemma_emitted_append(block, state.tools_events(front), middle.tool_events(last));
        assert(never_named(call, deltas) == (never_named(call, front) && !names(call, last))) by {
            if never_named(call, front) && !names(call, last) {
                assert forall|i: int| 0 <= i < deltas.len() implies !names(
                    call,
                    #[trigger] deltas[i],
                ) by {
                    if i < front.len() {
                        assert(front[i] == deltas[i]);
                    }
                }
            }
            if never_named(call, deltas) {
                assert(!names(call, deltas[deltas.len() - 1]));
                assert forall|i: int| 0 <= i < front.len() implies !names(
                    call,
                    #[trigger] front[i],
                ) by {
                    assert(front[i] == deltas[i]);
                }
            }
        }
        assert(forall|text: Seq<char>| #[trigger] (text + Seq::<char>::empty()) == text);
        if never_named(call, front) {
            assert(middle.tools[call] == block);
            if names(call, last) {
                assert forall|other: usize| #[trigger] after.tools.contains_key(
                    other,
                ) implies after.tools[other] != block by {
                    if other != call {
                        assert(middle.tools.contains_key(other));
                        assert(middle.tools[other] != middle.tools[call]);
                    }
                }
            } else if target(middle, last) == Some(block) && last.index != call {
                assert(middle.tools[last.index] != middle.tools[call]);
            }
        } else {
            assert(left_behind(middle, block));
        }
    }
}

/// What a chunk carries for a block that is known as that of a call, or left behind.
proof fn lemma_chunk_arguments(
    state: ConverterView,
    chunk: OAIChunkView,
    added: Seq<StreamEventView>,
    call: usize,
    block: nat,
    on: bool,
)
    requires
        state.wf(),
        state.emits(chunk, added),
        block_of(state, call, block, on),
    ensures
        emitted_arguments(block, added) == (if on {
            pieces_until_named(call, chunk_calls(chunk))
        } else {
            Seq::empty()
        }),
        block_of(
            state.after_chunk(chunk),
            call,
            block,
            on && never_named(call, chunk_calls(chunk)) && finish_reason(chunk) is None,
        ),
{
    if chunk.choices.len() > 0 {
        let choice = chunk.choices[0];
        let middle = state.after_text(choice.content);
        let calls = chunk_calls(chunk);
        let after = state.after_deltas(chunk);
        assert(apart(state, Set::empty()));
        lemma_text_leads(state, choice.content, Set::empty());
        lemma_text_events_emit(state, choice.content, block);
        if on {
            lemma_known_call(middle, calls, call, block);
        } else {
            lemma_left_behind(middle, calls, block);
        }
        lemma_emitted_append(block, state.text_events(choice.content), middle.tools_events(calls));
        assert(forall|text: Seq<char>| #[trigger] (Seq::<char>::empty() + text) == text);
        lemma_chunk_end(state, chunk, added, block);
    }
}

/// The end of the message carries no arguments, and leaves every block behind.
proof fn lemma_chunk_end(
    state: ConverterView,
    chunk: OAIChunkView,
    added: Seq<StreamEventView>,
    block: nat,
)
    requires
        state.emits(chunk, added),
    ensures
        emitted_arguments(block, added) == emitted_arguments(block, state.delta_events(chunk)),
        finish_reason(chunk) is Some && block < state.after_deltas(chunk).next_block_index
            ==> left_behind(state.after_chunk(chunk), block),
{
    if let Some(reason) = finish_reason(chunk) {
        let after = state.after_deltas(chunk);
        let order = choose|order: Seq<usize>|
            #![trigger lists_keys(order, after.tools)]
            lists_keys(order, after.tools) && added == state.chunk_events(chunk, order);
        let ends = after.finish_events(order, reason, chunk.usage);
        lemma_finish_events_emit(after, order, reason, chunk.usage, block);
        lemma_emitted_append(block, state.delta_events(chunk), ends);
        assert(forall|text: Seq<char>| #[trigger] (text + Seq::<char>::empty()) == text);
    }
}

/// Events of deltas carry nothing for blocks that are started only later.
proof fn lemma_later_block(
    state: ConverterView,
    deltas: Seq<OAIToolCallDeltaView>,
    block: nat,
)
    requires
        state.wf(),
        block >= state.after_tools(deltas).next_block_index,
    ensures
        emitted_arguments(block, state.tools_events(deltas)) == Seq::<char>::empty(),
    decreases deltas.len(),
{
    if deltas.len() > 0 {
        let front = deltas.drop_last();
        let middle = state.after_tools(front);
        lemma_later_block(state, front, block);
        assert(apart(state, Set::empty()));
        lemma_tools_lead(state, front, Set::empty());
        lemma_tool_events_emit(middle, deltas.last(), block);
        lemma_emitted_append(block, state.tools_events(front), middle.tool_events(deltas.last()));
    }
}

proof fn lemma_tools_events_append(
    state: ConverterView,
    first: Seq<OAIToolCallDeltaView>,
    second: Seq<OAIToolCallDeltaView>,
)
    ensures
        state.after_tools(first + second) == state.after_tools(first).after_tools(second),
        state.tools_events(first + second) == state.tools_events(first) + state.after_tools(
            first,
        ).tools_events(second),
    decreases second.len(),
{
    if second.len() == 0 {
        assert(first + second == first);
        assert(state.tools_events(first) + Seq::<StreamEventView>::empty() == state.tools_events(
            first,
        ));
    } else {
        lemma_tools_events_append(state, first, second.drop_last());
        assert((first + second).drop_last() == first + second.drop_last());
        assert(state.tools_events(first + second) == state.tools_events(first)
            + state.after_tools(first).tools_events(second));
    }
}

/// Chunks carry no arguments for blocks that are started only later.
proof fn lemma_later_block_of_run(
    state: ConverterView,
    chunks: Seq<OAIChunkView>,
    added: Seq<Seq<StreamEventView>>,
    block: nat,
)
    requires
        state.wf(),
        state.runs(chunks, added),
        block >= state.after_chunks(chunks).next_block_index,
    ensures
        emitted_arguments(block, flat(added)) == Seq::<char>::empty(),
    decreases chunks.len(),
{
    if chunks.len() > 0 {
        let front = chunks.drop_last();
        let chunk = chunks.last();
        let middle = state.after_chunks(front);
        lemma_run_leads(state, front, added.drop_last());
        law_chunks_keep_the_state_valid(middle, chunk);
        lemma_later_block_of_run(state, front, added.drop_last(), block);
        lemma_chunk_end(middle, chunk, added.last(), block);
        if chunk.choices.len() > 0 {
            let content = chunk.choices[0].content;
            let calls = chunk_calls(chunk);
            assert(apart(middle, Set::empty()));
            lemma_text_leads(middle, content, Set::empty());
            lemma_text_events_emit(middle, content, block);
            lemma_later_block(middle.after_text(content), calls, block);
            lemma_emitted_append(
                block,
                middle.text_events(content),
                middle.after_text(content).tools_events(calls),
            );
        }
        lemma_emitted_append(block, flat(added.drop_last()), added.last());
    }
}

/// The block that a delta starts, which is at that place in a chunk behind others.
pub open spec fn started_block(
    state: ConverterView,
    before: Seq<OAIChunkView>,
    chunk: OAIChunkView,
    place: int,
) -> nat {
    state.after_chunks(before).after_text(chunk.choices[0].content).after_tools(
        chunk_calls(chunk).take(place),
    ).next_block_index
}

/// What the chunk in which a call is named carries for the block that is started there.
proof fn lemma_naming_chunk(
    state: ConverterView,
    chunk: OAIChunkView,
    added: Seq<StreamEventView>,
    place: int,
)
    requires
        state.wf(),
        state.emits(chunk, added),
        0 <= place < chunk_calls(chunk).len(),
        starts_call(chunk_calls(chunk)[place]),
    ensures
        ({
            let naming = chunk_calls(chunk)[place];
            let behind = chunk_calls(chunk).skip(place + 1);
            let block = started_block(state, Seq::empty(), chunk, place);
            &&& block >= state.next_block_index
            &&& emitted_arguments(block, added) == call_piece(naming.index, naming)
                + pieces_until_named(naming.index, behind)
            &&& block_of(
                state.after_chunk(chunk),
                naming.index,
                block,
                never_named(naming.index, behind) && finish_reason(chunk) is None,
            )
        }),
{
    let content = chunk.choices[0].content;
    let calls = chunk_calls(chunk);
    let naming = calls[place];
    let call = naming.index;
    let before = calls.take(place);
    let behind = calls.skip(place + 1);
    let middle = state.after_text(content);
    let started = middle.after_tools(before);
    let named = started.after_tool(naming);
    let block = started.next_block_index;
    assert(apart(state, Set::empty()));
    lemma_text_leads(state, content, Set::empty());
    lemma_text_events_emit(state, content, block);
    assert(apart(middle, Set::empty()));
    lemma_tools_lead(middle, before, Set::empty());
    assert(apart(started, Set::empty()));
    lemma_tool_leads(started, naming, Set::empty());
    middle.lemma_next_grows(before, 0);
    assert(before.take(0) == Seq::<OAIToolCallDeltaView>::empty());
    lemma_later_block(middle, before, block);
    lemma_tool_events_emit(started, naming, block);
    let upto = before.push(naming);
    assert(upto.drop_last() == before);
    assert(calls == upto + behind);
    lemma_known_call(named, behind, call, block);
    lemma_emitted_append(block, middle.tools_events(before), started.tool_events(naming));
    lemma_tools_events_append(middle, upto, behind);
    lemma_emitted_append(block, middle.tools_events(upto), named.tools_events(behind));
    lemma_emitted_append(block, state.text_events(content), middle.tools_events(calls));
    assert(forall|text: Seq<char>| #[trigger] (Seq::<char>::empty() + text) == text);
    lemma_chunk_end(state, chunk, added, block);
}

/// A delta that names a call starts a block. That block gets the arguments that the delta
/// carries and the pieces for its call behind it, up to the next delta that names the call, or
/// else up to the end of the chunk that ends the message. It gets nothing else: nothing is lost,
/// and nothing of another call is mixed in.
pub proof fn law_named_call_gets_its_arguments(
    state: ConverterView,
    before: Seq<OAIChunkView>,
    chunk: OAIChunkView,
    behind: Seq<OAIChunkView>,
    added: Seq<Seq<StreamEventView>>,
    place: int,
)
    requires
        state.wf(),
        state.runs(before.push(chunk) + behind, added),
        0 <= place < chunk_calls(chunk).len(),
        starts_call(chunk_calls(chunk)[place]),
    ensures
        ({
            let naming = chunk_calls(chunk)[place];
            let call = naming.index;
            let rest = chunk_calls(chunk).skip(place + 1);
            emitted_arguments(started_block(state, before, chunk, place), flat(added))
                == call_piece(call, naming) + pieces_until_named(call, rest) + (if never_named(
                call,
                rest,
            ) && finish_reason(chunk) is None {
                pieces_until_over(call, behind)
            } else {
                Seq::empty()
            })
        }),
{
    lemma_named_call(state, before, chunk, behind, added, place);
}

proof fn lemma_named_call(
    state: ConverterView,
    before: Seq<OAIChunkView>,
    chunk: OAIChunkView,
    behind: Seq<OAIChunkView>,
    added: Seq<Seq<StreamEventView>>,
    place: int,
)
    requires
        state.wf(),
        state.runs(before.push(chunk) + behind, added),
        0 <= place < chunk_calls(chunk).len(),
        starts_call(chunk_calls(chunk)[place]),
    ensures
        ({
            let naming = chunk_calls(chunk)[place];
            let call = naming.index;
            let rest = chunk_calls(chunk).skip(place + 1);
            let on = never_named(call, rest) && finish_reason(chunk) is None;
            let block = started_block(state, before, chunk, place);
            &&& emitted_arguments(block, flat(added)) == call_piece(call, naming)
                + pieces_until_named(call, rest) + (if on {
                pieces_until_over(call, behind)
            } else {
                Seq::empty()
            })
            &&& block_of(
                state.after_chunks(before.push(chunk) + behind),
                call,
                block,
                on && goes_on(call, behind),
            )
        }),
    decreases behind.len(),
{
    let chunks = before.push(chunk) + behind;
    let naming = chunk_calls(chunk)[place];
    let call = naming.index;
    let rest = chunk_calls(chunk).skip(place + 1);
    let on = never_named(call, rest) && finish_reason(chunk) is None;
    let block = started_block(state, before, chunk, place);
    let front = added.drop_last();
    lemma_run_leads(state, chunks.drop_last(), front);
    if behind.len() == 0 {
        assert(chunks == before.push(chunk));
        assert(chunks.drop_last() == before);
        let middle = state.after_chunks(before);
        lemma_naming_chunk(middle, chunk, added.last(), place);
        assert(block == started_block(middle, Seq::empty(), chunk, place));
        lemma_later_block_of_run(state, before, front, block);
        lemma_emitted_append(block, flat(front), added.last());
        assert(forall|text: Seq<char>| #[trigger] (Seq::<char>::empty() + text) == text);
        assert(forall|text: Seq<char>| #[trigger] (text + Seq::<char>::empty()) == text);
    } else {
        let shorter = behind.drop_last();
        let last = behind.last();
        assert(chunks.drop_last() == before.push(chunk) + shorter);
        lemma_named_call(state, before, chunk, shorter, front, place);
        let middle = state.after_chunks(chunks.drop_last());
        let still = on && goes_on(call, shorter);
        lemma_chunk_arguments(middle, last, added.last(), call, block, still);
        lemma_emitted_append(block, flat(front), added.last());
        assert(goes_on(call, behind) == (goes_on(call, shorter) && never_named(
            call,
            chunk_calls(last),
        ) && finish_reason(last) is None)) by {
            if goes_on(call, behind) {
                assert(behind[behind.len() - 1] == last);
                assert forall|i: int| 0 <= i < shorter.len() implies never_named(
                    call,
                    chunk_calls(#[trigger] shorter[i]),
                ) && finish_reason(shorter[i]) is None by {
                    assert(shorter[i] == behind[i]);
                }
            }
            if goes_on(call, shorter) && never_named(call, chunk_calls(last)) && finish_reason(
                last,
            ) is None {
                assert forall|i: int| 0 <= i < behind.len() implies never_named(
                    call,
                    chunk_calls(#[trigger] behind[i]),
                ) && finish_reason(behind[i]) is None by {
                    if i < shorter.len() {
                        assert(shorter[i] == behind[i]);
                    }
                }
            }
        }
        let first = call_piece(call, naming) + pieces_until_named(call, rest);
        assert(forall|text: Seq<char>| #[trigger] (text + Seq::<char>::empty()) == text);
        assert(first + (pieces_until_over(call, shorter) + pieces_until_named(
            call,
            chunk_calls(last),
        )) == first + pieces_until_over(call, shorter) + pieces_until_named(
            call,
            chunk_calls(last),
        ));
    }
}

} // verus!
