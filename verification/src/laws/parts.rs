//! A chunk is its parts: a piece of text, deltas of tool calls, the end of the message. What each
//! part adds is said in terms of the part itself.
use crate::json::JsonView;
use crate::laws::blocks::flat;
use crate::stream::{
    call_deltas, finish_reason, initial, lists_keys, message_id_form, message_start, stop_reason,
    usage_info, ConverterView,
};
use crate::text::decimal;
use crate::types::{ContentBlockView, ContentDeltaView, StreamEventView};
use crate::wire::{OAIChoiceView, OAIChunkView, OAIToolCallDeltaView, OAIUsage};
use vstd::prelude::*;

verus! {

/// A chunk that carries nothing but a piece of text, if any.
pub open spec fn text_part(content: Option<Seq<char>>) -> OAIChunkView {
    OAIChunkView {
        choices: seq![OAIChoiceView { content, tool_calls: None, finish_reason: None }],
        usage: None,
    }
}

/// A chunk that carries nothing but one delta of a tool call.
pub open spec fn call_part(delta: OAIToolCallDeltaView) -> OAIChunkView {
    OAIChunkView {
        choices: seq![
            OAIChoiceView { content: None, tool_calls: Some(seq![delta]), finish_reason: None },
        ],
        usage: None,
    }
}

/// A chunk that does nothing but end the message.
pub open spec fn end_part(reason: Seq<char>, usage: Option<OAIUsage>) -> OAIChunkView {
    OAIChunkView {
        choices: seq![
            OAIChoiceView { content: None, tool_calls: None, finish_reason: Some(reason) },
        ],
        usage,
    }
}

/// The chunks that deltas of tool calls would be on their own.
pub open spec fn call_parts(deltas: Seq<OAIToolCallDeltaView>) -> Seq<OAIChunkView> {
    deltas.map_values(|delta: OAIToolCallDeltaView| call_part(delta))
}

/// The parts of a chunk, in their order.
pub open spec fn parts(choice: OAIChoiceView, usage: Option<OAIUsage>) -> Seq<OAIChunkView> {
    let calls = match choice.tool_calls {
        Some(deltas) => call_parts(deltas),
        None => Seq::empty(),
    };
    let ends = match choice.finish_reason {
        Some(reason) => seq![end_part(reason, usage)],
        None => Seq::empty(),
    };
    seq![text_part(choice.content)] + calls + ends
}

/// A message starts in a state in which nothing was started, and with an event that carries its
/// identifier, no model and no usage.
pub proof fn law_message_starts_with_nothing(message_id: Seq<char>)
    ensures
        initial(message_id).next_block_index == 0,
        !initial(message_id).text_block_open,
        initial(message_id).tools == Map::<usize, nat>::empty(),
        initial(message_id).message_id == message_id,
        message_start(message_id) matches StreamEventView::MessageStart { id, model, usage } && id
            == message_id && model.len() == 0 && usage.input_tokens == 0 && usage.output_tokens == 0
            && usage.cache_creation_input_tokens == 0 && usage.cache_read_input_tokens == 0,
{
}

/// A new identifier is `msg_` and thirty-two hexadecimal digits in lower case.
pub proof fn law_message_identifiers_have_their_form(id: Seq<char>)
    requires
        message_id_form(id),
    ensures
        id.len() == 36,
        id[0] == 'm' && id[1] == 's' && id[2] == 'g' && id[3] == '_',
        forall|i: int|
            4 <= i < 36 ==> '0' <= #[trigger] id[i] <= '9' || 'a' <= id[i] <= 'f',
{
    reveal_strlit("msg_");
    let start = id.take(4);
    assert(id[0] == start[0] && id[1] == start[1] && id[2] == start[2] && id[3] == start[3]);
    assert forall|i: int| 4 <= i < 36 implies '0' <= #[trigger] id[i] <= '9' || 'a' <= id[i]
        <= 'f' by {
        assert(id.skip(4)[i - 4] == id[i]);
    }
}

/// A piece of text is added to the open text block, whole; where none is open, one is started for
/// it with the next index. No text and an empty text add nothing.
pub proof fn law_text_is_added_whole(
    state: ConverterView,
    content: Option<Seq<char>>,
    events: Seq<StreamEventView>,
)
    ensures
        content is None || content->0.len() == 0 ==> {
            &&& state.emits(text_part(content), events) == (events.len() == 0)
            &&& state.after_chunk(text_part(content)) == state
        },
        content is Some && content->0.len() > 0 && state.text_block_open ==> {
            &&& state.emits(text_part(content), events) == (events == seq![
                StreamEventView::ContentBlockDelta {
                    index: (state.next_block_index - 1) as nat,
                    delta: ContentDeltaView::TextDelta { text: content->0 },
                },
            ])
            &&& state.after_chunk(text_part(content)) == state
        },
        content is Some && content->0.len() > 0 && !state.text_block_open ==> {
            &&& state.emits(text_part(content), events) == (events == seq![
                StreamEventView::ContentBlockStart {
                    index: state.next_block_index,
                    content_block: ContentBlockView::Text { text: Seq::empty() },
                },
                StreamEventView::ContentBlockDelta {
                    index: state.next_block_index,
                    delta: ContentDeltaView::TextDelta { text: content->0 },
                },
            ])
            &&& state.after_chunk(text_part(content)) == ConverterView {
                next_block_index: state.next_block_index + 1,
                text_block_open: true,
                tools: state.tools,
                message_id: state.message_id,
            }
        },
{
    let chunk = text_part(content);
    assert(chunk.choices[0].content == content);
    assert(state.emits(chunk, events) == (events == state.text_events(content))) by {
        assert(state.delta_events(chunk) == state.text_events(content));
    }
    if content is Some && content->0.len() > 0 {
        let start = StreamEventView::ContentBlockStart {
            index: state.next_block_index,
            content_block: ContentBlockView::Text { text: Seq::empty() },
        };
        let delta = StreamEventView::ContentBlockDelta {
            index: (state.after_text(content).next_block_index - 1) as nat,
            delta: ContentDeltaView::TextDelta { text: content->0 },
        };
        if state.text_block_open {
            assert(state.text_events(content) == seq![delta]);
        } else {
            assert(state.text_events(content) == seq![start, delta]);
        }
    } else {
        assert(events.len() == 0 ==> events == Seq::<StreamEventView>::empty());
    }
}

proof fn lemma_call_part(
    state: ConverterView,
    delta: OAIToolCallDeltaView,
    events: Seq<StreamEventView>,
)
    ensures
        state.emits(call_part(delta), events) == (events == state.tool_events(delta)),
        state.after_chunk(call_part(delta)) == state.after_tool(delta),
{
    let chunk = call_part(delta);
    assert(chunk.choices[0].tool_calls == Some(seq![delta]));
    assert(seq![delta].drop_last() == Seq::<OAIToolCallDeltaView>::empty());
    reveal_with_fuel(ConverterView::after_tools, 2);
    reveal_with_fuel(ConverterView::tools_events, 2);
    assert(state.after_text(None) == state);
    assert(state.delta_events(chunk) == state.tool_events(delta));
}

/// A delta that names a function ends the open text block, if there is one, and starts a block
/// with the next index for a tool use: with the identifier that the delta gives, whole, or, only
/// where it gives none, with `call_` and the index of the call; with the name that it gives,
/// whole; and with an empty input. The arguments that it carries, if any, are added to that block,
/// whole. From then on the call has that block.
pub proof fn law_naming_delta_starts_its_call(
    state: ConverterView,
    delta: OAIToolCallDeltaView,
    events: Seq<StreamEventView>,
)
    requires
        delta.function is Some,
        delta.function->0.name is Some,
    ensures
        ({
            let name = delta.function->0.name->0;
            let arguments = delta.function->0.arguments;
            let stop = if state.text_block_open {
                seq![
                    StreamEventView::ContentBlockStop {
                        index: (state.next_block_index - 1) as nat,
                    },
                ]
            } else {
                Seq::empty()
            };
            let start = StreamEventView::ContentBlockStart {
                index: state.next_block_index,
                content_block: ContentBlockView::ToolUse {
                    id: if delta.id is Some {
                        delta.id->0
                    } else {
                        seq!['c', 'a', 'l', 'l', '_'] + decimal(delta.index as nat)
                    },
                    name,
                    input: JsonView::Object(Map::empty()),
                },
            };
            let piece = if arguments is Some && arguments->0.len() > 0 {
                seq![
                    StreamEventView::ContentBlockDelta {
                        index: state.next_block_index,
                        delta: ContentDeltaView::InputJsonDelta { partial_json: arguments->0 },
                    },
                ]
            } else {
                Seq::empty()
            };
            &&& state.emits(call_part(delta), events) == (events == stop + seq![start] + piece)
            &&& state.after_chunk(call_part(delta)) == ConverterView {
                next_block_index: state.next_block_index + 1,
                text_block_open: false,
                tools: state.tools.insert(delta.index, state.next_block_index),
                message_id: state.message_id,
            }
        }),
{
    reveal_strlit("call_");
    assert("call_"@ == seq!['c', 'a', 'l', 'l', '_']);
    lemma_call_part(state, delta, events);
    let start = state.tool_events(delta)[state.text_stop().len() as int];
    assert(state.text_stop().push(start) == state.text_stop() + seq![start]);
}

/// A delta that names no function adds the arguments that it carries, if any, to the block of its
/// call, whole, and adds nothing where the call is not known. It changes no state.
pub proof fn law_nameless_delta_continues_its_call(
    state: ConverterView,
    delta: OAIToolCallDeltaView,
    events: Seq<StreamEventView>,
)
    requires
        delta.function is None || delta.function->0.name is None,
    ensures
        state.after_chunk(call_part(delta)) == state,
        ({
            let known = state.tools.contains_key(delta.index);
            let carries = delta.function is Some && delta.function->0.arguments is Some
                && delta.function->0.arguments->0.len() > 0;
            &&& known && carries ==> state.emits(call_part(delta), events) == (events == seq![
                StreamEventView::ContentBlockDelta {
                    index: state.tools[delta.index],
                    delta: ContentDeltaView::InputJsonDelta {
                        partial_json: delta.function->0.arguments->0,
                    },
                },
            ])
            &&& !known || !carries ==> state.emits(call_part(delta), events) == (events.len() == 0)
        }),
{
    lemma_call_part(state, delta, events);
    assert(events.len() == 0 ==> events == Seq::<StreamEventView>::empty());
}

/// The end of the message ends the open text block, if there is one, and then the block of each
/// known call, each once, in some order; then comes the reason and the usage, and then the end of
/// the message. No block is open and no call is known any more.
pub proof fn law_end_closes_everything(
    state: ConverterView,
    reason: Seq<char>,
    usage: Option<OAIUsage>,
    events: Seq<StreamEventView>,
)
    ensures
        state.emits(end_part(reason, usage), events) <==> exists|order: Seq<usize>| #[trigger]
            order.no_duplicates() && order.to_set() == state.tools.dom() && events
                == ended_in_order(state, order, reason, usage),
        state.after_chunk(end_part(reason, usage)) == (ConverterView {
            next_block_index: state.next_block_index,
            text_block_open: false,
            tools: Map::empty(),
            message_id: state.message_id,
        }),
{
    let chunk = end_part(reason, usage);
    assert(chunk.choices[0].finish_reason == Some(reason));
    assert(state.after_text(None) == state);
    assert(state.after_deltas(chunk) == state);
    assert(state.delta_events(chunk) == Seq::<StreamEventView>::empty());
    assert forall|order: Seq<usize>| state.chunk_events(chunk, order) == ended_in_order(
        state,
        order,
        reason,
        usage,
    ) by {
        law_ends_are_in_the_given_order(state, order, reason, usage);
        assert(Seq::<StreamEventView>::empty() + state.finish_events(order, reason, usage)
            == state.finish_events(order, reason, usage));
    }
    if state.emits(chunk, events) {
        let order = choose|order: Seq<usize>|
            #![trigger lists_keys(order, state.after_deltas(chunk).tools)]
            lists_keys(order, state.after_deltas(chunk).tools) && events == state.chunk_events(
                chunk,
                order,
            );
        assert(order.no_duplicates());
    }
    if exists|order: Seq<usize>| #[trigger]
        order.no_duplicates() && order.to_set() == state.tools.dom() && events == ended_in_order(
            state,
            order,
            reason,
            usage,
        ) {
        let order = choose|order: Seq<usize>| #[trigger]
            order.no_duplicates() && order.to_set() == state.tools.dom() && events
                == ended_in_order(state, order, reason, usage);
        assert(lists_keys(order, state.after_deltas(chunk).tools));
    }
}

/// The events of the end of a message, with the calls ended in that order.
pub open spec fn ended_in_order(
    state: ConverterView,
    order: Seq<usize>,
    reason: Seq<char>,
    usage: Option<OAIUsage>,
) -> Seq<StreamEventView> {
    let text = if state.text_block_open {
        seq![StreamEventView::ContentBlockStop { index: (state.next_block_index - 1) as nat }]
    } else {
        Seq::empty()
    };
    text + Seq::new(
        order.len(),
        |i: int| StreamEventView::ContentBlockStop { index: state.tools[order[i]] },
    ) + seq![
        StreamEventView::MessageDelta {
            stop_reason: Some(stop_reason(reason)),
            usage: usage_info(usage),
        },
        StreamEventView::MessageStop,
    ]
}

/// Ended in a given order of the calls, the blocks of the calls end in that order.
pub proof fn law_ends_are_in_the_given_order(
    state: ConverterView,
    order: Seq<usize>,
    reason: Seq<char>,
    usage: Option<OAIUsage>,
)
    ensures
        state.finish_events(order, reason, usage) == ended_in_order(state, order, reason, usage),
        state.after_finish() == (ConverterView {
            next_block_index: state.next_block_index,
            text_block_open: false,
            tools: Map::empty(),
            message_id: state.message_id,
        }),
{
    assert(state.tool_stops(order) == Seq::new(
        order.len(),
        |i: int| StreamEventView::ContentBlockStop { index: state.tools[order[i]] },
    ));
}

/// A stop is the end of the turn, tool calls are a tool use, a reached length is the most tokens,
/// and any other reason stays as it is.
pub proof fn law_reasons_are_translated(reason: Seq<char>)
    ensures
        reason == seq!['s', 't', 'o', 'p'] ==> stop_reason(reason) == "end_turn"@,
        reason == seq!['t', 'o', 'o', 'l', '_', 'c', 'a', 'l', 'l', 's'] ==> stop_reason(reason)
            == "tool_use"@,
        reason == seq!['l', 'e', 'n', 'g', 't', 'h'] ==> stop_reason(reason) == "max_tokens"@,
        reason != seq!['s', 't', 'o', 'p'] && reason != seq![
            't',
            'o',
            'o',
            'l',
            '_',
            'c',
            'a',
            'l',
            'l',
            's',
        ] && reason != seq!['l', 'e', 'n', 'g', 't', 'h'] ==> stop_reason(reason) == reason,
{
    reveal_strlit("stop");
    reveal_strlit("tool_calls");
    reveal_strlit("length");
    assert("stop"@ == seq!['s', 't', 'o', 'p']);
    assert("tool_calls"@ == seq!['t', 'o', 'o', 'l', '_', 'c', 'a', 'l', 'l', 's']);
    assert("length"@ == seq!['l', 'e', 'n', 'g', 't', 'h']);
    assert("stop"@.len() == 4 && "tool_calls"@.len() == 10 && "length"@.len() == 6);
}

/// The tokens of the prompt are the input, those of the answer the output, and nothing else was
/// used; without a report nothing is reported.
pub proof fn law_usage_is_reported(usage: Option<OAIUsage>)
    ensures
        usage is None <==> usage_info(usage) is None,
        usage is Some ==> {
            let report = usage_info(usage)->0;
            &&& report.input_tokens == usage->0.prompt_tokens
            &&& report.output_tokens == usage->0.completion_tokens
            &&& report.cache_creation_input_tokens == 0
            &&& report.cache_read_input_tokens == 0
        },
{
}

/// The text and the first so many calls of a chunk, as chunks of their own.
spec fn deltas_parts(
    content: Option<Seq<char>>,
    deltas: Seq<OAIToolCallDeltaView>,
) -> Seq<OAIChunkView> {
    seq![text_part(content)] + call_parts(deltas)
}

proof fn lemma_deltas_parts(
    state: ConverterView,
    content: Option<Seq<char>>,
    deltas: Seq<OAIToolCallDeltaView>,
) -> (added: Seq<Seq<StreamEventView>>)
    ensures
        state.after_chunks(deltas_parts(content, deltas)) == state.after_text(content).after_tools(
            deltas,
        ),
        state.runs(deltas_parts(content, deltas), added),
        flat(added) == state.text_events(content) + state.after_text(content).tools_events(deltas),
        forall|other: Seq<Seq<StreamEventView>>|
            state.runs(deltas_parts(content, deltas), other) ==> #[trigger] flat(other) == flat(
                added,
            ),
    decreases deltas.len(),
{
    let chunks = deltas_parts(content, deltas);
    let middle = state.after_text(content);
    if deltas.len() == 0 {
        let chunk = text_part(content);
        let text = state.text_events(content);
        assert(chunks == seq![chunk]);
        assert(chunks.drop_last() == Seq::<OAIChunkView>::empty());
        assert(chunk.choices[0].content == content);
        assert(state.delta_events(chunk) == text);
        let added = seq![text];
        assert(added.drop_last() == Seq::<Seq<StreamEventView>>::empty());
        reveal_with_fuel(ConverterView::after_chunks, 2);
        reveal_with_fuel(ConverterView::runs, 2);
        reveal_with_fuel(flat, 2);
        assert(flat(added) == text);
        assert forall|other: Seq<Seq<StreamEventView>>| state.runs(chunks, other) implies
            #[trigger] flat(other) == flat(added) by {
            assert(other == added);
        }
        assert(text + Seq::<StreamEventView>::empty() == text);
        added
    } else {
        let front = deltas.drop_last();
        let last = deltas.last();
        let before = lemma_deltas_parts(state, content, front);
        assert(chunks.drop_last() == deltas_parts(content, front));
        assert(chunks.last() == call_part(last));
        let at = middle.after_tools(front);
        let events = at.tool_events(last);
        lemma_call_part(at, last, events);
        let added = before.push(events);
        assert(added.drop_last() == before);
        assert(flat(added) == flat(before) + events);
        let text = state.text_events(content);
        assert(text + middle.tools_events(front) + events == text + (middle.tools_events(front)
            + events));
        assert forall|other: Seq<Seq<StreamEventView>>| state.runs(chunks, other) implies
            #[trigger] flat(other) == flat(added) by {
            lemma_call_part(at, last, other.last());
            assert(flat(other.drop_last()) == flat(before));
        }
        added
    }
}

/// A chunk adds what its parts add one after the other, and leaves the state that they leave: its
/// text, then each of its deltas of tool calls in their order, then the end of the message.
pub proof fn law_chunk_is_its_parts(
    state: ConverterView,
    chunk: OAIChunkView,
    events: Seq<StreamEventView>,
)
    requires
        chunk.choices.len() > 0,
    ensures
        state.after_chunk(chunk) == state.after_chunks(parts(chunk.choices[0], chunk.usage)),
        state.emits(chunk, events) <==> exists|added: Seq<Seq<StreamEventView>>|
            #![trigger state.runs(parts(chunk.choices[0], chunk.usage), added)]
            state.runs(parts(chunk.choices[0], chunk.usage), added) && events == flat(added),
{
    let choice = chunk.choices[0];
    let deltas = call_deltas(choice.tool_calls);
    let all = parts(choice, chunk.usage);
    let first = deltas_parts(choice.content, deltas);
    let before = lemma_deltas_parts(state, choice.content, deltas);
    let after = state.after_deltas(chunk);
    assert(state.delta_events(chunk) == flat(before));
    assert(state.after_chunks(first) == after);
    match choice.finish_reason {
        None => {
            assert(all == first);
            if state.emits(chunk, events) {
                assert(state.runs(all, before) && events == flat(before));
            }
        },
        Some(reason) => {
            let end = end_part(reason, chunk.usage);
            assert(all == first.push(end));
            assert(all.drop_last() == first);
            assert(end.choices[0].finish_reason == Some(reason));
            assert(after.after_text(None) == after);
            assert(after.after_deltas(end) == after);
            assert(after.delta_events(end) == Seq::<StreamEventView>::empty());
            assert forall|order: Seq<usize>| state.chunk_events(chunk, order) == flat(before)
                + after.chunk_events(end, order) by {
                assert(Seq::<StreamEventView>::empty() + after.finish_events(
                    order,
                    reason,
                    chunk.usage,
                ) == after.finish_events(order, reason, chunk.usage));
            }
            if state.emits(chunk, events) {
                let order = choose|order: Seq<usize>|
                    #![trigger lists_keys(order, state.after_deltas(chunk).tools)]
                    lists_keys(order, state.after_deltas(chunk).tools) && events
                        == state.chunk_events(chunk, order);
                let ends = after.chunk_events(end, order);
                let added = before.push(ends);
                assert(lists_keys(order, after.after_deltas(end).tools));
                assert(after.emits(end, ends));
                assert(added.drop_last() == before);
                assert(flat(added) == flat(before) + ends);
                assert(state.runs(all, added) && events == flat(added));
            }
            if exists|added: Seq<Seq<StreamEventView>>|
                #![trigger state.runs(all, added)]
                state.runs(all, added) && events == flat(added) {
                let added = choose|added: Seq<Seq<StreamEventView>>|
                    #![trigger state.runs(all, added)]
                    state.runs(all, added) && events == flat(added);
                let front = added.drop_last();
                assert(state.runs(first, front));
                assert(flat(front) == flat(before));
                assert(after.emits(end, added.last()));
                let order = choose|order: Seq<usize>|
                    #![trigger lists_keys(order, after.after_deltas(end).tools)]
                    lists_keys(order, after.after_deltas(end).tools) && added.last()
                        == after.chunk_events(end, order);
                assert(lists_keys(order, state.after_deltas(chunk).tools));
                assert(events == state.chunk_events(chunk, order));
            }
        },
    }
}

/// The tool calls that events start: the identifier and the name of each, in their order.
pub open spec fn started_calls(events: Seq<StreamEventView>) -> Seq<(Seq<char>, Seq<char>)> {
    events.filter(
        |event: StreamEventView|
            event is ContentBlockStart && event->content_block is ToolUse,
    ).map_values(
        |event: StreamEventView|
            (event->content_block->ToolUse_id, event->content_block->ToolUse_name),
    )
}

/// The tool calls that deltas name: of each the name, and the identifier that the delta gives, or
/// `call_` and the index of the call where it gives none.
pub open spec fn named_calls(deltas: Seq<OAIToolCallDeltaView>) -> Seq<(Seq<char>, Seq<char>)> {
    deltas.filter(
        |delta: OAIToolCallDeltaView| delta.function is Some && delta.function->0.name is Some,
    ).map_values(
        |delta: OAIToolCallDeltaView|
            (
                if delta.id is Some {
                    delta.id->0
                } else {
                    seq!['c', 'a', 'l', 'l', '_'] + decimal(delta.index as nat)
                },
                delta.function->0.name->0,
            ),
    )
}

proof fn lemma_started_append(first: Seq<StreamEventView>, second: Seq<StreamEventView>)
    ensures
        started_calls(first + second) == started_calls(first) + started_calls(second),
{
    let is_start = |event: StreamEventView|
        event is ContentBlockStart && event->content_block is ToolUse;
    Seq::filter_distributes_over_add(first, second, is_start);
    assert(started_calls(first + second) == started_calls(first) + started_calls(second));
}

proof fn lemma_started_one(event: StreamEventView)
    ensures
        event is ContentBlockStart && event->content_block is ToolUse ==> started_calls(
            seq![event],
        ) == seq![(event->content_block->ToolUse_id, event->content_block->ToolUse_name)],
        !(event is ContentBlockStart && event->content_block is ToolUse) ==> started_calls(
            seq![event],
        ) == Seq::<(Seq<char>, Seq<char>)>::empty(),
{
    reveal_with_fuel(Seq::filter, 2);
    assert(seq![event].drop_last() == Seq::<StreamEventView>::empty());
    let is_start = |event: StreamEventView|
        event is ContentBlockStart && event->content_block is ToolUse;
    if is_start(event) {
        assert(seq![event].filter(is_start) == seq![event]);
    } else {
        assert(seq![event].filter(is_start) == Seq::<StreamEventView>::empty());
    }
}

/// Events among which no tool call is started.
proof fn lemma_started_none(events: Seq<StreamEventView>)
    requires
        forall|i: int|
            0 <= i < events.len() ==> !((#[trigger] events[i]) is ContentBlockStart
                && events[i]->content_block is ToolUse),
    ensures
        started_calls(events) == Seq::<(Seq<char>, Seq<char>)>::empty(),
    decreases events.len(),
{
    if events.len() == 0 {
        reveal(Seq::filter);
        assert(started_calls(events) == Seq::<(Seq<char>, Seq<char>)>::empty());
    } else {
        let front = events.drop_last();
        let last = events[events.len() - 1];
        assert forall|i: int| 0 <= i < front.len() implies !((#[trigger] front[
            i
        ]) is ContentBlockStart && front[i]->content_block is ToolUse) by {
            assert(front[i] == events[i]);
        }
        lemma_started_none(front);
        lemma_started_one(last);
        lemma_started_append(front, seq![last]);
        assert(events == front + seq![last]);
    }
}

proof fn lemma_started_by_deltas(state: ConverterView, deltas: Seq<OAIToolCallDeltaView>)
    ensures
        started_calls(state.tools_events(deltas)) == named_calls(deltas),
    decreases deltas.len(),
{
    reveal(Seq::filter);
    if deltas.len() == 0 {
        lemma_started_none(state.tools_events(deltas));
        assert(named_calls(deltas) == Seq::<(Seq<char>, Seq<char>)>::empty());
    } else {
        let front = deltas.drop_last();
        let last = deltas.last();
        let at = state.after_tools(front);
        let events = at.tool_events(last);
        let named = |delta: OAIToolCallDeltaView|
            delta.function is Some && delta.function->0.name is Some;
        lemma_started_by_deltas(state, front);
        lemma_started_append(state.tools_events(front), events);
        if named(last) {
            reveal_strlit("call_");
            assert("call_"@ == seq!['c', 'a', 'l', 'l', '_']);
            let start = events[at.text_stop().len() as int];
            let stop = at.text_stop();
            let rest = events.skip(stop.len() as int + 1);
            assert(events == stop + seq![start] + rest);
            lemma_started_none(stop);
            lemma_started_none(rest);
            lemma_started_one(start);
            lemma_started_append(stop, seq![start]);
            lemma_started_append(stop + seq![start], rest);
            assert(deltas.filter(named) == front.filter(named).push(last));
            assert(named_calls(deltas) == named_calls(front) + started_calls(events));
        } else {
            lemma_started_none(events);
            assert(deltas.filter(named) == front.filter(named));
            assert(named_calls(deltas) == named_calls(front) + started_calls(events));
        }
    }
}

/// Whatever chunk comes, the tool calls that its events start are those that its deltas name, one
/// for one and in their order, each with the identifier and the name that the delta gives, whole.
pub proof fn law_started_calls_are_those_named(
    state: ConverterView,
    chunk: OAIChunkView,
    events: Seq<StreamEventView>,
)
    requires
        state.emits(chunk, events),
    ensures
        chunk.choices.len() == 0 ==> started_calls(events) == Seq::<
            (Seq<char>, Seq<char>),
        >::empty(),
        chunk.choices.len() > 0 ==> started_calls(events) == (match chunk.choices[0].tool_calls {
            Some(deltas) => named_calls(deltas),
            None => Seq::empty(),
        }),
{
    if chunk.choices.len() == 0 {
        lemma_started_none(events);
    } else {
        let choice = chunk.choices[0];
        let deltas = call_deltas(choice.tool_calls);
        let text = state.text_events(choice.content);
        let middle = state.after_text(choice.content);
        let after = state.after_deltas(chunk);
        lemma_started_none(text);
        lemma_started_by_deltas(middle, deltas);
        lemma_started_append(text, middle.tools_events(deltas));
        let none = Seq::<(Seq<char>, Seq<char>)>::empty();
        assert(none + named_calls(deltas) == named_calls(deltas));
        assert(named_calls(deltas) + none == named_calls(deltas));
        if choice.tool_calls is None {
            reveal(Seq::filter);
            assert(named_calls(deltas) == none);
        }
        if let Some(reason) = finish_reason(chunk) {
            let order = choose|order: Seq<usize>|
                #![trigger lists_keys(order, after.tools)]
                lists_keys(order, after.tools) && events == state.chunk_events(chunk, order);
            let ends = after.finish_events(order, reason, chunk.usage);
            lemma_started_none(ends);
            lemma_started_append(state.delta_events(chunk), ends);
        }
    }
}

/// There is room for a chunk unless the index behind its blocks is too large for the machine; one
/// that starts no block always has room.
pub proof fn law_room_is_that_of_the_machine(state: ConverterView, chunk: OAIChunkView)
    ensures
        state.has_room(chunk) <==> state.after_chunk(chunk).next_block_index
            <= state.next_block_index || state.after_chunk(chunk).next_block_index <= usize::MAX,
{
}

} // verus!
