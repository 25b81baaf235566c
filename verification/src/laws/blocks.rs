//! The blocks of a message: started in order, continued and ended while they are open.
use crate::stream::{
    argument_events, call_deltas, finish_reason, has_text, initial, lists_keys, starts_call,
    stop_reason, usage_info, ConverterView,
};
use crate::types::StreamEventView;
use crate::wire::{OAIChunkView, OAIToolCallDeltaView, OAIUsage};
use vstd::prelude::*;

verus! {

/// How many blocks were started, if `started` were started before these events.
pub open spec fn started_after(started: nat, events: Seq<StreamEventView>) -> nat
    decreases events.len(),
{
    if events.len() == 0 {
        started
    } else {
        let before = started_after(started, events.drop_last());
        match events.last() {
            StreamEventView::ContentBlockStart { .. } => before + 1,
            _ => before,
        }
    }
}

/// Which blocks are open, if those of `open` were open before these events.
pub open spec fn open_after(open: Set<nat>, events: Seq<StreamEventView>) -> Set<nat>
    decreases events.len(),
{
    if events.len() == 0 {
        open
    } else {
        let before = open_after(open, events.drop_last());
        match events.last() {
            StreamEventView::ContentBlockStart { index, .. } => before.insert(index),
            StreamEventView::ContentBlockStop { index } => before.remove(index),
            _ => before,
        }
    }
}

/// Whether each event fits what went before: a block that is started has the next index, and a
/// block that is continued or ended is open.
pub open spec fn in_order(started: nat, open: Set<nat>, events: Seq<StreamEventView>) -> bool
    decreases events.len(),
{
    events.len() > 0 ==> {
        let before = events.drop_last();
        &&& in_order(started, open, before)
        &&& match events.last() {
            StreamEventView::ContentBlockStart { index, .. } => index == started_after(
                started,
                before,
            ),
            StreamEventView::ContentBlockDelta { index, .. } => open_after(open, before).contains(
                index,
            ),
            StreamEventView::ContentBlockStop { index } => open_after(open, before).contains(index),
            _ => true,
        }
    }
}

impl ConverterView {
    /// The blocks that the converter will end at the end of the message.
    pub open spec fn open_blocks(self) -> Set<nat> {
        Set::new(
            |block: nat|
                {
                    ||| self.text_block_open && block + 1 == self.next_block_index
                    ||| exists|call: usize| #[trigger]
                        self.tools.contains_key(call) && self.tools[call] == block
                },
        )
    }

    /// The block that a delta makes the converter forget: that of a known call which is named
    /// again.
    pub open spec fn forgotten_by(self, delta: OAIToolCallDeltaView) -> Set<nat> {
        if starts_call(delta) && self.tools.contains_key(delta.index) {
            Set::empty().insert(self.tools[delta.index])
        } else {
            Set::empty()
        }
    }

    /// The blocks that several deltas make the converter forget.
    pub open spec fn forgotten_by_deltas(self, deltas: Seq<OAIToolCallDeltaView>) -> Set<nat>
        decreases deltas.len(),
    {
        if deltas.len() == 0 {
            Set::empty()
        } else {
            self.forgotten_by_deltas(deltas.drop_last()).union(
                self.after_tools(deltas.drop_last()).forgotten_by(deltas.last()),
            )
        }
    }

    /// The blocks that a chunk makes the converter forget.
    pub open spec fn forgotten_by_chunk(self, chunk: OAIChunkView) -> Set<nat> {
        if chunk.choices.len() == 0 {
            Set::empty()
        } else {
            let choice = chunk.choices[0];
            self.after_text(choice.content).forgotten_by_deltas(call_deltas(choice.tool_calls))
        }
    }

    /// The state after several chunks.
    pub open spec fn after_chunks(self, chunks: Seq<OAIChunkView>) -> ConverterView
        decreases chunks.len(),
    {
        if chunks.len() == 0 {
            self
        } else {
            self.after_chunks(chunks.drop_last()).after_chunk(chunks.last())
        }
    }

    /// Whether several chunks may add these events, one sequence for each chunk.
    pub open spec fn runs(self, chunks: Seq<OAIChunkView>, added: Seq<Seq<StreamEventView>>) -> bool
        decreases chunks.len(),
    {
        &&& added.len() == chunks.len()
        &&& chunks.len() > 0 ==> {
            &&& self.runs(chunks.drop_last(), added.drop_last())
            &&& self.after_chunks(chunks.drop_last()).emits(chunks.last(), added.last())
        }
    }

    /// The blocks that several chunks make the converter forget.
    pub open spec fn forgotten_by_chunks(self, chunks: Seq<OAIChunkView>) -> Set<nat>
        decreases chunks.len(),
    {
        if chunks.len() == 0 {
            Set::empty()
        } else {
            self.forgotten_by_chunks(chunks.drop_last()).union(
                self.after_chunks(chunks.drop_last()).forgotten_by_chunk(chunks.last()),
            )
        }
    }
}

/// The events of several chunks in one sequence.
pub open spec fn flat(added: Seq<Seq<StreamEventView>>) -> Seq<StreamEventView>
    decreases added.len(),
{
    if added.len() == 0 {
        Seq::empty()
    } else {
        flat(added.drop_last()) + added.last()
    }
}

/// Whether some blocks were started but are not among those that the converter knows.
pub open spec fn apart(state: ConverterView, lost: Set<nat>) -> bool {
    forall|block: nat| #[trigger]
        lost.contains(block) ==> block < state.next_block_index && !state.open_blocks().contains(
            block,
        )
}

/// Whether events lead from one state to another, with forgotten blocks beside each of them.
pub open spec fn leads(
    from: ConverterView,
    lost: Set<nat>,
    events: Seq<StreamEventView>,
    to: ConverterView,
    lost_then: Set<nat>,
) -> bool {
    let open = from.open_blocks().union(lost);
    &&& in_order(from.next_block_index, open, events)
    &&& started_after(from.next_block_index, events) == to.next_block_index
    &&& open_after(open, events) == to.open_blocks().union(lost_then)
}

proof fn lemma_events_append(
    started: nat,
    open: Set<nat>,
    first: Seq<StreamEventView>,
    second: Seq<StreamEventView>,
)
    ensures
        started_after(started, first + second) == started_after(
            started_after(started, first),
            second,
        ),
        open_after(open, first + second) == open_after(open_after(open, first), second),
        in_order(started, open, first + second) == (in_order(started, open, first) && in_order(
            started_after(started, first),
            open_after(open, first),
            second,
        )),
    decreases second.len(),
{
    if second.len() == 0 {
        assert(first + second == first);
    } else {
        lemma_events_append(started, open, first, second.drop_last());
        assert((first + second).drop_last() == first + second.drop_last());
    }
}

proof fn lemma_leads_append(
    a: ConverterView,
    lost_a: Set<nat>,
    first: Seq<StreamEventView>,
    b: ConverterView,
    lost_b: Set<nat>,
    second: Seq<StreamEventView>,
    c: ConverterView,
    lost_c: Set<nat>,
)
    requires
        leads(a, lost_a, first, b, lost_b),
        leads(b, lost_b, second, c, lost_c),
    ensures
        leads(a, lost_a, first + second, c, lost_c),
{
    lemma_events_append(
        a.next_block_index,
        a.open_blocks().union(lost_a),
        first,
        second,
    );
}

/// One event that starts, continues or ends a block.
proof fn lemma_single(started: nat, open: Set<nat>, event: StreamEventView)
    ensures
        started_after(started, seq![event]) == (match event {
            StreamEventView::ContentBlockStart { .. } => started + 1,
            _ => started,
        }),
        open_after(open, seq![event]) == (match event {
            StreamEventView::ContentBlockStart { index, .. } => open.insert(index),
            StreamEventView::ContentBlockStop { index } => open.remove(index),
            _ => open,
        }),
        in_order(started, open, seq![event]) == (match event {
            StreamEventView::ContentBlockStart { index, .. } => index == started,
            StreamEventView::ContentBlockDelta { index, .. } => open.contains(index),
            StreamEventView::ContentBlockStop { index } => open.contains(index),
            _ => true,
        }),
{
    reveal_with_fuel(started_after, 2);
    reveal_with_fuel(open_after, 2);
    reveal_with_fuel(in_order, 2);
    assert(seq![event].drop_last() == Seq::<StreamEventView>::empty());
}

pub proof fn lemma_text_leads(state: ConverterView, content: Option<Seq<char>>, lost: Set<nat>)
    requires
        state.wf(),
        apart(state, lost),
    ensures
        state.after_text(content).wf(),
        apart(state.after_text(content), lost),
        leads(state, lost, state.text_events(content), state.after_text(content), lost),
{
    let after = state.after_text(content);
    let events = state.text_events(content);
    let open = state.open_blocks().union(lost);
    if has_text(content) {
        let delta = events.last();
        let start = events.drop_last();
        assert(events == start + seq![delta]);
        if state.text_block_open {
            assert(start == Seq::<StreamEventView>::empty());
        } else {
            assert(start == seq![start[0]]);
            lemma_single(state.next_block_index, open, start[0]);
            assert forall|block: nat| after.open_blocks().contains(block) ==
                state.open_blocks().insert(state.next_block_index).contains(block) by {}
        }
        assert(open_after(open, start) == after.open_blocks().union(lost));
        lemma_single(after.next_block_index, after.open_blocks().union(lost), delta);
        lemma_events_append(state.next_block_index, open, start, seq![delta]);
    } else {
        assert(open_after(open, events) == open);
    }
}

proof fn lemma_text_stop_leads(state: ConverterView, lost: Set<nat>)
    requires
        state.wf(),
        apart(state, lost),
    ensures
        ({
            let after = ConverterView { text_block_open: false, ..state };
            &&& after.wf()
            &&& apart(after, lost)
            &&& leads(state, lost, state.text_stop(), after, lost)
        }),
{
    let after = ConverterView { text_block_open: false, ..state };
    let open = state.open_blocks().union(lost);
    if state.text_block_open {
        let block = (state.next_block_index - 1) as nat;
        assert(state.open_blocks().contains(block));
        lemma_single(state.next_block_index, open, state.text_stop()[0]);
        assert(state.text_stop() == seq![state.text_stop()[0]]);
        assert(!lost.contains(block));
        assert(open.remove(block) == after.open_blocks().union(lost));
    } else {
        assert(after == state);
    }
    assert forall|block: nat| #[trigger] lost.contains(block) implies block
        < after.next_block_index && !after.open_blocks().contains(block) by {
        assert(!state.open_blocks().contains(block));
    }
}

proof fn lemma_arguments_lead(
    state: ConverterView,
    index: nat,
    arguments: Option<Seq<char>>,
    lost: Set<nat>,
)
    requires
        state.open_blocks().contains(index),
    ensures
        leads(state, lost, argument_events(index, arguments), state, lost),
{
    let events = argument_events(index, arguments);
    let open = state.open_blocks().union(lost);
    if has_text(arguments) {
        assert(events == seq![events[0]]);
        lemma_single(state.next_block_index, open, events[0]);
    }
}

pub proof fn lemma_tool_leads(state: ConverterView, delta: OAIToolCallDeltaView, lost: Set<nat>)
    requires
        state.wf(),
        apart(state, lost),
    ensures
        state.after_tool(delta).wf(),
        apart(state.after_tool(delta), lost.union(state.forgotten_by(delta))),
        leads(
            state,
            lost,
            state.tool_events(delta),
            state.after_tool(delta),
            lost.union(state.forgotten_by(delta)),
        ),
{
    let after = state.after_tool(delta);
    let lost_then = lost.union(state.forgotten_by(delta));
    if starts_call(delta) {
        let function = delta.function->0;
        let closed = ConverterView { text_block_open: false, ..state };
        let stop = state.text_stop();
        lemma_text_stop_leads(state, lost);
        let start = state.tool_events(delta)[stop.len() as int];
        let arguments = argument_events(state.next_block_index, function.arguments);
        assert(state.tool_events(delta) == stop + seq![start] + arguments);
        let open = closed.open_blocks().union(lost);
        lemma_single(state.next_block_index, open, start);
        assert(after.open_blocks().contains(state.next_block_index)) by {
            assert(after.tools.contains_key(delta.index));
        }
        assert forall|block: nat| open.insert(state.next_block_index).contains(block)
            == after.open_blocks().union(lost_then).contains(block) by {
            if closed.open_blocks().contains(block) {
                let call = choose|call: usize| #[trigger]
                    closed.tools.contains_key(call) && closed.tools[call] == block;
                if call != delta.index {
                    assert(after.tools.contains_key(call));
                    assert(after.tools[call] == block);
                }
            }
            if after.open_blocks().contains(block) {
                let call = choose|call: usize| #[trigger]
                    after.tools.contains_key(call) && after.tools[call] == block;
                if call != delta.index {
                    assert(closed.tools.contains_key(call));
                }
            }
            if state.forgotten_by(delta).contains(block) {
                assert(closed.tools.contains_key(delta.index));
            }
        }
        assert(open.insert(state.next_block_index) == after.open_blocks().union(lost_then));
        assert(leads(closed, lost, seq![start], after, lost_then));
        lemma_leads_append(state, lost, stop, closed, lost, seq![start], after, lost_then);
        lemma_arguments_lead(after, state.next_block_index, function.arguments, lost_then);
        lemma_leads_append(
            state,
            lost,
            stop + seq![start],
            after,
            lost_then,
            arguments,
            after,
            lost_then,
        );
        assert forall|block: nat| #[trigger] lost_then.contains(block) implies block
            < after.next_block_index && !after.open_blocks().contains(block) by {
            if after.open_blocks().contains(block) {
                let call = choose|call: usize| #[trigger]
                    after.tools.contains_key(call) && after.tools[call] == block;
                if call != delta.index {
                    assert(closed.tools.contains_key(call));
                    assert(closed.open_blocks().contains(block));
                    if !lost.contains(block) {
                        assert(state.tools.contains_key(delta.index));
                        assert(state.tools[call] != state.tools[delta.index]);
                    }
                }
            }
        }
        assert(after.wf()) by {
            assert forall|left: usize, right: usize|
                after.tools.contains_key(left) && after.tools.contains_key(right) && left
                    != right implies #[trigger] after.tools[left]
                != #[trigger] after.tools[right] by {
                if left != delta.index {
                    assert(state.tools.contains_key(left));
                }
                if right != delta.index {
                    assert(state.tools.contains_key(right));
                }
            }
        }
    } else {
        assert(lost_then == lost);
        match delta.function {
            Some(function) => if state.tools.contains_key(delta.index) {
                assert(state.open_blocks().contains(state.tools[delta.index]));
                lemma_arguments_lead(
                    state,
                    state.tools[delta.index],
                    function.arguments,
                    lost,
                );
            },
            None => {},
        }
    }
}

pub proof fn lemma_tools_lead(
    state: ConverterView,
    deltas: Seq<OAIToolCallDeltaView>,
    lost: Set<nat>,
)
    requires
        state.wf(),
        apart(state, lost),
    ensures
        state.after_tools(deltas).wf(),
        apart(state.after_tools(deltas), lost.union(state.forgotten_by_deltas(deltas))),
        leads(
            state,
            lost,
            state.tools_events(deltas),
            state.after_tools(deltas),
            lost.union(state.forgotten_by_deltas(deltas)),
        ),
    decreases deltas.len(),
{
    if deltas.len() == 0 {
        assert(lost.union(state.forgotten_by_deltas(deltas)) == lost);
    } else {
        let front = deltas.drop_last();
        let middle = state.after_tools(front);
        let lost_middle = lost.union(state.forgotten_by_deltas(front));
        lemma_tools_lead(state, front, lost);
        lemma_tool_leads(middle, deltas.last(), lost_middle);
        let lost_then = lost_middle.union(middle.forgotten_by(deltas.last()));
        assert(lost_then == lost.union(state.forgotten_by_deltas(deltas)));
        lemma_leads_append(
            state,
            lost,
            state.tools_events(front),
            middle,
            lost_middle,
            middle.tool_events(deltas.last()),
            state.after_tools(deltas),
            lost_then,
        );
    }
}

/// The state in which the blocks of some calls have been ended.
spec fn without_calls(state: ConverterView, calls: Set<usize>) -> ConverterView {
    ConverterView { tools: state.tools.remove_keys(calls), ..state }
}

proof fn lemma_stops_lead(state: ConverterView, order: Seq<usize>, lost: Set<nat>)
    requires
        state.wf(),
        !state.text_block_open,
        apart(state, lost),
        order.no_duplicates(),
        forall|i: int| 0 <= i < order.len() ==> state.tools.contains_key(#[trigger] order[i]),
    ensures
        leads(
            state,
            lost,
            state.tool_stops(order),
            without_calls(state, order.to_set()),
            lost,
        ),
    decreases order.len(),
{
    let after = without_calls(state, order.to_set());
    if order.len() == 0 {
        assert(state.tool_stops(order) == Seq::<StreamEventView>::empty());
        assert(after.tools == state.tools);
    } else {
        let front = order.drop_last();
        let call = order.last();
        let middle = without_calls(state, front.to_set());
        lemma_stops_lead(state, front, lost);
        let stop = state.tool_stops(order).last();
        assert(state.tool_stops(order) == state.tool_stops(front) + seq![stop]);
        let block = state.tools[call];
        assert(!front.contains(call));
        assert(middle.tools.contains_key(call));
        assert(middle.open_blocks().contains(block));
        let open = middle.open_blocks().union(lost);
        lemma_single(state.next_block_index, open, stop);
        assert(state.open_blocks().contains(block)) by {
            assert(state.tools.contains_key(call));
        }
        assert(!lost.contains(block));
        assert forall|other: nat| open.remove(block).contains(other) == after.open_blocks().union(
            lost,
        ).contains(other) by {
            if middle.open_blocks().contains(other) && other != block {
                let known = choose|known: usize| #[trigger]
                    middle.tools.contains_key(known) && middle.tools[known] == other;
                assert(!order.contains(known)) by {
                    if order.contains(known) {
                        let at = choose|at: int| 0 <= at < order.len() && order[at] == known;
                        if at < front.len() {
                            assert(front[at] == known);
                        }
                    }
                }
                assert(after.tools.contains_key(known));
            }
            if after.open_blocks().contains(other) {
                let known = choose|known: usize| #[trigger]
                    after.tools.contains_key(known) && after.tools[known] == other;
                assert(!order.contains(known));
                assert(!front.contains(known)) by {
                    if front.contains(known) {
                        let at = choose|at: int| 0 <= at < front.len() && front[at] == known;
                        assert(order[at] == known);
                    }
                }
                assert(order[order.len() - 1] == call);
                assert(known != call);
                assert(middle.tools.contains_key(known));
                assert(state.tools.contains_key(known));
                assert(state.tools[known] != state.tools[call]);
            }
        }
        assert(open.remove(block) == after.open_blocks().union(lost));
        assert(leads(middle, lost, seq![stop], after, lost));
        lemma_leads_append(
            state,
            lost,
            state.tool_stops(front),
            middle,
            lost,
            seq![stop],
            after,
            lost,
        );
    }
}

proof fn lemma_finish_leads(
    state: ConverterView,
    order: Seq<usize>,
    reason: Seq<char>,
    usage: Option<OAIUsage>,
    lost: Set<nat>,
)
    requires
        state.wf(),
        apart(state, lost),
        lists_keys(order, state.tools),
    ensures
        state.after_finish().wf(),
        apart(state.after_finish(), lost),
        leads(state, lost, state.finish_events(order, reason, usage), state.after_finish(), lost),
{
    let closed = ConverterView { text_block_open: false, ..state };
    let after = state.after_finish();
    lemma_text_stop_leads(state, lost);
    assert forall|i: int| 0 <= i < order.len() implies closed.tools.contains_key(
        #[trigger] order[i],
    ) by {
        assert(order.to_set().contains(order[i]));
    }
    lemma_stops_lead(closed, order, lost);
    assert(without_calls(closed, order.to_set()).tools == after.tools);
    assert(closed.tool_stops(order) == state.tool_stops(order));
    lemma_leads_append(
        state,
        lost,
        state.text_stop(),
        closed,
        lost,
        state.tool_stops(order),
        after,
        lost,
    );
    let delta = StreamEventView::MessageDelta {
        stop_reason: Some(stop_reason(reason)),
        usage: usage_info(usage),
    };
    let stop = StreamEventView::MessageStop;
    let open = after.open_blocks().union(lost);
    lemma_single(after.next_block_index, open, delta);
    lemma_single(after.next_block_index, open, stop);
    let stops = state.text_stop() + state.tool_stops(order);
    lemma_leads_append(state, lost, stops, after, lost, seq![delta], after, lost);
    lemma_leads_append(
        state,
        lost,
        stops + seq![delta],
        after,
        lost,
        seq![stop],
        after,
        lost,
    );
    assert(state.finish_events(order, reason, usage) == stops + seq![delta] + seq![stop]);
}

proof fn lemma_chunk_leads(
    state: ConverterView,
    chunk: OAIChunkView,
    added: Seq<StreamEventView>,
    lost: Set<nat>,
)
    requires
        state.wf(),
        apart(state, lost),
        state.emits(chunk, added),
    ensures
        state.after_chunk(chunk).wf(),
        apart(state.after_chunk(chunk), lost.union(state.forgotten_by_chunk(chunk))),
        leads(
            state,
            lost,
            added,
            state.after_chunk(chunk),
            lost.union(state.forgotten_by_chunk(chunk)),
        ),
{
    let lost_then = lost.union(state.forgotten_by_chunk(chunk));
    if chunk.choices.len() == 0 {
        assert(lost_then == lost);
    } else {
        let choice = chunk.choices[0];
        let calls = call_deltas(choice.tool_calls);
        let middle = state.after_text(choice.content);
        let after = state.after_deltas(chunk);
        lemma_text_leads(state, choice.content, lost);
        lemma_tools_lead(middle, calls, lost);
        lemma_leads_append(
            state,
            lost,
            state.text_events(choice.content),
            middle,
            lost,
            middle.tools_events(calls),
            after,
            lost_then,
        );
        if let Some(reason) = choice.finish_reason {
            let order = choose|order: Seq<usize>|
                #![trigger lists_keys(order, state.after_deltas(chunk).tools)]
                lists_keys(order, state.after_deltas(chunk).tools) && added
                    == state.chunk_events(chunk, order);
            lemma_finish_leads(after, order, reason, chunk.usage, lost_then);
            lemma_leads_append(
                state,
                lost,
                state.delta_events(chunk),
                after,
                lost_then,
                after.finish_events(order, reason, chunk.usage),
                after.after_finish(),
                lost_then,
            );
        }
    }
}

pub proof fn lemma_run_leads(
    state: ConverterView,
    chunks: Seq<OAIChunkView>,
    added: Seq<Seq<StreamEventView>>,
)
    requires
        state.wf(),
        state.runs(chunks, added),
    ensures
        state.after_chunks(chunks).wf(),
        apart(state.after_chunks(chunks), state.forgotten_by_chunks(chunks)),
        leads(
            state,
            Set::empty(),
            flat(added),
            state.after_chunks(chunks),
            state.forgotten_by_chunks(chunks),
        ),
    decreases chunks.len(),
{
    if chunks.len() > 0 {
        let front = chunks.drop_last();
        let middle = state.after_chunks(front);
        let lost = state.forgotten_by_chunks(front);
        lemma_run_leads(state, front, added.drop_last());
        lemma_chunk_leads(middle, chunks.last(), added.last(), lost);
        lemma_leads_append(
            state,
            Set::empty(),
            flat(added.drop_last()),
            middle,
            lost,
            added.last(),
            state.after_chunks(chunks),
            state.forgotten_by_chunks(chunks),
        );
    }
}

/// Whatever chunks come, the blocks of the message are numbered in the order in which they are
/// started, and only blocks that are open are continued or ended.
pub proof fn law_blocks_in_order(
    message_id: Seq<char>,
    chunks: Seq<OAIChunkView>,
    added: Seq<Seq<StreamEventView>>,
)
    requires
        initial(message_id).runs(chunks, added),
    ensures
        in_order(0, Set::empty(), flat(added)),
        started_after(0, flat(added)) == initial(message_id).after_chunks(chunks).next_block_index,
{
    lemma_run_leads(initial(message_id), chunks, added);
    assert(initial(message_id).open_blocks().union(Set::empty()) == Set::<nat>::empty());
}

/// The blocks that are open after some chunks are those that the converter will end, and those
/// of tool calls that were named again before they were ended.
pub proof fn law_open_blocks_are_known(
    message_id: Seq<char>,
    chunks: Seq<OAIChunkView>,
    added: Seq<Seq<StreamEventView>>,
)
    requires
        initial(message_id).runs(chunks, added),
    ensures
        open_after(Set::empty(), flat(added)) == initial(message_id).after_chunks(
            chunks,
        ).open_blocks().union(initial(message_id).forgotten_by_chunks(chunks)),
{
    lemma_run_leads(initial(message_id), chunks, added);
    assert(initial(message_id).open_blocks().union(Set::empty()) == Set::<nat>::empty());
}

/// When the message has ended, every block has been ended, unless a tool call was named again
/// before it was ended.
pub proof fn law_every_block_is_ended(
    message_id: Seq<char>,
    chunks: Seq<OAIChunkView>,
    added: Seq<Seq<StreamEventView>>,
)
    requires
        initial(message_id).runs(chunks, added),
        chunks.len() > 0,
        finish_reason(chunks.last()) is Some,
        initial(message_id).forgotten_by_chunks(chunks) == Set::<nat>::empty(),
    ensures
        open_after(Set::empty(), flat(added)) == Set::<nat>::empty(),
{
    law_open_blocks_are_known(message_id, chunks, added);
    let after = initial(message_id).after_chunks(chunks);
    assert(after.open_blocks() == Set::<nat>::empty());
}

} // verus!
