//! From the chunks of a streamed answer to the events of a streamed message.
use crate::json::{empty_object, JsonView};
use crate::outside::{random_uuid, random_uuid_form};
use crate::text::{decimal, decimal_text};
use crate::types::{
    ContentBlock, ContentBlockView, ContentDelta, ContentDeltaView, StreamEvent, StreamEventView,
    UsageInfo,
};
use crate::wire::{OAIChunk, OAIChunkView, OAIToolCallDelta, OAIToolCallDeltaView, OAIUsage};
use std::collections::HashMap;
use vstd::prelude::*;
use vstd::std_specs::iter::IteratorSpec;

verus! {

broadcast use vstd::std_specs::hash::group_hash_axioms;

/// The state of a conversion.
pub struct ConverterView {
    /// The index of the next content block.
    pub next_block_index: nat,
    /// Whether a text block is open. If so it is the last block that was started.
    pub text_block_open: bool,
    /// The content blocks of the known tool calls, by the index of the call on the wire.
    pub tools: Map<usize, nat>,
    /// The identifier of the message.
    pub message_id: Seq<char>,
}

impl ConverterView {
    /// The blocks of the state are blocks that were started, each counted once, and the known
    /// calls are finitely many.
    pub open spec fn wf(self) -> bool {
        &&& self.tools.dom().finite()
        &&& self.text_block_open ==> self.next_block_index > 0
        &&& forall|call: usize| #[trigger]
            self.tools.contains_key(call) ==> self.tools[call] < self.next_block_index
        &&& self.text_block_open ==> forall|call: usize| #[trigger]
            self.tools.contains_key(call) ==> self.tools[call] != self.next_block_index - 1
        &&& forall|left: usize, right: usize|
            self.tools.contains_key(left) && self.tools.contains_key(right) && left != right
                ==> #[trigger] self.tools[left] != #[trigger] self.tools[right]
    }

    /// The end of the open text block, if there is one.
    pub open spec fn text_stop(self) -> Seq<StreamEventView> {
        if self.text_block_open {
            seq![
                StreamEventView::ContentBlockStop { index: (self.next_block_index - 1) as nat },
            ]
        } else {
            Seq::empty()
        }
    }

    /// What a piece of text adds to the events: the start of a text block unless one is open,
    /// and the text. An empty piece adds nothing.
    pub open spec fn text_events(self, content: Option<Seq<char>>) -> Seq<StreamEventView> {
        if has_text(content) {
            let after = self.after_text(content);
            let start = if self.text_block_open {
                Seq::empty()
            } else {
                seq![
                    StreamEventView::ContentBlockStart {
                        index: self.next_block_index,
                        content_block: ContentBlockView::Text { text: Seq::empty() },
                    },
                ]
            };
            start.push(
                StreamEventView::ContentBlockDelta {
                    index: (after.next_block_index - 1) as nat,
                    delta: ContentDeltaView::TextDelta { text: content->0 },
                },
            )
        } else {
            Seq::empty()
        }
    }

    /// The state after a piece of text.
    pub open spec fn after_text(self, content: Option<Seq<char>>) -> ConverterView {
        if has_text(content) && !self.text_block_open {
            ConverterView {
                next_block_index: self.next_block_index + 1,
                text_block_open: true,
                ..self
            }
        } else {
            self
        }
    }

    /// What a delta of a tool call adds to the events. One that names a function ends the open
    /// text block and starts a block of its own; one that does not continues the block of
    /// its call, if that is known.
    pub open spec fn tool_events(self, delta: OAIToolCallDeltaView) -> Seq<StreamEventView> {
        match delta.function {
            Some(function) => match function.name {
                Some(name) => self.text_stop().push(
                    StreamEventView::ContentBlockStart {
                        index: self.next_block_index,
                        content_block: ContentBlockView::ToolUse {
                            id: call_id(delta),
                            name,
                            input: JsonView::Object(Map::empty()),
                        },
                    },
                ) + argument_events(self.next_block_index, function.arguments),
                None => if self.tools.contains_key(delta.index) {
                    argument_events(self.tools[delta.index], function.arguments)
                } else {
                    Seq::empty()
                },
            },
            None => Seq::empty(),
        }
    }

    /// The state after a delta of a tool call.
    pub open spec fn after_tool(self, delta: OAIToolCallDeltaView) -> ConverterView {
        if starts_call(delta) {
            ConverterView {
                next_block_index: self.next_block_index + 1,
                text_block_open: false,
                tools: self.tools.insert(delta.index, self.next_block_index),
                ..self
            }
        } else {
            self
        }
    }

    /// What several deltas of tool calls add to the events.
    pub open spec fn tools_events(self, deltas: Seq<OAIToolCallDeltaView>) -> Seq<StreamEventView>
        decreases deltas.len(),
    {
        if deltas.len() == 0 {
            Seq::empty()
        } else {
            self.tools_events(deltas.drop_last()) + self.after_tools(
                deltas.drop_last(),
            ).tool_events(deltas.last())
        }
    }

    /// The state after several deltas of tool calls.
    pub open spec fn after_tools(self, deltas: Seq<OAIToolCallDeltaView>) -> ConverterView
        decreases deltas.len(),
    {
        if deltas.len() == 0 {
            self
        } else {
            self.after_tools(deltas.drop_last()).after_tool(deltas.last())
        }
    }

    /// Deltas of tool calls never lower the index of the next block.
    pub proof fn lemma_next_grows(self, deltas: Seq<OAIToolCallDeltaView>, i: int)
        requires
            0 <= i <= deltas.len(),
        ensures
            self.after_tools(deltas.take(i)).next_block_index <= self.after_tools(
                deltas,
            ).next_block_index,
        decreases deltas.len(),
    {
        if i < deltas.len() {
            self.lemma_next_grows(deltas.drop_last(), i);
            assert(deltas.drop_last().take(i) == deltas.take(i));
        } else {
            assert(deltas.take(i) == deltas);
        }
    }

    /// What the end of the message adds to the events: the end of every open block, those of
    /// tool calls in the given order of the calls, then why the message ended.
    pub open spec fn finish_events(
        self,
        order: Seq<usize>,
        reason: Seq<char>,
        usage: Option<OAIUsage>,
    ) -> Seq<StreamEventView> {
        self.text_stop() + self.tool_stops(order) + seq![
            StreamEventView::MessageDelta {
                stop_reason: Some(stop_reason(reason)),
                usage: usage_info(usage),
            },
            StreamEventView::MessageStop,
        ]
    }

    /// The ends of the blocks of tool calls, in the given order of the calls.
    pub open spec fn tool_stops(self, order: Seq<usize>) -> Seq<StreamEventView> {
        order.map_values(
            |call: usize| StreamEventView::ContentBlockStop { index: self.tools[call] },
        )
    }

    /// The state after the end of the message.
    pub open spec fn after_finish(self) -> ConverterView {
        ConverterView { text_block_open: false, tools: Map::empty(), ..self }
    }

    /// What the text and the tool calls of a chunk add to the events.
    pub open spec fn delta_events(self, chunk: OAIChunkView) -> Seq<StreamEventView> {
        if chunk.choices.len() == 0 {
            Seq::empty()
        } else {
            let choice = chunk.choices[0];
            self.text_events(choice.content) + self.after_text(choice.content).tools_events(
                call_deltas(choice.tool_calls),
            )
        }
    }

    /// The state after the text and the tool calls of a chunk.
    pub open spec fn after_deltas(self, chunk: OAIChunkView) -> ConverterView {
        if chunk.choices.len() == 0 {
            self
        } else {
            let choice = chunk.choices[0];
            self.after_text(choice.content).after_tools(call_deltas(choice.tool_calls))
        }
    }

    /// Whether the indices of the blocks that a chunk starts fit the machine's integers.
    pub open spec fn has_room(self, chunk: OAIChunkView) -> bool {
        let next = self.after_deltas(chunk).next_block_index;
        next > self.next_block_index ==> next <= usize::MAX
    }

    /// What a chunk adds to the events, if the tool calls that it ends are ended in the given
    /// order. Only the first choice of a chunk counts.
    pub open spec fn chunk_events(self, chunk: OAIChunkView, order: Seq<usize>) -> Seq<
        StreamEventView,
    > {
        match finish_reason(chunk) {
            Some(reason) => self.delta_events(chunk) + self.after_deltas(chunk).finish_events(
                order,
                reason,
                chunk.usage,
            ),
            None => self.delta_events(chunk),
        }
    }

    /// Whether a chunk may add these events: the tool calls that it ends may be ended in any
    /// order, each of them once.
    pub open spec fn emits(self, chunk: OAIChunkView, events: Seq<StreamEventView>) -> bool {
        match finish_reason(chunk) {
            Some(_) => exists|order: Seq<usize>|
                #![trigger lists_keys(order, self.after_deltas(chunk).tools)]
                lists_keys(order, self.after_deltas(chunk).tools) && events == self.chunk_events(
                    chunk,
                    order,
                ),
            None => events == self.delta_events(chunk),
        }
    }

    /// The state after a chunk.
    pub open spec fn after_chunk(self, chunk: OAIChunkView) -> ConverterView {
        match finish_reason(chunk) {
            Some(_) => self.after_deltas(chunk).after_finish(),
            None => self.after_deltas(chunk),
        }
    }
}

/// Whether a piece of text is there and not empty.
pub open spec fn has_text(content: Option<Seq<char>>) -> bool {
    content is Some && content->0.len() > 0
}

/// The deltas, or none.
pub open spec fn call_deltas(deltas: Option<Seq<OAIToolCallDeltaView>>) -> Seq<
    OAIToolCallDeltaView,
> {
    match deltas {
        Some(deltas) => deltas,
        None => Seq::empty(),
    }
}

/// Why the message ended, if the chunk says that it did.
pub open spec fn finish_reason(chunk: OAIChunkView) -> Option<Seq<char>> {
    if chunk.choices.len() == 0 {
        None
    } else {
        chunk.choices[0].finish_reason
    }
}

/// Whether a delta of a tool call names a function.
pub open spec fn starts_call(delta: OAIToolCallDeltaView) -> bool {
    delta.function is Some && delta.function->0.name is Some
}

/// The identifier of a tool call: the one given, or else one made of its index.
pub open spec fn call_id(delta: OAIToolCallDeltaView) -> Seq<char> {
    match delta.id {
        Some(id) => id,
        None => "call_"@ + decimal(delta.index as nat),
    }
}

/// A piece of the arguments of the tool call in that block. An empty piece adds nothing.
pub open spec fn argument_events(index: nat, arguments: Option<Seq<char>>) -> Seq<
    StreamEventView,
> {
    if has_text(arguments) {
        seq![
            StreamEventView::ContentBlockDelta {
                index,
                delta: ContentDeltaView::InputJsonDelta { partial_json: arguments->0 },
            },
        ]
    } else {
        Seq::empty()
    }
}

/// The stop reason that a finish reason of the wire format stands for.
pub open spec fn stop_reason(reason: Seq<char>) -> Seq<char> {
    if reason == "stop"@ {
        "end_turn"@
    } else if reason == "tool_calls"@ {
        "tool_use"@
    } else if reason == "length"@ {
        "max_tokens"@
    } else {
        reason
    }
}

/// The usage that a chunk reports.
pub open spec fn usage_info(usage: Option<OAIUsage>) -> Option<UsageInfo> {
    match usage {
        Some(usage) => Some(
            UsageInfo {
                input_tokens: usage.prompt_tokens,
                output_tokens: usage.completion_tokens,
                cache_creation_input_tokens: 0,
                cache_read_input_tokens: 0,
            },
        ),
        None => None,
    }
}

/// Whether a sequence holds the keys of a map, each once.
pub open spec fn lists_keys(order: Seq<usize>, map: Map<usize, nat>) -> bool {
    order.no_duplicates() && order.to_set() == map.dom()
}

/// Whether a text has the form of a message identifier: `msg_` and a random UUID.
pub open spec fn message_id_form(id: Seq<char>) -> bool {
    &&& id.len() == 36
    &&& id.take(4) == "msg_"@
    &&& random_uuid_form(id.skip(4))
}

/// The first event of a message.
pub open spec fn message_start(id: Seq<char>) -> StreamEventView {
    StreamEventView::MessageStart { id, model: Seq::empty(), usage: UsageInfo::zero() }
}

/// The identifier of a message that is made of the given random text.
pub fn message_id_of(random: &str) -> (id: String)
    ensures
        id@ == "msg_"@ + random@,
{
    let mut id = "msg_".to_string();
    id.append(random);
    id
}

/// A new identifier for a message.
pub fn new_message_id() -> (id: String)
    ensures
        message_id_form(id@),
{
    let random = random_uuid();
    let id = message_id_of(random.as_str());
    proof {
        reveal_strlit("msg_");
        assert(id@.take(4) == "msg_"@);
        assert(id@.skip(4) == random@);
    }
    id
}

/// Translate the finish reason of the wire format.
pub fn convert_finish_reason(reason: &str) -> (converted: String)
    ensures
        converted@ == stop_reason(reason@),
{
    if *reason == *"stop" {
        "end_turn".to_string()
    } else if *reason == *"tool_calls" {
        "tool_use".to_string()
    } else if *reason == *"length" {
        "max_tokens".to_string()
    } else {
        reason.to_string()
    }
}

/// Stateful converter: feeds OpenAI SSE chunks and emits `StreamEvent`s.
pub struct OAIStreamConverter {
    /// Index counter for the content blocks that are emitted.
    next_block_index: usize,
    /// Whether a text block is currently open.
    text_block_open: bool,
    /// The content blocks of the known tool calls, by the index of the call on the wire.
    tool_blocks: HashMap<usize, usize>,
    /// The identifier that the start of the message carries.
    message_id: String,
}

/// The indices of blocks as numbers.
spec fn block_indices(blocks: Map<usize, usize>) -> Map<usize, nat> {
    blocks.map_values(|index: usize| index as nat)
}

/// No tool calls.
fn no_calls() -> (blocks: HashMap<usize, usize>)
    ensures
        block_indices(blocks@) == Map::<usize, nat>::empty(),
{
    let blocks: HashMap<usize, usize> = HashMap::new();
    assert(block_indices(blocks@) == Map::<usize, nat>::empty());
    blocks
}

impl View for OAIStreamConverter {
    type V = ConverterView;

    closed spec fn view(&self) -> ConverterView {
        ConverterView {
            next_block_index: self.next_block_index as nat,
            text_block_open: self.text_block_open,
            tools: block_indices(self.tool_blocks@),
            message_id: self.message_id@,
        }
    }
}

impl OAIStreamConverter {
    /// What holds of every converter.
    #[verifier::type_invariant]
    pub open spec fn valid(self) -> bool {
        self@.wf()
    }

    /// A converter for a new message, with a new identifier.
    pub fn new() -> (converter: Self)
        ensures
            converter@.wf(),
            converter@.next_block_index == 0,
            !converter@.text_block_open,
            converter@.tools == Map::<usize, nat>::empty(),
            message_id_form(converter@.message_id),
    {
        OAIStreamConverter::with_message_id(new_message_id())
    }

    /// A converter for a new message with that identifier.
    pub fn with_message_id(message_id: String) -> (converter: Self)
        ensures
            converter@.wf(),
            converter@ == initial(message_id@),
    {
        OAIStreamConverter {
            next_block_index: 0,
            text_block_open: false,
            tool_blocks: no_calls(),
            message_id,
        }
    }

    /// The first event of the message.
    pub fn emit_message_start(&self) -> (event: StreamEvent)
        ensures
            event@ == message_start(self@.message_id),
    {
        StreamEvent::MessageStart {
            id: self.message_id.clone(),
            model: String::new(),
            usage: UsageInfo::default(),
        }
    }

    /// Whether the indices of the blocks that a chunk starts fit the machine's integers.
    pub fn has_room(&self, chunk: &OAIChunk) -> (room: bool)
        ensures
            room == self@.has_room(chunk@),
    {
        if chunk.choices.len() == 0 {
            return true;
        }
        let delta = &chunk.choices[0].delta;
        let ghost content = delta.content.deep_view();
        let ghost calls = call_deltas(delta.tool_calls.deep_view());
        assert(chunk@.choices[0] == chunk.choices@[0]@);
        let ghost start = self@.after_text(content);
        let mut next: usize = self.next_block_index;
        if let Some(text) = &delta.content {
            if !text.as_str().is_empty() && !self.text_block_open {
                if next == usize::MAX {
                    proof {
                        start.lemma_next_grows(calls, 0);
                        assert(calls.take(0) == Seq::<OAIToolCallDeltaView>::empty());
                    }
                    return false;
                }
                next = next + 1;
            }
        }
        assert(start.next_block_index == next);
        if let Some(deltas) = &delta.tool_calls {
            let mut i: usize = 0;
            assert(calls.take(0) == Seq::<OAIToolCallDeltaView>::empty());
            while i < deltas.len()
                invariant
                    i <= deltas.len(),
                    calls == deltas.deep_view(),
                    next == start.after_tools(calls.take(i as int)).next_block_index,
                    self@.after_deltas(chunk@) == start.after_tools(calls),
                decreases deltas.len() - i,
            {
                assert(calls[i as int] == deltas@[i as int]@);
                assert(calls.take(i + 1).drop_last() == calls.take(i as int));
                let starts = match &deltas[i].function {
                    Some(function) => function.name.is_some(),
                    None => false,
                };
                if starts {
                    if next == usize::MAX {
                        proof {
                            start.lemma_next_grows(calls, i + 1);
                        }
                        return false;
                    }
                    next = next + 1;
                }
                i = i + 1;
            }
            assert(calls.take(i as int) == calls);
        }
        true
    }

    /// Emits a piece of text.
    fn process_text(&mut self, content: Option<String>, events: &mut Vec<StreamEvent>)
        requires
            old(self)@.after_text(content.deep_view()).next_block_index <= usize::MAX,
        ensures
            final(self)@.wf(),
            final(self)@ == old(self)@.after_text(content.deep_view()),
            final(events).deep_view() == old(events).deep_view() + old(self)@.text_events(
                content.deep_view(),
            ),
    {
        proof {
            use_type_invariant(&*self);
        }
        if let Some(text) = content {
            if !text.as_str().is_empty() {
                let ghost start = events.deep_view();
                if !self.text_block_open {
                    // Open a new text block.
                    let event = StreamEvent::ContentBlockStart {
                        index: self.next_block_index,
                        content_block: ContentBlock::Text { text: String::new() },
                    };
                    events.push(event);
                    assert(events.deep_view() == start.push(event@));
                    self.next_block_index = self.next_block_index + 1;
                    self.text_block_open = true;
                }
                let ghost opened = events.deep_view();
                let event = StreamEvent::ContentBlockDelta {
                    index: self.next_block_index - 1,
                    delta: ContentDelta::TextDelta { text },
                };
                events.push(event);
                assert(events.deep_view() == opened.push(event@));
            }
        }
    }

    /// Ends the open text block, if there is one.
    fn close_text(&mut self, events: &mut Vec<StreamEvent>)
        ensures
            final(self)@ == (ConverterView { text_block_open: false, ..old(self)@ }),
            final(events).deep_view() == old(events).deep_view() + old(self)@.text_stop(),
    {
        proof {
            use_type_invariant(&*self);
        }
        if self.text_block_open {
            let ghost start = events.deep_view();
            let event = StreamEvent::ContentBlockStop { index: self.next_block_index - 1 };
            events.push(event);
            assert(events.deep_view() == start.push(event@));
            self.text_block_open = false;
        }
    }

    /// Emits a delta of a tool call.
    fn process_tool_delta(&mut self, delta: &OAIToolCallDelta, events: &mut Vec<StreamEvent>)
        requires
            old(self)@.after_tool(delta@).next_block_index <= usize::MAX,
        ensures
            final(self)@.wf(),
            final(self)@ == old(self)@.after_tool(delta@),
            final(events).deep_view() == old(events).deep_view() + old(self)@.tool_events(delta@),
    {
        proof {
            use_type_invariant(&*self);
        }
        if let Some(function) = &delta.function {
            if let Some(name) = &function.name {
                // New tool call: the first delta names the function.
                let ghost start = events.deep_view();
                self.close_text(events);
                let ghost closed = events.deep_view();
                let id = match &delta.id {
                    Some(id) => id.clone(),
                    None => {
                        let mut id = "call_".to_string();
                        id.append(decimal_text(delta.index).as_str());
                        id
                    },
                };
                let block_index = self.next_block_index;
                self.next_block_index = self.next_block_index + 1;
                let event = StreamEvent::ContentBlockStart {
                    index: block_index,
                    content_block: ContentBlock::ToolUse {
                        id,
                        name: name.clone(),
                        input: empty_object(),
                    },
                };
                events.push(event);
                assert(events.deep_view() == closed.push(event@));
                let mut tool_blocks = no_calls();
                std::mem::swap(&mut tool_blocks, &mut self.tool_blocks);
                tool_blocks.insert(delta.index, block_index);
                assert(block_indices(tool_blocks@) == old(self)@.tools.insert(
                    delta.index,
                    block_index as nat,
                ));
                self.tool_blocks = tool_blocks;
                push_arguments(block_index, &function.arguments, events);
                assert(events.deep_view() == start + old(self)@.tool_events(delta@));
            } else {
                // Continuation: a piece of the arguments of a known tool call.
                if let Some(block_index) = self.tool_blocks.get(&delta.index) {
                    push_arguments(*block_index, &function.arguments, events);
                }
            }
        }
    }

    /// Emits several deltas of tool calls.
    fn process_tool_deltas(
        &mut self,
        deltas: &Vec<OAIToolCallDelta>,
        events: &mut Vec<StreamEvent>,
    )
        requires
            old(self)@.after_tools(deltas.deep_view()).next_block_index <= usize::MAX,
        ensures
            final(self)@.wf(),
            final(self)@ == old(self)@.after_tools(deltas.deep_view()),
            final(events).deep_view() == old(events).deep_view() + old(self)@.tools_events(
                deltas.deep_view(),
            ),
    {
        proof {
            use_type_invariant(&*self);
        }
        let ghost calls = deltas.deep_view();
        let ghost state = self@;
        let ghost start = events.deep_view();
        let mut i: usize = 0;
        assert(calls.take(0) == Seq::<OAIToolCallDeltaView>::empty());
        while i < deltas.len()
            invariant
                i <= deltas.len(),
                calls == deltas.deep_view(),
                self@.wf(),
                self@ == state.after_tools(calls.take(i as int)),
                events.deep_view() == start + state.tools_events(calls.take(i as int)),
                state.after_tools(calls).next_block_index <= usize::MAX,
            decreases deltas.len() - i,
        {
            assert(calls[i as int] == deltas@[i as int]@);
            assert(calls.take(i + 1).drop_last() == calls.take(i as int));
            proof {
                state.lemma_next_grows(calls, i + 1);
            }
            self.process_tool_delta(&deltas[i], events);
            i = i + 1;
        }
        assert(calls.take(i as int) == calls);
    }

    /// The indices on the wire of the known tool calls, in the order in which the hash map
    /// happens to hold them.
    fn known_calls(&self) -> (order: Vec<usize>)
        ensures
            lists_keys(order@, self@.tools),
    {
        let mut order: Vec<usize> = Vec::new();
        let ghost listed = self.tool_blocks.keys().remaining();
        for call in iter: self.tool_blocks.keys()
            invariant
                iter.seq() == listed,
                order@ == listed.unref().take(iter.index() as int),
        {
            order.push(*call);
        }
        proof {
            assert(listed.unref().take(listed.len() as int) == listed.unref());
            assert forall|i: int, j: int| 0 <= i < order@.len() && 0 <= j < order@.len() && i
                != j implies order@[i] != order@[j] by {
                assert(listed[i] != listed[j]);
            }
            assert(order@.to_set() == self@.tools.dom());
        }
        order
    }

    /// Ends the message: ends every open block, those of tool calls in the given order of the
    /// calls, and says why the message ended.
    pub fn process_finish(
        &mut self,
        order: &Vec<usize>,
        reason: &str,
        usage: Option<OAIUsage>,
        events: &mut Vec<StreamEvent>,
    )
        requires
            lists_keys(order@, old(self)@.tools),
        ensures
            final(self)@.wf(),
            final(self)@ == old(self)@.after_finish(),
            final(events).deep_view() == old(events).deep_view() + old(self)@.finish_events(
                order@,
                reason@,
                usage,
            ),
    {
        proof {
            use_type_invariant(&*self);
        }
        let ghost state = self@;
        let ghost start = events.deep_view();
        self.close_text(events);
        let ghost closed = events.deep_view();
        let mut i: usize = 0;
        let ghost stops = state.tool_stops(order@);
        while i < order.len()
            invariant
                i <= order.len(),
                self@.tools == state.tools,
                lists_keys(order@, state.tools),
                stops == state.tool_stops(order@),
                events.deep_view() == closed + stops.take(i as int),
            decreases order.len() - i,
        {
            let call = order[i];
            assert(order@.to_set().contains(call)) by {
                assert(order@[i as int] == call);
            }
            if let Some(block_index) = self.tool_blocks.get(&call) {
                let ghost before = events.deep_view();
                let event = StreamEvent::ContentBlockStop { index: *block_index };
                events.push(event);
                assert(events.deep_view() == before.push(event@));
                assert(event@ == stops[i as int]);
                assert(stops.take(i + 1) == stops.take(i as int).push(stops[i as int]));
            }
            i = i + 1;
        }
        assert(stops.take(i as int) == stops);
        self.tool_blocks = no_calls();

        let usage = match usage {
            Some(usage) => Some(
                UsageInfo {
                    input_tokens: usage.prompt_tokens,
                    output_tokens: usage.completion_tokens,
                    ..UsageInfo::default()
                },
            ),
            None => None,
        };
        let ghost stopped = events.deep_view();
        let event = StreamEvent::MessageDelta {
            stop_reason: Some(convert_finish_reason(reason)),
            usage,
        };
        events.push(event);
        assert(events.deep_view() == stopped.push(event@));
        events.push(StreamEvent::MessageStop);
        assert(events.deep_view() == stopped.push(event@).push(StreamEventView::MessageStop));
    }

    /// Process one parsed chunk; push any resulting events into `events`.
    pub fn process_chunk(&mut self, chunk: OAIChunk, events: &mut Vec<StreamEvent>)
        requires
            old(self)@.has_room(chunk@),
        ensures
            final(self)@.wf(),
            final(self)@ == old(self)@.after_chunk(chunk@),
            old(events).deep_view().is_prefix_of(final(events).deep_view()),
            old(self)@.emits(
                chunk@,
                final(events).deep_view().skip(old(events).deep_view().len() as int),
            ),
    {
        proof {
            use_type_invariant(&*self);
        }
        let ghost state = self@;
        let ghost start = events.deep_view();
        let ghost view = chunk@;
        let mut choices = chunk.choices;
        if choices.len() == 0 {
            assert(start.skip(start.len() as int) == state.delta_events(view));
            return ;
        }
        assert(view.choices[0] == choices@[0]@);
        let choice = choices.remove(0);
        let delta = choice.delta;
        let ghost content = delta.content.deep_view();
        let ghost calls = call_deltas(delta.tool_calls.deep_view());
        proof {
            state.after_text(content).lemma_next_grows(calls, 0);
            assert(calls.take(0) == Seq::<OAIToolCallDeltaView>::empty());
        }
        self.process_text(delta.content, events);
        if let Some(deltas) = &delta.tool_calls {
            self.process_tool_deltas(deltas, events);
        }
        assert(events.deep_view() == start + state.delta_events(view));
        if let Some(reason) = &choice.finish_reason {
            let order = self.known_calls();
            self.process_finish(&order, reason.as_str(), chunk.usage, events);
            assert(events.deep_view() == start + state.chunk_events(view, order@));
            assert(events.deep_view().skip(start.len() as int) == state.chunk_events(view, order@));
        } else {
            assert(events.deep_view().skip(start.len() as int) == state.delta_events(view));
        }
    }
}

/// Emits a piece of the arguments of the tool call in that block.
fn push_arguments(index: usize, arguments: &Option<String>, events: &mut Vec<StreamEvent>)
    ensures
        final(events).deep_view() == old(events).deep_view() + argument_events(
            index as nat,
            arguments.deep_view(),
        ),
{
    if let Some(piece) = arguments {
        if !piece.as_str().is_empty() {
            let ghost start = events.deep_view();
            let event = StreamEvent::ContentBlockDelta {
                index,
                delta: ContentDelta::InputJsonDelta { partial_json: piece.clone() },
            };
            events.push(event);
            assert(events.deep_view() == start.push(event@));
        }
    }
}

/// The state before the first chunk.
pub open spec fn initial(message_id: Seq<char>) -> ConverterView {
    ConverterView {
        next_block_index: 0,
        text_block_open: false,
        tools: Map::empty(),
        message_id,
    }
}

} // verus!
