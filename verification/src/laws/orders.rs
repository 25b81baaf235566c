//! What the order in which a hash map holds the tool calls leaves open.
use crate::laws::ending::law_chunks_keep_the_state_valid;
use crate::stream::{finish_reason, lists_keys, stop_reason, usage_info, ConverterView};
use crate::types::StreamEventView;
use crate::wire::{OAIChoiceView, OAIChunkView};
use vstd::prelude::*;
use vstd::seq_lib::{lemma_multiset_commutative, to_multiset_insert};

verus! {

/// Whether two sequences hold the same events, at the same places but for the ends of blocks,
/// which may have changed places among themselves.
pub open spec fn same_but_for_ends(
    left: Seq<StreamEventView>,
    right: Seq<StreamEventView>,
) -> bool {
    &&& left.len() == right.len()
    &&& left.to_multiset() == right.to_multiset()
    &&& forall|i: int|
        0 <= i < left.len() ==> #[trigger] left[i] == #[trigger] right[i] || (
        left[i] is ContentBlockStop && right[i] is ContentBlockStop)
}

pub proof fn lemma_same_append(
    left: Seq<StreamEventView>,
    right: Seq<StreamEventView>,
    more_left: Seq<StreamEventView>,
    more_right: Seq<StreamEventView>,
)
    requires
        same_but_for_ends(left, right),
        same_but_for_ends(more_left, more_right),
    ensures
        same_but_for_ends(left + more_left, right + more_right),
{
    lemma_multiset_commutative(left, more_left);
    lemma_multiset_commutative(right, more_right);
    let first = left + more_left;
    let second = right + more_right;
    assert forall|i: int| 0 <= i < first.len() implies #[trigger] first[i] == #[trigger] second[i]
        || (first[i] is ContentBlockStop && second[i] is ContentBlockStop) by {
        if i < left.len() {
            assert(left[i] == right[i] || (left[i] is ContentBlockStop
                && right[i] is ContentBlockStop));
        } else {
            let at = i - left.len();
            assert(more_left[at] == more_right[at] || (more_left[at] is ContentBlockStop
                && more_right[at] is ContentBlockStop));
        }
    }
}

/// Two listings of the same calls give the same ends of blocks.
proof fn lemma_stops_of_orders(state: ConverterView, left: Seq<usize>, right: Seq<usize>)
    requires
        left.no_duplicates(),
        right.no_duplicates(),
        left.to_set() == right.to_set(),
    ensures
        left.len() == right.len(),
        state.tool_stops(left).to_multiset() == state.tool_stops(right).to_multiset(),
    decreases left.len(),
{
    if left.len() == 0 {
        if right.len() > 0 {
            assert(right.to_set().contains(right[0]));
            assert(left.to_set().contains(right[0]));
        }
        assert(state.tool_stops(left) == state.tool_stops(right));
    } else {
        let call = left.last();
        assert(left.to_set().contains(left[left.len() - 1]));
        assert(right.to_set().contains(call));
        let at = choose|at: int| 0 <= at < right.len() && right[at] == call;
        let front = left.drop_last();
        let others = right.remove(at);
        assert forall|other: usize| front.to_set().contains(other) == others.to_set().contains(
            other,
        ) by {
            if front.contains(other) {
                let i = choose|i: int| 0 <= i < front.len() && front[i] == other;
                assert(left[i] == other && other != call);
                assert(left.to_set().contains(other));
                assert(right.to_set().contains(other));
                let j = choose|j: int| 0 <= j < right.len() && right[j] == other;
                if j < at {
                    assert(others[j] == other);
                } else {
                    assert(others[j - 1] == other);
                }
            }
            if others.contains(other) {
                let j = choose|j: int| 0 <= j < others.len() && others[j] == other;
                let i = if j < at {
                    j
                } else {
                    j + 1
                };
                assert(right[i] == other);
                assert(right[i] != right[at]);
                assert(right.to_set().contains(other));
                assert(left.to_set().contains(other));
                let k = choose|k: int| 0 <= k < left.len() && left[k] == other;
                assert(front[k] == other);
            }
        }
        assert(front.to_set() == others.to_set());
        lemma_stops_of_orders(state, front, others);
        let stop = StreamEventView::ContentBlockStop { index: state.tools[call] };
        assert(state.tool_stops(left) == state.tool_stops(front).push(stop));
        assert(state.tool_stops(right) == state.tool_stops(others).insert(at, stop));
        state.tool_stops(front).to_multiset_ensures();
        to_multiset_insert(state.tool_stops(others), at, stop);
    }
}

/// A chunk adds the same events whatever the order in which the hash map holds the tool calls,
/// but for the order in which they are ended.
pub proof fn law_only_the_order_of_ends_is_open(
    state: ConverterView,
    chunk: OAIChunkView,
    left: Seq<StreamEventView>,
    right: Seq<StreamEventView>,
)
    requires
        state.emits(chunk, left),
        state.emits(chunk, right),
    ensures
        same_but_for_ends(left, right),
{
    if let Some(reason) = finish_reason(chunk) {
        let after = state.after_deltas(chunk);
        let first = choose|order: Seq<usize>|
            #![trigger lists_keys(order, after.tools)]
            lists_keys(order, after.tools) && left == state.chunk_events(chunk, order);
        let second = choose|order: Seq<usize>|
            #![trigger lists_keys(order, after.tools)]
            lists_keys(order, after.tools) && right == state.chunk_events(chunk, order);
        lemma_stops_of_orders(after, first, second);
        let before = state.delta_events(chunk) + after.text_stop();
        let ending = seq![
            StreamEventView::MessageDelta {
                stop_reason: Some(stop_reason(reason)),
                usage: usage_info(chunk.usage),
            },
            StreamEventView::MessageStop,
        ];
        assert(left == before + after.tool_stops(first) + ending);
        assert(right == before + after.tool_stops(second) + ending);
        lemma_same_append(before, before, after.tool_stops(first), after.tool_stops(second));
        lemma_same_append(
            before + after.tool_stops(first),
            before + after.tool_stops(second),
            ending,
            ending,
        );
    }
}

/// A finite set is listed by some sequence.
proof fn lemma_listed(keys: Set<usize>) -> (order: Seq<usize>)
    requires
        keys.finite(),
    ensures
        order.no_duplicates(),
        order.to_set() == keys,
    decreases keys.len(),
{
    if keys.len() == 0 {
        let order = Seq::<usize>::empty();
        assert(keys == Set::<usize>::empty());
        assert(order.to_set() == keys);
        order
    } else {
        let key = keys.choose();
        let front = lemma_listed(keys.remove(key));
        let order = front.push(key);
        assert(!front.contains(key)) by {
            if front.contains(key) {
                assert(front.to_set().contains(key));
            }
        }
        assert forall|other: usize| order.to_set().contains(other) == keys.contains(other) by {
            if keys.contains(other) {
                if other == key {
                    assert(order[order.len() - 1] == other);
                } else {
                    assert(front.to_set().contains(other));
                    let i = choose|i: int| 0 <= i < front.len() && front[i] == other;
                    assert(order[i] == other);
                }
            }
            if order.contains(other) {
                let i = choose|i: int| 0 <= i < order.len() && order[i] == other;
                if i < front.len() {
                    assert(front[i] == other);
                    assert(front.to_set().contains(other));
                }
            }
        }
        assert(order.to_set() == keys);
        order
    }
}

/// In a valid state there are events for every chunk.
pub proof fn law_every_chunk_adds_some_events(state: ConverterView, chunk: OAIChunkView)
    requires
        state.wf(),
    ensures
        exists|events: Seq<StreamEventView>| state.emits(chunk, events),
{
    if finish_reason(chunk) is Some {
        // The calls that the chunk ends are finitely many.
        let open = OAIChunkView {
            choices: chunk.choices.map_values(
                |choice: OAIChoiceView|
                    OAIChoiceView { finish_reason: None, ..choice },
            ),
            ..chunk
        };
        law_chunks_keep_the_state_valid(state, open);
        assert(state.after_chunk(open) == state.after_deltas(chunk));
        let order = lemma_listed(state.after_deltas(chunk).tools.dom());
        assert(lists_keys(order, state.after_deltas(chunk).tools));
        assert(state.emits(chunk, state.chunk_events(chunk, order)));
    } else {
        assert(state.emits(chunk, state.delta_events(chunk)));
    }
}

} // verus!
