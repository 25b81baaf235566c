//! The conversion of a conversation, turn by turn and block by block.
use crate::client::{offers_tools, wire_request};
use crate::json::JsonView;
use crate::messages::{
    assistant_messages, block_is, block_text, conversation_messages, or_empty, plain_message,
    text_parts, tool_message, tool_result_content, tool_result_messages, tool_use_call,
    tool_use_calls, turn_messages, user_messages,
};
use crate::text::joined;
use crate::types::{ApiMessageView, CreateMessageRequestView};
use crate::wire::{OAIMessageView, OAIToolCallView};
use vstd::prelude::*;

verus! {

/// A conversation is converted turn by turn: the messages of its first part are followed by
/// those of the rest.
pub proof fn law_turns_are_independent(first: Seq<ApiMessageView>, rest: Seq<ApiMessageView>)
    ensures
        conversation_messages(first + rest) == conversation_messages(first)
            + conversation_messages(rest),
    decreases rest.len(),
{
    if rest.len() == 0 {
        assert(first + rest == first);
        assert(conversation_messages(first) + Seq::<OAIMessageView>::empty()
            == conversation_messages(first));
    } else {
        law_turns_are_independent(first, rest.drop_last());
        assert((first + rest).drop_last() == first + rest.drop_last());
        assert(conversation_messages(first + rest) == conversation_messages(first)
            + conversation_messages(rest));
    }
}

/// A turn whose content is neither a text nor an array of blocks is skipped.
pub proof fn law_other_turns_are_skipped(
    first: Seq<ApiMessageView>,
    turn: ApiMessageView,
    rest: Seq<ApiMessageView>,
)
    requires
        !(turn.content is String),
        !(turn.content is Array),
    ensures
        conversation_messages(first + seq![turn] + rest) == conversation_messages(first + rest),
{
    law_turns_are_independent(first + seq![turn], rest);
    law_turns_are_independent(first, rest);
    assert((first + seq![turn]).drop_last() == first);
    assert(conversation_messages(first) + Seq::<OAIMessageView>::empty()
        == conversation_messages(first));
}

proof fn lemma_blocks_append(first: Seq<JsonView>, rest: Seq<JsonView>)
    ensures
        text_parts(first + rest) == text_parts(first) + text_parts(rest),
        tool_result_messages(first + rest) == tool_result_messages(first) + tool_result_messages(
            rest,
        ),
        tool_use_calls(first + rest) == tool_use_calls(first) + tool_use_calls(rest),
    decreases rest.len(),
{
    if rest.len() == 0 {
        assert(first + rest == first);
    } else {
        lemma_blocks_append(first, rest.drop_last());
        assert((first + rest).drop_last() == first + rest.drop_last());
        assert(text_parts(first + rest) == text_parts(first) + text_parts(rest));
        assert(tool_result_messages(first + rest) == tool_result_messages(first)
            + tool_result_messages(rest));
        assert(tool_use_calls(first + rest) == tool_use_calls(first) + tool_use_calls(rest));
    }
}

proof fn lemma_single_block(block: JsonView)
    ensures
        text_parts(seq![block]) == (match block_text(block) {
            Some(text) => seq![text],
            None => Seq::empty(),
        }),
        tool_result_messages(seq![block]) == (if block_is(block, "tool_result"@) {
            seq![
                tool_message(
                    or_empty(block.text_field("tool_use_id"@)),
                    tool_result_content(block),
                ),
            ]
        } else {
            Seq::empty()
        }),
        tool_use_calls(seq![block]) == (if block_is(block, "tool_use"@) {
            seq![tool_use_call(block)]
        } else {
            Seq::empty()
        }),
{
    reveal_with_fuel(text_parts, 2);
    reveal_with_fuel(tool_result_messages, 2);
    reveal_with_fuel(tool_use_calls, 2);
    assert(seq![block].drop_last() == Seq::<JsonView>::empty());
}

/// A block of a user's turn that is neither a text nor a tool result is skipped.
pub proof fn law_other_user_blocks_are_skipped(
    first: Seq<JsonView>,
    block: JsonView,
    rest: Seq<JsonView>,
)
    requires
        !block_is(block, "text"@),
        !block_is(block, "tool_result"@),
    ensures
        user_messages(first + seq![block] + rest) == user_messages(first + rest),
{
    lemma_blocks_append(first + seq![block], rest);
    lemma_blocks_append(first, seq![block]);
    lemma_blocks_append(first, rest);
    lemma_single_block(block);
    assert(text_parts(first) + Seq::<Seq<char>>::empty() == text_parts(first));
    assert(tool_result_messages(first) + Seq::<OAIMessageView>::empty() == tool_result_messages(
        first,
    ));
}

/// A block of an assistant's turn that is neither a text nor a tool use is skipped.
pub proof fn law_other_assistant_blocks_are_skipped(
    first: Seq<JsonView>,
    block: JsonView,
    rest: Seq<JsonView>,
)
    requires
        !block_is(block, "text"@),
        !block_is(block, "tool_use"@),
    ensures
        assistant_messages(first + seq![block] + rest) == assistant_messages(first + rest),
{
    lemma_blocks_append(first + seq![block], rest);
    lemma_blocks_append(first, seq![block]);
    lemma_blocks_append(first, rest);
    lemma_single_block(block);
    assert(text_parts(first) + Seq::<Seq<char>>::empty() == text_parts(first));
    assert(tool_use_calls(first) + Seq::<OAIToolCallView>::empty() == tool_use_calls(first));
}

/// Thinking blocks are not sent.
pub proof fn law_thinking_is_not_sent(
    first: Seq<JsonView>,
    block: JsonView,
    rest: Seq<JsonView>,
)
    requires
        block_is(block, "thinking"@) || block_is(block, "redacted_thinking"@),
    ensures
        assistant_messages(first + seq![block] + rest) == assistant_messages(first + rest),
{
    reveal_strlit("thinking");
    reveal_strlit("redacted_thinking");
    reveal_strlit("text");
    reveal_strlit("tool_use");
    assert("thinking"@[1] == 'h' && "tool_use"@[1] == 'o');
    assert("redacted_thinking"@.len() != "tool_use"@.len());
    assert("redacted_thinking"@.len() != "text"@.len());
    assert("thinking"@.len() != "text"@.len());
    law_other_assistant_blocks_are_skipped(first, block, rest);
}

/// The tool message that a tool result becomes.
pub open spec fn result_message(block: JsonView) -> OAIMessageView {
    tool_message(or_empty(block.text_field("tool_use_id"@)), tool_result_content(block))
}

/// Each tool result of a user's turn becomes one message of its own, in the order of the
/// results.
pub proof fn law_tool_results_become_messages(blocks: Seq<JsonView>)
    ensures
        tool_result_messages(blocks) == blocks.filter(
            |block: JsonView| block_is(block, "tool_result"@),
        ).map_values(|block: JsonView| result_message(block)),
    decreases blocks.len(),
{
    reveal(Seq::filter);
    let is_result = |block: JsonView| block_is(block, "tool_result"@);
    let convert = |block: JsonView| result_message(block);
    if blocks.len() > 0 {
        law_tool_results_become_messages(blocks.drop_last());
        let front = blocks.drop_last().filter(is_result);
        if is_result(blocks.last()) {
            assert(front.push(blocks.last()).map_values(convert) == front.map_values(convert).push(
                convert(blocks.last()),
            ));
        }
    }
    assert(tool_result_messages(blocks) == blocks.filter(is_result).map_values(convert));
}

/// Each tool use of an assistant's turn becomes one call, in the order of the uses, and all of
/// them stand in the one message of the turn.
pub proof fn law_tool_uses_become_calls(blocks: Seq<JsonView>)
    ensures
        tool_use_calls(blocks) == blocks.filter(
            |block: JsonView| block_is(block, "tool_use"@),
        ).map_values(|block: JsonView| tool_use_call(block)),
        assistant_messages(blocks).len() <= 1,
        tool_use_calls(blocks).len() > 0 ==> assistant_messages(blocks).len() == 1
            && assistant_messages(blocks)[0].tool_calls == Some(tool_use_calls(blocks)),
    decreases blocks.len(),
{
    reveal(Seq::filter);
    let is_use = |block: JsonView| block_is(block, "tool_use"@);
    let convert = |block: JsonView| tool_use_call(block);
    if blocks.len() > 0 {
        law_tool_uses_become_calls(blocks.drop_last());
        let front = blocks.drop_last().filter(is_use);
        if is_use(blocks.last()) {
            assert(front.push(blocks.last()).map_values(convert) == front.map_values(convert).push(
                convert(blocks.last()),
            ));
        }
    }
    assert(tool_use_calls(blocks) == blocks.filter(is_use).map_values(convert));
}

/// The text of a user's turn is one message, and comes before the tool results.
pub proof fn law_user_text_comes_first(blocks: Seq<JsonView>)
    ensures
        text_parts(blocks).len() > 0 ==> user_messages(blocks).len() > 0 && user_messages(
            blocks,
        )[0] == plain_message("user"@, JsonView::String(joined(text_parts(blocks))))
            && user_messages(blocks).skip(1) == tool_result_messages(blocks),
        text_parts(blocks).len() == 0 ==> user_messages(blocks) == tool_result_messages(blocks),
{
    if text_parts(blocks).len() > 0 {
        assert(user_messages(blocks).skip(1) == tool_result_messages(blocks));
    } else {
        assert(Seq::<OAIMessageView>::empty() + tool_result_messages(blocks)
            == tool_result_messages(blocks));
    }
}

/// A turn that is a plain text stays as it is, whoever says it.
pub proof fn law_plain_text_is_kept(message: ApiMessageView)
    requires
        message.content is String,
    ensures
        turn_messages(message) == seq![
            OAIMessageView {
                role: message.role,
                content: Some(message.content),
                tool_calls: None,
                tool_call_id: None,
            },
        ],
{
}

/// To offer an empty list of tools is to offer none.
pub proof fn law_empty_tools_are_no_tools(request: CreateMessageRequestView)
    requires
        !offers_tools(request),
    ensures
        wire_request(request) == wire_request(CreateMessageRequestView { tools: None, ..request }),
        wire_request(request).tools is None,
        wire_request(request).tool_choice is None,
{
}

} // verus!
