//! Texts: what joining, cutting, trimming and writing numbers come to.
use crate::laws::reading::{lemma_single_line, lemma_split_append};
use crate::messages::concatenated;
use crate::session::is_done_marker;
use crate::text::{
    decimal, digit, joined, split_lines, trimmed, trimmed_end, trimmed_start, white_space,
    without_trailing_cr,
};
use vstd::prelude::*;

verus! {

/// Nothing joined is nothing, and a part alone stays as it is.
pub proof fn law_joining_one(part: Seq<char>)
    ensures
        joined(Seq::empty()) == Seq::<char>::empty(),
        joined(seq![part]) == part,
{
}

/// Joining some parts and then some more puts one line feed between the two texts, and changes
/// nothing else of them.
pub proof fn law_joining_more(first: Seq<Seq<char>>, second: Seq<Seq<char>>)
    requires
        first.len() > 0,
        second.len() > 0,
    ensures
        joined(first + second) == joined(first) + seq!['\n'] + joined(second),
    decreases second.len(),
{
    let all = first + second;
    assert(all.drop_last() == first + second.drop_last());
    if second.len() == 1 {
        assert(all.drop_last() == first);
    } else {
        law_joining_more(first, second.drop_last());
    }
    assert(joined(all) == joined(first) + seq!['\n'] + joined(second));
}

/// Cutting undoes joining: parts without line feeds, joined, are cut into the same parts.
pub proof fn law_cutting_undoes_joining(parts: Seq<Seq<char>>)
    requires
        parts.len() > 0,
        forall|i: int| 0 <= i < parts.len() ==> !(#[trigger] parts[i]).contains('\n'),
    ensures
        split_lines(joined(parts)) == parts,
    decreases parts.len(),
{
    let last = parts.last();
    assert(!parts[parts.len() - 1].contains('\n'));
    lemma_single_line(last);
    if parts.len() == 1 {
        assert(parts == seq![last]);
    } else {
        let front = parts.drop_last();
        assert forall|i: int| 0 <= i < front.len() implies !(#[trigger] front[i]).contains(
            '\n',
        ) by {
            assert(front[i] == parts[i]);
        }
        law_cutting_undoes_joining(front);
        let head = joined(front).push('\n');
        assert(head.drop_last() == joined(front));
        assert(split_lines(head) == front.push(Seq::empty()));
        lemma_split_append(head, last);
        assert(front.push(Seq::<char>::empty()).drop_last() == front);
        assert(Seq::<char>::empty() + last == last);
        assert(front + seq![last] == parts);
    }
}

/// Texts one after the other are all of their characters in order.
pub proof fn law_concatenating_keeps_everything(parts: Seq<Seq<char>>)
    ensures
        concatenated(parts) == parts.flatten(),
    decreases parts.len(),
{
    parts.lemma_flatten_and_flatten_alt_are_equivalent();
    if parts.len() > 0 {
        law_concatenating_keeps_everything(parts.drop_last());
        parts.drop_last().lemma_flatten_and_flatten_alt_are_equivalent();
    }
}

/// Of a line nothing but the carriage returns at its end goes, and all of those go.
pub proof fn law_only_trailing_returns_go(line: Seq<char>)
    ensures
        ({
            let kept = without_trailing_cr(line);
            &&& kept.len() <= line.len()
            &&& kept == line.take(kept.len() as int)
            &&& forall|i: int| kept.len() <= i < line.len() ==> #[trigger] line[i] == '\r'
            &&& kept.len() > 0 ==> kept.last() != '\r'
        }),
    decreases line.len(),
{
    if line.len() > 0 && line.last() == '\r' {
        let front = line.drop_last();
        law_only_trailing_returns_go(front);
        let kept = without_trailing_cr(line);
        assert(kept == line.take(kept.len() as int));
        assert forall|i: int| kept.len() <= i < line.len() implies #[trigger] line[i] == '\r' by {
            if i < front.len() {
                assert(front[i] == line[i]);
            }
        }
    } else {
        assert(line.take(line.len() as int) == line);
    }
}

/// White space is what Unicode says: the controls from tab to carriage return, the spaces and
/// separators, and no other character.
pub proof fn law_white_space_is_that_of_unicode(ch: char)
    ensures
        white_space(ch) <==> {
            let code = ch as u32;
            ||| 0x9 <= code <= 0xd
            ||| 0x2000 <= code <= 0x200a
            ||| set![
                0x20u32,
                0x85u32,
                0xa0u32,
                0x1680u32,
                0x2028u32,
                0x2029u32,
                0x202fu32,
                0x205fu32,
                0x3000u32,
            ].contains(code)
        },
{
}

/// Whether a text is white space throughout.
pub open spec fn all_white(text: Seq<char>) -> bool {
    forall|i: int| 0 <= i < text.len() ==> white_space(#[trigger] text[i])
}

proof fn lemma_trimmed_end(text: Seq<char>)
    ensures
        ({
            let kept = trimmed_end(text);
            &&& kept.len() <= text.len()
            &&& kept == text.take(kept.len() as int)
            &&& all_white(text.skip(kept.len() as int))
            &&& kept.len() > 0 ==> !white_space(kept.last())
        }),
    decreases text.len(),
{
    let kept = trimmed_end(text);
    if text.len() > 0 && white_space(text.last()) {
        let front = text.drop_last();
        lemma_trimmed_end(front);
        assert(kept == text.take(kept.len() as int));
        let rest = text.skip(kept.len() as int);
        assert forall|i: int| 0 <= i < rest.len() implies white_space(#[trigger] rest[i]) by {
            if i < rest.len() - 1 {
                assert(front.skip(kept.len() as int)[i] == rest[i]);
            }
        }
    } else {
        assert(text.take(text.len() as int) == text);
    }
}

proof fn lemma_trimmed_start(text: Seq<char>)
    ensures
        ({
            let kept = trimmed_start(text);
            &&& kept.len() <= text.len()
            &&& kept == text.skip(text.len() - kept.len())
            &&& all_white(text.take(text.len() - kept.len()))
            &&& kept.len() > 0 ==> !white_space(kept.first())
        }),
    decreases text.len(),
{
    let kept = trimmed_start(text);
    if text.len() > 0 && white_space(text.first()) {
        let rest = text.drop_first();
        lemma_trimmed_start(rest);
        assert(kept == text.skip(text.len() - kept.len()));
        let gone = text.take(text.len() - kept.len());
        assert forall|i: int| 0 <= i < gone.len() implies white_space(#[trigger] gone[i]) by {
            if i > 0 {
                assert(rest.take(rest.len() - kept.len())[i - 1] == gone[i]);
            }
        }
    } else {
        assert(text.skip(0) == text);
    }
}

/// Trimming takes white space from both ends, all of it, and nothing else: what went before and
/// behind is the result.
pub proof fn law_only_outer_white_space_goes(text: Seq<char>) -> (gone: (Seq<char>, Seq<char>))
    ensures
        text == gone.0 + trimmed(text) + gone.1,
        all_white(gone.0),
        all_white(gone.1),
        trimmed(text).len() > 0 ==> !white_space(trimmed(text).first()) && !white_space(
            trimmed(text).last(),
        ),
{
    let front = trimmed_end(text);
    let kept = trimmed(text);
    lemma_trimmed_end(text);
    lemma_trimmed_start(front);
    let before = front.take(front.len() - kept.len());
    let behind = text.skip(front.len() as int);
    assert(front == before + kept);
    assert(text == front + behind);
    if kept.len() > 0 {
        assert(kept.last() == front.last());
    }
    (before, behind)
}

/// White space around a text that neither begins nor ends with it is all that trimming takes.
proof fn lemma_surrounded(before: Seq<char>, core: Seq<char>, behind: Seq<char>)
    requires
        all_white(before),
        all_white(behind),
        core.len() > 0,
        !white_space(core.first()),
        !white_space(core.last()),
    ensures
        trimmed(before + core + behind) == core,
{
    let text = before + core + behind;
    let gone = law_only_outer_white_space_goes(text);
    let found = trimmed(text);
    let start = before.len();
    let end = before.len() + core.len();
    assert(text[start as int] == core[0]);
    assert(text[end - 1] == core[core.len() - 1]);
    // The first character that is no white space is that of the core, and so is the last.
    if gone.0.len() > start {
        assert(gone.0[start as int] == text[start as int]);
    }
    let rest = text.len() - gone.1.len();
    if rest < end {
        assert(gone.1[end - 1 - rest] == text[end - 1]);
    }
    assert(found.len() > 0);
    assert(text[gone.0.len() as int] == found[0]);
    if gone.0.len() < start {
        assert(before[gone.0.len() as int] == text[gone.0.len() as int]);
    }
    assert(text[rest - 1] == found[found.len() - 1]);
    if rest > end {
        assert(behind[rest - 1 - end] == text[rest - 1]);
    }
    assert(gone.0.len() == start);
    assert(rest == end);
    assert forall|i: int| 0 <= i < core.len() implies found[i] == core[i] by {
        assert(text[start + i] == core[i]);
        assert(text[gone.0.len() + i] == found[i]);
    }
    assert(found == core);
}

/// Data marks the end of the stream exactly when it is white space, then the six characters
/// `[DONE]`, then white space.
pub proof fn law_end_marker_is_done_in_brackets(data: Seq<char>)
    ensures
        is_done_marker(data) <==> exists|before: Seq<char>, behind: Seq<char>|
            #![trigger all_white(before), all_white(behind)]
            all_white(before) && all_white(behind) && data == before + seq![
                '[',
                'D',
                'O',
                'N',
                'E',
                ']',
            ] + behind,
{
    reveal_strlit("[DONE]");
    let marker = seq!['[', 'D', 'O', 'N', 'E', ']'];
    assert("[DONE]"@ == marker);
    let gone = law_only_outer_white_space_goes(data);
    if is_done_marker(data) {
        assert(all_white(gone.0) && all_white(gone.1) && data == gone.0 + marker + gone.1);
    }
    if exists|before: Seq<char>, behind: Seq<char>|
        #![trigger all_white(before), all_white(behind)]
        all_white(before) && all_white(behind) && data == before + marker + behind {
        let (before, behind) = choose|before: Seq<char>, behind: Seq<char>|
            #![trigger all_white(before), all_white(behind)]
            all_white(before) && all_white(behind) && data == before + marker + behind;
        lemma_surrounded(before, marker, behind);
    }
}

/// Data whose first character that is no white space is not an opening bracket does not mark the
/// end of the stream, however long it is; nor does data of white space alone.
pub proof fn law_other_data_is_no_end_marker(data: Seq<char>, place: int)
    requires
        0 <= place <= data.len(),
        all_white(data.take(place)),
        place < data.len() ==> !white_space(data[place]) && data[place] != '[',
    ensures
        !is_done_marker(data),
{
    law_end_marker_is_done_in_brackets(data);
    if is_done_marker(data) {
        let marker = seq!['[', 'D', 'O', 'N', 'E', ']'];
        let (before, behind) = choose|before: Seq<char>, behind: Seq<char>|
            #![trigger all_white(before), all_white(behind)]
            all_white(before) && all_white(behind) && data == before + marker + behind;
        let at = before.len() as int;
        assert(data[at] == '[');
        if at < place {
            assert(data.take(place)[at] == data[at]);
        } else if place < at {
            assert(before[place] == data[place]);
        }
    }
}

/// The number that decimal digits stand for.
pub open spec fn number(digits: Seq<char>) -> int
    decreases digits.len(),
{
    if digits.len() == 0 {
        0
    } else {
        10 * number(digits.drop_last()) + (digits.last() as int - '0' as int)
    }
}

/// A number is written with decimal digits alone, which stand for it, and without a zero in
/// front.
pub proof fn law_digits_stand_for_the_number(value: nat)
    ensures
        number(decimal(value)) == value,
        forall|i: int| 0 <= i < decimal(value).len() ==> '0' <= #[trigger] decimal(value)[i] <= '9',
        decimal(value).len() > 0,
        value > 0 ==> decimal(value)[0] != '0',
    decreases value,
{
    let digits = decimal(value);
    reveal_with_fuel(number, 2);
    assert(digit(value % 10) as int == '0' as int + (value % 10) as int);
    if value < 10 {
        assert(value % 10 == value);
        assert(digits.drop_last() == Seq::<char>::empty());
    } else {
        law_digits_stand_for_the_number(value / 10);
        assert(digits.drop_last() == decimal(value / 10));
        assert forall|i: int| 0 <= i < digits.len() implies '0' <= #[trigger] digits[i] <= '9' by {
            if i < digits.len() - 1 {
                assert(digits[i] == decimal(value / 10)[i]);
            }
        }
        assert(digits[0] == decimal(value / 10)[0]);
    }
}

} // verus!
