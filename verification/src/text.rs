//! Text handling: joining, splitting, trimming, and decimal numbers.
use vstd::prelude::*;

verus! {

/// The parts one after the other, with a line feed between any two.
pub open spec fn joined(parts: Seq<Seq<char>>) -> Seq<char>
    decreases parts.len(),
{
    if parts.len() == 0 {
        Seq::empty()
    } else if parts.len() == 1 {
        parts[0]
    } else {
        joined(parts.drop_last()).push('\n') + parts.last()
    }
}

/// The parts between the line feeds of a text: one more than it has line feeds.
pub open spec fn split_lines(text: Seq<char>) -> Seq<Seq<char>>
    decreases text.len(),
{
    if text.len() == 0 {
        seq![Seq::empty()]
    } else {
        let front = split_lines(text.drop_last());
        if text.last() == '\n' {
            front.push(Seq::empty())
        } else {
            front.drop_last().push(front.last().push(text.last()))
        }
    }
}

/// Whether the last character is a line feed.
pub open spec fn ends_line(text: Seq<char>) -> bool {
    text.len() > 0 && text.last() == '\n'
}

/// A text without the carriage returns at its end.
pub open spec fn without_trailing_cr(text: Seq<char>) -> Seq<char>
    decreases text.len(),
{
    if text.len() > 0 && text.last() == '\r' {
        without_trailing_cr(text.drop_last())
    } else {
        text
    }
}

/// The characters with the Unicode property `White_Space`.
pub open spec fn white_space(ch: char) -> bool {
    ||| '\u{9}' <= ch <= '\u{d}'
    ||| ch == ' '
    ||| ch == '\u{85}'
    ||| ch == '\u{a0}'
    ||| ch == '\u{1680}'
    ||| '\u{2000}' <= ch <= '\u{200a}'
    ||| ch == '\u{2028}'
    ||| ch == '\u{2029}'
    ||| ch == '\u{202f}'
    ||| ch == '\u{205f}'
    ||| ch == '\u{3000}'
}

/// A text without the white space at its end.
pub open spec fn trimmed_end(text: Seq<char>) -> Seq<char>
    decreases text.len(),
{
    if text.len() > 0 && white_space(text.last()) {
        trimmed_end(text.drop_last())
    } else {
        text
    }
}

/// A text without the white space at its start.
pub open spec fn trimmed_start(text: Seq<char>) -> Seq<char>
    decreases text.len(),
{
    if text.len() > 0 && white_space(text.first()) {
        trimmed_start(text.drop_first())
    } else {
        text
    }
}

/// A text without the white space at its start and at its end.
pub open spec fn trimmed(text: Seq<char>) -> Seq<char> {
    trimmed_start(trimmed_end(text))
}

/// The character of a decimal digit.
pub open spec fn digit(value: nat) -> char
    recommends
        value < 10,
{
    seq!['0', '1', '2', '3', '4', '5', '6', '7', '8', '9'][value as int]
}

/// The decimal digits of a number, the most significant one first.
pub open spec fn decimal(value: nat) -> Seq<char>
    decreases value,
{
    if value < 10 {
        seq![digit(value)]
    } else {
        decimal(value / 10).push(digit(value % 10))
    }
}

/// The characters of a text.
pub fn chars_of(text: &str) -> (chars: Vec<char>)
    ensures
        chars@ == text@,
{
    let mut chars: Vec<char> = Vec::new();
    for ch in iter: text.chars()
        invariant
            iter.seq() == text@,
            chars@ == text@.take(iter.index() as int),
    {
        assert(text@.take(iter.index() + 1) == text@.take(iter.index() as int).push(ch));
        chars.push(ch);
    }
    assert(text@.take(text@.len() as int) == text@);
    chars
}

/// The text made of the characters from `start` up to, but without, `end`.
pub fn text_of(chars: &Vec<char>, start: usize, end: usize) -> (text: String)
    requires
        start <= end <= chars@.len(),
    ensures
        text@ == chars@.subrange(start as int, end as int),
{
    let mut text = String::new();
    let mut i: usize = start;
    while i < end
        invariant
            start <= i <= end <= chars@.len(),
            text@ == chars@.subrange(start as int, i as int),
        decreases end - i,
    {
        text.push(chars[i]);
        assert(chars@.subrange(start as int, i + 1) == chars@.subrange(start as int, i as int).push(
            chars@[i as int],
        ));
        i = i + 1;
    }
    text
}

/// Joins texts with a line feed between any two.
pub fn join_lines(parts: &Vec<String>) -> (text: String)
    ensures
        text@ == joined(parts.deep_view()),
{
    let ghost views = parts.deep_view();
    let mut text = String::new();
    let mut i: usize = 0;
    while i < parts.len()
        invariant
            i <= parts.len(),
            views == parts.deep_view(),
            text@ == joined(views.take(i as int)),
        decreases parts.len() - i,
    {
        if i > 0 {
            text.push('\n');
        }
        assert(parts@[i as int]@ == views[i as int]);
        assert(views.take(i + 1).drop_last() == views.take(i as int));
        assert(i == 0 ==> views.take(i as int) == Seq::<Seq<char>>::empty());
        text.append(parts[i].as_str());
        assert(text@ == joined(views.take(i + 1)));
        i = i + 1;
    }
    assert(views.take(i as int) == views);
    text
}

/// The parts between the line feeds of a text.
pub fn split_at_line_feeds(text: &str) -> (parts: Vec<String>)
    ensures
        parts.deep_view() == split_lines(text@),
        parts@.len() > 0,
{
    let chars = chars_of(text);
    let mut parts: Vec<String> = Vec::new();
    let mut part = String::new();
    let mut i: usize = 0;
    assert(text@.take(0) == Seq::<char>::empty());
    while i < chars.len()
        invariant
            i <= chars.len(),
            chars@ == text@,
            parts.deep_view().push(part@) == split_lines(text@.take(i as int)),
        decreases chars.len() - i,
    {
        let ghost before = parts.deep_view();
        assert(text@.take(i + 1).drop_last() == text@.take(i as int));
        assert(before.push(part@).drop_last() == before);
        if chars[i] == '\n' {
            let ghost ended = part@;
            parts.push(part);
            part = String::new();
            assert(parts.deep_view() == before.push(ended));
        } else {
            part.push(chars[i]);
        }
        i = i + 1;
    }
    assert(text@.take(i as int) == text@);
    let ghost before = parts.deep_view();
    let ghost ended = part@;
    parts.push(part);
    assert(parts.deep_view() == before.push(ended));
    parts
}

/// Removes the carriage returns at the end.
pub fn trim_trailing_cr(text: &str) -> (rest: String)
    ensures
        rest@ == without_trailing_cr(text@),
{
    let chars = chars_of(text);
    let mut end: usize = chars.len();
    assert(text@.take(end as int) == text@);
    while end > 0 && chars[end - 1] == '\r'
        invariant
            end <= chars.len(),
            chars@ == text@,
            without_trailing_cr(text@) == without_trailing_cr(text@.take(end as int)),
        decreases end,
    {
        assert(text@.take(end as int).drop_last() == text@.take(end - 1));
        end = end - 1;
    }
    text_of(&chars, 0, end)
}

/// Whether a character is white space.
pub fn is_white_space(ch: char) -> (white: bool)
    ensures
        white == white_space(ch),
{
    ('\u{9}' <= ch && ch <= '\u{d}') || ch == ' ' || ch == '\u{85}' || ch == '\u{a0}' || ch
        == '\u{1680}' || ('\u{2000}' <= ch && ch <= '\u{200a}') || ch == '\u{2028}' || ch
        == '\u{2029}' || ch == '\u{202f}' || ch == '\u{205f}' || ch == '\u{3000}'
}

/// Removes the white space at both ends.
pub fn trim(text: &str) -> (rest: String)
    ensures
        rest@ == trimmed(text@),
{
    let chars = chars_of(text);
    let mut end: usize = chars.len();
    assert(text@.take(end as int) == text@);
    while end > 0 && is_white_space(chars[end - 1])
        invariant
            end <= chars.len(),
            chars@ == text@,
            trimmed_end(text@) == trimmed_end(text@.take(end as int)),
        decreases end,
    {
        assert(text@.take(end as int).drop_last() == text@.take(end - 1));
        end = end - 1;
    }
    let ghost front = text@.take(end as int);
    assert(trimmed_end(text@) == front);
    let mut start: usize = 0;
    assert(front.skip(0) == front);
    while start < end && is_white_space(chars[start])
        invariant
            start <= end <= chars.len(),
            chars@ == text@,
            front == text@.take(end as int),
            trimmed_start(front) == trimmed_start(front.skip(start as int)),
        decreases end - start,
    {
        assert(front.skip(start as int).drop_first() == front.skip(start + 1));
        start = start + 1;
    }
    assert(front.skip(start as int) == chars@.subrange(start as int, end as int));
    text_of(&chars, start, end)
}

fn push_decimal(text: &mut String, value: usize)
    ensures
        final(text)@ == old(text)@ + decimal(value as nat),
    decreases value,
{
    if value >= 10 {
        push_decimal(text, value / 10);
    }
    let last = value % 10;
    let ch = match last {
        0 => '0',
        1 => '1',
        2 => '2',
        3 => '3',
        4 => '4',
        5 => '5',
        6 => '6',
        7 => '7',
        8 => '8',
        _ => '9',
    };
    assert(ch == digit((value as nat) % 10));
    text.push(ch);
}

/// The decimal digits of a number.
pub fn decimal_text(value: usize) -> (text: String)
    ensures
        text@ == decimal(value as nat),
{
    let mut text = String::new();
    push_decimal(&mut text, value);
    text
}

} // verus!
