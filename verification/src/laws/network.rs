//! Whole answers as the network delivers them: in bytes, cut anywhere.
use crate::laws::answers::{
    frames_events, frames_text, law_frames_are_read_however_they_are_cut, lemma_alike,
    lemma_malformed_add_nothing, rests, whole_answer, Host, OneLineFrame,
};
use crate::laws::orders::{lemma_same_append, same_but_for_ends};
use crate::messages::concatenated;
use crate::stream::{initial, message_start};
use crate::text::{joined, without_trailing_cr};
use vstd::prelude::*;
use vstd::utf8::{decode_first_scalar, decode_utf8, pop_first_scalar, valid_utf8};

verus! {

/// The bytes of several deliveries in one sequence.
pub open spec fn all_bytes(deliveries: Seq<Seq<u8>>) -> Seq<u8>
    decreases deliveries.len(),
{
    if deliveries.len() == 0 {
        Seq::empty()
    } else {
        all_bytes(deliveries.drop_last()) + deliveries.last()
    }
}

/// The texts of several deliveries.
pub open spec fn texts(deliveries: Seq<Seq<u8>>) -> Seq<Seq<char>> {
    deliveries.map_values(|bytes: Seq<u8>| decode_utf8(bytes))
}

/// Whether each of several deliveries is valid UTF-8.
pub open spec fn all_valid(deliveries: Seq<Seq<u8>>) -> bool {
    forall|i: int| 0 <= i < deliveries.len() ==> valid_utf8(#[trigger] deliveries[i])
}

proof fn lemma_decode_append(first: Seq<u8>, second: Seq<u8>)
    requires
        valid_utf8(first),
        valid_utf8(second),
    ensures
        valid_utf8(first + second),
        decode_utf8(first + second) == decode_utf8(first) + decode_utf8(second),
    decreases first.len(),
{
    if first.len() == 0 {
        assert(first + second == second);
        assert(decode_utf8(first) + decode_utf8(second) == decode_utf8(second));
    } else {
        let rest = pop_first_scalar(first);
        lemma_decode_append(rest, second);
        assert(pop_first_scalar(first + second) == rest + second);
        assert(decode_first_scalar(first + second) == decode_first_scalar(first));
        assert(decode_utf8(first + second) == decode_utf8(first) + decode_utf8(second));
    }
}

proof fn lemma_texts(deliveries: Seq<Seq<u8>>)
    requires
        all_valid(deliveries),
    ensures
        valid_utf8(all_bytes(deliveries)),
        concatenated(texts(deliveries)) == decode_utf8(all_bytes(deliveries)),
    decreases deliveries.len(),
{
    if deliveries.len() > 0 {
        let front = deliveries.drop_last();
        assert forall|i: int| 0 <= i < front.len() implies valid_utf8(#[trigger] front[i]) by {
            assert(front[i] == deliveries[i]);
        }
        lemma_texts(front);
        assert(valid_utf8(deliveries[deliveries.len() - 1]));
        lemma_decode_append(all_bytes(front), deliveries.last());
        assert(texts(deliveries).drop_last() == texts(front));
    }
}

/// Two answers whose frames add the same events give the same events.
proof fn lemma_answers<P>(
    host: Host<P>,
    other: Host<P>,
    rest: P,
    message_id: Seq<char>,
    frames: Seq<OneLineFrame>,
    tail: Seq<char>,
    deliveries: Seq<Seq<u8>>,
    other_frames: Seq<OneLineFrame>,
    other_tail: Seq<char>,
    others: Seq<Seq<u8>>,
)
    requires
        host.is_alike(other),
        rests(host, rest),
        forall|i: int| 0 <= i < frames.len() ==> (#[trigger] frames[i]).is_taken_by(host, rest),
        forall|i: int|
            0 <= i < other_frames.len() ==> (#[trigger] other_frames[i]).is_taken_by(host, rest),
        !tail.contains('\n'),
        !other_tail.contains('\n'),
        all_valid(deliveries),
        all_valid(others),
        decode_utf8(all_bytes(deliveries)) == frames_text(frames) + tail,
        decode_utf8(all_bytes(others)) == frames_text(other_frames) + other_tail,
        frames_events(other, initial(message_id), frames) == frames_events(
            other,
            initial(message_id),
            other_frames,
        ),
    ensures
        same_but_for_ends(
            whole_answer(host, rest, message_id, texts(deliveries)),
            whole_answer(other, rest, message_id, texts(others)),
        ),
        host.adds == other.adds ==> whole_answer(host, rest, message_id, texts(deliveries))
            == whole_answer(other, rest, message_id, texts(others)),
{
    assert forall|i: int| 0 <= i < other_frames.len() implies (#[trigger] other_frames[
        i
    ]).is_taken_by(other, rest) by {
        assert(other_frames[i].is_taken_by(host, rest));
    }
    lemma_texts(deliveries);
    lemma_texts(others);
    law_frames_are_read_however_they_are_cut(
        host,
        rest,
        message_id,
        frames,
        tail,
        texts(deliveries),
    );
    law_frames_are_read_however_they_are_cut(
        other,
        rest,
        message_id,
        other_frames,
        other_tail,
        texts(others),
    );
    lemma_alike(host, other, initial(message_id), frames);
    lemma_same_append(
        seq![message_start(message_id)],
        seq![message_start(message_id)],
        frames_events(host, initial(message_id), frames),
        frames_events(other, initial(message_id), frames),
    );
}

/// Where the network cuts an answer of frames of one line each does not matter, as long as each
/// delivery is valid UTF-8: the same bytes give the same events, up to the order in which the
/// open tool calls are ended.
pub proof fn law_cuts_of_the_network_do_not_matter<P>(
    host: Host<P>,
    other: Host<P>,
    rest: P,
    message_id: Seq<char>,
    frames: Seq<OneLineFrame>,
    tail: Seq<char>,
    deliveries: Seq<Seq<u8>>,
    others: Seq<Seq<u8>>,
)
    requires
        host.is_alike(other),
        rests(host, rest),
        forall|i: int| 0 <= i < frames.len() ==> (#[trigger] frames[i]).is_taken_by(host, rest),
        !tail.contains('\n'),
        all_valid(deliveries),
        all_valid(others),
        all_bytes(deliveries) == all_bytes(others),
        decode_utf8(all_bytes(deliveries)) == frames_text(frames) + tail,
    ensures
        same_but_for_ends(
            whole_answer(host, rest, message_id, texts(deliveries)),
            whole_answer(other, rest, message_id, texts(others)),
        ),
        host.adds == other.adds ==> whole_answer(host, rest, message_id, texts(deliveries))
            == whole_answer(other, rest, message_id, texts(others)),
{
    lemma_answers(
        host,
        other,
        rest,
        message_id,
        frames,
        tail,
        deliveries,
        frames,
        tail,
        others,
    );
}

/// A frame whose data is neither a chunk nor the end of the stream is skipped: an answer gives
/// the events that it gives without such frames, up to the order in which the open tool calls are
/// ended, however the network cuts either of them, as long as each delivery is valid UTF-8.
pub proof fn law_malformed_frames_are_skipped<P>(
    host: Host<P>,
    other: Host<P>,
    rest: P,
    message_id: Seq<char>,
    frames: Seq<OneLineFrame>,
    tail: Seq<char>,
    deliveries: Seq<Seq<u8>>,
    other_tail: Seq<char>,
    others: Seq<Seq<u8>>,
)
    requires
        host.is_alike(other),
        rests(host, rest),
        forall|i: int| 0 <= i < frames.len() ==> (#[trigger] frames[i]).is_taken_by(host, rest),
        !tail.contains('\n'),
        !other_tail.contains('\n'),
        all_valid(deliveries),
        all_valid(others),
        decode_utf8(all_bytes(deliveries)) == frames_text(frames) + tail,
        decode_utf8(all_bytes(others)) == frames_text(
            frames.filter(|frame: OneLineFrame| !frame.is_malformed(host)),
        ) + other_tail,
    ensures
        same_but_for_ends(
            whole_answer(host, rest, message_id, texts(deliveries)),
            whole_answer(other, rest, message_id, texts(others)),
        ),
        host.adds == other.adds ==> whole_answer(host, rest, message_id, texts(deliveries))
            == whole_answer(other, rest, message_id, texts(others)),
{
    let sound = |frame: OneLineFrame| !frame.is_malformed(host);
    let kept = frames.filter(sound);
    assert forall|i: int| 0 <= i < kept.len() implies (#[trigger] kept[i]).is_taken_by(
        host,
        rest,
    ) by {
        assert(kept.contains(kept[i]));
        frames.lemma_filter_contains_rev(sound, kept[i]);
    }
    assert(kept == frames.filter(|frame: OneLineFrame| !frame.is_malformed(other))) by {
        assert(sound =~= (|frame: OneLineFrame| !frame.is_malformed(other)));
    }
    lemma_malformed_add_nothing(other, initial(message_id), frames);
    lemma_answers(
        host,
        other,
        rest,
        message_id,
        frames,
        tail,
        deliveries,
        kept,
        other_tail,
        others,
    );
}

/// How the event stream format reads a line: a line `data: X` adds `X`, and an empty line
/// completes the frame, if anything was added. Other lines add no data. The state is the data
/// that was added since the last frame.
pub open spec fn event_stream_feed(added: Seq<Seq<char>>, line: Seq<char>) -> (
    Seq<Seq<char>>,
    Option<Seq<char>>,
) {
    if line.len() == 0 {
        if added.len() == 0 {
            (added, None)
        } else {
            (Seq::empty(), Some(joined(added)))
        }
    } else if line == "data"@ {
        (added.push(Seq::empty()), None)
    } else if "data:"@.is_prefix_of(line) {
        let value = line.skip(5);
        if value.len() > 0 && value[0] == ' ' {
            (added.push(value.drop_first()), None)
        } else {
            (added.push(value), None)
        }
    } else {
        (added, None)
    }
}

/// Whether the parser of a host reads the event stream format.
pub open spec fn reads_event_stream(host: Host<Seq<Seq<char>>>) -> bool {
    forall|added: Seq<Seq<char>>, line: Seq<char>| #[trigger]
        (host.feed)(added, line) == event_stream_feed(added, line)
}

/// Whether a frame is a line `data: X` and an empty line, each ended with or without a carriage
/// return.
pub open spec fn is_data_frame(frame: OneLineFrame) -> bool {
    let line = "data: "@ + frame.data;
    &&& frame.line == line || frame.line == line.push('\r')
    &&& frame.blank == Seq::<char>::empty() || frame.blank == seq!['\r']
    &&& !frame.data.contains('\n')
    &&& frame.data.len() > 0 ==> frame.data.last() != '\r'
}

/// A parser that reads the event stream format takes `data: X` lines as frames of one line, and
/// an empty line does not disturb it at rest.
pub proof fn law_event_stream_has_data_frames(host: Host<Seq<Seq<char>>>, frame: OneLineFrame)
    requires
        reads_event_stream(host),
        is_data_frame(frame),
    ensures
        rests(host, Seq::empty()),
        frame.is_taken_by(host, Seq::empty()),
{
    reveal_strlit("data");
    reveal_strlit("data:");
    reveal_strlit("data: ");
    let line = "data: "@ + frame.data;
    let start = Seq::<Seq<char>>::empty();
    let none = Seq::<char>::empty();
    assert(line.len() >= 6);
    assert(line.last() != '\r');
    assert(without_trailing_cr(line) == line);
    assert(line.push('\r').drop_last() == line);
    assert(without_trailing_cr(line.push('\r')) == line);
    assert(without_trailing_cr(frame.line) == line);
    assert(without_trailing_cr(none) == none);
    assert(seq!['\r'].drop_last() == none);
    assert(without_trailing_cr(seq!['\r']) == none);
    assert(line != "data"@);
    assert("data:"@.is_prefix_of(line));
    assert(line.skip(5).drop_first() == frame.data);
    let taken = (host.feed)(start, line);
    assert(taken == event_stream_feed(start, line));
    assert(taken.0 == seq![frame.data]);
    assert((host.feed)(taken.0, none) == event_stream_feed(taken.0, none));
    assert((host.feed)(start, none) == event_stream_feed(start, none));
    assert(!line.contains('\n')) by {
        if line.contains('\n') {
            let at = choose|at: int| 0 <= at < line.len() && line[at] == '\n';
            assert(at >= 6);
            assert(frame.data[at - 6] == '\n');
        }
    }
    assert(!frame.line.contains('\n')) by {
        if frame.line.contains('\n') {
            let at = choose|at: int| 0 <= at < frame.line.len() && frame.line[at] == '\n';
            assert(line[at] == '\n');
        }
    }
}

/// Where the network cuts an answer of `data: X` frames does not matter, with a parser that reads
/// the event stream format.
pub proof fn law_cuts_of_an_event_stream_do_not_matter(
    host: Host<Seq<Seq<char>>>,
    other: Host<Seq<Seq<char>>>,
    message_id: Seq<char>,
    frames: Seq<OneLineFrame>,
    tail: Seq<char>,
    deliveries: Seq<Seq<u8>>,
    others: Seq<Seq<u8>>,
)
    requires
        reads_event_stream(host),
        host.is_alike(other),
        forall|i: int| 0 <= i < frames.len() ==> is_data_frame(#[trigger] frames[i]),
        !tail.contains('\n'),
        all_valid(deliveries),
        all_valid(others),
        all_bytes(deliveries) == all_bytes(others),
        decode_utf8(all_bytes(deliveries)) == frames_text(frames) + tail,
    ensures
        same_but_for_ends(
            whole_answer(host, Seq::empty(), message_id, texts(deliveries)),
            whole_answer(other, Seq::empty(), message_id, texts(others)),
        ),
        host.adds == other.adds ==> whole_answer(
            host,
            Seq::empty(),
            message_id,
            texts(deliveries),
        ) == whole_answer(other, Seq::empty(), message_id, texts(others)),
{
    lemma_frames_are_taken(host, frames);
    law_cuts_of_the_network_do_not_matter(
        host,
        other,
        Seq::empty(),
        message_id,
        frames,
        tail,
        deliveries,
        others,
    );
}

/// A `data: X` frame whose `X` is neither a chunk nor the end of the stream is skipped, with a
/// parser that reads the event stream format.
pub proof fn law_malformed_data_is_skipped(
    host: Host<Seq<Seq<char>>>,
    other: Host<Seq<Seq<char>>>,
    message_id: Seq<char>,
    frames: Seq<OneLineFrame>,
    tail: Seq<char>,
    deliveries: Seq<Seq<u8>>,
    other_tail: Seq<char>,
    others: Seq<Seq<u8>>,
)
    requires
        reads_event_stream(host),
        host.is_alike(other),
        forall|i: int| 0 <= i < frames.len() ==> is_data_frame(#[trigger] frames[i]),
        !tail.contains('\n'),
        !other_tail.contains('\n'),
        all_valid(deliveries),
        all_valid(others),
        decode_utf8(all_bytes(deliveries)) == frames_text(frames) + tail,
        decode_utf8(all_bytes(others)) == frames_text(
            frames.filter(|frame: OneLineFrame| !frame.is_malformed(host)),
        ) + other_tail,
    ensures
        same_but_for_ends(
            whole_answer(host, Seq::empty(), message_id, texts(deliveries)),
            whole_answer(other, Seq::empty(), message_id, texts(others)),
        ),
        host.adds == other.adds ==> whole_answer(
            host,
            Seq::empty(),
            message_id,
            texts(deliveries),
        ) == whole_answer(other, Seq::empty(), message_id, texts(others)),
{
    lemma_frames_are_taken(host, frames);
    law_malformed_frames_are_skipped(
        host,
        other,
        Seq::empty(),
        message_id,
        frames,
        tail,
        deliveries,
        other_tail,
        others,
    );
}

proof fn lemma_frames_are_taken(host: Host<Seq<Seq<char>>>, frames: Seq<OneLineFrame>)
    requires
        reads_event_stream(host),
        forall|i: int| 0 <= i < frames.len() ==> is_data_frame(#[trigger] frames[i]),
    ensures
        rests(host, Seq::empty()),
        forall|i: int|
            0 <= i < frames.len() ==> (#[trigger] frames[i]).is_taken_by(host, Seq::empty()),
{
    let start = Seq::<Seq<char>>::empty();
    let none = Seq::<char>::empty();
    assert((host.feed)(start, none) == event_stream_feed(start, none));
    assert forall|i: int| 0 <= i < frames.len() implies (#[trigger] frames[i]).is_taken_by(
        host,
        start,
    ) by {
        law_event_stream_has_data_frames(host, frames[i]);
    }
}

} // verus!
