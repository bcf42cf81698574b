//! What holds of the transcripts of responses, stated over the members of the events and over
//! the lines and slots that they come in.

use crate::json::{self, JsonTree};
use crate::json_laws::{self, body_is_silent, body_says, event_is_silent, event_says, holds};
use crate::text;
use crate::text_laws::{self, all_white};
use crate::transcript::{
    events_of_lines, faults_of_lines, response_transcript, segments,
};
use crate::watcher::{body_transcript, Watched};
use vstd::prelude::*;

verus! {

/// An event adds the transcript that it has, whole and without the white space around it, behind
/// the segments of the events before it: to the final ones, unless it says that it is not final,
/// and to the interim ones if it says so. One with a blank transcript adds none. A transcript in
/// the event's channel counts, and one in its results where the channel has none.
pub proof fn law_event_adds_its_segment(
    events: Seq<JsonTree>,
    event: JsonTree,
    before: Seq<char>,
    core: Seq<char>,
    after: Seq<char>,
    is_final: bool,
)
    requires
        all_white(before),
        all_white(after),
        core.len() == 0 || (!text::white_space(core[0]) && !text::white_space(core.last())),
        event_says(event, before + core + after) || (event_is_silent(event) && body_says(
            event,
            before + core + after,
        )),
    ensures
        segments(Seq::<JsonTree>::empty(), is_final) == Seq::<Seq<char>>::empty(),
        segments(events + seq![event], is_final) == if core.len() > 0 && is_final != holds(
            event,
            "is_final"@,
            JsonTree::Bool(false),
        ) {
            segments(events, is_final) + seq![core]
        } else {
            segments(events, is_final)
        },
{
    let all = events + seq![event];
    assert(all.drop_last() =~= events);
    json_laws::law_event_transcript_is_found(event, before + core + after);
    json_laws::law_body_transcript_is_found(event, before + core + after);
    text_laws::law_trimmed_is_the_middle(before, core, after);
    assert(segments(events, is_final).push(core) =~= segments(events, is_final) + seq![core]);
}

/// An event that has a transcript neither in its channel nor in its results adds no segment.
pub proof fn law_other_event_adds_nothing(events: Seq<JsonTree>, event: JsonTree, is_final: bool)
    requires
        event_is_silent(event),
        body_is_silent(event),
    ensures
        segments(events + seq![event], is_final) == segments(events, is_final),
{
    let all = events + seq![event];
    assert(all.drop_last() =~= events);
    json_laws::law_event_transcript_is_found(event, Seq::empty());
    json_laws::law_body_transcript_is_found(event, Seq::empty());
}

/// The transcript of a response is its only final segment as it stands, or all of them in order
/// with a space between each and the next; without a final one it is made of the interim ones in
/// the same way; without any there is none.
pub proof fn law_transcript_is_all_segments(events: Seq<JsonTree>, earlier: Seq<JsonTree>)
    ensures
        ({
            let finals = segments(events, true);
            let interims = segments(events, false);
            let parts = if finals.len() > 0 {
                finals
            } else {
                interims
            };
            let earlier_parts = segments(earlier, finals.len() > 0);
            &&& parts.len() == 0 <==> response_transcript(events) is None
            &&& parts.len() == 1 ==> response_transcript(events) == Some(parts[0])
            &&& earlier_parts.len() > 0 && parts == earlier_parts + seq![parts.last()] && (
            finals.len() > 0 || segments(earlier, true).len() == 0) ==> response_transcript(events)
                == Some(response_transcript(earlier)->0 + seq![' '] + parts.last())
        }),
{
    let finals = segments(events, true);
    let interims = segments(events, false);
    let parts = if finals.len() > 0 {
        finals
    } else {
        interims
    };
    let earlier_parts = segments(earlier, finals.len() > 0);
    reveal_strlit(" ");
    assert(" "@ =~= seq![' ']);
    if parts.len() == 1 {
        assert(parts =~= seq![parts[0]]);
        text_laws::law_joined_splits(parts, parts, " "@, parts[0]);
    }
    if earlier_parts.len() > 0 && parts == earlier_parts + seq![parts.last()] {
        text_laws::law_joined_splits(earlier_parts, seq![parts.last()], " "@, parts.last());
    }
}

/// A line of a response adds the event that it parses to, white space around it aside, or what
/// the parser says of it, behind those of the lines before it. A blank line adds neither.
pub proof fn law_every_line_is_an_event(
    lines: Seq<Seq<char>>,
    before: Seq<char>,
    core: Seq<char>,
    after: Seq<char>,
)
    requires
        all_white(before),
        all_white(after),
        core.len() == 0 || (!text::white_space(core[0]) && !text::white_space(core.last())),
    ensures
        events_of_lines(Seq::<Seq<char>>::empty()) == Seq::<JsonTree>::empty(),
        faults_of_lines(Seq::<Seq<char>>::empty()) == Seq::<Seq<char>>::empty(),
        core.len() == 0 ==> {
            &&& events_of_lines(lines + seq![before + core + after]) == events_of_lines(lines)
            &&& faults_of_lines(lines + seq![before + core + after]) == faults_of_lines(lines)
        },
        core.len() > 0 ==> match json::parsed_text(core) {
            Ok(event) => {
                &&& events_of_lines(lines + seq![before + core + after]) == events_of_lines(lines)
                    + seq![event]
                &&& faults_of_lines(lines + seq![before + core + after]) == faults_of_lines(lines)
            },
            Err(message) => {
                &&& events_of_lines(lines + seq![before + core + after]) == events_of_lines(lines)
                &&& faults_of_lines(lines + seq![before + core + after]) == faults_of_lines(lines)
                    + seq![message]
            },
        },
{
    let line = before + core + after;
    let all = lines + seq![line];
    assert(all.drop_last() =~= lines);
    text_laws::law_trimmed_is_the_middle(before, core, after);
    if core.len() > 0 {
        match json::parsed_text(core) {
            Ok(event) => {
                assert(events_of_lines(lines).push(event) =~= events_of_lines(lines) + seq![event]);
            },
            Err(message) => {
                assert(faults_of_lines(lines).push(message) =~= faults_of_lines(lines) + seq![
                    message,
                ]);
            },
        }
    }
}

/// A body of one event gives that event's transcript, whole.
pub proof fn law_body_of_one_event(
    body: Seq<u8>,
    line: Seq<char>,
    event: JsonTree,
    before: Seq<char>,
    transcript: Seq<char>,
    after: Seq<char>,
)
    requires
        text::lossy_text(body) == line || text::lossy_text(body) == line.push('\n'),
        line.len() > 0,
        !line.contains('\n'),
        !text::white_space(line[0]),
        !text::white_space(line.last()),
        json::parsed_text(line) == Ok::<JsonTree, Seq<char>>(event),
        all_white(before),
        all_white(after),
        transcript.len() > 0,
        !text::white_space(transcript[0]),
        !text::white_space(transcript.last()),
        event_says(event, before + transcript + after) || (event_is_silent(event) && body_says(
            event,
            before + transcript + after,
        )),
    ensures
        body_transcript(body) == Some(transcript),
{
    let nothing = Seq::<char>::empty();
    let no_lines = Seq::<Seq<char>>::empty();
    let no_events = Seq::<JsonTree>::empty();
    text_laws::law_lines_are_whole(nothing, line);
    assert(nothing + line =~= line);
    assert(nothing + line.push('\n') =~= line.push('\n'));
    assert(text::lines(text::lossy_text(body)) =~= seq![line]);
    law_every_line_is_an_event(no_lines, nothing, line, nothing);
    assert(nothing + line + nothing =~= line);
    assert(no_lines + seq![line] =~= seq![line]);
    assert(no_events + seq![event] =~= seq![event]);
    law_event_adds_its_segment(no_events, event, before, transcript, after, true);
    law_event_adds_its_segment(no_events, event, before, transcript, after, false);
    assert(Seq::<Seq<char>>::empty() + seq![transcript] =~= seq![transcript]);
    law_transcript_is_all_segments(seq![event], no_events);
}

/// A slot adds its bytes to the body of the response that its stream carries. The head adds
/// nothing, and the end marker leaves no body. Nothing else changes.
pub proof fn law_slot_adds_its_bytes(
    watched: Watched,
    stream: int,
    slot: usize,
    bytes: Seq<u8>,
    end: bool,
    other: u64,
)
    requires
        0 <= stream < watched.stream_ids.len(),
        other != watched.stream_ids[stream],
    ensures
        ({
            let id = watched.stream_ids[stream];
            let after = watched.accepted(stream, slot, bytes, end);
            &&& after.stream_ids == watched.stream_ids
            &&& after.last_seen == watched.last_seen
            &&& after.bodies.dom().contains(other) == watched.bodies.dom().contains(other)
            &&& after.bodies.dom().contains(other) ==> after.bodies[other] == watched.bodies[other]
            &&& slot == 1 ==> after == watched
            &&& slot != 1 && end ==> !after.bodies.dom().contains(id)
            &&& slot != 1 && !end ==> after.bodies.dom().contains(id) && after.bodies[id] == if
                watched.bodies.dom().contains(id) {
                watched.bodies[id] + bytes
            } else {
                bytes
            }
        }),
{
    assert(Seq::<u8>::empty() + bytes =~= bytes);
}

/// A stream that carries the response that it carried is left as it is; one that carries another
/// is at the beginning of that, without the body of the former. Slots are unseen behind the last
/// that was seen, up to the last that there is.
pub proof fn law_stream_turns_to_a_response(
    watched: Watched,
    stream: int,
    id: u64,
    last: usize,
    other: u64,
)
    requires
        0 <= stream < watched.stream_ids.len(),
        watched.last_seen.len() == watched.stream_ids.len(),
        other != watched.stream_ids[stream],
    ensures
        ({
            let after = watched.observed(stream, id);
            let former = watched.stream_ids[stream];
            &&& former == id ==> after == watched
            &&& former != id ==> {
                &&& after.stream_ids == watched.stream_ids.update(stream, id)
                &&& after.last_seen == watched.last_seen.update(stream, 0)
                &&& !after.bodies.dom().contains(former)
                &&& after.bodies.dom().contains(other) == watched.bodies.dom().contains(other)
                &&& after.bodies.dom().contains(other) ==> after.bodies[other]
                    == watched.bodies[other]
            }
        }),
        last <= watched.last_seen[stream] ==> watched.unseen(stream, last) is None,
        last > watched.last_seen[stream] ==> match watched.unseen(stream, last) {
            Some((from, to)) => from == watched.last_seen[stream] + 1 && to == last,
            None => false,
        },
        watched.seen(stream, last).last_seen == watched.last_seen.update(stream, last),
        watched.seen(stream, last).stream_ids == watched.stream_ids,
        watched.seen(stream, last).bodies == watched.bodies,
{
}

/// Before it has seen anything a watcher knows of no response and of no slot.
pub proof fn law_fresh_watcher(num_streams: nat, stream: int)
    requires
        0 <= stream < num_streams,
    ensures
        Watched::fresh(num_streams).stream_ids.len() == num_streams,
        Watched::fresh(num_streams).last_seen.len() == num_streams,
        Watched::fresh(num_streams).stream_ids[stream] == 0,
        Watched::fresh(num_streams).last_seen[stream] == 0,
        Watched::fresh(num_streams).bodies == Map::<u64, Seq<u8>>::empty(),
{
}

} // verus!
