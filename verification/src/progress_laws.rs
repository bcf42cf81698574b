//! What holds of the progress of a response, stated over the bytes that come and over the
//! members of the events that they hold.

use crate::json::{self, JsonTree};
use crate::json_laws::{self, event_is_silent, event_says, holds, lacks};
use crate::progress::{
    byte_lines, bytes_trim_end, bytes_trim_start, bytes_trimmed, complete_lines, head_event,
    is_alternative_path, lemma_redacted_at_pointer, line_entries, line_event, log_entry, open_line,
    preview, recorded, Origin, Progress, TranscriptFault,
};
use crate::text;
use crate::text_laws::{self, all_white};
use vstd::prelude::*;

verus! {

/// Whether all bytes are spaces, tabs, form feeds or carriage returns.
pub open spec fn blank_bytes(bytes: Seq<u8>) -> bool {
    forall|i: int|
        0 <= i < bytes.len() ==> (#[trigger] bytes[i] == 32 || bytes[i] == 9 || bytes[i] == 12
            || bytes[i] == 13)
}

/// Whether a line is not empty, has no line feed in it and no white space around it.
pub open spec fn bare_line(line: Seq<u8>) -> bool {
    &&& line.len() > 0
    &&& !line.contains(10)
    &&& !blank_bytes(seq![line[0]])
    &&& !blank_bytes(seq![line.last()])
}

/// Whether a text is this core, which is not empty and has no white space around it, in the middle
/// of white space.
pub open spec fn core_of(
    s: Seq<char>,
    before: Seq<char>,
    core: Seq<char>,
    after: Seq<char>,
) -> bool {
    &&& s == before + core + after
    &&& all_white(before)
    &&& all_white(after)
    &&& core.len() > 0
    &&& !text::white_space(core[0])
    &&& !text::white_space(core.last())
}

/// The number of events, with one more.
pub open spec fn one_more(events: usize) -> usize {
    if events == usize::MAX {
        events
    } else {
        (events + 1) as usize
    }
}

proof fn lemma_bytes_trim_start_past(lead: Seq<u8>, rest: Seq<u8>)
    requires
        blank_bytes(lead),
    ensures
        bytes_trim_start(lead + rest) == bytes_trim_start(rest),
    decreases lead.len(),
{
    if lead.len() == 0 {
        assert(lead + rest =~= rest);
    } else {
        assert((lead + rest)[0] == lead[0]);
        assert((lead + rest).skip(1) =~= lead.skip(1) + rest);
        assert(blank_bytes(lead.skip(1))) by {
            assert forall|i: int| 0 <= i < lead.skip(1).len() implies (#[trigger] lead.skip(1)[i]
                == 32 || lead.skip(1)[i] == 9 || lead.skip(1)[i] == 12 || lead.skip(1)[i]
                == 13) by {
                assert(lead.skip(1)[i] == lead[i + 1]);
            }
        }
        lemma_bytes_trim_start_past(lead.skip(1), rest);
    }
}

proof fn lemma_bytes_trim_end_past(rest: Seq<u8>, trail: Seq<u8>)
    requires
        blank_bytes(trail),
    ensures
        bytes_trim_end(rest + trail) == bytes_trim_end(rest),
    decreases trail.len(),
{
    if trail.len() == 0 {
        assert(rest + trail =~= rest);
    } else {
        assert(trail[trail.len() - 1] == trail.last());
        assert((rest + trail).last() == trail.last());
        assert((rest + trail).drop_last() =~= rest + trail.drop_last());
        assert(blank_bytes(trail.drop_last())) by {
            assert forall|i: int| 0 <= i < trail.drop_last().len() implies (
            #[trigger] trail.drop_last()[i] == 32 || trail.drop_last()[i] == 9
                || trail.drop_last()[i] == 12 || trail.drop_last()[i] == 13) by {
                assert(trail.drop_last()[i] == trail[i]);
            }
        }
        lemma_bytes_trim_end_past(rest, trail.drop_last());
    }
}

/// Of a line in the middle of blanks the line is left, and of blanks nothing.
pub proof fn law_blanks_around_a_line_are_dropped(lead: Seq<u8>, line: Seq<u8>, trail: Seq<u8>)
    requires
        blank_bytes(lead),
        blank_bytes(trail),
    ensures
        bare_line(line) ==> bytes_trimmed(lead + line + trail) == line,
        bytes_trimmed(lead) == Seq::<u8>::empty(),
{
    let nothing = Seq::<u8>::empty();
    assert(lead + nothing =~= lead);
    lemma_bytes_trim_start_past(lead, nothing);
    if bare_line(line) {
        assert(line.contains(line[0]));
        assert(line.contains(line.last()));
        assert(lead + line + trail =~= lead + (line + trail));
        lemma_bytes_trim_start_past(lead, line + trail);
        assert((line + trail)[0] == line[0]);
        if crate::progress::ascii_space(line[0]) {
            assert(blank_bytes(seq![line[0]]));
        }
        if crate::progress::ascii_space(line.last()) {
            assert(blank_bytes(seq![line.last()]));
        }
        lemma_bytes_trim_end_past(line, trail);
    }
}

proof fn lemma_no_line_feed(raw: Seq<u8>)
    requires
        !raw.contains(10),
    ensures
        byte_lines(raw) == seq![raw],
        complete_lines(raw) == Seq::<Seq<u8>>::empty(),
        open_line(raw) == raw,
        complete_lines(raw.push(10)) == seq![raw],
        open_line(raw.push(10)) == Seq::<u8>::empty(),
    decreases raw.len(),
{
    if raw.len() > 0 {
        let shorter = raw.drop_last();
        assert forall|i: int| 0 <= i < shorter.len() implies shorter[i] != 10 by {
            assert(raw.contains(raw[i]));
        }
        lemma_no_line_feed(shorter);
        assert(raw.contains(raw.last()));
        assert(byte_lines(raw) =~~= seq![raw]);
    } else {
        assert(byte_lines(raw) =~~= seq![raw]);
    }
    assert(raw.push(10).drop_last() =~= raw);
    assert(complete_lines(raw.push(10)) =~= seq![raw]);
}

proof fn lemma_no_line_feed_around(lead: Seq<u8>, line: Seq<u8>, trail: Seq<u8>)
    requires
        blank_bytes(lead),
        blank_bytes(trail),
        !line.contains(10),
    ensures
        !(lead + line + trail).contains(10),
{
    let raw = lead + line + trail;
    assert forall|i: int| 0 <= i < raw.len() implies raw[i] != 10 by {
        if i < lead.len() {
            assert(raw[i] == lead[i]);
        } else if i < lead.len() + line.len() {
            assert(raw[i] == line[i - lead.len()]);
            assert(line.contains(line[i - lead.len()]));
        } else {
            assert(raw[i] == trail[i - lead.len() - line.len()]);
        }
    }
}

/// What one complete line leads to.
proof fn lemma_one_complete_line(progress: Progress, origin: Origin, data: Seq<u8>, raw: Seq<u8>)
    requires
        progress.pending + data == raw.push(10),
        !raw.contains(10),
    ensures
        progress.after_data(data) == (Progress {
            pending: Seq::empty(),
            ..progress.after_line(raw)
        }),
        line_entries(origin, complete_lines(progress.pending + data)) == line_entries(
            origin,
            seq![raw],
        ),
{
    lemma_no_line_feed(raw);
    assert(seq![raw].drop_last() =~= Seq::<Seq<u8>>::empty());
    assert(progress.after_lines(Seq::<Seq<u8>>::empty()) == progress);
    assert(progress.after_lines(seq![raw]) == progress.after_line(raw));
}

/// Whether the response has not failed: it has no head yet, or a status of success.
pub open spec fn going_well(progress: Progress) -> bool {
    match progress.status {
        Some(status) => 200 <= status <= 299,
        None => true,
    }
}

/// A line with a final result adds its transcript to the final segments, whole and without the
/// white space around it, behind those that were there, and nothing else but the event itself.
pub proof fn law_final_transcript_is_kept_whole(
    progress: Progress,
    data: Seq<u8>,
    around: (Seq<u8>, Seq<u8>),
    line: Seq<u8>,
    event: JsonTree,
    before: Seq<char>,
    transcript: Seq<char>,
    after: Seq<char>,
)
    requires
        going_well(progress),
        blank_bytes(around.0),
        blank_bytes(around.1),
        bare_line(line),
        progress.pending + data == (around.0 + line + around.1).push(10),
        json::parsed_bytes(line) == Ok::<JsonTree, Seq<char>>(event),
        holds(event, "type"@, JsonTree::Text("Results"@)),
        holds(event, "is_final"@, JsonTree::Bool(true)),
        core_of(before + transcript + after, before, transcript, after),
        event_says(event, before + transcript + after),
    ensures
        progress.after_data(data) == (Progress {
            status: progress.status,
            events: one_more(progress.events),
            final_segments: progress.final_segments + seq![transcript],
            last_interim: progress.last_interim,
            error_body: progress.error_body,
            pending: Seq::empty(),
        }),
{
    let raw = around.0 + line + around.1;
    let origin = Origin { source_index: 0, source_url: Seq::empty(), store_transcripts: false };
    lemma_no_line_feed_around(around.0, line, around.1);
    lemma_one_complete_line(progress, origin, data, raw);
    law_blanks_around_a_line_are_dropped(around.0, line, around.1);
    json_laws::law_event_transcript_is_found(event, before + transcript + after);
    text_laws::law_trimmed_is_the_middle(before, transcript, after);
    assert(progress.after_data(data) =~= Progress {
        status: progress.status,
        events: one_more(progress.events),
        final_segments: progress.final_segments + seq![transcript],
        last_interim: progress.last_interim,
        error_body: progress.error_body,
        pending: Seq::empty(),
    });
}

/// A line with a result that is not final replaces the interim transcript, whole and without
/// the white space around it, and leaves the final segments as they are.
pub proof fn law_interim_transcript_is_kept_whole(
    progress: Progress,
    data: Seq<u8>,
    around: (Seq<u8>, Seq<u8>),
    line: Seq<u8>,
    event: JsonTree,
    before: Seq<char>,
    transcript: Seq<char>,
    after: Seq<char>,
)
    requires
        going_well(progress),
        blank_bytes(around.0),
        blank_bytes(around.1),
        bare_line(line),
        progress.pending + data == (around.0 + line + around.1).push(10),
        json::parsed_bytes(line) == Ok::<JsonTree, Seq<char>>(event),
        holds(event, "type"@, JsonTree::Text("Results"@)),
        !holds(event, "is_final"@, JsonTree::Bool(true)),
        core_of(before + transcript + after, before, transcript, after),
        event_says(event, before + transcript + after),
    ensures
        progress.after_data(data) == (Progress {
            status: progress.status,
            events: one_more(progress.events),
            final_segments: progress.final_segments,
            last_interim: Some(transcript),
            error_body: progress.error_body,
            pending: Seq::empty(),
        }),
{
    let raw = around.0 + line + around.1;
    let origin = Origin { source_index: 0, source_url: Seq::empty(), store_transcripts: false };
    lemma_no_line_feed_around(around.0, line, around.1);
    lemma_one_complete_line(progress, origin, data, raw);
    law_blanks_around_a_line_are_dropped(around.0, line, around.1);
    json_laws::law_event_transcript_is_found(event, before + transcript + after);
    text_laws::law_trimmed_is_the_middle(before, transcript, after);
}

/// A line that does not parse, and one whose event is no result, has no transcript or a blank one,
/// is counted and changes nothing else.
pub proof fn law_other_events_only_count(
    progress: Progress,
    data: Seq<u8>,
    around: (Seq<u8>, Seq<u8>),
    line: Seq<u8>,
    blank: Seq<char>,
)
    requires
        going_well(progress),
        blank_bytes(around.0),
        blank_bytes(around.1),
        bare_line(line),
        progress.pending + data == (around.0 + line + around.1).push(10),
        match json::parsed_bytes(line) {
            Ok(event) => {
                ||| !holds(event, "type"@, JsonTree::Text("Results"@))
                ||| event_is_silent(event)
                ||| all_white(blank) && event_says(event, blank)
            },
            Err(_) => true,
        },
    ensures
        progress.after_data(data) == (Progress {
            status: progress.status,
            events: one_more(progress.events),
            final_segments: progress.final_segments,
            last_interim: progress.last_interim,
            error_body: progress.error_body,
            pending: Seq::empty(),
        }),
{
    let raw = around.0 + line + around.1;
    let origin = Origin { source_index: 0, source_url: Seq::empty(), store_transcripts: false };
    lemma_no_line_feed_around(around.0, line, around.1);
    lemma_one_complete_line(progress, origin, data, raw);
    law_blanks_around_a_line_are_dropped(around.0, line, around.1);
    match json::parsed_bytes(line) {
        Ok(event) => {
            json_laws::law_event_transcript_is_found(event, blank);
            let nothing = Seq::<char>::empty();
            if all_white(blank) {
                assert(blank + nothing + nothing =~= blank);
                text_laws::law_trimmed_is_the_middle(blank, nothing, nothing);
            }
        },
        Err(message) => {
            law_unreadable_line_is_reported(line, message, Seq::empty());
            reveal_strlit("ParseError");
            reveal_strlit("Results");
            assert("ParseError"@[0] != "Results"@[0]);
        },
    }
}

/// The event of a line is what the line parses to. One that does not parse is reported with
/// the parser's message and its length, and nothing else.
pub proof fn law_unreadable_line_is_reported(line: Seq<u8>, message: Seq<char>, key: Seq<char>)
    ensures
        json::parsed_bytes(line) is Err && key != "type"@ && key != "error"@ && key != "raw_bytes"@
            ==> lacks(line_event(line), key),
        json::parsed_bytes(line) is Ok ==> line_event(line) == json::parsed_bytes(line)->Ok_0,
        json::parsed_bytes(line) == Err::<JsonTree, Seq<char>>(message) ==> {
            &&& holds(line_event(line), "type"@, JsonTree::Text("ParseError"@))
            &&& holds(line_event(line), "error"@, JsonTree::Text(message))
            &&& holds(line_event(line), "raw_bytes"@, JsonTree::Number(text::decimal(line.len())))
        },
{
    reveal_strlit("type");
    reveal_strlit("error");
    reveal_strlit("raw_bytes");
    let first = ("type"@, JsonTree::Text("ParseError"@));
    let second = ("error"@, JsonTree::Text(message));
    let third = ("raw_bytes"@, JsonTree::Number(text::decimal(line.len())));
    let nothing = Seq::<(Seq<char>, JsonTree)>::empty();
    assert("type"@[0] != "error"@[0]);
    assert("type"@[0] != "raw_bytes"@[0]);
    assert("error"@[0] != "raw_bytes"@[0]);
    assert(nothing.push(first) + seq![second, third] =~= seq![first, second, third]);
    json_laws::law_last_entry_counts(nothing, "type"@, first.1, seq![second, third]);
    assert(seq![first].push(second) + seq![third] =~= seq![first, second, third]);
    json_laws::law_last_entry_counts(seq![first], "error"@, second.1, seq![third]);
    assert(seq![first, second].push(third) + nothing =~= seq![first, second, third]);
    json_laws::law_last_entry_counts(seq![first, second], "raw_bytes"@, third.1, nothing);
    if let Err(told) = json::parsed_bytes(line) {
        let reported = seq![first, ("error"@, JsonTree::Text(told)), third];
        if key != "type"@ && key != "error"@ && key != "raw_bytes"@ {
            json_laws::law_last_entry_counts(nothing, key, first.1, reported);
        }
    }
}

/// A blank line changes nothing and is not logged.
pub proof fn law_blank_line_adds_nothing(
    progress: Progress,
    origin: Origin,
    data: Seq<u8>,
    blank: Seq<u8>,
)
    requires
        blank_bytes(blank),
        progress.pending + data == blank.push(10),
    ensures
        progress.after_data(data) == (Progress { pending: Seq::empty(), ..progress }),
        line_entries(origin, complete_lines(progress.pending + data)).len() == 0,
{
    let nothing = Seq::<u8>::empty();
    assert(blank + nothing + nothing =~= blank);
    lemma_no_line_feed_around(blank, nothing, nothing);
    lemma_one_complete_line(progress, origin, data, blank);
    law_blanks_around_a_line_are_dropped(blank, nothing, nothing);
    assert(seq![blank].drop_last() =~= Seq::<Seq<u8>>::empty());
    assert(line_entries(origin, Seq::<Seq<u8>>::empty()).len() == 0);
}

/// A line of a failed response is added to its error, behind a line feed where there is
/// something before it, and is not read for a transcript.
pub proof fn law_failed_lines_make_the_error(
    progress: Progress,
    status: u16,
    data: Seq<u8>,
    around: (Seq<u8>, Seq<u8>),
    line: Seq<u8>,
)
    requires
        progress.status == Some(status),
        status < 200 || 299 < status,
        blank_bytes(around.0),
        blank_bytes(around.1),
        bare_line(line),
        progress.pending + data == (around.0 + line + around.1).push(10),
    ensures
        progress.after_data(data) == (Progress {
            status: Some(status),
            events: progress.events,
            final_segments: progress.final_segments,
            last_interim: progress.last_interim,
            error_body: if progress.error_body.len() == 0 {
                line
            } else {
                progress.error_body + seq![10u8] + line
            },
            pending: Seq::empty(),
        }),
{
    let raw = around.0 + line + around.1;
    let origin = Origin { source_index: 0, source_url: Seq::empty(), store_transcripts: false };
    lemma_no_line_feed_around(around.0, line, around.1);
    lemma_one_complete_line(progress, origin, data, raw);
    law_blanks_around_a_line_are_dropped(around.0, line, around.1);
    assert(progress.error_body.push(10) =~= progress.error_body + seq![10u8]);
}

/// Bytes without a line feed are held back and change nothing else; at its end a response has
/// come to what a last line feed would have led to.
pub proof fn law_open_line_waits(progress: Progress, origin: Origin, data: Seq<u8>)
    requires
        !progress.pending.contains(10),
        !data.contains(10),
    ensures
        progress.after_data(data) == (Progress { pending: progress.pending + data, ..progress }),
        line_entries(origin, complete_lines(progress.pending + data)).len() == 0,
        progress.after_end() == progress.after_data(seq![10u8]),
{
    let stream = progress.pending + data;
    assert forall|i: int| 0 <= i < stream.len() implies stream[i] != 10 by {
        if i < progress.pending.len() {
            assert(progress.pending.contains(progress.pending[i]));
        } else {
            assert(data.contains(data[i - progress.pending.len()]));
        }
    }
    lemma_no_line_feed(stream);
    assert(progress.after_lines(Seq::<Seq<u8>>::empty()) == progress);
    assert(progress.pending + seq![10u8] =~= progress.pending.push(10));
    lemma_one_complete_line(progress, origin, seq![10u8], progress.pending);
}

/// A line that is not blank is logged once, with its event and with a line that holds the
/// position and the address of its source. Where transcripts are kept, the line holds the event
/// as it came.
pub proof fn law_every_line_is_logged(
    progress: Progress,
    origin: Origin,
    data: Seq<u8>,
    around: (Seq<u8>, Seq<u8>),
    line: Seq<u8>,
) -> (logged: JsonTree)
    requires
        blank_bytes(around.0),
        blank_bytes(around.1),
        bare_line(line),
        progress.pending + data == (around.0 + line + around.1).push(10),
    ensures
        line_entries(origin, complete_lines(progress.pending + data)) == seq![
            (json::written_text(logged), line_event(line)),
        ],
        holds(
            logged,
            "source_index"@,
            JsonTree::Number(text::decimal(origin.source_index)),
        ),
        holds(logged, "source_url"@, JsonTree::Text(origin.source_url)),
        forall|key: Seq<char>|
            key != "source_index"@ && key != "source_url"@ && key != "event"@ ==> #[trigger] lacks(
                logged,
                key,
            ),
        origin.store_transcripts ==> holds(logged, "event"@, line_event(line)),
        holds(logged, "event"@, recorded(line_event(line), origin.store_transcripts)),
{
    let raw = around.0 + line + around.1;
    lemma_no_line_feed_around(around.0, line, around.1);
    lemma_one_complete_line(progress, origin, data, raw);
    law_blanks_around_a_line_are_dropped(around.0, line, around.1);
    let event = recorded(line_event(line), origin.store_transcripts);
    let logged = log_entry(origin, event);
    law_log_entry(origin, event, Seq::empty());
    assert forall|key: Seq<char>|
        key != "source_index"@ && key != "source_url"@ && key
            != "event"@ implies #[trigger] lacks(logged, key) by {
        law_log_entry(origin, event, key);
    }
    assert(seq![raw].drop_last() =~= Seq::<Seq<u8>>::empty());
    let none = line_entries(origin, Seq::<Seq<u8>>::empty());
    assert(none =~= Seq::empty());
    assert(line_entries(origin, seq![raw]) =~= seq![
        (json::written_text(logged), line_event(line)),
    ]);
    logged
}

/// An entry of the log has the position and the address of the source and the event, and nothing
/// else.
pub proof fn law_log_entry(origin: Origin, event: JsonTree, key: Seq<char>)
    ensures
        key != "source_index"@ && key != "source_url"@ && key != "event"@ ==> lacks(
            log_entry(origin, event),
            key,
        ),
        holds(
            log_entry(origin, event),
            "source_index"@,
            JsonTree::Number(text::decimal(origin.source_index)),
        ),
        holds(log_entry(origin, event), "source_url"@, JsonTree::Text(origin.source_url)),
        holds(log_entry(origin, event), "event"@, event),
{
    reveal_strlit("source_index");
    reveal_strlit("source_url");
    reveal_strlit("event");
    let first = ("source_index"@, JsonTree::Number(text::decimal(origin.source_index)));
    let second = ("source_url"@, JsonTree::Text(origin.source_url));
    let third = ("event"@, event);
    let nothing = Seq::<(Seq<char>, JsonTree)>::empty();
    assert("source_index"@.len() != "source_url"@.len());
    assert("source_index"@[0] != "event"@[0]);
    assert("source_url"@[0] != "event"@[0]);
    assert(nothing.push(first) + seq![second, third] =~= seq![first, second, third]);
    json_laws::law_last_entry_counts(nothing, first.0, first.1, seq![second, third]);
    assert(seq![first].push(second) + seq![third] =~= seq![first, second, third]);
    json_laws::law_last_entry_counts(seq![first], second.0, second.1, seq![third]);
    assert(seq![first, second].push(third) + nothing =~= seq![first, second, third]);
    json_laws::law_last_entry_counts(seq![first, second], third.0, third.1, nothing);
    if key != first.0 && key != second.0 && key != third.0 {
        json_laws::law_last_entry_counts(nothing, key, first.1, seq![first, second, third]);
    }
}

/// The head of a response is logged with its status and with its media type where it has one, and
/// with nothing else.
pub proof fn law_head_is_logged(status: u16, content_type: Option<Seq<char>>, key: Seq<char>)
    ensures
        key != "type"@ && key != "status"@ && key != "content_type"@ ==> lacks(
            head_event(status, content_type),
            key,
        ),
        holds(head_event(status, content_type), "type"@, JsonTree::Text("ResponseHead"@)),
        holds(
            head_event(status, content_type),
            "status"@,
            JsonTree::Number(text::decimal(status as nat)),
        ),
        content_type is Some ==> holds(
            head_event(status, content_type),
            "content_type"@,
            JsonTree::Text(content_type->0),
        ),
        content_type is None ==> holds(
            head_event(status, content_type),
            "content_type"@,
            JsonTree::Null,
        ),
{
    reveal_strlit("type");
    reveal_strlit("status");
    reveal_strlit("content_type");
    let first = ("type"@, JsonTree::Text("ResponseHead"@));
    let second = ("status"@, JsonTree::Number(text::decimal(status as nat)));
    let third = (
        "content_type"@,
        match content_type {
            Some(value) => JsonTree::Text(value),
            None => JsonTree::Null,
        },
    );
    let nothing = Seq::<(Seq<char>, JsonTree)>::empty();
    let members = seq![
        ("type"@, JsonTree::Text("ResponseHead"@)),
        ("status"@, JsonTree::Number(text::decimal(status as nat))),
        (
            "content_type"@,
            match content_type {
                Some(value) => JsonTree::Text(value),
                None => JsonTree::Null,
            },
        ),
    ];
    assert(members =~= seq![first, second, third]);
    assert(head_event(status, content_type) == JsonTree::Object(json::collected(members)));
    assert("type"@[0] != "status"@[0]);
    assert("type"@[0] != "content_type"@[0]);
    assert("status"@[0] != "content_type"@[0]);
    assert(nothing.push(first) + seq![second, third] =~= seq![first, second, third]);
    json_laws::law_last_entry_counts(nothing, first.0, first.1, seq![second, third]);
    assert(seq![first].push(second) + seq![third] =~= seq![first, second, third]);
    json_laws::law_last_entry_counts(seq![first], second.0, second.1, seq![third]);
    assert(seq![first, second].push(third) + nothing =~= seq![first, second, third]);
    json_laws::law_last_entry_counts(seq![first, second], third.0, third.1, nothing);
    if key != first.0 && key != second.0 && key != third.0 {
        json_laws::law_last_entry_counts(nothing, key, first.1, seq![first, second, third]);
    }
}

/// The transcript of a response of success is the only final segment as it stands, or all of
/// them with a space between each and the next. The errors are those of a response that has
/// no head, has failed or has said nothing.
pub proof fn law_transcript_is_whole(
    progress: Progress,
    status: u16,
    segments: Seq<Seq<char>>,
    segment: Seq<char>,
    allow_empty: bool,
)
    requires
        forall|i: int| 0 <= i < segments.len() ==> text::clean(#[trigger] segments[i]),
        text::clean(segment),
        progress.status == Some(status),
        200 <= status <= 299,
    ensures
        progress.final_segments == seq![segment] ==> progress.transcript(allow_empty) == Ok::<
            Seq<char>,
            TranscriptFault,
        >(segment),
        segments.len() > 0 ==> (Progress {
            final_segments: segments.push(segment),
            ..progress
        }).transcript(allow_empty) == Ok::<Seq<char>, TranscriptFault>(
            (Progress { final_segments: segments, ..progress }).transcript(allow_empty)->Ok_0
                + seq![' '] + segment,
        ),
        progress.final_segments.len() == 0 && progress.last_interim == Some(segment)
            ==> progress.transcript(allow_empty) == Ok::<Seq<char>, TranscriptFault>(segment),
        progress.final_segments.len() == 0 && progress.last_interim is None
            ==> progress.transcript(allow_empty) == if allow_empty {
            Ok::<Seq<char>, TranscriptFault>(Seq::empty())
        } else {
            Err::<Seq<char>, TranscriptFault>(TranscriptFault::NoTranscript(progress.events))
        },
{
    reveal_strlit(" ");
    assert(" "@ =~= seq![' ']);
    text_laws::law_joined_splits(seq![segment], seq![segment], " "@, segment);
    text::lemma_clean_is_trimmed(segment);
    if segments.len() > 0 {
        let longer = segments.push(segment);
        assert forall|i: int| 0 <= i < longer.len() implies text::clean(#[trigger] longer[i]) by {
            if i < segments.len() {
                assert(longer[i] == segments[i]);
            }
        }
        text_laws::law_joined_splits(segments, seq![segment], " "@, segment);
        assert(longer =~= segments + seq![segment]);
        text::lemma_joined_is_clean(segments, " "@);
        text::lemma_joined_is_clean(longer, " "@);
        text::lemma_clean_is_trimmed(text::joined(segments, " "@));
        text::lemma_clean_is_trimmed(text::joined(longer, " "@));
    }
    if progress.final_segments.len() == 0 {
        assert(text::joined(progress.final_segments, " "@) =~= Seq::empty());
    }
}

/// A response of success with one line, complete or not, that holds a final result has that
/// result's transcript, whole and without the white space around it.
pub proof fn law_response_of_one_result(
    status: u16,
    around: (Seq<u8>, Seq<u8>),
    line: Seq<u8>,
    event: JsonTree,
    before: Seq<char>,
    transcript: Seq<char>,
    after: Seq<char>,
    allow_empty: bool,
)
    requires
        200 <= status <= 299,
        blank_bytes(around.0),
        blank_bytes(around.1),
        bare_line(line),
        json::parsed_bytes(line) == Ok::<JsonTree, Seq<char>>(event),
        holds(event, "type"@, JsonTree::Text("Results"@)),
        holds(event, "is_final"@, JsonTree::Bool(true)),
        core_of(before + transcript + after, before, transcript, after),
        event_says(event, before + transcript + after),
    ensures
        ({
            let start = Progress { status: Some(status), ..Progress::fresh() };
            let raw = around.0 + line + around.1;
            &&& start.after_data(raw.push(10)).transcript(allow_empty) == Ok::<
                Seq<char>,
                TranscriptFault,
            >(transcript)
            &&& start.after_data(raw).after_end().transcript(allow_empty) == Ok::<
                Seq<char>,
                TranscriptFault,
            >(transcript)
        }),
{
    let start = Progress { status: Some(status), ..Progress::fresh() };
    let origin = Origin { source_index: 0, source_url: Seq::empty(), store_transcripts: false };
    let raw = around.0 + line + around.1;
    let nothing = Seq::<u8>::empty();
    assert(start.pending + raw.push(10) =~= raw.push(10));
    law_final_transcript_is_kept_whole(
        start,
        raw.push(10),
        around,
        line,
        event,
        before,
        transcript,
        after,
    );
    let reached = start.after_data(raw.push(10));
    assert(reached.final_segments =~= seq![transcript]);
    law_transcript_is_whole(reached, status, Seq::empty(), transcript, allow_empty);
    lemma_no_line_feed_around(around.0, line, around.1);
    law_open_line_waits(start, origin, raw);
    let open = start.after_data(raw);
    assert(start.pending + raw =~= raw);
    law_open_line_waits(open, origin, nothing);
    assert(raw + seq![10u8] =~= raw.push(10));
    crate::progress::law_chunking_does_not_matter(start, origin, raw, seq![10u8]);
}

/// A response without a head says so, and one that has failed gives its status and its error.
pub proof fn law_transcript_errors(progress: Progress, allow_empty: bool)
    ensures
        progress.status is None ==> progress.transcript(allow_empty) == Err::<
            Seq<char>,
            TranscriptFault,
        >(TranscriptFault::NoResponseHead),
        match progress.status {
            Some(status) => status < 200 || 299 < status ==> progress.transcript(allow_empty)
                == Err::<Seq<char>, TranscriptFault>(
                TranscriptFault::Failed(status, text::lossy_text(progress.error_body)),
            ),
            None => true,
        },
        Progress::fresh() == (Progress {
            status: None,
            events: 0,
            final_segments: Seq::empty(),
            last_interim: None,
            error_body: Seq::empty(),
            pending: Seq::empty(),
        }),
{
}

/// A preview is the transcript itself up to 220 characters, and otherwise its first 220 with
/// three dots behind them.
pub proof fn law_preview(transcript: Seq<char>, more: Seq<char>)
    ensures
        transcript.len() <= 220 ==> preview(transcript) == transcript,
        transcript.len() == 220 && more.len() > 0 ==> preview(transcript + more) == transcript
            + seq!['.', '.', '.'],
{
    reveal_strlit("...");
    assert("..."@ =~= seq!['.', '.', '.']);
    assert((transcript + more).take(transcript.len() as int) =~= transcript);
}

/// An event is recorded as it came where transcripts are kept, and so is a value that is no
/// object.
pub proof fn law_kept_event_is_unchanged(event: JsonTree)
    ensures
        recorded(event, true) == event,
        !(event is Object) ==> recorded(event, false) == event,
{
}

/// Whether a document has a string under this key.
pub open spec fn has_text(document: JsonTree, key: Seq<char>) -> bool {
    &&& document matches JsonTree::Object(members)
    &&& members.dom().contains(key)
    &&& members[key] is Text
}

/// Whether a document has a list under this key.
pub open spec fn has_list(document: JsonTree, key: Seq<char>) -> bool {
    &&& document matches JsonTree::Object(members)
    &&& members.dom().contains(key)
    &&& members[key] is Array
}

/// Where transcripts are not kept, an alternative is recorded with the number of characters of
/// its transcript and with the number of its words, which is that of its word list or else of its
/// transcript, and with no text.
pub proof fn law_record_counts_the_text(
    event: JsonTree,
    path: Seq<Seq<char>>,
    alternative: JsonTree,
    transcript: Seq<char>,
    words: Seq<JsonTree>,
) -> (kept: JsonTree)
    requires
        is_alternative_path(path),
        event.at(path) == Some(alternative),
        alternative is Object,
    ensures
        recorded(event, false).at(path) == Some(kept),
        kept is Object,
        lacks(kept, "transcript"@),
        lacks(kept, "words"@),
        lacks(kept, "paragraphs"@),
        holds(alternative, "transcript"@, JsonTree::Text(transcript)) ==> holds(
            kept,
            "transcript_chars"@,
            JsonTree::Number(text::decimal(transcript.len())),
        ),
        !has_text(alternative, "transcript"@) ==> holds(
            kept,
            "transcript_chars"@,
            JsonTree::Number(text::decimal(0)),
        ),
        holds(alternative, "words"@, JsonTree::Array(words)) ==> holds(
            kept,
            "transcript_words"@,
            JsonTree::Number(text::decimal(words.len())),
        ),
        !has_list(alternative, "words"@) && holds(
            alternative,
            "transcript"@,
            JsonTree::Text(transcript),
        ) ==> holds(
            kept,
            "transcript_words"@,
            JsonTree::Number(text::decimal(text::word_count(transcript))),
        ),
        !has_list(alternative, "words"@) && !has_text(alternative, "transcript"@) ==> holds(
            kept,
            "transcript_words"@,
            JsonTree::Number(text::decimal(0)),
        ),
{
    lemma_redacted_at_pointer(event, path);
    reveal_strlit("transcript");
    reveal_strlit("words");
    reveal_strlit("paragraphs");
    reveal_strlit("transcript_chars");
    reveal_strlit("transcript_words");
    assert("transcript"@.len() == 10 && "words"@.len() == 5 && "paragraphs"@.len() == 10);
    assert("transcript_chars"@.len() == 16 && "transcript_words"@.len() == 16);
    assert("transcript_chars"@[11] != "transcript_words"@[11]);
    recorded(event, false).at(path)->0
}

/// Where transcripts are not kept, what is not laid out as an event with alternatives is recorded
/// as it came: a channel or results that are no object, alternatives that are no list or object,
/// and a channel without alternatives.
pub proof fn law_record_leaves_other_shapes(
    event: JsonTree,
    members: Map<Seq<char>, JsonTree>,
    channel: Map<Seq<char>, JsonTree>,
)
    requires
        event == JsonTree::Object(members),
    ensures
        ({
            let kept = recorded(event, false);
            let found = members["channel"@];
            &&& kept is Object
            &&& members.dom().contains("channel"@) && !(found is Object) ==> holds(
                kept,
                "channel"@,
                found,
            )
            &&& members.dom().contains("results"@) && !(members["results"@] is Object) ==> holds(
                kept,
                "results"@,
                members["results"@],
            )
            &&& members.dom().contains("channel"@) && found == JsonTree::Object(channel)
                && lacks(found, "alternatives"@) ==> holds(kept, "channel"@, found)
            &&& members.dom().contains("channel"@) && found == JsonTree::Object(channel)
                && channel.dom().contains("alternatives"@) && !(channel["alternatives"@] is Array)
                && !(channel["alternatives"@] is Object) ==> holds(kept, "channel"@, found)
        }),
{
    reveal_strlit("channel");
    reveal_strlit("results");
    reveal_strlit("utterances");
    assert("channel"@[0] != "results"@[0]);
    assert("channel"@.len() != "utterances"@.len() && "results"@.len() != "utterances"@.len());
    if channel.dom().contains("alternatives"@) {
        assert(channel.insert("alternatives"@, channel["alternatives"@]) =~= channel);
    }
}

} // verus!
