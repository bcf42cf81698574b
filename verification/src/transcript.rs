//! Transcripts of speech-recognition responses.

use crate::json::{self, Json, JsonTree};
use crate::text::{self, chars_of, join, split_lines, string_of, text_of_bytes, trim};
use vstd::prelude::*;
use vstd::utf8::{decode_utf8, valid_utf8};

verus! {

/// Where a streaming result holds its transcript.
pub open spec fn streaming_path() -> Seq<Seq<char>> {
    seq!["channel"@, "alternatives"@, "0"@, "transcript"@]
}

/// Where a complete response holds its transcript.
pub open spec fn complete_path() -> Seq<Seq<char>> {
    seq!["results"@, "channels"@, "0"@, "alternatives"@, "0"@, "transcript"@]
}

/// The transcript of a response event, without the white space around it. An event without
/// a transcript has an empty one.
pub open spec fn event_transcript(event: JsonTree) -> Seq<char> {
    match json::text_at(event, streaming_path()) {
        Some(transcript) => text::trimmed(transcript),
        None => match json::text_at(event, complete_path()) {
            Some(transcript) => text::trimmed(transcript),
            None => Seq::empty(),
        },
    }
}

/// Whether a response event is final. One that does not say so is.
pub open spec fn event_is_final(event: JsonTree) -> bool {
    match event.member("is_final"@) {
        Some(value) => match value.flag() {
            Some(flag) => flag,
            None => true,
        },
        None => true,
    }
}

/// The transcripts, in order and without the empty ones, of the events that are final or
/// of those that are not.
pub open spec fn segments(events: Seq<JsonTree>, is_final: bool) -> Seq<Seq<char>>
    decreases events.len(),
{
    if events.len() == 0 {
        Seq::empty()
    } else {
        let before = segments(events.drop_last(), is_final);
        let transcript = event_transcript(events.last());
        if transcript.len() > 0 && event_is_final(events.last()) == is_final {
            before.push(transcript)
        } else {
            before
        }
    }
}

/// The transcript of a response: its final segments, or else its interim ones, joined by
/// spaces. A response without any segment has none.
pub open spec fn response_transcript(events: Seq<JsonTree>) -> Option<Seq<char>> {
    if segments(events, true).len() > 0 {
        Some(text::joined(segments(events, true), " "@))
    } else if segments(events, false).len() > 0 {
        Some(text::joined(segments(events, false), " "@))
    } else {
        None
    }
}

/// The events of a response's lines: those of the lines that parse, in order.
pub open spec fn events_of_lines(lines: Seq<Seq<char>>) -> Seq<JsonTree>
    decreases lines.len(),
{
    if lines.len() == 0 {
        Seq::empty()
    } else {
        let before = events_of_lines(lines.drop_last());
        let line = text::trimmed(lines.last());
        if line.len() == 0 {
            before
        } else {
            match json::parsed_text(line) {
                Ok(event) => before.push(event),
                Err(_) => before,
            }
        }
    }
}

/// What the parser says of the lines of a response that are neither blank nor JSON documents, in
/// order.
pub open spec fn faults_of_lines(lines: Seq<Seq<char>>) -> Seq<Seq<char>>
    decreases lines.len(),
{
    if lines.len() == 0 {
        Seq::empty()
    } else {
        let before = faults_of_lines(lines.drop_last());
        let line = text::trimmed(lines.last());
        if line.len() == 0 {
            before
        } else {
            match json::parsed_text(line) {
                Ok(_) => before,
                Err(message) => before.push(message),
            }
        }
    }
}

/// The text at a pointer into a document.
fn text_pointed_at<'a>(document: &'a Json, path: &[&str]) -> (found: Option<&'a String>)
    ensures
        match found {
            Some(value) => json::text_at(document@, json::tokens(path@)) == Some(value@),
            None => json::text_at(document@, json::tokens(path@)) is None,
        },
{
    match document.pointer(path) {
        Some(value) => value.as_text(),
        None => None,
    }
}

/// The trimmed transcript of a streaming result, where it has one.
pub(crate) fn streaming_transcript(event: &Json) -> (transcript: Option<String>)
    ensures
        match transcript {
            Some(found) => json::text_at(event@, streaming_path()) is Some && found@
                == text::trimmed(json::text_at(event@, streaming_path())->0),
            None => json::text_at(event@, streaming_path()) is None,
        },
{
    let path: [&str; 4] = ["channel", "alternatives", "0", "transcript"];
    assert(json::tokens(path@) =~= streaming_path());
    match text_pointed_at(event, &path) {
        Some(found) => Some(string_of(trim(chars_of(found.as_str()).as_slice()))),
        None => None,
    }
}

fn transcript_of_event(event: &Json) -> (transcript: String)
    ensures
        transcript@ == event_transcript(event@),
{
    match streaming_transcript(event) {
        Some(found) => found,
        None => {
            let path: [&str; 6] = ["results", "channels", "0", "alternatives", "0", "transcript"];
            assert(json::tokens(path@) =~= complete_path());
            match text_pointed_at(event, &path) {
                Some(found) => string_of(trim(chars_of(found.as_str()).as_slice())),
                None => String::new(),
            }
        },
    }
}

/// The boolean of an object's key, or else `fallback`.
pub(crate) fn flag_or(event: &Json, key: &str, fallback: bool) -> (flag: bool)
    ensures
        flag == match event@.member(key@) {
            Some(value) => match value.flag() {
                Some(found) => found,
                None => fallback,
            },
            None => fallback,
        },
{
    match event.get(key) {
        Some(value) => match value.as_flag() {
            Some(found) => found,
            None => fallback,
        },
        None => fallback,
    }
}

/// Puts the transcript of a response together from its events.
pub fn transcript_of_events(events: &Vec<Json>) -> (transcript: Option<String>)
    ensures
        match transcript {
            Some(found) => response_transcript(json::item_trees(events@)) == Some(found@),
            None => response_transcript(json::item_trees(events@)) is None,
        },
{
    let ghost trees = json::item_trees(events@);
    let mut final_segments: Vec<String> = Vec::new();
    let mut interim_segments: Vec<String> = Vec::new();
    assert(text::texts(final_segments@) =~= segments(trees.take(0), true));
    assert(text::texts(interim_segments@) =~= segments(trees.take(0), false));
    for i in 0..events.len()
        invariant
            trees == json::item_trees(events@),
            text::texts(final_segments@) == segments(trees.take(i as int), true),
            text::texts(interim_segments@) == segments(trees.take(i as int), false),
    {
        assert(trees.take(i + 1).drop_last() =~= trees.take(i as int));
        assert(trees.take(i + 1).last() == events@[i as int]@);
        let transcript = transcript_of_event(&events[i]);
        if !transcript.as_str().is_empty() {
            if flag_or(&events[i], "is_final", true) {
                let ghost before = final_segments@;
                final_segments.push(transcript);
                assert(text::texts(final_segments@) =~= text::texts(before).push(transcript@));
            } else {
                let ghost before = interim_segments@;
                interim_segments.push(transcript);
                assert(text::texts(interim_segments@) =~= text::texts(before).push(transcript@));
            }
        }
    }
    assert(trees.take(trees.len() as int) =~= trees);
    assert(text::texts(final_segments@).len() == final_segments@.len());
    assert(text::texts(interim_segments@).len() == interim_segments@.len());
    if final_segments.len() > 0 {
        Some(join(&final_segments, " "))
    } else if interim_segments.len() > 0 {
        Some(join(&interim_segments, " "))
    } else {
        None
    }
}

/// The lines of a response: the events of those that parse, and what the parser says of the
/// others.
#[derive(Debug, PartialEq)]
pub struct ResponseLines {
    pub events: Vec<Json>,
    pub faults: Vec<String>,
}

/// Parses the lines of a response, of which each is an event.
pub fn parse_response(body: &str) -> (parsed: ResponseLines)
    ensures
        json::item_trees(parsed.events@) == events_of_lines(text::lines(body@)),
        text::texts(parsed.faults@) == faults_of_lines(text::lines(body@)),
{
    let found = split_lines(chars_of(body).as_slice());
    let ghost all = text::lines(body@);
    let mut events: Vec<Json> = Vec::new();
    let mut faults: Vec<String> = Vec::new();
    assert(json::item_trees(events@) =~= events_of_lines(all.take(0)));
    assert(text::texts(faults@) =~= faults_of_lines(all.take(0)));
    for i in 0..found.len()
        invariant
            all == text::runs(found@),
            json::item_trees(events@) == events_of_lines(all.take(i as int)),
            text::texts(faults@) == faults_of_lines(all.take(i as int)),
    {
        let line = trim(found[i].as_slice());
        assert(all[i as int] == found@[i as int]@);
        assert(all.take(i + 1).drop_last() =~= all.take(i as int));
        if line.len() > 0 {
            match Json::parse(string_of(line).as_str()) {
                Ok(event) => {
                    let ghost before = events@;
                    events.push(event);
                    assert(json::item_trees(events@) =~= json::item_trees(before).push(event@));
                },
                Err(message) => {
                    let ghost before = faults@;
                    faults.push(message);
                    assert(text::texts(faults@) =~= text::texts(before).push(message@));
                },
            }
        }
    }
    assert(all.take(all.len() as int) =~= all);
    ResponseLines { events, faults }
}

/// Parses the events of a response, one per line. Lines that do not parse are left out.
pub fn events_of_response(body: &str) -> (events: Vec<Json>)
    ensures
        json::item_trees(events@) == events_of_lines(text::lines(body@)),
{
    parse_response(body).events
}

/// What the body of a response holds: its transcript, and what the parser says of its lines that
/// are no events.
#[derive(Debug, PartialEq, Eq)]
pub struct ReadResponse {
    pub transcript: Option<String>,
    pub faults: Vec<String>,
}

/// Reads the body of a response, one JSON event per line.
pub fn read_response(body: &[u8]) -> (response: ReadResponse)
    ensures
        match response.transcript {
            Some(found) => response_transcript(
                events_of_lines(text::lines(text::lossy_text(body@))),
            ) == Some(found@),
            None => response_transcript(
                events_of_lines(text::lines(text::lossy_text(body@))),
            ) is None,
        },
        text::texts(response.faults@) == faults_of_lines(
            text::lines(text::lossy_text(body@)),
        ),
        valid_utf8(body@) ==> text::lossy_text(body@) == decode_utf8(body@),
{
    let text = text_of_bytes(body);
    let parsed = parse_response(text.as_str());
    ReadResponse { transcript: transcript_of_events(&parsed.events), faults: parsed.faults }
}

/// Reads the transcript out of the body of a response, one JSON event per line.
pub fn extract_asr_transcript(body: &[u8]) -> (transcript: Option<String>)
    ensures
        match transcript {
            Some(found) => response_transcript(
                events_of_lines(text::lines(text::lossy_text(body@))),
            ) == Some(found@),
            None => response_transcript(
                events_of_lines(text::lines(text::lossy_text(body@))),
            ) is None,
        },
        valid_utf8(body@) ==> match transcript {
            Some(found) => response_transcript(
                events_of_lines(text::lines(decode_utf8(body@))),
            ) == Some(found@),
            None => response_transcript(events_of_lines(text::lines(decode_utf8(body@)))) is None,
        },
{
    read_response(body).transcript
}

/// Whether a line of a response tells of nothing: it is blank or no JSON document.
pub open spec fn tells_nothing(line: Seq<char>) -> bool {
    text::trimmed(line).len() == 0 || json::parsed_text(text::trimmed(line)) is Err
}

proof fn lemma_events_add_up(first: Seq<Seq<char>>, second: Seq<Seq<char>>)
    ensures
        events_of_lines(first + second) == events_of_lines(first) + events_of_lines(second),
    decreases second.len(),
{
    if second.len() == 0 {
        assert(first + second =~= first);
        assert(events_of_lines(first) + events_of_lines(second) =~= events_of_lines(first));
    } else {
        lemma_events_add_up(first, second.drop_last());
        assert((first + second).drop_last() =~= first + second.drop_last());
        assert(events_of_lines(first + second) =~= events_of_lines(first) + events_of_lines(
            second,
        ));
    }
}

/// A line that is blank or no JSON document does not change the transcript of a response,
/// wherever it stands.
pub proof fn law_unreadable_line_is_passed_over(
    first: Seq<Seq<char>>,
    line: Seq<char>,
    second: Seq<Seq<char>>,
)
    requires
        tells_nothing(line),
    ensures
        response_transcript(events_of_lines(first.push(line) + second)) == response_transcript(
            events_of_lines(first + second),
        ),
{
    lemma_events_add_up(first.push(line), second);
    lemma_events_add_up(first, second);
    assert(first.push(line).drop_last() =~= first);
}

proof fn lemma_segments_are_clean(events: Seq<JsonTree>, is_final: bool, at: int)
    requires
        0 <= at < segments(events, is_final).len(),
    ensures
        text::clean(segments(events, is_final)[at]),
    decreases events.len(),
{
    let before = segments(events.drop_last(), is_final);
    if at < before.len() {
        lemma_segments_are_clean(events.drop_last(), is_final, at);
    } else {
        if let Some(transcript) = json::text_at(events.last(), streaming_path()) {
            text::lemma_trimmed_is_clean(transcript);
        } else if let Some(transcript) = json::text_at(events.last(), complete_path()) {
            text::lemma_trimmed_is_clean(transcript);
        }
    }
}

/// A transcript is never blank and has no white space around it. Interim segments do not get
/// into the transcript of a response that has a final one.
pub proof fn law_transcript_is_clean(events: Seq<JsonTree>)
    ensures
        match response_transcript(events) {
            Some(transcript) => text::clean(transcript),
            None => segments(events, true).len() == 0 && segments(events, false).len() == 0,
        },
        segments(events, true).len() > 0 ==> response_transcript(events) == Some(
            text::joined(segments(events, true), " "@),
        ),
{
    if response_transcript(events) is Some {
        let is_final = segments(events, true).len() > 0;
        let parts = segments(events, is_final);
        assert forall|i: int| 0 <= i < parts.len() implies text::clean(#[trigger] parts[i]) by {
            lemma_segments_are_clean(events, is_final, i);
        }
        text::lemma_joined_is_clean(parts, " "@);
    }
}

} // verus!
