use media_research_stack::json::Json;
use media_research_stack::progress::{
    progress_event, transcript_preview, trim_ascii, ProgressLog, TranscriptError,
};

fn result(transcript: &str, is_final: bool) -> String {
    format!(
        "{{\"type\":\"Results\",\"is_final\":{is_final},\"channel\":{{\"alternatives\":[{{\"transcript\":\"{transcript}\"}}]}}}}"
    )
}

#[test]
fn redacts_transcript_text_from_progress_by_default() {
    let event = Json::parse(
        "{
            \"type\": \"Results\",
            \"channel\": {
                \"alternatives\": [{
                    \"transcript\": \"one two three\",
                    \"words\": [{\"word\": \"one\"}, {\"word\": \"two\"}, {\"word\": \"three\"}],
                    \"paragraphs\": {\"transcript\": \"one two three\"}
                }]
            },
            \"utterances\": [{\"transcript\": \"one two three\"}]
        }",
    )
    .unwrap();

    let redacted = progress_event(&event, false);
    let alternative = redacted.pointer(&["channel", "alternatives", "0"]).unwrap();
    assert!(matches!(alternative, Json::Object(_)));
    assert!(alternative.get("transcript").is_none());
    assert!(alternative.get("words").is_none());
    assert!(alternative.get("paragraphs").is_none());
    assert_eq!(alternative.get("transcript_chars"), Some(&Json::count(13)));
    assert_eq!(alternative.get("transcript_words"), Some(&Json::count(3)));
    assert!(redacted.get("utterances").is_none());
}

#[test]
fn preserves_transcript_text_when_explicitly_enabled() {
    let event = Json::parse(
        "{\"type\": \"Results\", \"channel\": {\"alternatives\": [{\"transcript\": \"owned recording\"}]}}",
    )
    .unwrap();
    assert_eq!(progress_event(&event, true), event);
}

#[test]
fn retains_an_empty_successful_transcript_when_allowed() {
    let mut log = ProgressLog::new(0, "https://example.com/a", false);
    log.send_response(200, None);
    assert!(log.transcript(false).is_err());
    assert_eq!(log.transcript(true).unwrap(), "");
}

#[test]
fn words_are_counted_where_they_are_not_listed() {
    let event = Json::parse(
        "{\"channel\":{\"alternatives\":[{\"transcript\":\" a  b \",\"words\":7}]},\"start\":1.5}",
    )
    .unwrap();
    assert_eq!(
        progress_event(&event, false).to_line(),
        "{\"channel\":{\"alternatives\":[{\"transcript_chars\":6,\"transcript_words\":2}]},\"start\":1.5}"
    );
}

#[test]
fn every_alternative_is_redacted() {
    let event = Json::parse(
        "{\"channel\":{\"alternatives\":[{\"transcript\":\"secret one\",\"confidence\":0.5},{\"transcript\":\"secret\",\"words\":[1,2]},\"x\"],\"n\":1},\"duration\":2.5}",
    )
    .unwrap();
    assert_eq!(
        progress_event(&event, false).to_line(),
        "{\"channel\":{\"alternatives\":[{\"confidence\":0.5,\"transcript_chars\":10,\"transcript_words\":2},{\"transcript_chars\":6,\"transcript_words\":2},\"x\"],\"n\":1},\"duration\":2.5}"
    );
    let keyed = Json::parse("{\"channel\":{\"alternatives\":{\"0\":{\"transcript\":\"a\"}}}}").unwrap();
    assert_eq!(
        progress_event(&keyed, false).to_line(),
        "{\"channel\":{\"alternatives\":{\"0\":{\"transcript_chars\":1,\"transcript_words\":1}}}}"
    );
}

#[test]
fn complete_responses_are_redacted() {
    let event = Json::parse(
        "{\"metadata\":{\"id\":7},\"results\":{\"channels\":[{\"alternatives\":[{\"transcript\":\"secret one\",\"paragraphs\":{\"transcript\":\"secret one\"}}]},{\"alternatives\":[{\"transcript\":\"secret\"},{\"transcript\":\"secret\"}],\"detected_language\":\"en\"}],\"utterances\":[{\"transcript\":\"secret\"}],\"kept\":true}}",
    )
    .unwrap();
    assert_eq!(
        progress_event(&event, false).to_line(),
        "{\"metadata\":{\"id\":7},\"results\":{\"channels\":[{\"alternatives\":[{\"transcript_chars\":10,\"transcript_words\":2}]},{\"alternatives\":[{\"transcript_chars\":6,\"transcript_words\":1},{\"transcript_chars\":6,\"transcript_words\":1}],\"detected_language\":\"en\"}],\"kept\":true}}"
    );
    assert_eq!(progress_event(&event, true), event);
}

#[test]
fn events_without_alternatives_are_kept() {
    for text in ["{\"type\":\"Metadata\"}", "[1,2]", "\"x\"", "{\"channel\":{\"alternatives\":[]}}", "{\"channel\":{\"alternatives\":[3]}}", "{\"channel\":[{\"alternatives\":1}],\"results\":null}"] {
        let event = Json::parse(text).unwrap();
        assert_eq!(progress_event(&event, false).to_line(), text);
    }
}

#[test]
fn records_do_not_depend_on_the_text() {
    let record = |text: &str| {
        progress_event(&Json::parse(&result(text, true)).unwrap(), false).to_line()
    };
    assert_eq!(record("ab cd"), record("xy zw"));
    assert_ne!(record("ab cd"), record("xy zwz"));
}

#[test]
fn records_do_not_depend_on_the_utterances() {
    let record = |text: &str| progress_event(&Json::parse(text).unwrap(), false).to_line();
    assert_eq!(
        record("{\"type\":\"Results\",\"utterances\":[\"secret\"]}"),
        record("{\"type\":\"Results\"}")
    );
}

#[test]
fn log_records_the_head() {
    let mut log = ProgressLog::new(3, "https://example.com/a", false);
    assert_eq!(
        log.send_response(200, Some("application/json".to_string())),
        "{\"event\":{\"content_type\":\"application/json\",\"status\":200,\"type\":\"ResponseHead\"},\"source_index\":3,\"source_url\":\"https://example.com/a\"}"
    );
    assert_eq!(
        log.send_response(500, None),
        "{\"event\":{\"content_type\":null,\"status\":500,\"type\":\"ResponseHead\"},\"source_index\":3,\"source_url\":\"https://example.com/a\"}"
    );
}

#[test]
fn log_records_each_line() {
    let mut log = ProgressLog::new(0, "u", false);
    log.send_response(200, None);
    let data = format!("{}\r\n \t\n{}\nrest", result("one two", true), "{\"type\":\"Metadata\"}");
    let entries = log.send_data(data.as_bytes());
    assert_eq!(entries.len(), 2);
    assert_eq!(
        entries[0].line,
        "{\"event\":{\"channel\":{\"alternatives\":[{\"transcript_chars\":7,\"transcript_words\":2}]},\"is_final\":true,\"type\":\"Results\"},\"source_index\":0,\"source_url\":\"u\"}"
    );
    assert_eq!(entries[0].event, Json::parse(&result("one two", true)).unwrap());
    let last = log.finish().unwrap();
    assert_eq!(last.event.get("type"), Some(&Json::string("ParseError")));
    assert_eq!(last.event.get("raw_bytes"), Some(&Json::count(4)));
    assert_eq!(
        last.event.get("error"),
        Some(&Json::string(&Json::parse_bytes(b"rest").unwrap_err()))
    );
    assert_eq!(log.finish(), None);
    assert_eq!(log.transcript(false).unwrap(), "one two");
}

#[test]
fn log_keeps_text_when_it_is_stored() {
    let mut log = ProgressLog::new(0, "u", true);
    let entries = log.send_data(format!("{}\n", result("kept", true)).as_bytes());
    assert!(entries[0].line.contains("kept"));
    let mut log = ProgressLog::new(0, "u", false);
    let entries = log.send_data(format!("{}\n", result("kept", true)).as_bytes());
    assert!(!entries[0].line.contains("kept"));
}

#[test]
fn chunks_do_not_matter() {
    let data = format!("{}\n{}\n{}", result("a", true), result("b", false), result("c", true));
    let whole = {
        let mut log = ProgressLog::new(0, "u", false);
        log.send_response(200, None);
        let mut entries = log.send_data(data.as_bytes());
        entries.extend(log.finish());
        (entries, log.transcript(false))
    };
    for size in [1usize, 2, 7, 64] {
        let mut log = ProgressLog::new(0, "u", false);
        log.send_response(200, None);
        let mut entries = Vec::new();
        for chunk in data.as_bytes().chunks(size) {
            entries.extend(log.send_data(chunk));
        }
        entries.extend(log.finish());
        assert_eq!((entries, log.transcript(false)), whole);
    }
    assert_eq!(whole.1, Ok("a c".to_string()));
}

#[test]
fn last_interim_stands_in_for_final_segments() {
    let mut log = ProgressLog::new(0, "u", false);
    log.send_response(204, None);
    let unmarked = "{\"type\":\"Results\",\"channel\":{\"alternatives\":[{\"transcript\":\"third\"}]}}";
    log.send_data(format!("{}\n{}\n{}\n", result("first", false), unmarked, result(" ", true)).as_bytes());
    assert_eq!(log.transcript(false).unwrap(), "third");
    let other = "{\"type\":\"Other\",\"channel\":{\"alternatives\":[{\"transcript\":\"no\"}]}}\n";
    log.send_data(other.as_bytes());
    assert_eq!(log.transcript(false).unwrap(), "third");
}

#[test]
fn failed_responses_give_their_body() {
    let mut log = ProgressLog::new(0, "u", false);
    log.send_response(503, None);
    let entries = log.send_data(b"{\"error\": \"busy\"} \n\nretry \xff\n");
    assert_eq!(entries.len(), 2);
    assert_eq!(
        log.transcript(true),
        Err(TranscriptError::Failed {
            status: 503,
            body: "{\"error\": \"busy\"}\nretry \u{fffd}".to_string(),
        })
    );
}

#[test]
fn responses_need_a_head_and_a_transcript() {
    let mut log = ProgressLog::new(0, "u", false);
    assert_eq!(log.transcript(true), Err(TranscriptError::NoResponseHead));
    log.send_data(b"{\"type\":\"Metadata\"}\nx\n");
    log.send_response(299, None);
    assert_eq!(log.transcript(false), Err(TranscriptError::NoTranscript { events: 2 }));
    log.send_response(300, None);
    assert!(matches!(log.transcript(true), Err(TranscriptError::Failed { status: 300, .. })));
    log.send_response(199, None);
    assert!(log.transcript(true).is_err());
}

#[test]
fn lines_are_trimmed_of_ascii_space() {
    for line in [&b""[..], b" \t\r\n\x0c", b" a b ", b"\x0bx\x0b", b"\xc2\xa0y"] {
        assert_eq!(trim_ascii(line), line.trim_ascii());
    }
}

#[test]
fn previews_show_the_beginning() {
    assert_eq!(transcript_preview("short"), "short");
    let limit = "ä".repeat(220);
    assert_eq!(transcript_preview(&limit), limit);
    assert_eq!(transcript_preview(&format!("{limit}x")), format!("{limit}..."));
}
