use media_research_stack::json::Json;
use media_research_stack::transcript::{
    events_of_response, extract_asr_transcript, parse_response, read_response,
    transcript_of_events,
};
use media_research_stack::watcher::{SlotOutcome, TranscriptWatcher};

const FINAL: &str = "{\"channel\":{\"alternatives\":[{\"transcript\":\" one \"}]},\"is_final\":true}";
const INTERIM: &str = "{\"channel\":{\"alternatives\":[{\"transcript\":\"maybe\"}]},\"is_final\":false}";
const COMPLETE: &str =
    "{\"results\":{\"channels\":[{\"alternatives\":[{\"transcript\":\"two\"}]}]}}";

#[test]
fn final_segments_are_joined() {
    let body = format!("{INTERIM}\n{FINAL}\r\n\n{COMPLETE}\n{INTERIM}\n");
    assert_eq!(extract_asr_transcript(body.as_bytes()), Some("one two".to_string()));
}

#[test]
fn transcripts_have_no_white_space_around_them() {
    let body = format!("{FINAL}\n{FINAL}\n");
    assert_eq!(extract_asr_transcript(body.as_bytes()), Some("one one".to_string()));
}

#[test]
fn interim_segments_are_used_without_final_ones() {
    let body = format!("{INTERIM}\n{INTERIM}");
    assert_eq!(extract_asr_transcript(body.as_bytes()), Some("maybe maybe".to_string()));
}

#[test]
fn responses_without_text_have_no_transcript() {
    assert_eq!(extract_asr_transcript(b""), None);
    assert_eq!(extract_asr_transcript(b"{\"type\":\"Metadata\"}\n"), None);
    assert_eq!(
        extract_asr_transcript(b"{\"channel\":{\"alternatives\":[{\"transcript\":\"  \"}]}}"),
        None
    );
}

#[test]
fn unreadable_lines_are_passed_over() {
    let with = format!("not json\n{FINAL}\n   \n{{\"a\":\n{COMPLETE}");
    let without = format!("{FINAL}\n{COMPLETE}");
    assert_eq!(
        extract_asr_transcript(with.as_bytes()),
        extract_asr_transcript(without.as_bytes())
    );
    assert_eq!(events_of_response(&with).len(), 2);
}

#[test]
fn unreadable_lines_are_told() {
    let body = format!("not json\n{FINAL}\n   \n{{\"a\":");
    let response = read_response(body.as_bytes());
    assert_eq!(response.transcript, Some("one".to_string()));
    assert_eq!(
        response.faults,
        vec![
            Json::parse("not json").unwrap_err(),
            Json::parse("{\"a\":").unwrap_err()
        ]
    );
    assert_eq!(parse_response(&body).faults, response.faults);
    assert_eq!(parse_response(&body).events.len(), 1);
}

#[test]
fn invalid_bytes_are_replaced() {
    let mut body = b"{\"channel\":{\"alternatives\":[{\"transcript\":\"a".to_vec();
    body.push(0xff);
    body.extend_from_slice(b"b\"}]}}");
    assert_eq!(extract_asr_transcript(&body), Some("a\u{fffd}b".to_string()));
}

#[test]
fn streaming_transcripts_come_before_complete_ones() {
    let event = Json::parse(
        "{\"channel\":{\"alternatives\":[{\"transcript\":\"s\"}]},\"results\":{\"channels\":[{\"alternatives\":[{\"transcript\":\"c\"}]}]},\"is_final\":\"no\"}",
    )
    .unwrap();
    assert_eq!(transcript_of_events(&vec![event]), Some("s".to_string()));
}

#[test]
fn watcher_collects_a_response() {
    let mut watcher = TranscriptWatcher::new(2);
    assert_eq!(watcher.num_streams(), 2);
    assert!(!watcher.observe(0, 0));
    assert!(watcher.observe(1, 7));
    assert_eq!(watcher.unseen_slots(1, 0), None);
    assert_eq!(watcher.unseen_slots(1, 3), Some((1, 3)));
    assert!(matches!(watcher.accept(1, 1, b"head", false), SlotOutcome::Next));
    let (start, rest) = FINAL.split_at(20);
    assert!(matches!(watcher.accept(1, 2, start.as_bytes(), false), SlotOutcome::Next));
    assert!(matches!(watcher.accept(1, 3, rest.as_bytes(), false), SlotOutcome::Next));
    watcher.mark_seen(1, 3);
    assert_eq!(watcher.unseen_slots(1, 3), None);
    assert_eq!(watcher.unseen_slots(1, 4), Some((4, 4)));
    match watcher.accept(1, 4, b"end", true) {
        SlotOutcome::Ended(response) => assert_eq!(response.transcript, Some("one".to_string())),
        SlotOutcome::Next => panic!("the end marker ends the response"),
    }
}

#[test]
fn watcher_asks_for_each_slot_once() {
    let mut watcher = TranscriptWatcher::new(1);
    let mut asked = Vec::new();
    for last in [0usize, 2, 2, 1, 5, 5, 6] {
        assert!(watcher.observe(0, 7));
        if let Some((first, last)) = watcher.unseen_slots(0, last) {
            for slot in first..=last {
                asked.push(slot);
                if let SlotOutcome::Ended(_) = watcher.accept(0, slot, b"x", slot == 4) {
                    break;
                }
            }
            watcher.mark_seen(0, last);
        }
    }
    assert_eq!(asked, vec![1, 2, 3, 4, 6]);
}

#[test]
fn watcher_puts_the_body_together_over_polls() {
    let (start, rest) = FINAL.split_at(20);
    let slots: [Option<(&[u8], bool)>; 6] = [
        Some((b"head", false)),
        Some((start.as_bytes(), false)),
        None,
        Some((rest.as_bytes(), false)),
        Some((b"\nbroken", false)),
        Some((b"", true)),
    ];
    let mut watcher = TranscriptWatcher::new(1);
    let mut told = Vec::new();
    for last in [2usize, 3, 6, 6] {
        watcher.observe(0, 7);
        let Some((first, last)) = watcher.unseen_slots(0, last) else {
            continue;
        };
        for slot in first..=last {
            let Some((bytes, end)) = slots[slot - 1] else {
                continue;
            };
            if let SlotOutcome::Ended(response) = watcher.accept(0, slot, bytes, end) {
                told.push(response);
                break;
            }
        }
        watcher.mark_seen(0, last);
    }
    assert_eq!(told.len(), 1);
    assert_eq!(told[0].transcript, Some("one".to_string()));
    assert_eq!(told[0].faults, vec![Json::parse("broken").unwrap_err()]);
}

#[test]
fn watcher_does_not_mix_responses() {
    let mut watcher = TranscriptWatcher::new(1);
    watcher.observe(0, 7);
    watcher.accept(0, 2, FINAL.as_bytes(), false);
    watcher.mark_seen(0, 2);
    watcher.observe(0, 8);
    assert_eq!(watcher.unseen_slots(0, 2), Some((1, 2)));
    match watcher.accept(0, 2, b"", true) {
        SlotOutcome::Ended(response) => assert_eq!(response.transcript, None),
        SlotOutcome::Next => panic!("the end marker ends the response"),
    }
}

#[test]
fn watcher_keeps_streams_apart() {
    let mut watcher = TranscriptWatcher::new(2);
    watcher.observe(0, 7);
    watcher.observe(1, 8);
    watcher.accept(0, 2, FINAL.as_bytes(), false);
    watcher.accept(1, 2, COMPLETE.as_bytes(), false);
    match watcher.accept(0, 3, b"", true) {
        SlotOutcome::Ended(response) => assert_eq!(response.transcript, Some("one".to_string())),
        SlotOutcome::Next => panic!("the end marker ends the response"),
    }
    match watcher.accept(1, 3, b"", true) {
        SlotOutcome::Ended(response) => assert_eq!(response.transcript, Some("two".to_string())),
        SlotOutcome::Next => panic!("the end marker ends the response"),
    }
}
