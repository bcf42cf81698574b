use media_research_stack::json::Json;
use media_research_stack::report::{
    cache_failure_row, cached_row, completed_sources, failure_row, success_row, CompletedSources,
    ReportError,
};
use media_research_stack::research_cache::SourceMetadata;
use media_research_stack::settings::BenchmarkSettings;

fn metadata() -> SourceMetadata {
    SourceMetadata {
        source_url: "u".to_string(),
        duration_seconds: 61,
        content_length: Some(9),
        content_type: Some("audio/webm".to_string()),
        source_mime_type: None,
        resolver: "r".to_string(),
        itag: None,
        cached: true,
    }
}

fn settings() -> BenchmarkSettings {
    BenchmarkSettings {
        backend: "onnx".to_string(),
        device_ids: vec![0, 2],
        onnx_sessions: 1,
        asr_concurrency: 3,
        worker_instances: 2,
        minimum_transcript_words: 5,
    }
}

fn seconds(value: f64) -> Json {
    Json::Number(serde_json::Number::from_f64(value).unwrap())
}

#[test]
fn transcribed_sources_have_full_rows() {
    let row = success_row(
        4,
        "https://example.com/a",
        &metadata(),
        2,
        "one two\u{e4}",
        &Some("t/0005.txt".to_string()),
        &settings(),
        vec![("rtfx".to_string(), seconds(2.5)), ("status".to_string(), Json::Null)],
    );
    assert_eq!(
        row.to_line(),
        "{\"asr_backend\":\"onnx\",\"asr_concurrency\":3,\"cached_audio\":true,\"content_length\":9,\"content_type\":\"audio/webm\",\"device_ids\":[0,2],\"index\":4,\"itag\":null,\"metrics_schema\":2,\"onnx_sessions\":1,\"resolver\":\"r\",\"rtfx\":2.5,\"run_processed_sources\":2,\"source_mime_type\":null,\"source_url\":\"https://example.com/a\",\"status\":\"ok\",\"transcript_chars\":8,\"transcript_path\":\"t/0005.txt\",\"transcript_words\":2,\"transport\":\"in-process\",\"worker_instances\":2}"
    );
}

#[test]
fn failed_sources_have_rows_with_the_error() {
    let row = failure_row(1, "u", "no \"audio\"\n", &settings(), seconds(0.5));
    assert_eq!(
        row.to_line(),
        "{\"asr_backend\":\"onnx\",\"asr_concurrency\":3,\"device_ids\":[0,2],\"error\":\"no \\\"audio\\\"\\n\",\"index\":1,\"onnx_sessions\":1,\"source_url\":\"u\",\"status\":\"error\",\"wall_seconds\":0.5,\"worker_instances\":2}"
    );
}

#[test]
fn cache_rows_tell_of_the_media() {
    let row = cached_row(0, "u", &metadata(), true, vec![("wall_seconds".to_string(), seconds(0.0))]);
    assert_eq!(
        row.to_line(),
        "{\"content_length\":9,\"duration_seconds\":61,\"index\":0,\"itag\":null,\"mime_type\":null,\"reused\":true,\"source_url\":\"u\",\"status\":\"ok\",\"wall_seconds\":0.0}"
    );
    let mut unknown = metadata();
    unknown.content_length = None;
    let row = cached_row(0, "u", &unknown, false, vec![]);
    assert_eq!(row.get("content_length"), Some(&Json::count(0)));
    assert_eq!(
        cache_failure_row(3, "u", "e").to_line(),
        "{\"error\":\"e\",\"index\":3,\"source_url\":\"u\",\"status\":\"error\"}"
    );
}

#[test]
fn reported_sources_are_completed_on_resume() {
    let mut report = String::new();
    for (index, url) in ["https://example.com/a", "b \"quoted\" \\ \u{e4}\n"].iter().enumerate() {
        let row = success_row(
            index,
            url,
            &metadata(),
            index + 1,
            "text",
            &None,
            &settings(),
            vec![("audio_seconds".to_string(), seconds(0.1))],
        );
        report.push_str(&row.to_line());
        report.push('\n');
    }
    let row = failure_row(2, "c", "e", &settings(), seconds(1.0));
    report.push_str(&row.to_line());
    report.push('\n');
    let completed = completed_sources(&report).unwrap();
    assert!(completed.contains("https://example.com/a"));
    assert!(completed.contains("b \"quoted\" \\ \u{e4}\n"));
    assert!(!completed.contains("c"));
}

#[test]
fn rows_without_status_count_as_completed() {
    let completed = completed_sources(
        "{\"source_url\":\"a\"}\r\n\n  \n{\"source_url\":\"b\",\"status\":7}\n{\"source_url\":\"c\",\"status\":\"OK\"}\n{\"source_url\":3}\n[]",
    )
    .unwrap();
    assert!(completed.contains("a"));
    assert!(completed.contains("b"));
    assert!(!completed.contains("c"));
    assert!(!completed.contains("3"));
}

#[test]
fn broken_reports_name_the_line() {
    let error = completed_sources("{\"source_url\":\"a\"}\n\n{\"source\n{").unwrap_err();
    assert_eq!(error.line, 3);
    assert_eq!(
        error,
        ReportError { line: 3, message: Json::parse("{\"source").unwrap_err() }
    );
}

#[test]
fn completed_sources_are_a_set() {
    let mut completed = CompletedSources::new();
    assert!(!completed.contains("a"));
    assert!(completed.insert("a".to_string()));
    assert!(!completed.insert("a".to_string()));
    assert!(completed.contains("a"));
}
