use media_research_stack::cache_run::{
    check_concurrency, is_systemic_youtube_auth_error as stops_cache, CacheRunError, CacheTally,
    JobFailureAction,
};
use media_research_stack::files::FileStep;
use media_research_stack::report::CompletedSources;
use media_research_stack::research_cache::{CachedSource, SourceMetadata, UrlFileError};
use media_research_stack::sweep::{
    cache_settings_fit, check_transcript, is_s16le_16khz_mono, is_systemic_youtube_auth_error,
    listen_request, open_research_audio, research_urls, source_metadata, wait_for_cached_audio,
    write_transcript, AudioPlan, BodyMeter, ShortTranscript, SourcesError, StreamedAudio, WaitStep,
};
use media_research_stack::sweep_run::{plan_sweep, FailureAction, SweepTally};
use std::path::PathBuf;

fn text(value: &str) -> Option<String> {
    Some(value.to_string())
}

fn metadata(content_type: Option<&str>, mime_type: Option<&str>) -> SourceMetadata {
    SourceMetadata {
        source_url: "u".to_string(),
        duration_seconds: 1,
        content_length: None,
        content_type: content_type.map(|value| value.to_string()),
        source_mime_type: mime_type.map(|value| value.to_string()),
        resolver: "test".to_string(),
        itag: None,
        cached: false,
    }
}

fn cached() -> CachedSource {
    CachedSource {
        metadata: metadata(None, None),
        media_path: PathBuf::from("m"),
    }
}

#[test]
fn recognizes_the_benchmark_pcm_format() {
    assert!(is_s16le_16khz_mono(
        "audio/x-raw; format=S16LE; rate=16000; channels=1"
    ));
    assert!(!is_s16le_16khz_mono("audio/webm"));
    assert!(!is_s16le_16khz_mono(
        "audio/x-raw; format=S16LE; rate=48000; channels=1"
    ));
}

#[test]
fn pcm_fields_stand_in_any_order_behind_the_type() {
    assert!(is_s16le_16khz_mono("AUDIO/X-RAW;channels=1 ;x; rate=16000;format=s16le"));
    assert!(!is_s16le_16khz_mono("format=s16le; audio/x-raw; rate=16000; channels=1"));
    assert!(!is_s16le_16khz_mono("audio/x-raw; rate=16000; channels=1"));
    assert!(!is_s16le_16khz_mono("audio/x-raw; format=s16le; rate=16000; channels=10"));
    assert!(!is_s16le_16khz_mono(""));
}

#[test]
fn recognizes_systemic_youtube_auth_failures() {
    assert!(is_systemic_youtube_auth_error(
        "ERROR: [youtube] id: Sign in to confirm you’re not a bot"
    ));
    assert!(is_systemic_youtube_auth_error(
        "WARNING: cannot decrypt v10 cookies: no key found"
    ));
    assert!(!is_systemic_youtube_auth_error(
        "ERROR: [youtube] id: Video unavailable"
    ));
}

#[test]
fn sweep_stops_at_more_errors_than_the_cache_process() {
    for error in ["Sign in to confirm you’re not a bot", "x Sign in to confirm you're not a bot y"] {
        assert!(stops_cache(error));
        assert!(is_systemic_youtube_auth_error(error));
    }
    for error in ["cannot decrypt v10 cookies", "find-generic-password failed"] {
        assert!(!stops_cache(error));
        assert!(is_systemic_youtube_auth_error(error));
    }
}

#[test]
fn writes_a_clean_transcript_atomically() {
    let file = write_transcript(
        6,
        "https://www.youtube.com/watch?v=video-id&feature=test",
        "  exact transcript text  ",
    );

    assert_eq!(file.name, "0007-video-id.txt");
    assert_eq!(
        file.steps,
        vec![
            FileStep::WriteText {
                to: "0007-video-id.txt.part".to_string(),
                text: "exact transcript text\n".to_string(),
            },
            FileStep::Rename {
                from: "0007-video-id.txt.part".to_string(),
                to: "0007-video-id.txt".to_string(),
            },
        ]
    );
}

#[test]
fn blank_transcripts_are_empty_lines() {
    let file = write_transcript(0, "v=a", " \n ");
    assert_eq!(
        file.steps[0],
        FileStep::WriteText {
            to: "0001-a.txt.part".to_string(),
            text: "\n".to_string(),
        }
    );
}

#[test]
fn audio_is_sent_under_its_type() {
    let request = listen_request(&metadata(Some("audio/webm"), Some("audio/mp4")), false);
    assert_eq!(request.content_type, "audio/webm");
    assert_eq!(
        request.uri,
        "/v1/listen?utterances=true&paragraphs=true&timestamps=true&language=en_US"
    );
    let request = listen_request(&metadata(None, Some("audio/mp4")), true);
    assert_eq!(request.content_type, "audio/mp4");
    assert_eq!(
        request.uri,
        "/v1/listen?utterances=true&paragraphs=true&timestamps=true&interim_results=true&language=en_US"
    );
    let raw = "audio/x-raw;format=S16LE;rate=16000;channels=1";
    let request = listen_request(&metadata(Some(raw), None), false);
    assert_eq!(
        request.uri,
        "/v1/listen?utterances=true&paragraphs=true&timestamps=true&language=en_US&encoding=linear16&sample_rate=16000&channels=1"
    );
    assert_eq!(
        listen_request(&metadata(None, None), false).content_type,
        "application/octet-stream"
    );
}

#[test]
fn sources_come_from_the_file_then_the_list_then_the_defaults() {
    assert_eq!(research_urls(&text("a b"), &text("c")), Ok(vec!["a".to_string(), "b".to_string()]));
    assert_eq!(research_urls(&None, &text("c,d")), Ok(vec!["c".to_string(), "d".to_string()]));
    let defaults = research_urls(&None, &None).unwrap();
    assert_eq!(defaults.len(), 6);
    assert_eq!(defaults[0], "https://www.youtube.com/watch?v=Szv32PCJfs0");
    assert_eq!(defaults[5], "https://www.youtube.com/watch?v=9VmjOIid2C4");
    assert_eq!(research_urls(&text("# none"), &text("c")), Err(SourcesError::NoUrls));
    assert_eq!(research_urls(&None, &text(",")), Err(SourcesError::NoUrls));
    assert_eq!(
        research_urls(&text("{}"), &None),
        Err(SourcesError::File(UrlFileError::NoVideos))
    );
}

#[test]
fn streamed_sources_are_described_by_their_headers() {
    let audio = || StreamedAudio {
        duration_seconds: Some(61),
        content_length: text("1234"),
        content_type: text("audio/webm"),
        mime_type: text("audio/mp4"),
        resolver: "r".to_string(),
        itag: Some(5),
    };
    let found = source_metadata(audio(), "u").unwrap();
    assert_eq!(
        found,
        SourceMetadata {
            source_url: "u".to_string(),
            duration_seconds: 61,
            content_length: Some(1234),
            content_type: text("audio/webm"),
            source_mime_type: text("audio/mp4"),
            resolver: "r".to_string(),
            itag: Some(5),
            cached: false,
        }
    );
    let found = source_metadata(
        StreamedAudio {
            content_length: text("12 "),
            content_type: None,
            ..audio()
        },
        "u",
    )
    .unwrap();
    assert_eq!(found.content_length, None);
    assert_eq!(found.content_type, text("audio/mp4"));
    assert!(source_metadata(StreamedAudio { duration_seconds: None, ..audio() }, "u").is_none());
}

#[test]
fn required_cache_is_never_filled_by_the_sweep() {
    assert!(cache_settings_fit(false, false));
    assert!(cache_settings_fit(true, true));
    assert!(!cache_settings_fit(true, false));
    assert!(matches!(open_research_audio(true, None, true), AudioPlan::AwaitCache));
    assert!(matches!(open_research_audio(true, None, false), AudioPlan::DownloadToCache));
    assert!(matches!(open_research_audio(true, Some(cached()), true), AudioPlan::Cached(_)));
    assert!(matches!(open_research_audio(true, Some(cached()), false), AudioPlan::Cached(_)));
    assert!(matches!(open_research_audio(false, None, false), AudioPlan::Stream));
}

#[test]
fn waits_end_at_the_timeout() {
    assert!(matches!(wait_for_cached_audio(None, 1_999_999_999, 2), WaitStep::Wait));
    assert!(matches!(wait_for_cached_audio(None, 2_000_000_000, 2), WaitStep::TimedOut));
    assert!(matches!(wait_for_cached_audio(None, 0, 0), WaitStep::TimedOut));
    assert!(matches!(wait_for_cached_audio(Some(cached()), u128::MAX, 0), WaitStep::Ready(_)));
}

#[test]
fn short_transcripts_are_refused() {
    assert_eq!(check_transcript("one two  three", 3), Ok(3));
    assert_eq!(check_transcript("", 0), Ok(0));
    assert_eq!(
        check_transcript("one two", 5),
        Err(ShortTranscript { words: 2, minimum: 5 })
    );
}

#[test]
fn completed_sources_are_skipped() {
    let urls: Vec<String> = ["a", "b", "a", "c"].iter().map(|url| url.to_string()).collect();
    let mut completed = CompletedSources::new();
    let plan = plan_sweep(&urls, &completed);
    assert_eq!(plan.pending.len(), 4);
    assert_eq!(plan.tally.skipped, 0);
    assert!(completed.insert("a".to_string()));
    let plan = plan_sweep(&urls, &completed);
    assert_eq!(plan.pending, vec![(1, "b".to_string()), (3, "c".to_string())]);
    assert_eq!(
        plan.tally,
        SweepTally { total: 4, skipped: 2, completed: 0, failed: 0, transcript_words: 0 }
    );
}

#[test]
fn sweep_accounts_for_its_sources() {
    let urls: Vec<String> = ["a", "b", "c"].iter().map(|url| url.to_string()).collect();
    let mut completed = CompletedSources::new();
    completed.insert("b".to_string());
    let mut tally = plan_sweep(&urls, &completed).tally;
    tally.add_success(7);
    assert_eq!(tally.add_failure("Video unavailable", true), FailureAction::ReportAndContinue);
    assert_eq!(
        tally,
        SweepTally { total: 3, skipped: 1, completed: 1, failed: 1, transcript_words: 7 }
    );
    assert_eq!(tally.finish(), Err(1));
}

#[test]
fn sweep_succeeds_without_failures() {
    let mut tally = SweepTally { total: 2, skipped: 1, completed: 0, failed: 0, transcript_words: 0 };
    tally.add_success(0);
    assert_eq!(tally.finish(), Ok(()));
}

#[test]
fn sweep_stops_at_errors() {
    let start = SweepTally { total: 2, skipped: 0, completed: 0, failed: 0, transcript_words: 0 };
    let mut tally = start;
    assert_eq!(tally.add_failure("find-generic-password failed", false), FailureAction::Stop);
    assert_eq!(tally, start);
    assert_eq!(
        tally.add_failure("find-generic-password failed", true),
        FailureAction::ReportAndStop
    );
    assert_eq!(tally.failed, 1);
}

#[test]
fn body_lines_are_due_at_whole_intervals() {
    let mut meter = BodyMeter::new();
    assert_eq!(meter.advance(1_048_575), 0);
    assert_eq!(meter.advance(1), 1);
    assert_eq!(meter.next_log_at, 2 * 1_048_576);
    assert_eq!(meter.advance(3 * 1_048_576), 3);
    assert_eq!(meter.advance(0), 0);
    assert_eq!(meter.total_bytes, 4 * 1_048_576);
}

#[test]
fn cache_process_counts_its_jobs() {
    assert_eq!(check_concurrency(0), Err(CacheRunError::NoConcurrency));
    assert_eq!(check_concurrency(4), Ok(()));
    assert_eq!(CacheTally::new(0), Err(CacheRunError::NoUrls));
    assert_eq!(CacheRunError::NoUrls.message(), "source manifest contains no URLs");
    assert_eq!(
        CacheRunError::NoConcurrency.message(),
        "cache concurrency must be positive"
    );
    let mut tally = CacheTally::new(4).unwrap();
    tally.add_ready(false);
    tally.add_ready(true);
    assert_eq!(tally.finish(), Ok(()));
    assert_eq!(tally.add_failure("timeout"), JobFailureAction::Continue);
    assert_eq!(
        tally.add_failure("Sign in to confirm you're not a bot"),
        JobFailureAction::Stop
    );
    assert_eq!(tally, CacheTally { total: 4, ready: 2, reused: 1, failed: 2 });
    assert_eq!(tally.finish(), Err(2));
}
