use media_research_stack::files::FileStep;
use media_research_stack::json::Json;
use media_research_stack::research_cache::{
    cache_file_names, ensure_cached_source, metadata_has_mime_type,
    metadata_matches_required_mime_type, open_cached_source, publish_download,
    required_cache_mime_type, source_file_stem, source_urls_from_file, split_urls,
    urls_from_lines, urls_from_manifest, CacheError, CacheFileNames, CachePlan, CachedSource,
    DownloadedAudio, MediaFile, MetadataFile, SourceMetadata, UrlFileError,
};
use std::path::PathBuf;

fn metadata(mime_type: &str) -> SourceMetadata {
    SourceMetadata {
        source_url: "https://example.com/audio".to_string(),
        duration_seconds: 60,
        content_length: Some(10),
        content_type: Some(mime_type.to_string()),
        source_mime_type: Some(mime_type.to_string()),
        resolver: "test".to_string(),
        itag: Some(249),
        cached: true,
    }
}

fn download(mime_type: Option<&str>) -> DownloadedAudio {
    DownloadedAudio {
        duration_seconds: Some(60),
        content_length: 10,
        mime_type: mime_type.map(|value| value.to_string()),
        resolver: "test".to_string(),
        itag: Some(249),
    }
}

fn text(value: &str) -> Option<String> {
    Some(value.to_string())
}

#[test]
fn matches_required_cache_mime_type() {
    assert!(metadata_has_mime_type(
        &metadata("audio/webm; codecs=opus"),
        "audio/webm"
    ));
    assert!(!metadata_has_mime_type(
        &metadata("audio/mp4"),
        "audio/webm"
    ));
}

#[test]
fn splits_url_lists_on_commas_and_whitespace() {
    assert_eq!(
        split_urls("https://example.com/a, https://example.com/b\nhttps://example.com/c"),
        vec![
            "https://example.com/a",
            "https://example.com/b",
            "https://example.com/c"
        ]
    );
}

#[test]
fn mime_types_are_matched_without_case_and_parameters() {
    assert!(metadata_has_mime_type(&metadata(" Audio/WebM ;x=1;y"), "audio/webm"));
    assert!(metadata_has_mime_type(&metadata("audio/webm"), "AUDIO/WEBM"));
    assert!(!metadata_has_mime_type(&metadata("audio/webmx"), "audio/webm"));
    assert!(!metadata_has_mime_type(&metadata("; audio/webm"), "audio/webm"));
}

#[test]
fn source_mime_type_comes_before_content_type() {
    let mut both = metadata("audio/webm");
    both.content_type = text("audio/mp4");
    assert!(metadata_has_mime_type(&both, "audio/webm"));
    both.source_mime_type = None;
    assert!(metadata_has_mime_type(&both, "audio/mp4"));
    both.content_type = None;
    assert!(!metadata_has_mime_type(&both, "audio/mp4"));
    assert!(metadata_matches_required_mime_type(&both, &None));
    assert!(!metadata_matches_required_mime_type(&both, &text("audio/mp4")));
}

#[test]
fn required_mime_type_is_trimmed_and_lowered() {
    assert_eq!(required_cache_mime_type(text("  Audio/WEBM\n")), text("audio/webm"));
    assert_eq!(required_cache_mime_type(text(" \t")), None);
    assert_eq!(required_cache_mime_type(None), None);
}

#[test]
fn stems_are_numbered_and_safe() {
    assert_eq!(
        source_file_stem(6, "https://www.youtube.com/watch?v=video-id&feature=test"),
        "0007-video-id"
    );
    assert_eq!(source_file_stem(0, "https://example.com/a"), "0001-https_");
    assert_eq!(source_file_stem(9_998, "https://youtu.be/x?v=a%20b"), "9999-a_20b");
    assert_eq!(source_file_stem(12_344, "v=ä"), "12345-_");
    assert_eq!(source_file_stem(1, ""), "0002-source");
    assert_eq!(source_file_stem(1, "x?v=/&#y"), "0002-y");
}

#[test]
fn entry_files_are_named_after_the_stem() {
    assert_eq!(
        cache_file_names(6, "https://www.youtube.com/watch?v=video-id"),
        CacheFileNames {
            media: "0007-video-id.audio".to_string(),
            partial_media: "0007-video-id.audio.download".to_string(),
            metadata: "0007-video-id.json".to_string(),
            partial_metadata: "0007-video-id.json.part".to_string(),
        }
    );
}

#[test]
fn equal_urls_at_different_positions_have_different_files() {
    let first = cache_file_names(0, "https://example.com/watch?v=same");
    let second = cache_file_names(1, "https://example.com/watch?v=same");
    assert_ne!(first.media, second.media);
    assert_ne!(first.metadata, second.metadata);
}

#[test]
fn reads_plain_url_files() {
    let contents = "# sources\r\nhttps://a.example/1, https://a.example/2\n\n  # more\n\thttps://a.example/3\thttps://a.example/4";
    assert_eq!(
        source_urls_from_file(contents).unwrap(),
        vec![
            "https://a.example/1",
            "https://a.example/2",
            "https://a.example/3",
            "https://a.example/4"
        ]
    );
    assert_eq!(source_urls_from_file("").unwrap(), Vec::<String>::new());
    assert_eq!(urls_from_lines("#a\n ,, \n"), Vec::<String>::new());
}

#[test]
fn listed_urls_are_read_back() {
    let urls = vec!["https://a.example/1", "https://a.example/2", "x"];
    assert_eq!(split_urls(&urls.join(",")), urls);
    for separator in [" ", "\n", ",,", " , ", "\u{3000},\n"] {
        assert_eq!(split_urls(&urls.join(separator)), urls);
    }
}

#[test]
fn reads_json_url_files() {
    assert_eq!(
        source_urls_from_file(" [\"https://a.example/1\", {\"url\": \"https://a.example/2\"}] ")
            .unwrap(),
        vec!["https://a.example/1", "https://a.example/2"]
    );
    assert_eq!(
        source_urls_from_file("{\"channel\": 1, \"videos\": [{\"id\": 7, \"url\": \"u\"}]}").unwrap(),
        vec!["u"]
    );
    assert_eq!(
        urls_from_manifest(&Json::parse("[\"\\u0061,b\"]").unwrap()).unwrap(),
        vec!["a,b"]
    );
}

#[test]
fn refuses_bad_json_url_files() {
    assert!(matches!(
        source_urls_from_file("{\"videos\": ["),
        Err(UrlFileError::InvalidJson(_))
    ));
    assert_eq!(
        source_urls_from_file("{\"videos\": {}}"),
        Err(UrlFileError::NoVideos)
    );
    assert_eq!(
        source_urls_from_file("[\"a\", {\"url\": 1}]"),
        Err(UrlFileError::EntryWithoutUrl)
    );
}

#[test]
fn opens_a_matching_entry() {
    let opened = open_cached_source(
        MetadataFile::Parsed(SourceMetadata {
            content_length: None,
            cached: false,
            ..metadata("audio/webm")
        }),
        MediaFile::Size(11),
        PathBuf::from("cache/0001-a.audio"),
        "https://example.com/audio",
        &text("audio/webm"),
    )
    .unwrap()
    .unwrap();
    assert_eq!(opened.metadata.content_length, Some(11));
    assert!(opened.metadata.cached);
    assert_eq!(opened.media_path, PathBuf::from("cache/0001-a.audio"));
    let copy = opened.clone();
    assert_eq!(copy.media_path, opened.media_path);
    assert_eq!(copy.metadata, opened.metadata);
}

#[test]
fn does_not_open_other_entries() {
    let url = "https://example.com/audio";
    let open = |metadata_file: MetadataFile, media_file: MediaFile, url: &str, required: Option<String>| {
        open_cached_source(metadata_file, media_file, PathBuf::new(), url, &required)
            .unwrap()
            .is_none()
    };
    let parsed = || MetadataFile::Parsed(metadata("audio/webm"));
    assert!(open(MetadataFile::Missing, MediaFile::Size(10), url, None));
    assert!(open(parsed(), MediaFile::Missing, url, None));
    assert!(open(parsed(), MediaFile::Size(0), url, None));
    assert!(open(parsed(), MediaFile::Size(9), url, None));
    assert!(open(parsed(), MediaFile::Size(10), "https://example.com/other", None));
    assert!(open(parsed(), MediaFile::Size(10), url, text("audio/mp4")));
    assert!(!open(parsed(), MediaFile::Size(10), url, text("audio/webm")));
}

#[test]
fn reports_unreadable_entries() {
    let open = |metadata_file: MetadataFile, media_file: MediaFile| {
        open_cached_source(
            metadata_file,
            media_file,
            PathBuf::new(),
            "https://example.com/audio",
            &None,
        )
        .unwrap_err()
    };
    assert_eq!(
        open(MetadataFile::Unreadable("denied".to_string()), MediaFile::Size(1)),
        CacheError::MetadataUnreadable("denied".to_string())
    );
    assert_eq!(
        open(MetadataFile::Malformed("eof".to_string()), MediaFile::Size(1)),
        CacheError::MetadataMalformed("eof".to_string())
    );
    assert_eq!(
        open(
            MetadataFile::Parsed(metadata("a")),
            MediaFile::Unreadable("denied".to_string())
        ),
        CacheError::MediaUnreadable("denied".to_string())
    );
}

#[test]
fn cached_sources_are_reused() {
    let source = CachedSource {
        metadata: metadata("audio/webm"),
        media_path: PathBuf::from("m"),
    };
    match ensure_cached_source(0, "https://example.com/audio", Some(source)) {
        CachePlan::Reuse(source) => assert_eq!(source.media_path, PathBuf::from("m")),
        CachePlan::Download { .. } => panic!("a cached source is not downloaded"),
    }
}

#[test]
fn other_sources_are_downloaded() {
    match ensure_cached_source(0, "v=a", None) {
        CachePlan::Reuse(_) => panic!("there is nothing to reuse"),
        CachePlan::Download { names, steps } => {
            assert_eq!(names, cache_file_names(0, "v=a"));
            assert_eq!(
                steps,
                vec![
                    FileStep::Remove("0001-a.audio.download".to_string()),
                    FileStep::Remove("0001-a.json.part".to_string()),
                ]
            );
        }
    }
}

#[test]
fn downloads_are_published_media_first() {
    let published =
        publish_download(0, "v=a", download(Some("audio/webm")), &text("audio/webm")).unwrap();
    let expected = SourceMetadata {
        source_url: "v=a".to_string(),
        ..metadata("audio/webm")
    };
    assert_eq!(published.metadata, expected);
    assert_eq!(
        published.steps,
        vec![
            FileStep::Rename {
                from: "0001-a.audio.download".to_string(),
                to: "0001-a.audio".to_string(),
            },
            FileStep::WriteMetadata {
                to: "0001-a.json.part".to_string(),
                metadata: expected.clone(),
            },
            FileStep::Rename {
                from: "0001-a.json.part".to_string(),
                to: "0001-a.json".to_string(),
            },
        ]
    );
    let opened = open_cached_source(
        MetadataFile::Parsed(published.metadata),
        MediaFile::Size(10),
        PathBuf::new(),
        "v=a",
        &text("audio/webm"),
    );
    assert_eq!(opened.unwrap().unwrap().metadata, expected);
}

#[test]
fn unfit_downloads_are_not_published() {
    let mut unknown = download(None);
    unknown.duration_seconds = None;
    assert_eq!(
        publish_download(0, "v=a", unknown, &None),
        Err(CacheError::DurationMissing)
    );
    assert_eq!(
        publish_download(0, "v=a", download(Some("audio/mp4")), &text("audio/webm")),
        Err(CacheError::WrongMimeType {
            found: text("audio/mp4"),
            expected: "audio/webm".to_string(),
        })
    );
    assert_eq!(
        publish_download(0, "v=a", download(None), &text("audio/webm")),
        Err(CacheError::WrongMimeType {
            found: None,
            expected: "audio/webm".to_string(),
        })
    );
}
