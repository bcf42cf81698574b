//! The media cache: which URLs a research run reads, how a source's files are named,
//! when a cached source may be reused, and how a download is published.

use crate::files::{steps_of, FileStep, Step};
use crate::json::{self, Json, JsonTree};
use crate::text::{
    self, chars_of, decimal_chars, same_chars, same_text, skip_past, split, split_lines, string_of,
    to_lower_case, trim, Separator,
};
use std::path::PathBuf;
use vstd::prelude::*;

verus! {

/// `std::path::PathBuf`: a path of the file system, carried through unread.
#[verifier::external_type_specification]
#[verifier::external_body]
pub struct ExPathBuf(PathBuf);

/// `Clone::clone` of a `std::path::PathBuf` returns the same path.
pub assume_specification[ <PathBuf as Clone>::clone ](path: &PathBuf) -> (copy: PathBuf)
    ensures
        copy == *path,
;

/// What is known of a source and of its media file.
#[derive(Debug, PartialEq)]
pub struct SourceMetadata {
    pub source_url: String,
    pub duration_seconds: u64,
    pub content_length: Option<u64>,
    pub content_type: Option<String>,
    pub source_mime_type: Option<String>,
    pub resolver: String,
    pub itag: Option<u64>,
    pub cached: bool,
}

/// The mathematical value of a `SourceMetadata`.
pub struct Metadata {
    pub source_url: Seq<char>,
    pub duration_seconds: u64,
    pub content_length: Option<u64>,
    pub content_type: Option<Seq<char>>,
    pub source_mime_type: Option<Seq<char>>,
    pub resolver: Seq<char>,
    pub itag: Option<u64>,
    pub cached: bool,
}

/// The text of an optional string.
pub open spec fn text_of(value: Option<String>) -> Option<Seq<char>> {
    match value {
        Some(text) => Some(text@),
        None => None,
    }
}

impl View for SourceMetadata {
    type V = Metadata;

    open spec fn view(&self) -> Metadata {
        Metadata {
            source_url: self.source_url@,
            duration_seconds: self.duration_seconds,
            content_length: self.content_length,
            content_type: text_of(self.content_type),
            source_mime_type: text_of(self.source_mime_type),
            resolver: self.resolver@,
            itag: self.itag,
            cached: self.cached,
        }
    }
}

/// A source whose media file is in the cache.
#[derive(Debug)]
pub struct CachedSource {
    pub metadata: SourceMetadata,
    pub media_path: PathBuf,
}

fn copy_text(value: &Option<String>) -> (copy: Option<String>)
    ensures
        text_of(copy) == text_of(*value),
{
    match value {
        Some(text) => Some(text.clone()),
        None => None,
    }
}

impl Clone for SourceMetadata {
    fn clone(&self) -> (copy: SourceMetadata)
        ensures
            copy@ == self@,
    {
        SourceMetadata {
            source_url: self.source_url.clone(),
            duration_seconds: self.duration_seconds,
            content_length: self.content_length,
            content_type: copy_text(&self.content_type),
            source_mime_type: copy_text(&self.source_mime_type),
            resolver: self.resolver.clone(),
            itag: self.itag,
            cached: self.cached,
        }
    }
}

impl Clone for CachedSource {
    fn clone(&self) -> (copy: CachedSource)
        ensures
            copy.metadata@ == self.metadata@,
            copy.media_path == self.media_path,
    {
        CachedSource { metadata: self.metadata.clone(), media_path: self.media_path.clone() }
    }
}

/// The type of a media type, without its parameters and the white space around it.
pub open spec fn essence(media_type: Seq<char>) -> Seq<char> {
    text::trimmed(text::pieces(media_type, Separator::Semicolon)[0])
}

impl Metadata {
    /// The media type on record: the source's, else the one of the transfer.
    pub open spec fn media_type(self) -> Option<Seq<char>> {
        match self.source_mime_type {
            Some(media_type) => Some(media_type),
            None => self.content_type,
        }
    }

    /// Whether the media is of the given type, whatever its parameters and the case of
    /// its ASCII letters.
    pub open spec fn has_mime_type(self, required: Seq<char>) -> bool {
        match self.media_type() {
            Some(media_type) => text::lower_case(essence(media_type))
                == text::lower_case(required),
            None => false,
        }
    }

    /// Whether the media is of the required type, where one is required.
    pub open spec fn matches_required(self, required: Option<Seq<char>>) -> bool {
        match required {
            Some(mime_type) => self.has_mime_type(mime_type),
            None => true,
        }
    }
}

/// Whether the metadata's media is of the given type.
pub fn metadata_has_mime_type(metadata: &SourceMetadata, required: &str) -> (matches: bool)
    ensures
        matches == metadata@.has_mime_type(required@),
{
    let media_type = match &metadata.source_mime_type {
        Some(value) => value,
        None => match &metadata.content_type {
            Some(value) => value,
            None => {
                return false;
            },
        },
    };
    let chars = chars_of(media_type.as_str());
    let cut = split(chars.as_slice(), Separator::Semicolon);
    proof {
        text::lemma_pieces_non_empty(media_type@, Separator::Semicolon);
        assert(text::runs(cut@).len() == cut@.len());
    }
    let found = to_lower_case(trim(cut[0].as_slice()));
    let wanted = to_lower_case(chars_of(required).as_slice());
    same_chars(found.as_slice(), wanted.as_slice())
}

/// Whether the metadata's media is of the required type, where one is required.
pub fn metadata_matches_required_mime_type(
    metadata: &SourceMetadata,
    required: &Option<String>,
) -> (matches: bool)
    ensures
        matches == metadata@.matches_required(text_of(*required)),
{
    match required {
        Some(mime_type) => metadata_has_mime_type(metadata, mime_type.as_str()),
        None => true,
    }
}

/// The media type that a setting requires: trimmed and in lower case. A setting that is
/// absent or blank requires none.
pub open spec fn required_mime_type(setting: Option<Seq<char>>) -> Option<Seq<char>> {
    match setting {
        Some(value) => {
            let mime_type = text::lower_case(text::trimmed(value));
            if mime_type.len() == 0 {
                None
            } else {
                Some(mime_type)
            }
        },
        None => None,
    }
}

/// The media type that the value of `MEDIA_RESEARCH_STACK_CACHE_MIME_TYPE` requires.
pub fn required_cache_mime_type(setting: Option<String>) -> (required: Option<String>)
    ensures
        text_of(required) == required_mime_type(text_of(setting)),
{
    match setting {
        Some(value) => {
            let chars = chars_of(value.as_str());
            let mime_type = to_lower_case(trim(chars.as_slice()));
            if mime_type.len() == 0 {
                None
            } else {
                Some(string_of(mime_type.as_slice()))
            }
        },
        None => None,
    }
}

/// Whether a character may stand in a file name as it is.
pub open spec fn file_safe(c: char) -> bool {
    ||| '0' <= c <= '9'
    ||| 'A' <= c <= 'Z'
    ||| 'a' <= c <= 'z'
    ||| c == '-'
    ||| c == '_'
}

/// A text with an underscore in place of each character that may not stand in a file name.
pub open spec fn sanitized(s: Seq<char>) -> Seq<char> {
    s.map_values(
        |c: char|
            if file_safe(c) {
                c
            } else {
                '_'
            },
    )
}

/// The first text that is not empty, or else `fallback`.
pub open spec fn first_non_empty(parts: Seq<Seq<char>>, fallback: Seq<char>) -> Seq<char>
    decreases parts.len(),
{
    if parts.len() == 0 {
        fallback
    } else if parts[0].len() > 0 {
        parts[0]
    } else {
        first_non_empty(parts.skip(1), fallback)
    }
}

/// The part of a URL that identifies its source: what follows the first `v=`, or else the
/// whole URL, up to the next delimiter.
pub open spec fn source_id(url: Seq<char>) -> Seq<char> {
    let rest = match text::after_first(url, "v="@) {
        Some(value) => value,
        None => url,
    };
    first_non_empty(text::pieces(rest, Separator::UrlDelimiter), "source"@)
}

/// A numeral filled up with zeros to at least four digits.
pub open spec fn padded(numeral: Seq<char>) -> Seq<char>
    decreases 4 - numeral.len(),
{
    if numeral.len() >= 4 {
        numeral
    } else {
        padded(seq!['0'] + numeral)
    }
}

/// The name, without an extension, of a source's files.
pub open spec fn file_stem(source_index: nat, url: Seq<char>) -> Seq<char> {
    padded(text::decimal(source_index + 1)) + seq!['-'] + sanitized(source_id(url))
}

/// Names a source's files after its position in the run and its identifier.
pub fn source_file_stem(source_index: usize, source_url: &str) -> (stem: String)
    requires
        source_index < usize::MAX,
    ensures
        stem@ == file_stem(source_index as nat, source_url@),
{
    let url = chars_of(source_url);
    let marker = chars_of("v=");
    let rest = match skip_past(url.as_slice(), marker.as_slice()) {
        Some(value) => value,
        None => url.as_slice(),
    };
    let parts = split(rest, Separator::UrlDelimiter);
    let ghost all = text::runs(parts@);
    let mut id = chars_of("source");
    let mut found = false;
    let mut at: usize = 0;
    assert(all.skip(0) =~= all);
    while at < parts.len() && !found
        invariant
            at <= parts@.len(),
            all == text::runs(parts@),
            !found ==> id@ == "source"@ && first_non_empty(all, "source"@) == first_non_empty(
                all.skip(at as int),
                "source"@,
            ),
            found ==> id@ == first_non_empty(all, "source"@),
        decreases parts@.len() - at,
    {
        assert(all.skip(at as int)[0] == parts@[at as int]@);
        assert(all.skip(at as int).skip(1) =~= all.skip(at + 1));
        if parts[at].len() > 0 {
            id = parts[at].clone();
            found = true;
            assert(id@ =~= parts@[at as int]@);
        }
        at = at + 1;
    }
    let mut digits = decimal_chars(source_index as u64 + 1);
    let ghost numeral = digits@;
    while digits.len() < 4
        invariant
            padded(numeral) == padded(digits@),
        decreases 4 - digits@.len(),
    {
        let ghost before = digits@;
        digits.insert(0, '0');
        assert(digits@ =~= seq!['0'] + before);
    }
    let mut stem = string_of(digits.as_slice());
    stem.push('-');
    assert(stem@ =~= padded(numeral) + seq!['-']);
    let ghost prefix = stem@;
    for i in 0..id.len()
        invariant
            stem@ == prefix + sanitized(id@).take(i as int),
    {
        let c = id[i];
        if ('0' <= c && c <= '9') || ('A' <= c && c <= 'Z') || ('a' <= c && c <= 'z') || c == '-'
            || c == '_' {
            stem.push(c);
        } else {
            stem.push('_');
        }
        assert(sanitized(id@).take(i + 1) =~= sanitized(id@).take(i as int).push(
            sanitized(id@)[i as int],
        ));
    }
    assert(sanitized(id@).take(id@.len() as int) =~= sanitized(id@));
    stem
}

/// The texts without the white space around each.
pub open spec fn all_trimmed(parts: Seq<Seq<char>>) -> Seq<Seq<char>> {
    parts.map_values(|part: Seq<char>| text::trimmed(part))
}

/// The URLs of a list that is separated by commas and white space.
pub open spec fn listed_urls(s: Seq<char>) -> Seq<Seq<char>> {
    text::non_empty(all_trimmed(text::pieces(s, Separator::CommaOrWhiteSpace)))
}

/// Splits a list of URLs at its commas and white space.
pub fn split_urls(value: &str) -> (urls: Vec<String>)
    ensures
        text::texts(urls@) == listed_urls(value@),
{
    split_url_chars(chars_of(value).as_slice())
}

fn split_url_chars(chars: &[char]) -> (urls: Vec<String>)
    ensures
        text::texts(urls@) == listed_urls(chars@),
{
    let parts = split(chars, Separator::CommaOrWhiteSpace);
    let ghost all = all_trimmed(text::pieces(chars@, Separator::CommaOrWhiteSpace));
    let mut urls: Vec<String> = Vec::new();
    for i in 0..parts.len()
        invariant
            all == all_trimmed(text::runs(parts@)),
            text::texts(urls@) == text::non_empty(all.take(i as int)),
    {
        let url = trim(parts[i].as_slice());
        assert(url@ == all[i as int]);
        assert(all.take(i + 1).drop_last() =~= all.take(i as int));
        if url.len() > 0 {
            let ghost before = urls@;
            let text = string_of(url);
            urls.push(text);
            assert(text::texts(urls@) =~= text::texts(before).push(text@));
        }
    }
    assert(all.take(all.len() as int) =~= all);
    urls
}

/// Whether a line of a URL list holds URLs: it is neither blank nor a comment.
pub open spec fn holds_urls(line: Seq<char>) -> bool {
    line.len() > 0 && line[0] != '#'
}

/// The URLs of the lines of a URL list, in order.
pub open spec fn urls_of_lines(lines: Seq<Seq<char>>) -> Seq<Seq<char>>
    decreases lines.len(),
{
    if lines.len() == 0 {
        Seq::empty()
    } else {
        let line = text::trimmed(lines.last());
        if holds_urls(line) {
            urls_of_lines(lines.drop_last()) + listed_urls(line)
        } else {
            urls_of_lines(lines.drop_last())
        }
    }
}

/// Reads the URLs of a plain URL list: one or more per line, with `#` before a comment line.
pub fn urls_from_lines(contents: &str) -> (urls: Vec<String>)
    ensures
        text::texts(urls@) == urls_of_lines(text::lines(contents@)),
{
    let found = split_lines(chars_of(contents).as_slice());
    let ghost all = text::lines(contents@);
    let mut urls: Vec<String> = Vec::new();
    for i in 0..found.len()
        invariant
            all == text::runs(found@),
            text::texts(urls@) == urls_of_lines(all.take(i as int)),
    {
        let line = trim(found[i].as_slice());
        assert(all[i as int] == found@[i as int]@);
        assert(all.take(i + 1).drop_last() =~= all.take(i as int));
        if line.len() > 0 && line[0] != '#' {
            let ghost before = urls@;
            let mut more = split_url_chars(line);
            let ghost added = more@;
            urls.append(&mut more);
            assert(text::texts(urls@) =~= text::texts(before) + text::texts(
                added,
            ));
        }
    }
    assert(all.take(all.len() as int) =~= all);
    urls
}

/// Why a URL file yields no URLs.
#[derive(Debug, PartialEq, Eq)]
pub enum UrlFileError {
    /// The file starts like a JSON document and is none; the parser's message.
    InvalidJson(String),
    /// The document is neither an array nor an object with a `videos` array.
    NoVideos,
    /// An entry of the array is neither a string nor an object with a `url` string.
    EntryWithoutUrl,
}

/// The mathematical value of a `UrlFileError`.
pub enum UrlFileFault {
    InvalidJson(Seq<char>),
    NoVideos,
    EntryWithoutUrl,
}

impl View for UrlFileError {
    type V = UrlFileFault;

    open spec fn view(&self) -> UrlFileFault {
        match self {
            UrlFileError::InvalidJson(message) => UrlFileFault::InvalidJson(message@),
            UrlFileError::NoVideos => UrlFileFault::NoVideos,
            UrlFileError::EntryWithoutUrl => UrlFileFault::EntryWithoutUrl,
        }
    }
}

/// The entries of a manifest: its `videos` array, or else the document itself where that
/// is an array.
pub open spec fn manifest_entries(manifest: JsonTree) -> Option<Seq<JsonTree>> {
    let videos = match manifest.member("videos"@) {
        Some(value) => value.items(),
        None => None,
    };
    match videos {
        Some(items) => Some(items),
        None => manifest.items(),
    }
}

/// The URL of a manifest entry: the entry itself where it is a string, or else its `url`.
pub open spec fn entry_url(entry: JsonTree) -> Option<Seq<char>> {
    match entry.text() {
        Some(text) => Some(text),
        None => json::text_member(entry, "url"@),
    }
}

/// The URLs of a manifest, in order.
pub open spec fn manifest_urls(manifest: JsonTree) -> Result<Seq<Seq<char>>, UrlFileFault> {
    match manifest_entries(manifest) {
        None => Err(UrlFileFault::NoVideos),
        Some(entries) => if forall|i: int|
            0 <= i < entries.len() ==> entry_url(#[trigger] entries[i]) is Some {
            Ok(entries.map_values(|entry: JsonTree| entry_url(entry)->0))
        } else {
            Err(UrlFileFault::EntryWithoutUrl)
        },
    }
}

/// Whether a result of reading URLs is the given one.
pub open spec fn urls_are(
    urls: Result<Vec<String>, UrlFileError>,
    expected: Result<Seq<Seq<char>>, UrlFileFault>,
) -> bool {
    match urls {
        Ok(found) => expected == Ok::<Seq<Seq<char>>, UrlFileFault>(text::texts(found@)),
        Err(error) => expected == Err::<Seq<Seq<char>>, UrlFileFault>(error@),
    }
}

fn url_of_entry(entry: &Json) -> (url: Option<String>)
    ensures
        text_of(url) == entry_url(entry@),
{
    match entry.as_text() {
        Some(text) => Some(text.clone()),
        None => match entry.get("url") {
            Some(value) => match value.as_text() {
                Some(text) => Some(text.clone()),
                None => None,
            },
            None => None,
        },
    }
}

fn entries_of_manifest(manifest: &Json) -> (entries: Option<&Vec<Json>>)
    ensures
        match entries {
            Some(items) => manifest_entries(manifest@) == Some(json::item_trees(items@)),
            None => manifest_entries(manifest@) is None,
        },
{
    match manifest.get("videos") {
        Some(videos) => match videos.as_items() {
            Some(items) => Some(items),
            None => manifest.as_items(),
        },
        None => manifest.as_items(),
    }
}

/// Reads the URLs of a manifest.
pub fn urls_from_manifest(manifest: &Json) -> (urls: Result<Vec<String>, UrlFileError>)
    ensures
        urls_are(urls, manifest_urls(manifest@)),
{
    let entries = match entries_of_manifest(manifest) {
        Some(items) => items,
        None => {
            return Err(UrlFileError::NoVideos);
        },
    };
    let ghost trees = json::item_trees(entries@);
    let mut urls: Vec<String> = Vec::new();
    for i in 0..entries.len()
        invariant
            trees == json::item_trees(entries@),
            manifest_entries(manifest@) == Some(trees),
            urls@.len() == i,
            forall|j: int|
                0 <= j < i ==> entry_url(#[trigger] trees[j]) == Some(urls@[j]@),
    {
        assert(trees[i as int] == entries@[i as int]@);
        match url_of_entry(&entries[i]) {
            Some(url) => urls.push(url),
            None => {
                return Err(UrlFileError::EntryWithoutUrl);
            },
        }
    }
    assert(text::texts(urls@) =~= trees.map_values(
        |entry: JsonTree| entry_url(entry)->0,
    ));
    Ok(urls)
}

/// The URLs of a URL file. A file that starts with a brace or a bracket is a JSON
/// manifest, any other is a plain list.
pub open spec fn urls_of_file(contents: Seq<char>) -> Result<Seq<Seq<char>>, UrlFileFault> {
    let document = text::trimmed(contents);
    if document.len() > 0 && (document[0] == '{' || document[0] == '[') {
        match json::parsed_text(document) {
            Ok(manifest) => manifest_urls(manifest),
            Err(message) => Err(UrlFileFault::InvalidJson(message)),
        }
    } else {
        Ok(urls_of_lines(text::lines(contents)))
    }
}

/// Reads the URLs of a URL file from the file's contents.
pub fn source_urls_from_file(contents: &str) -> (urls: Result<Vec<String>, UrlFileError>)
    ensures
        urls_are(urls, urls_of_file(contents@)),
{
    let chars = chars_of(contents);
    let document = trim(chars.as_slice());
    if document.len() > 0 && (document[0] == '{' || document[0] == '[') {
        match Json::parse(string_of(document).as_str()) {
            Ok(manifest) => urls_from_manifest(&manifest),
            Err(message) => Err(UrlFileError::InvalidJson(message)),
        }
    } else {
        Ok(urls_from_lines(contents))
    }
}

/// The names of the files of a cache entry.
#[derive(Debug, PartialEq, Eq)]
pub struct CacheFileNames {
    /// The published media.
    pub media: String,
    /// The media while it is being downloaded.
    pub partial_media: String,
    /// The published metadata.
    pub metadata: String,
    /// The metadata while it is being written.
    pub partial_metadata: String,
}

/// The mathematical value of a `CacheFileNames`.
pub struct FileNames {
    pub media: Seq<char>,
    pub partial_media: Seq<char>,
    pub metadata: Seq<char>,
    pub partial_metadata: Seq<char>,
}

impl View for CacheFileNames {
    type V = FileNames;

    open spec fn view(&self) -> FileNames {
        FileNames {
            media: self.media@,
            partial_media: self.partial_media@,
            metadata: self.metadata@,
            partial_metadata: self.partial_metadata@,
        }
    }
}

/// The names of the files of a source's cache entry.
pub open spec fn entry_names(source_index: nat, url: Seq<char>) -> FileNames {
    let stem = file_stem(source_index, url);
    FileNames {
        media: stem + ".audio"@,
        partial_media: stem + ".audio.download"@,
        metadata: stem + ".json"@,
        partial_metadata: stem + ".json.part"@,
    }
}

fn named(stem: &String, extension: &str) -> (name: String)
    ensures
        name@ == stem@ + extension@,
{
    let mut name = stem.clone();
    name.append(extension);
    name
}

/// Names the files of a source's cache entry.
pub fn cache_file_names(source_index: usize, source_url: &str) -> (names: CacheFileNames)
    requires
        source_index < usize::MAX,
    ensures
        names@ == entry_names(source_index as nat, source_url@),
{
    let stem = source_file_stem(source_index, source_url);
    CacheFileNames {
        media: named(&stem, ".audio"),
        partial_media: named(&stem, ".audio.download"),
        metadata: named(&stem, ".json"),
        partial_metadata: named(&stem, ".json.part"),
    }
}

/// Why a source is not served from the cache or not put into it.
#[derive(Debug, PartialEq)]
pub enum CacheError {
    /// The metadata file is there and cannot be read; the message of the failure.
    MetadataUnreadable(String),
    /// The metadata file does not hold metadata; the parser's message.
    MetadataMalformed(String),
    /// The media file's size cannot be told; the message of the failure.
    MediaUnreadable(String),
    /// The download came without the duration of its media.
    DurationMissing,
    /// The download is not of the required media type.
    WrongMimeType { found: Option<String>, expected: String },
}

/// The mathematical value of a `CacheError`.
pub enum CacheFault {
    MetadataUnreadable(Seq<char>),
    MetadataMalformed(Seq<char>),
    MediaUnreadable(Seq<char>),
    DurationMissing,
    WrongMimeType { found: Option<Seq<char>>, expected: Seq<char> },
}

impl View for CacheError {
    type V = CacheFault;

    open spec fn view(&self) -> CacheFault {
        match self {
            CacheError::MetadataUnreadable(message) => CacheFault::MetadataUnreadable(message@),
            CacheError::MetadataMalformed(message) => CacheFault::MetadataMalformed(message@),
            CacheError::MediaUnreadable(message) => CacheFault::MediaUnreadable(message@),
            CacheError::DurationMissing => CacheFault::DurationMissing,
            CacheError::WrongMimeType { found, expected } => CacheFault::WrongMimeType {
                found: text_of(*found),
                expected: expected@,
            },
        }
    }
}

/// What reading the metadata file of a cache entry gave.
#[derive(Debug, PartialEq)]
pub enum MetadataFile {
    Missing,
    Unreadable(String),
    Malformed(String),
    Parsed(SourceMetadata),
}

/// The mathematical value of a `MetadataFile`.
pub enum MetadataState {
    Missing,
    Unreadable(Seq<char>),
    Malformed(Seq<char>),
    Parsed(Metadata),
}

impl View for MetadataFile {
    type V = MetadataState;

    open spec fn view(&self) -> MetadataState {
        match self {
            MetadataFile::Missing => MetadataState::Missing,
            MetadataFile::Unreadable(message) => MetadataState::Unreadable(message@),
            MetadataFile::Malformed(message) => MetadataState::Malformed(message@),
            MetadataFile::Parsed(metadata) => MetadataState::Parsed(metadata@),
        }
    }
}

/// What looking at the media file of a cache entry gave.
#[derive(Debug, PartialEq)]
pub enum MediaFile {
    Missing,
    Unreadable(String),
    Size(u64),
}

/// The mathematical value of a `MediaFile`.
pub enum MediaState {
    Missing,
    Unreadable(Seq<char>),
    Size(u64),
}

impl View for MediaFile {
    type V = MediaState;

    open spec fn view(&self) -> MediaState {
        match self {
            MediaFile::Missing => MediaState::Missing,
            MediaFile::Unreadable(message) => MediaState::Unreadable(message@),
            MediaFile::Size(size) => MediaState::Size(*size),
        }
    }
}

impl Metadata {
    /// Whether a media file of this size is the whole file that the metadata tells of.
    pub open spec fn describes_size(self, size: u64) -> bool {
        &&& size != 0
        &&& match self.content_length {
            Some(length) => length == size,
            None => true,
        }
    }

    /// The metadata of a cached source whose media file has this size.
    pub open spec fn cached_with_size(self, size: u64) -> Metadata {
        Metadata { content_length: Some(size), cached: true, ..self }
    }
}

/// The metadata of the cached source that the two files of an entry give for a URL and a
/// required media type. An entry of another URL, of another media type, without its media
/// file or with one of another size is none.
pub open spec fn cached_metadata(
    metadata_file: MetadataState,
    media_file: MediaState,
    url: Seq<char>,
    required: Option<Seq<char>>,
) -> Result<Option<Metadata>, CacheFault> {
    match metadata_file {
        MetadataState::Missing => Ok(None),
        MetadataState::Unreadable(message) => Err(CacheFault::MetadataUnreadable(message)),
        MetadataState::Malformed(message) => Err(CacheFault::MetadataMalformed(message)),
        MetadataState::Parsed(metadata) => if metadata.source_url != url
            || !metadata.matches_required(required) {
            Ok(None)
        } else {
            match media_file {
                MediaState::Missing => Ok(None),
                MediaState::Unreadable(message) => Err(CacheFault::MediaUnreadable(message)),
                MediaState::Size(size) => if metadata.describes_size(size) {
                    Ok(Some(metadata.cached_with_size(size)))
                } else {
                    Ok(None)
                },
            }
        },
    }
}

/// Opens the cache entry of a source: given what its two files are, tells the cached source
/// that they hold for this URL, if any.
pub fn open_cached_source(
    metadata_file: MetadataFile,
    media_file: MediaFile,
    media_path: PathBuf,
    source_url: &str,
    required: &Option<String>,
) -> (opened: Result<Option<CachedSource>, CacheError>)
    ensures
        match opened {
            Ok(Some(source)) => {
                &&& cached_metadata(metadata_file@, media_file@, source_url@, text_of(*required))
                    == Ok::<Option<Metadata>, CacheFault>(Some(source.metadata@))
                &&& source.media_path == media_path
            },
            Ok(None) => cached_metadata(
                metadata_file@,
                media_file@,
                source_url@,
                text_of(*required),
            ) == Ok::<Option<Metadata>, CacheFault>(None),
            Err(error) => cached_metadata(
                metadata_file@,
                media_file@,
                source_url@,
                text_of(*required),
            ) == Err::<Option<Metadata>, CacheFault>(error@),
        },
{
    let mut metadata = match metadata_file {
        MetadataFile::Missing => {
            return Ok(None);
        },
        MetadataFile::Unreadable(message) => {
            return Err(CacheError::MetadataUnreadable(message));
        },
        MetadataFile::Malformed(message) => {
            return Err(CacheError::MetadataMalformed(message));
        },
        MetadataFile::Parsed(metadata) => metadata,
    };
    if !same_text(metadata.source_url.as_str(), source_url) {
        return Ok(None);
    }
    if !metadata_matches_required_mime_type(&metadata, required) {
        return Ok(None);
    }
    let size = match media_file {
        MediaFile::Missing => {
            return Ok(None);
        },
        MediaFile::Unreadable(message) => {
            return Err(CacheError::MediaUnreadable(message));
        },
        MediaFile::Size(size) => size,
    };
    if size == 0 {
        return Ok(None);
    }
    if let Some(length) = metadata.content_length {
        if length != size {
            return Ok(None);
        }
    }
    metadata.content_length = Some(size);
    metadata.cached = true;
    Ok(Some(CachedSource { metadata, media_path }))
}

/// What the resolver tells of a finished download.
#[derive(Debug, PartialEq)]
pub struct DownloadedAudio {
    pub duration_seconds: Option<u64>,
    pub content_length: u64,
    pub mime_type: Option<String>,
    pub resolver: String,
    pub itag: Option<u64>,
}

/// The mathematical value of a `DownloadedAudio`.
pub struct Download {
    pub duration_seconds: Option<u64>,
    pub content_length: u64,
    pub mime_type: Option<Seq<char>>,
    pub resolver: Seq<char>,
    pub itag: Option<u64>,
}

impl View for DownloadedAudio {
    type V = Download;

    open spec fn view(&self) -> Download {
        Download {
            duration_seconds: self.duration_seconds,
            content_length: self.content_length,
            mime_type: text_of(self.mime_type),
            resolver: self.resolver@,
            itag: self.itag,
        }
    }
}

/// The steps that make way for a download.
pub open spec fn preparation(names: FileNames) -> Seq<Step> {
    seq![Step::Remove(names.partial_media), Step::Remove(names.partial_metadata)]
}

/// The steps that publish a download: the media first, and then, written aside and renamed,
/// its metadata.
pub open spec fn publication(names: FileNames, metadata: Metadata) -> Seq<Step> {
    seq![
        Step::Rename(names.partial_media, names.media),
        Step::WriteMetadata(names.partial_metadata, metadata),
        Step::Rename(names.partial_metadata, names.metadata),
    ]
}

/// How a source gets into the cache.
#[derive(Debug)]
pub enum CachePlan {
    /// It is there already.
    Reuse(CachedSource),
    /// It is downloaded to the name of the partial media, after these steps.
    Download { names: CacheFileNames, steps: Vec<FileStep> },
}

/// Plans how a source gets into the cache, given the cached source that was opened, if any.
pub fn ensure_cached_source(
    source_index: usize,
    source_url: &str,
    opened: Option<CachedSource>,
) -> (plan: CachePlan)
    requires
        source_index < usize::MAX,
    ensures
        match plan {
            CachePlan::Reuse(source) => opened == Some(source),
            CachePlan::Download { names, steps } => {
                &&& opened is None
                &&& names@ == entry_names(source_index as nat, source_url@)
                &&& steps_of(steps@) == preparation(names@)
            },
        },
{
    match opened {
        Some(source) => CachePlan::Reuse(source),
        None => {
            let names = cache_file_names(source_index, source_url);
            let mut steps: Vec<FileStep> = Vec::new();
            steps.push(FileStep::Remove(names.partial_media.clone()));
            steps.push(FileStep::Remove(names.partial_metadata.clone()));
            assert(steps_of(steps@) =~= preparation(names@));
            CachePlan::Download { names, steps }
        },
    }
}

/// A download that is ready to be published: its metadata, and the steps that publish it.
#[derive(Debug, PartialEq)]
pub struct Publication {
    pub metadata: SourceMetadata,
    pub steps: Vec<FileStep>,
}

/// The metadata of a download of known duration.
pub open spec fn download_metadata(
    url: Seq<char>,
    download: Download,
    duration_seconds: u64,
) -> Metadata {
    Metadata {
        source_url: url,
        duration_seconds,
        content_length: Some(download.content_length),
        content_type: download.mime_type,
        source_mime_type: download.mime_type,
        resolver: download.resolver,
        itag: download.itag,
        cached: true,
    }
}

/// The metadata under which a download is published. One without a duration, or not of the
/// required media type, is not published.
pub open spec fn published_metadata(
    url: Seq<char>,
    download: Download,
    required: Option<Seq<char>>,
) -> Result<Metadata, CacheFault> {
    match download.duration_seconds {
        None => Err(CacheFault::DurationMissing),
        Some(duration_seconds) => {
            let metadata = download_metadata(url, download, duration_seconds);
            if metadata.matches_required(required) {
                Ok(metadata)
            } else {
                Err(CacheFault::WrongMimeType { found: download.mime_type, expected: required->0 })
            }
        },
    }
}

/// Plans how a finished download is published.
pub fn publish_download(
    source_index: usize,
    source_url: &str,
    downloaded: DownloadedAudio,
    required: &Option<String>,
) -> (planned: Result<Publication, CacheError>)
    requires
        source_index < usize::MAX,
    ensures
        match planned {
            Ok(published) => {
                &&& published_metadata(source_url@, downloaded@, text_of(*required)) == Ok::<
                    Metadata,
                    CacheFault,
                >(published.metadata@)
                &&& steps_of(published.steps@) == publication(
                    entry_names(source_index as nat, source_url@),
                    published.metadata@,
                )
            },
            Err(error) => published_metadata(source_url@, downloaded@, text_of(*required)) == Err::<
                Metadata,
                CacheFault,
            >(error@),
        },
{
    let duration_seconds = match downloaded.duration_seconds {
        Some(duration) => duration,
        None => {
            return Err(CacheError::DurationMissing);
        },
    };
    let metadata = SourceMetadata {
        source_url: string_of(chars_of(source_url).as_slice()),
        duration_seconds,
        content_length: Some(downloaded.content_length),
        content_type: copy_text(&downloaded.mime_type),
        source_mime_type: downloaded.mime_type,
        resolver: downloaded.resolver,
        itag: downloaded.itag,
        cached: true,
    };
    if let Some(mime_type) = required {
        if !metadata_has_mime_type(&metadata, mime_type.as_str()) {
            return Err(
                CacheError::WrongMimeType {
                    found: metadata.source_mime_type,
                    expected: mime_type.clone(),
                },
            );
        }
    }
    let names = cache_file_names(source_index, source_url);
    let mut steps: Vec<FileStep> = Vec::new();
    steps.push(FileStep::Rename { from: names.partial_media, to: names.media });
    steps.push(
        FileStep::WriteMetadata {
            to: names.partial_metadata.clone(),
            metadata: metadata.clone(),
        },
    );
    steps.push(FileStep::Rename { from: names.partial_metadata, to: names.metadata });
    assert(steps_of(steps@) =~= publication(
        entry_names(source_index as nat, source_url@),
        metadata@,
    ));
    Ok(Publication { metadata, steps })
}

} // verus!
