//! Reports: the rows that a run writes, and the sources that a report tells of as completed.

use crate::json::{self, Json, JsonTree};
use crate::research_cache::{text_of, Metadata, SourceMetadata};
use crate::settings::{Benchmark, BenchmarkSettings};
use crate::text::{self, chars_of, count_words, same_text, split_lines, string_of, trim};
use vstd::prelude::*;

verus! {

/// Why a report cannot be read.
#[derive(Debug, PartialEq, Eq)]
pub struct ReportError {
    /// The number of the line that is no JSON document, counted from one.
    pub line: usize,
    /// The parser's message.
    pub message: String,
}

/// The mathematical value of a `ReportError`.
pub struct ReportFault {
    pub line: nat,
    pub message: Seq<char>,
}

impl View for ReportError {
    type V = ReportFault;

    open spec fn view(&self) -> ReportFault {
        ReportFault { line: self.line as nat, message: self.message@ }
    }
}

/// The source that a row tells of as completed. A row whose status is a text other than `ok`
/// tells of none.
pub open spec fn completed_url(row: JsonTree) -> Option<Seq<char>> {
    match json::text_member(row, "status"@) {
        Some(status) => if status == "ok"@ {
            json::text_member(row, "source_url"@)
        } else {
            None
        },
        None => json::text_member(row, "source_url"@),
    }
}

/// The sources that the lines of a report tell of as completed; or else the first line that
/// is neither blank nor a JSON document.
pub open spec fn completed(lines: Seq<Seq<char>>) -> Result<Set<Seq<char>>, ReportFault>
    decreases lines.len(),
{
    if lines.len() == 0 {
        Ok(Set::empty())
    } else {
        match completed(lines.drop_last()) {
            Err(fault) => Err(fault),
            Ok(before) => if text::trimmed(lines.last()).len() == 0 {
                Ok(before)
            } else {
                match json::parsed_text(lines.last()) {
                    Err(message) => Err(ReportFault { line: lines.len(), message }),
                    Ok(row) => match completed_url(row) {
                        Some(url) => Ok(before.insert(url)),
                        None => Ok(before),
                    },
                }
            },
        }
    }
}

/// A set of completed sources.
#[derive(Debug)]
pub struct CompletedSources {
    urls: Vec<String>,
}

impl View for CompletedSources {
    type V = Set<Seq<char>>;

    closed spec fn view(&self) -> Set<Seq<char>> {
        text::texts(self.urls@).to_set()
    }
}

impl CompletedSources {
    /// No URL is kept twice.
    pub closed spec fn well_formed(self) -> bool {
        text::texts(self.urls@).no_duplicates()
    }

    /// The empty set.
    pub fn new() -> (sources: CompletedSources)
        ensures
            sources.well_formed(),
            sources@ == Set::<Seq<char>>::empty(),
    {
        let sources = CompletedSources { urls: Vec::new() };
        assert(sources@ =~= Set::<Seq<char>>::empty());
        sources
    }

    /// Whether a source is completed.
    pub fn contains(&self, url: &str) -> (found: bool)
        ensures
            found == self@.contains(url@),
    {
        let ghost all = text::texts(self.urls@);
        for i in 0..self.urls.len()
            invariant
                all == text::texts(self.urls@),
                forall|j: int| 0 <= j < i ==> #[trigger] all[j] != url@,
        {
            assert(all[i as int] == self.urls@[i as int]@);
            if same_text(self.urls[i].as_str(), url) {
                assert(all.contains(url@));
                return true;
            }
        }
        assert(!all.contains(url@));
        false
    }

    /// Adds a source, and tells whether it was missing.
    pub fn insert(&mut self, url: String) -> (missing: bool)
        requires
            old(self).well_formed(),
        ensures
            final(self).well_formed(),
            final(self)@ == old(self)@.insert(url@),
            missing == !old(self)@.contains(url@),
    {
        let ghost before = text::texts(self.urls@);
        if self.contains(url.as_str()) {
            assert(before.to_set().insert(url@) =~= before.to_set());
            return false;
        }
        self.urls.push(url);
        let ghost after = text::texts(self.urls@);
        proof {
            assert(after =~= before.push(url@));
            assert(!before.contains(url@));
            assert forall|candidate: Seq<char>| after.to_set().contains(candidate)
                == before.to_set().insert(url@).contains(candidate) by {
                if before.contains(candidate) {
                    let at = choose|i: int| 0 <= i < before.len() && before[i] == candidate;
                    assert(after[at] == candidate);
                }
                if candidate == url@ {
                    assert(after[before.len() as int] == candidate);
                }
                if after.contains(candidate) {
                    let at = choose|i: int| 0 <= i < after.len() && after[i] == candidate;
                    if at < before.len() {
                        assert(before[at] == candidate);
                    }
                }
            }
            assert(after.to_set() =~= before.to_set().insert(url@));
            assert(after.no_duplicates());
        }
        true
    }
}

fn completed_url_of(row: &Json) -> (url: Option<String>)
    ensures
        text_of(url) == completed_url(row@),
{
    if let Some(value) = row.get("status") {
        if let Some(status) = value.as_text() {
            if !same_text(status.as_str(), "ok") {
                return None;
            }
        }
    }
    match row.get("source_url") {
        Some(value) => match value.as_text() {
            Some(url) => Some(url.clone()),
            None => None,
        },
        None => None,
    }
}

/// Reads from the contents of a report which sources are completed.
pub fn completed_sources(contents: &str) -> (sources: Result<CompletedSources, ReportError>)
    ensures
        match sources {
            Ok(found) => {
                &&& completed(text::lines(contents@)) == Ok::<Set<Seq<char>>, ReportFault>(found@)
                &&& found.well_formed()
            },
            Err(error) => completed(text::lines(contents@)) == Err::<Set<Seq<char>>, ReportFault>(
                error@,
            ),
        },
{
    let found = split_lines(chars_of(contents).as_slice());
    let ghost all = text::lines(contents@);
    let mut sources = CompletedSources::new();
    for i in 0..found.len()
        invariant
            all == text::runs(found@),
            all == text::lines(contents@),
            sources.well_formed(),
            completed(all.take(i as int)) == Ok::<Set<Seq<char>>, ReportFault>(sources@),
    {
        let line = found[i].as_slice();
        assert(all[i as int] == line@);
        assert(all.take(i + 1).drop_last() =~= all.take(i as int));
        if trim(line).len() > 0 {
            match Json::parse(string_of(line).as_str()) {
                Ok(row) => match completed_url_of(&row) {
                    Some(url) => {
                        sources.insert(url);
                    },
                    None => {},
                },
                Err(message) => {
                    proof {
                        lemma_fault_stays(all, i + 1);
                    }
                    return Err(ReportError { line: i + 1, message });
                },
            }
        }
    }
    assert(all.take(all.len() as int) =~= all);
    Ok(sources)
}

proof fn lemma_fault_stays(lines: Seq<Seq<char>>, length: int)
    requires
        0 <= length <= lines.len(),
        completed(lines.take(length)) is Err,
    ensures
        completed(lines) == completed(lines.take(length)),
    decreases lines.len(),
{
    if length == lines.len() {
        assert(lines.take(length) =~= lines);
    } else {
        assert(lines.drop_last().take(length) =~= lines.take(length));
        lemma_fault_stays(lines.drop_last(), length);
    }
}

/// The document of an optional text.
pub open spec fn optional_text(value: Option<Seq<char>>) -> JsonTree {
    match value {
        Some(text) => JsonTree::Text(text),
        None => JsonTree::Null,
    }
}

/// The document of an optional number.
pub open spec fn optional_count(value: Option<u64>) -> JsonTree {
    match value {
        Some(number) => JsonTree::Number(text::decimal(number as nat)),
        None => JsonTree::Null,
    }
}

/// The document of a list of numbers.
pub open spec fn count_list(numbers: Seq<usize>) -> JsonTree {
    JsonTree::Array(
        numbers.map_values(|number: usize| JsonTree::Number(text::decimal(number as nat))),
    )
}

fn text_or_null(value: &Option<String>) -> (json: Json)
    ensures
        json@ == optional_text(text_of(*value)),
{
    match value {
        Some(text) => Json::string(text.as_str()),
        None => Json::Null,
    }
}

fn count_or_null(value: Option<u64>) -> (json: Json)
    ensures
        json@ == optional_count(value),
{
    match value {
        Some(number) => Json::count(number),
        None => Json::Null,
    }
}

fn counts(numbers: &Vec<usize>) -> (json: Json)
    ensures
        json@ == count_list(numbers@),
{
    let mut items: Vec<Json> = Vec::new();
    let ghost trees = numbers@.map_values(
        |number: usize| JsonTree::Number(text::decimal(number as nat)),
    );
    for i in 0..numbers.len()
        invariant
            trees == numbers@.map_values(
                |number: usize| JsonTree::Number(text::decimal(number as nat)),
            ),
            json::item_trees(items@) == trees.take(i as int),
    {
        let ghost before = items@;
        let item = Json::count(numbers[i] as u64);
        items.push(item);
        assert(json::item_trees(items@) =~= json::item_trees(before).push(item@));
        assert(trees.take(i + 1) =~= trees.take(i as int).push(trees[i as int]));
    }
    assert(trees.take(trees.len() as int) =~= trees);
    Json::Array(items)
}

fn put(members: &mut Vec<(String, Json)>, key: &str, value: Json)
    ensures
        json::entry_trees(final(members)@) == json::entry_trees(old(members)@).push(
            (key@, value@),
        ),
{
    let ghost before = members@;
    members.push((key.to_owned(), value));
    assert(json::entry_trees(members@) =~= json::entry_trees(before).push((key@, value@)));
}

/// The members of a row that tell of the settings of the run.
pub open spec fn settings_members(settings: Benchmark) -> Seq<(Seq<char>, JsonTree)> {
    seq![
        ("asr_backend"@, JsonTree::Text(settings.backend)),
        ("device_ids"@, count_list(settings.device_ids)),
        ("onnx_sessions"@, JsonTree::Number(text::decimal(settings.onnx_sessions))),
        ("asr_concurrency"@, JsonTree::Number(text::decimal(settings.asr_concurrency))),
        ("worker_instances"@, JsonTree::Number(text::decimal(settings.worker_instances))),
    ]
}

fn put_settings(members: &mut Vec<(String, Json)>, settings: &BenchmarkSettings)
    ensures
        json::entry_trees(final(members)@) == json::entry_trees(old(members)@) + settings_members(
            settings@,
        ),
{
    let ghost before = json::entry_trees(members@);
    put(members, "asr_backend", Json::string(settings.backend.as_str()));
    put(members, "device_ids", counts(&settings.device_ids));
    put(members, "onnx_sessions", Json::count(settings.onnx_sessions as u64));
    put(members, "asr_concurrency", Json::count(settings.asr_concurrency as u64));
    put(members, "worker_instances", Json::count(settings.worker_instances as u64));
    assert(json::entry_trees(members@) =~= before + settings_members(settings@));
}

/// A source that was transcribed.
pub struct Transcribed {
    pub index: nat,
    pub metadata: Metadata,
    /// How many sources the run has transcribed, this one included.
    pub processed: nat,
    pub transcript: Seq<char>,
    pub transcript_path: Option<Seq<char>>,
}

/// The members of the row of a transcribed source: what was measured, the settings, and what
/// is known of the source and its transcript.
pub open spec fn success_members(
    source: Transcribed,
    url: Seq<char>,
    settings: Benchmark,
    measurements: Seq<(Seq<char>, JsonTree)>,
) -> Seq<(Seq<char>, JsonTree)> {
    measurements + settings_members(settings) + seq![
        ("metrics_schema"@, JsonTree::Number(text::decimal(2))),
        ("index"@, JsonTree::Number(text::decimal(source.index))),
        ("run_processed_sources"@, JsonTree::Number(text::decimal(source.processed))),
        ("content_length"@, optional_count(source.metadata.content_length)),
        ("content_type"@, optional_text(source.metadata.content_type)),
        ("source_mime_type"@, optional_text(source.metadata.source_mime_type)),
        ("resolver"@, JsonTree::Text(source.metadata.resolver)),
        ("itag"@, optional_count(source.metadata.itag)),
        ("cached_audio"@, JsonTree::Bool(source.metadata.cached)),
        ("transport"@, JsonTree::Text("in-process"@)),
        ("transcript_chars"@, JsonTree::Number(text::decimal(source.transcript.len()))),
        (
            "transcript_words"@,
            JsonTree::Number(text::decimal(text::word_count(source.transcript))),
        ),
        ("transcript_path"@, optional_text(source.transcript_path)),
        ("source_url"@, JsonTree::Text(url)),
        ("status"@, JsonTree::Text("ok"@)),
    ]
}

/// The row of a transcribed source.
pub open spec fn success(
    source: Transcribed,
    url: Seq<char>,
    settings: Benchmark,
    measurements: Seq<(Seq<char>, JsonTree)>,
) -> JsonTree {
    JsonTree::Object(json::collected(success_members(source, url, settings, measurements)))
}

/// Makes the row of a transcribed source.
pub fn success_row(
    index: usize,
    source_url: &str,
    metadata: &SourceMetadata,
    processed: usize,
    transcript: &str,
    transcript_path: &Option<String>,
    settings: &BenchmarkSettings,
    measurements: Vec<(String, Json)>,
) -> (row: Json)
    ensures
        row@ == success(
            Transcribed {
                index: index as nat,
                metadata: metadata@,
                processed: processed as nat,
                transcript: transcript@,
                transcript_path: text_of(*transcript_path),
            },
            source_url@,
            settings@,
            json::entry_trees(measurements@),
        ),
{
    let ghost measured = json::entry_trees(measurements@);
    let ghost source = Transcribed {
        index: index as nat,
        metadata: metadata@,
        processed: processed as nat,
        transcript: transcript@,
        transcript_path: text_of(*transcript_path),
    };
    let chars = chars_of(transcript);
    let words = count_words(chars.as_slice());
    let mut members = measurements;
    put_settings(&mut members, settings);
    put(&mut members, "metrics_schema", Json::count(2));
    put(&mut members, "index", Json::count(index as u64));
    put(&mut members, "run_processed_sources", Json::count(processed as u64));
    put(&mut members, "content_length", count_or_null(metadata.content_length));
    put(&mut members, "content_type", text_or_null(&metadata.content_type));
    put(&mut members, "source_mime_type", text_or_null(&metadata.source_mime_type));
    put(&mut members, "resolver", Json::string(metadata.resolver.as_str()));
    put(&mut members, "itag", count_or_null(metadata.itag));
    put(&mut members, "cached_audio", Json::Bool(metadata.cached));
    put(&mut members, "transport", Json::string("in-process"));
    put(&mut members, "transcript_chars", Json::count(chars.len() as u64));
    put(&mut members, "transcript_words", Json::count(words as u64));
    put(&mut members, "transcript_path", text_or_null(transcript_path));
    put(&mut members, "source_url", Json::string(source_url));
    put(&mut members, "status", Json::string("ok"));
    assert(json::entry_trees(members@) =~= success_members(
        source,
        source_url@,
        settings@,
        measured,
    ));
    Json::Object(members)
}

/// The members of the row of a source that failed.
pub open spec fn failure_members(
    index: nat,
    url: Seq<char>,
    error: Seq<char>,
    measurements: Seq<(Seq<char>, JsonTree)>,
) -> Seq<(Seq<char>, JsonTree)> {
    measurements + seq![
        ("index"@, JsonTree::Number(text::decimal(index))),
        ("error"@, JsonTree::Text(error)),
        ("source_url"@, JsonTree::Text(url)),
        ("status"@, JsonTree::Text("error"@)),
    ]
}

fn put_failure(members: &mut Vec<(String, Json)>, index: usize, source_url: &str, error: &str)
    ensures
        json::entry_trees(final(members)@) == failure_members(
            index as nat,
            source_url@,
            error@,
            json::entry_trees(old(members)@),
        ),
{
    let ghost before = json::entry_trees(members@);
    put(members, "index", Json::count(index as u64));
    put(members, "error", Json::string(error));
    put(members, "source_url", Json::string(source_url));
    put(members, "status", Json::string("error"));
    assert(json::entry_trees(members@) =~= failure_members(
        index as nat,
        source_url@,
        error@,
        before,
    ));
}

/// The row of a source that a sweep failed on.
pub open spec fn failure(
    index: nat,
    url: Seq<char>,
    error: Seq<char>,
    settings: Benchmark,
    wall_seconds: JsonTree,
) -> JsonTree {
    JsonTree::Object(
        json::collected(
            failure_members(
                index,
                url,
                error,
                seq![("wall_seconds"@, wall_seconds)] + settings_members(settings),
            ),
        ),
    )
}

/// Makes the row of a source that a sweep failed on.
pub fn failure_row(
    index: usize,
    source_url: &str,
    error: &str,
    settings: &BenchmarkSettings,
    wall_seconds: Json,
) -> (row: Json)
    ensures
        row@ == failure(index as nat, source_url@, error@, settings@, wall_seconds@),
{
    let ghost measured = wall_seconds@;
    let mut members: Vec<(String, Json)> = Vec::new();
    put(&mut members, "wall_seconds", wall_seconds);
    put_settings(&mut members, settings);
    assert(json::entry_trees(members@) =~= seq![("wall_seconds"@, measured)] + settings_members(
        settings@,
    ));
    put_failure(&mut members, index, source_url, error);
    Json::Object(members)
}

/// The row of a source that could not be cached.
pub open spec fn cache_failure(index: nat, url: Seq<char>, error: Seq<char>) -> JsonTree {
    JsonTree::Object(json::collected(failure_members(index, url, error, Seq::empty())))
}

/// Makes the row of a source that could not be cached.
pub fn cache_failure_row(index: usize, source_url: &str, error: &str) -> (row: Json)
    ensures
        row@ == cache_failure(index as nat, source_url@, error@),
{
    let mut members: Vec<(String, Json)> = Vec::new();
    assert(json::entry_trees(members@) =~= Seq::<(Seq<char>, JsonTree)>::empty());
    put_failure(&mut members, index, source_url, error);
    Json::Object(members)
}

/// The members of the row of a cached source. A media file of unknown size counts as empty.
pub open spec fn cached_members(
    index: nat,
    url: Seq<char>,
    metadata: Metadata,
    reused: bool,
    measurements: Seq<(Seq<char>, JsonTree)>,
) -> Seq<(Seq<char>, JsonTree)> {
    measurements + seq![
        ("index"@, JsonTree::Number(text::decimal(index))),
        ("reused"@, JsonTree::Bool(reused)),
        ("duration_seconds"@, JsonTree::Number(text::decimal(metadata.duration_seconds as nat))),
        (
            "content_length"@,
            JsonTree::Number(
                text::decimal(
                    match metadata.content_length {
                        Some(length) => length as nat,
                        None => 0,
                    },
                ),
            ),
        ),
        ("itag"@, optional_count(metadata.itag)),
        ("mime_type"@, optional_text(metadata.source_mime_type)),
        ("source_url"@, JsonTree::Text(url)),
        ("status"@, JsonTree::Text("ok"@)),
    ]
}

/// The row of a cached source.
pub open spec fn cached(
    index: nat,
    url: Seq<char>,
    metadata: Metadata,
    reused: bool,
    measurements: Seq<(Seq<char>, JsonTree)>,
) -> JsonTree {
    JsonTree::Object(json::collected(cached_members(index, url, metadata, reused, measurements)))
}

/// Makes the row of a cached source.
pub fn cached_row(
    index: usize,
    source_url: &str,
    metadata: &SourceMetadata,
    reused: bool,
    measurements: Vec<(String, Json)>,
) -> (row: Json)
    ensures
        row@ == cached(
            index as nat,
            source_url@,
            metadata@,
            reused,
            json::entry_trees(measurements@),
        ),
{
    let ghost measured = json::entry_trees(measurements@);
    let length = match metadata.content_length {
        Some(length) => length,
        None => 0,
    };
    let mut members = measurements;
    put(&mut members, "index", Json::count(index as u64));
    put(&mut members, "reused", Json::Bool(reused));
    put(&mut members, "duration_seconds", Json::count(metadata.duration_seconds));
    put(&mut members, "content_length", Json::count(length));
    put(&mut members, "itag", count_or_null(metadata.itag));
    put(&mut members, "mime_type", text_or_null(&metadata.source_mime_type));
    put(&mut members, "source_url", Json::string(source_url));
    put(&mut members, "status", Json::string("ok"));
    assert(json::entry_trees(members@) =~= cached_members(
        index as nat,
        source_url@,
        metadata@,
        reused,
        measured,
    ));
    Json::Object(members)
}

proof fn lemma_last_two_members(
    before: Seq<(Seq<char>, JsonTree)>,
    url: Seq<char>,
    status: Seq<char>,
)
    ensures
        ({
            let row = JsonTree::Object(
                json::collected(
                    before.push(("source_url"@, JsonTree::Text(url))).push(
                        ("status"@, JsonTree::Text(status)),
                    ),
                ),
            );
            &&& json::text_member(row, "status"@) == Some(status)
            &&& json::text_member(row, "source_url"@) == Some(url)
        }),
{
    reveal_strlit("source_url");
    reveal_strlit("status");
    let with_url = before.push(("source_url"@, JsonTree::Text(url)));
    let all = with_url.push(("status"@, JsonTree::Text(status)));
    assert(all.drop_last() =~= with_url);
    assert(with_url.drop_last() =~= before);
    assert("source_url"@.len() != "status"@.len());
    let earlier = json::collected(with_url);
    assert(earlier == json::collected(before).insert("source_url"@, JsonTree::Text(url)));
    let entries = json::collected(all);
    assert(entries == earlier.insert("status"@, JsonTree::Text(status)));
    assert(entries.dom().contains("source_url"@));
    assert(entries["source_url"@] == JsonTree::Text(url));
    assert(JsonTree::Object(entries).member("source_url"@) == Some(JsonTree::Text(url)));
    assert(JsonTree::Object(entries).member("status"@) == Some(JsonTree::Text(status)));
}

proof fn lemma_appended_row(contents: Seq<char>, row: JsonTree, line: Seq<char>)
    requires
        text::ends_in_line_feed(contents),
        completed(text::lines(contents)) is Ok,
        json::is_line_of(line, row),
        json::flat(row),
    ensures
        completed(text::lines(contents + line.push('\n'))) == match completed_url(row) {
            Some(url) => Ok::<Set<Seq<char>>, ReportFault>(
                completed(text::lines(contents))->Ok_0.insert(url),
            ),
            None => completed(text::lines(contents)),
        },
{
    text::lemma_appended_line(contents, line);
    let all = text::lines(contents).push(line);
    assert(all.drop_last() =~= text::lines(contents));
    text::lemma_clean_is_trimmed(line);
    let back = json::parsed_text(line)->Ok_0;
    assert(json::text_member(back, "status"@) == json::text_member(row, "status"@));
    assert(json::text_member(back, "source_url"@) == json::text_member(row, "source_url"@));
}

/// Whether what was measured can stand in a row: each value is a scalar or a list of scalars.
pub open spec fn plain_members(members: Seq<(Seq<char>, JsonTree)>) -> bool {
    forall|i: int| 0 <= i < members.len() ==> json::plain(#[trigger] members[i].1)
}

/// Once the row of a transcribed source is appended to a report, the report tells of that
/// source as completed, and of the others as before: a run that is resumed skips it.
pub proof fn law_reported_source_is_completed(
    contents: Seq<char>,
    source: Transcribed,
    url: Seq<char>,
    settings: Benchmark,
    measurements: Seq<(Seq<char>, JsonTree)>,
    line: Seq<char>,
)
    requires
        text::ends_in_line_feed(contents),
        completed(text::lines(contents)) is Ok,
        plain_members(measurements),
        json::is_line_of(line, success(source, url, settings, measurements)),
    ensures
        completed(text::lines(contents + line.push('\n'))) == Ok::<Set<Seq<char>>, ReportFault>(
            completed(text::lines(contents))->Ok_0.insert(url),
        ),
        text::ends_in_line_feed(contents + line.push('\n')),
{
    let members = success_members(source, url, settings, measurements);
    assert(json::plain(count_list(settings.device_ids)));
    assert forall|i: int| 0 <= i < members.len() implies json::plain(#[trigger] members[i].1) by {
        if i < measurements.len() {
            assert(members[i] == measurements[i]);
        } else if i < measurements.len() + 5 {
            assert(members[i] == settings_members(settings)[i - measurements.len()]);
        }
    }
    json::lemma_collected_is_plain(members);
    let before = members.drop_last().drop_last();
    assert(members =~= before.push(("source_url"@, JsonTree::Text(url))).push(
        ("status"@, JsonTree::Text("ok"@)),
    ));
    lemma_last_two_members(before, url, "ok"@);
    lemma_appended_row(contents, success(source, url, settings, measurements), line);
    text::lemma_appended_line(contents, line);
}

/// The row of a source that a sweep failed on completes nothing: a run that is resumed tries
/// that source again.
pub proof fn law_failed_source_is_not_completed(
    contents: Seq<char>,
    index: nat,
    url: Seq<char>,
    error: Seq<char>,
    settings: Benchmark,
    wall_seconds: JsonTree,
    line: Seq<char>,
)
    requires
        text::ends_in_line_feed(contents),
        completed(text::lines(contents)) is Ok,
        json::plain(wall_seconds),
        json::is_line_of(line, failure(index, url, error, settings, wall_seconds)),
    ensures
        completed(text::lines(contents + line.push('\n'))) == completed(text::lines(contents)),
        text::ends_in_line_feed(contents + line.push('\n')),
{
    let measured = seq![("wall_seconds"@, wall_seconds)] + settings_members(settings);
    let members = failure_members(index, url, error, measured);
    assert(json::plain(count_list(settings.device_ids)));
    assert forall|i: int| 0 <= i < members.len() implies json::plain(#[trigger] members[i].1) by {
        if 0 < i < 6 {
            assert(members[i] == settings_members(settings)[i - 1]);
        }
    }
    json::lemma_collected_is_plain(members);
    let before = members.drop_last().drop_last();
    assert(members =~= before.push(("source_url"@, JsonTree::Text(url))).push(
        ("status"@, JsonTree::Text("error"@)),
    ));
    lemma_last_two_members(before, url, "error"@);
    reveal_strlit("error");
    reveal_strlit("ok");
    assert("error"@.len() != "ok"@.len());
    lemma_appended_row(contents, failure(index, url, error, settings, wall_seconds), line);
    text::lemma_appended_line(contents, line);
}

} // verus!
