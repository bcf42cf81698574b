//! A research sweep: its sources, where their audio comes from, what becomes of their
//! transcripts, and when the sweep goes on, stops or has succeeded.

use crate::files::{after_step, after_steps, steps_of, FileStep, MetadataFormat, Step};
use crate::research_cache::{
    file_stem, listed_urls, source_file_stem, source_urls_from_file, split_urls, text_of,
    urls_of_file, CachedSource, Metadata, SourceMetadata, UrlFileError, UrlFileFault,
};
use crate::text::{
    self, chars_of, contains_text, count_words, parse_u64, same_chars, split, string_of,
    to_lower_case, trim, Separator,
};
use vstd::prelude::*;
use vstd::utf8::encode_utf8;

verus! {

/// The fields of a content type, in lower case and without the white space around each.
pub open spec fn content_fields(content_type: Seq<char>) -> Seq<Seq<char>> {
    text::pieces(content_type, Separator::Semicolon).map_values(
        |field: Seq<char>| text::lower_case(text::trimmed(field)),
    )
}

/// Whether a content type is raw audio of one channel of 16-bit samples at 16 kHz.
pub open spec fn benchmark_pcm(content_type: Seq<char>) -> bool {
    let fields = content_fields(content_type);
    &&& fields[0] == "audio/x-raw"@
    &&& fields.skip(1).contains("format=s16le"@)
    &&& fields.skip(1).contains("rate=16000"@)
    &&& fields.skip(1).contains("channels=1"@)
}

fn fields_contain(fields: &Vec<Vec<char>>, wanted: &str) -> (found: bool)
    requires
        fields@.len() > 0,
    ensures
        found == text::runs(fields@).skip(1).contains(wanted@),
{
    let chars = chars_of(wanted);
    let ghost all = text::runs(fields@);
    for i in 1..fields.len()
        invariant
            all == text::runs(fields@),
            chars@ == wanted@,
            forall|j: int| 1 <= j < i ==> #[trigger] all[j] != wanted@,
    {
        assert(all[i as int] == fields@[i as int]@);
        if same_chars(fields[i].as_slice(), chars.as_slice()) {
            assert(all.skip(1)[i - 1] == wanted@);
            return true;
        }
    }
    assert forall|j: int| 0 <= j < all.skip(1).len() implies #[trigger] all.skip(1)[j]
        != wanted@ by {
        assert(all.skip(1)[j] == all[j + 1]);
    }
    false
}

/// Whether a content type is the raw audio format of the benchmark.
pub fn is_s16le_16khz_mono(content_type: &str) -> (found: bool)
    ensures
        found == benchmark_pcm(content_type@),
{
    let cut = split(chars_of(content_type).as_slice(), Separator::Semicolon);
    let ghost all = content_fields(content_type@);
    let mut fields: Vec<Vec<char>> = Vec::new();
    for i in 0..cut.len()
        invariant
            text::runs(cut@) == text::pieces(content_type@, Separator::Semicolon),
            all == content_fields(content_type@),
            text::runs(fields@) == all.take(i as int),
    {
        let ghost before = fields@;
        assert(text::runs(cut@)[i as int] == cut@[i as int]@);
        let field = to_lower_case(trim(cut[i].as_slice()));
        fields.push(field);
        assert(text::runs(fields@) =~= text::runs(before).push(field@));
        assert(all.take(i + 1) =~= all.take(i as int).push(all[i as int]));
    }
    assert(all.take(all.len() as int) =~= all);
    proof {
        text::lemma_pieces_non_empty(content_type@, Separator::Semicolon);
        assert(text::runs(fields@).len() == fields@.len());
        assert(text::runs(fields@)[0] == fields@[0]@);
    }
    let media_type = chars_of("audio/x-raw");
    same_chars(fields[0].as_slice(), media_type.as_slice()) && fields_contain(
        &fields,
        "format=s16le",
    ) && fields_contain(&fields, "rate=16000") && fields_contain(&fields, "channels=1")
}

/// The content type under which a source's audio is sent.
pub open spec fn sent_content_type(metadata: Metadata) -> Seq<char> {
    match metadata.content_type {
        Some(content_type) => content_type,
        None => match metadata.source_mime_type {
            Some(mime_type) => mime_type,
            None => "application/octet-stream"@,
        },
    }
}

/// The address that audio of a content type is sent to.
pub open spec fn listen_address(content_type: Seq<char>, interim: bool) -> Seq<char> {
    let address = if interim {
        "/v1/listen?utterances=true&paragraphs=true&timestamps=true&interim_results=true&language=en_US"@
    } else {
        "/v1/listen?utterances=true&paragraphs=true&timestamps=true&language=en_US"@
    };
    if benchmark_pcm(content_type) {
        address + "&encoding=linear16&sample_rate=16000&channels=1"@
    } else {
        address
    }
}

/// A request for the transcript of a source.
#[derive(Debug, PartialEq, Eq)]
pub struct ListenRequest {
    pub uri: String,
    pub content_type: String,
}

/// Makes the request for the transcript of a source.
pub fn listen_request(metadata: &SourceMetadata, interim: bool) -> (request: ListenRequest)
    ensures
        request.content_type@ == sent_content_type(metadata@),
        request.uri@ == listen_address(request.content_type@, interim),
{
    let content_type = match &metadata.content_type {
        Some(value) => value.clone(),
        None => match &metadata.source_mime_type {
            Some(value) => value.clone(),
            None => "application/octet-stream".to_owned(),
        },
    };
    let mut uri = if interim {
        "/v1/listen?utterances=true&paragraphs=true&timestamps=true&interim_results=true&language=en_US".to_owned()
    } else {
        "/v1/listen?utterances=true&paragraphs=true&timestamps=true&language=en_US".to_owned()
    };
    if is_s16le_16khz_mono(content_type.as_str()) {
        uri.append("&encoding=linear16&sample_rate=16000&channels=1");
    }
    ListenRequest { uri, content_type }
}

/// Whether an error tells that every download of the sweep will fail, because the session is
/// not authenticated.
pub open spec fn systemic_auth_error(error: Seq<char>) -> bool {
    ||| text::contains(error, "Sign in to confirm you’re not a bot"@)
    ||| text::contains(error, "Sign in to confirm you're not a bot"@)
    ||| text::contains(error, "cannot decrypt v10 cookies"@)
    ||| text::contains(error, "find-generic-password failed"@)
}

/// Whether an error tells that every download of the sweep will fail.
pub fn is_systemic_youtube_auth_error(error: &str) -> (found: bool)
    ensures
        found == systemic_auth_error(error@),
        found <==> (text::contains(error@, "Sign in to confirm you’re not a bot"@)
            || text::contains(error@, "Sign in to confirm you're not a bot"@) || text::contains(
            error@,
            "cannot decrypt v10 cookies"@,
        ) || text::contains(error@, "find-generic-password failed"@)),
{
    contains_text(error, "Sign in to confirm you’re not a bot") || contains_text(
        error,
        "Sign in to confirm you're not a bot",
    ) || contains_text(error, "cannot decrypt v10 cookies") || contains_text(
        error,
        "find-generic-password failed",
    )
}

/// The sources of a sweep that is given none.
pub open spec fn default_urls() -> Seq<Seq<char>> {
    seq![
        "https://www.youtube.com/watch?v=Szv32PCJfs0"@,
        "https://www.youtube.com/watch?v=d8hA8eOMxCY"@,
        "https://www.youtube.com/watch?v=XXCPQe4qzpc"@,
        "https://www.youtube.com/watch?v=M88T8jFL2uU"@,
        "https://www.youtube.com/watch?v=ZHXD-BlKyL8"@,
        "https://www.youtube.com/watch?v=9VmjOIid2C4"@,
    ]
}

fn default_mastering_urls() -> (urls: Vec<String>)
    ensures
        text::texts(urls@) == default_urls(),
{
    let mut urls: Vec<String> = Vec::new();
    urls.push("https://www.youtube.com/watch?v=Szv32PCJfs0".to_owned());
    urls.push("https://www.youtube.com/watch?v=d8hA8eOMxCY".to_owned());
    urls.push("https://www.youtube.com/watch?v=XXCPQe4qzpc".to_owned());
    urls.push("https://www.youtube.com/watch?v=M88T8jFL2uU".to_owned());
    urls.push("https://www.youtube.com/watch?v=ZHXD-BlKyL8".to_owned());
    urls.push("https://www.youtube.com/watch?v=9VmjOIid2C4".to_owned());
    assert(text::texts(urls@) =~= default_urls());
    urls
}

/// Why a sweep has no sources.
#[derive(Debug, PartialEq, Eq)]
pub enum SourcesError {
    /// The URL file cannot be read.
    File(UrlFileError),
    /// There is no URL in what was given.
    NoUrls,
}

/// The mathematical value of a `SourcesError`.
pub enum SourcesFault {
    File(UrlFileFault),
    NoUrls,
}

impl View for SourcesError {
    type V = SourcesFault;

    open spec fn view(&self) -> SourcesFault {
        match self {
            SourcesError::File(error) => SourcesFault::File(error@),
            SourcesError::NoUrls => SourcesFault::NoUrls,
        }
    }
}

/// The sources of a sweep: those of the URL file where there is one, or else those of the
/// list, or else the default ones.
pub open spec fn sweep_urls(file: Option<Seq<char>>, list: Option<Seq<char>>) -> Result<
    Seq<Seq<char>>,
    SourcesFault,
> {
    let urls = match file {
        Some(contents) => match urls_of_file(contents) {
            Ok(found) => Ok(found),
            Err(fault) => Err(SourcesFault::File(fault)),
        },
        None => match list {
            Some(value) => Ok(listed_urls(value)),
            None => Ok(default_urls()),
        },
    };
    match urls {
        Ok(found) => if found.len() == 0 {
            Err(SourcesFault::NoUrls)
        } else {
            Ok(found)
        },
        Err(fault) => Err(fault),
    }
}

/// Finds the sources of a sweep, given the contents of the URL file and the list of URLs, as
/// far as these are set.
pub fn research_urls(file: &Option<String>, list: &Option<String>) -> (urls: Result<
    Vec<String>,
    SourcesError,
>)
    ensures
        match urls {
            Ok(found) => sweep_urls(text_of(*file), text_of(*list)) == Ok::<
                Seq<Seq<char>>,
                SourcesFault,
            >(text::texts(found@)) && found@.len() > 0,
            Err(error) => sweep_urls(text_of(*file), text_of(*list)) == Err::<
                Seq<Seq<char>>,
                SourcesFault,
            >(error@),
        },
{
    let urls = match file {
        Some(contents) => match source_urls_from_file(contents.as_str()) {
            Ok(found) => found,
            Err(error) => {
                return Err(SourcesError::File(error));
            },
        },
        None => match list {
            Some(value) => split_urls(value.as_str()),
            None => default_mastering_urls(),
        },
    };
    assert(text::texts(urls@).len() == urls@.len());
    if urls.len() == 0 {
        Err(SourcesError::NoUrls)
    } else {
        Ok(urls)
    }
}

/// What the resolver tells of a source that it streams.
#[derive(Debug, PartialEq)]
pub struct StreamedAudio {
    pub duration_seconds: Option<u64>,
    /// The `content-length` header, where it is text.
    pub content_length: Option<String>,
    /// The `content-type` header, where it is text.
    pub content_type: Option<String>,
    pub mime_type: Option<String>,
    pub resolver: String,
    pub itag: Option<u64>,
}

/// The metadata of a streamed source of known duration.
pub open spec fn streamed_metadata(
    audio: StreamedAudio,
    url: Seq<char>,
    duration_seconds: u64,
) -> Metadata {
    Metadata {
        source_url: url,
        duration_seconds,
        content_length: match audio.content_length {
            Some(value) => match text::unsigned_number(value@, u64::MAX as nat) {
                Some(length) => Some(length as u64),
                None => None,
            },
            None => None,
        },
        content_type: match audio.content_type {
            Some(value) => Some(value@),
            None => text_of(audio.mime_type),
        },
        source_mime_type: text_of(audio.mime_type),
        resolver: audio.resolver@,
        itag: audio.itag,
        cached: false,
    }
}

/// Describes a streamed source. One without a duration is not described.
pub fn source_metadata(audio: StreamedAudio, source_url: &str) -> (metadata: Option<SourceMetadata>)
    ensures
        match metadata {
            Some(found) => audio.duration_seconds is Some && found@ == streamed_metadata(
                audio,
                source_url@,
                audio.duration_seconds->0,
            ),
            None => audio.duration_seconds is None,
        },
{
    let duration_seconds = match audio.duration_seconds {
        Some(duration) => duration,
        None => {
            return None;
        },
    };
    let content_length = match &audio.content_length {
        Some(value) => parse_u64(chars_of(value.as_str()).as_slice()),
        None => None,
    };
    let content_type = match audio.content_type {
        Some(value) => Some(value),
        None => match &audio.mime_type {
            Some(value) => Some(value.clone()),
            None => None,
        },
    };
    Some(
        SourceMetadata {
            source_url: string_of(chars_of(source_url).as_slice()),
            duration_seconds,
            content_length,
            content_type,
            source_mime_type: audio.mime_type,
            resolver: audio.resolver,
            itag: audio.itag,
            cached: false,
        },
    )
}

/// Whether the cache settings of a sweep fit together: a required cache has a directory.
pub fn cache_settings_fit(require_cached: bool, media_dir: bool) -> (fit: bool)
    ensures
        fit == (require_cached ==> media_dir),
{
    !require_cached || media_dir
}

/// Where the audio of a source comes from.
#[derive(Debug)]
pub enum AudioPlan {
    /// From the cache.
    Cached(CachedSource),
    /// From the cache, as soon as another process has put it there.
    AwaitCache,
    /// From the cache, after a download.
    DownloadToCache,
    /// From the resolver.
    Stream,
}

/// Decides where the audio of a source comes from, given the cached source that was opened, if
/// any, where there is a cache directory. A required cache is never filled from here.
pub fn open_research_audio(
    media_dir: bool,
    opened: Option<CachedSource>,
    require_cached: bool,
) -> (plan: AudioPlan)
    ensures
        match plan {
            AudioPlan::Cached(source) => media_dir && opened == Some(source),
            AudioPlan::AwaitCache => media_dir && opened is None && require_cached,
            AudioPlan::DownloadToCache => media_dir && opened is None && !require_cached,
            AudioPlan::Stream => !media_dir,
        },
        require_cached && media_dir ==> !(plan is DownloadToCache) && !(plan is Stream),
{
    if !media_dir {
        return AudioPlan::Stream;
    }
    match opened {
        Some(source) => AudioPlan::Cached(source),
        None => if require_cached {
            AudioPlan::AwaitCache
        } else {
            AudioPlan::DownloadToCache
        },
    }
}

/// What a wait for the cache comes to.
#[derive(Debug)]
pub enum WaitStep {
    /// The source is there.
    Ready(CachedSource),
    /// The source did not come in time.
    TimedOut,
    /// The wait goes on.
    Wait,
}

/// Decides how a wait for the cache goes on, given the cached source that was opened, if any,
/// and the nanoseconds since the wait began. A source that is there is taken however late it
/// is.
pub fn wait_for_cached_audio(
    opened: Option<CachedSource>,
    elapsed_nanos: u128,
    timeout_seconds: u64,
) -> (step: WaitStep)
    ensures
        match step {
            WaitStep::Ready(source) => opened == Some(source),
            WaitStep::TimedOut => opened is None && elapsed_nanos >= timeout_seconds
                * 1_000_000_000,
            WaitStep::Wait => opened is None && elapsed_nanos < timeout_seconds * 1_000_000_000,
        },
{
    match opened {
        Some(source) => WaitStep::Ready(source),
        None => if elapsed_nanos < timeout_seconds as u128 * 1_000_000_000 {
            WaitStep::Wait
        } else {
            WaitStep::TimedOut
        },
    }
}

/// A transcript that has too few words.
#[derive(Debug, PartialEq, Eq)]
pub struct ShortTranscript {
    pub words: usize,
    pub minimum: usize,
}

/// Counts the words of a transcript, which must be at least `minimum`.
pub fn check_transcript(transcript: &str, minimum: usize) -> (words: Result<
    usize,
    ShortTranscript,
>)
    ensures
        match words {
            Ok(count) => count == text::word_count(transcript@) && count >= minimum,
            Err(short) => short.words == text::word_count(transcript@) && short.minimum == minimum
                && short.words < minimum,
        },
{
    let words = count_words(chars_of(transcript).as_slice());
    if words < minimum {
        Err(ShortTranscript { words, minimum })
    } else {
        Ok(words)
    }
}

/// The name of a source's transcript file.
pub open spec fn transcript_name(source_index: nat, url: Seq<char>) -> Seq<char> {
    file_stem(source_index, url) + ".txt"@
}

/// The name of a source's transcript file while it is being written.
pub open spec fn partial_transcript_name(source_index: nat, url: Seq<char>) -> Seq<char> {
    file_stem(source_index, url) + ".txt.part"@
}

/// The contents of a transcript file: the transcript without the white space around it, and a
/// line feed.
pub open spec fn transcript_contents(transcript: Seq<char>) -> Seq<char> {
    text::trimmed(transcript).push('\n')
}

/// The steps that publish a transcript.
pub open spec fn transcript_publication(
    source_index: nat,
    url: Seq<char>,
    transcript: Seq<char>,
) -> Seq<Step> {
    seq![
        Step::WriteText(
            partial_transcript_name(source_index, url),
            transcript_contents(transcript),
        ),
        Step::Rename(
            partial_transcript_name(source_index, url),
            transcript_name(source_index, url),
        ),
    ]
}

/// A transcript that is ready to be published: the name of its file, and the steps that
/// publish it.
#[derive(Debug, PartialEq)]
pub struct TranscriptFile {
    pub name: String,
    pub steps: Vec<FileStep>,
}

/// Plans how a transcript is published.
pub fn write_transcript(source_index: usize, source_url: &str, transcript: &str) -> (file:
    TranscriptFile)
    requires
        source_index < usize::MAX,
    ensures
        file.name@ == transcript_name(source_index as nat, source_url@),
        steps_of(file.steps@) == transcript_publication(
            source_index as nat,
            source_url@,
            transcript@,
        ),
{
    let stem = source_file_stem(source_index, source_url);
    let mut name = stem.clone();
    name.append(".txt");
    let mut partial = stem;
    partial.append(".txt.part");
    let chars = chars_of(transcript);
    let mut contents = string_of(trim(chars.as_slice()));
    contents.push('\n');
    let mut steps: Vec<FileStep> = Vec::new();
    steps.push(FileStep::WriteText { to: partial.clone(), text: contents });
    steps.push(FileStep::Rename { from: partial, to: name.clone() });
    assert(steps_of(steps@) =~= transcript_publication(
        source_index as nat,
        source_url@,
        transcript@,
    ));
    TranscriptFile { name, steps }
}

/// A transcript is published atomically: until the last step is made, whatever has been
/// written, the file of its name is as it was; then it holds all of the transcript, and the
/// file that was written to is gone.
pub proof fn law_transcript_is_published_atomically(
    directory: Map<Seq<char>, Seq<u8>>,
    source_index: nat,
    url: Seq<char>,
    transcript: Seq<char>,
    format: MetadataFormat,
    half_written: Seq<u8>,
)
    ensures
        ({
            let name = transcript_name(source_index, url);
            let partial = partial_transcript_name(source_index, url);
            let steps = transcript_publication(source_index, url, transcript);
            let torn = directory.insert(partial, half_written);
            let written = after_steps(directory, steps.take(1), format);
            let published = after_steps(directory, steps, format);
            &&& torn.dom().contains(name) == directory.dom().contains(name)
            &&& directory.dom().contains(name) ==> torn[name] == directory[name]
            &&& written.dom().contains(name) == directory.dom().contains(name)
            &&& directory.dom().contains(name) ==> written[name] == directory[name]
            &&& published.dom().contains(name)
            &&& published[name] == encode_utf8(transcript_contents(transcript))
            &&& !published.dom().contains(partial)
        }),
{
    reveal_strlit(".txt");
    reveal_strlit(".txt.part");
    let name = transcript_name(source_index, url);
    let partial = partial_transcript_name(source_index, url);
    assert(name.len() != partial.len());
    let steps = transcript_publication(source_index, url, transcript);
    assert(steps.take(1).drop_last() =~= Seq::<Step>::empty());
    assert(steps.drop_last() =~= steps.take(1));
    assert(after_steps(directory, Seq::<Step>::empty(), format) == directory);
    assert(steps.take(1).last() == steps[0]);
    assert(steps.last() == steps[1]);
    let written = after_steps(directory, steps.take(1), format);
    assert(written == after_step(directory, steps[0], format));
    assert(after_steps(directory, steps, format) == after_step(written, steps[1], format));
}

/// A transcript file is clean: it ends with a single line feed, has no white space around the
/// text before that, and writing what it holds again gives the same file.
pub proof fn law_transcript_file_is_clean(transcript: Seq<char>)
    ensures
        transcript_contents(transcript).last() == '\n',
        transcript_contents(transcript).len() > 1 ==> text::clean(
            transcript_contents(transcript).drop_last(),
        ),
        transcript_contents(transcript_contents(transcript)) == transcript_contents(transcript),
{
    let inner = text::trimmed(transcript);
    let contents = transcript_contents(transcript);
    text::lemma_trimmed_is_clean(transcript);
    assert(contents.drop_last() =~= inner);
    if inner.len() > 0 {
        assert(contents[0] == inner[0]);
        assert(text::trim_start(contents) == contents);
        assert(text::trim_end(contents) == text::trim_end(inner));
        text::lemma_clean_is_trimmed(inner);
    } else {
        assert(contents =~= seq!['\n']);
        assert(contents.skip(1) =~= Seq::<char>::empty());
        assert(text::trim_start(Seq::<char>::empty()) =~= Seq::<char>::empty());
        assert(inner =~= Seq::<char>::empty());
    }
}

/// The bytes of a body between two lines about its progress.
pub const LOG_INTERVAL: u64 = 1_048_576;

/// How much of a body has been read, and when that is told next.
#[derive(Debug, Clone, Copy, PartialEq, Eq, Structural)]
pub struct BodyMeter {
    pub total_bytes: u64,
    pub next_log_at: u64,
}

impl BodyMeter {
    /// The next line is due at the first whole interval that has not been reached.
    pub open spec fn well_formed(self) -> bool {
        self.next_log_at == (self.total_bytes / LOG_INTERVAL + 1) * LOG_INTERVAL
    }

    /// The meter of a body of which nothing has been read.
    pub fn new() -> (meter: BodyMeter)
        ensures
            meter.well_formed(),
            meter.total_bytes == 0,
            meter.next_log_at == 1_048_576,
    {
        BodyMeter { total_bytes: 0, next_log_at: LOG_INTERVAL }
    }

    /// Adds bytes that have been read, and tells how many lines are due: one for each interval
    /// that was reached.
    pub fn advance(&mut self, read: u64) -> (lines: u64)
        requires
            old(self).well_formed(),
            old(self).total_bytes + read <= u64::MAX - LOG_INTERVAL,
        ensures
            final(self).well_formed(),
            final(self).total_bytes == old(self).total_bytes + read,
            lines == final(self).total_bytes / LOG_INTERVAL - old(self).total_bytes / LOG_INTERVAL,
            lines == final(self).total_bytes / 1_048_576 - old(self).total_bytes / 1_048_576,
            final(self).next_log_at == final(self).total_bytes - final(self).total_bytes % 1_048_576
                + 1_048_576,
    {
        let ghost reached = self.total_bytes / LOG_INTERVAL;
        self.total_bytes = self.total_bytes + read;
        let mut lines: u64 = 0;
        while self.total_bytes >= self.next_log_at
            invariant
                self.total_bytes <= u64::MAX - LOG_INTERVAL,
                self.total_bytes == old(self).total_bytes + read,
                reached == old(self).total_bytes / LOG_INTERVAL,
                self.next_log_at == (reached + lines + 1) * LOG_INTERVAL,
                reached + lines <= self.total_bytes / LOG_INTERVAL,
            decreases self.total_bytes + LOG_INTERVAL - self.next_log_at,
        {
            self.next_log_at = self.next_log_at + LOG_INTERVAL;
            lines = lines + 1;
        }
        lines
    }
}

} // verus!
