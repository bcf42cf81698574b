//! What holds of a sweep's requests, transcripts and failures, stated over the texts that go in
//! and come out.

use crate::cache_run::systemic_cache_error;
use crate::files::{after_step, after_steps, MetadataFormat, Step};
use crate::research_cache::{file_stem, listed_urls, urls_of_file, Metadata};
use crate::sweep::{
    benchmark_pcm, content_fields, default_urls, listen_address, partial_transcript_name,
    sent_content_type, streamed_metadata, sweep_urls, systemic_auth_error, transcript_contents,
    transcript_name, transcript_publication, SourcesFault, StreamedAudio,
};
use crate::sweep_run::{failure_action, pending, FailureAction};
use crate::text::{self, Separator};
use crate::text_laws::{self, all_white};
use vstd::prelude::*;
use vstd::utf8::encode_utf8;

verus! {

/// A transcript file holds the transcript whole: all of it but the white space around it, and a
/// line feed behind it.
pub proof fn law_transcript_is_written_whole(
    before: Seq<char>,
    core: Seq<char>,
    after: Seq<char>,
)
    requires
        all_white(before),
        all_white(after),
        core.len() == 0 || (!text::white_space(core[0]) && !text::white_space(core.last())),
    ensures
        transcript_contents(before + core + after) == core + seq!['\n'],
        transcript_contents(core) == core + seq!['\n'],
{
    let nothing = Seq::<char>::empty();
    text_laws::law_trimmed_is_the_middle(before, core, after);
    text_laws::law_trimmed_is_the_middle(nothing, core, nothing);
    assert(nothing + core + nothing =~= core);
    assert(core.push('\n') =~= core + seq!['\n']);
}

/// Of any transcript nothing is left out of its file but white space at its ends.
pub proof fn law_transcript_is_found_in_its_file(transcript: Seq<char>) -> (around: (
    Seq<char>,
    Seq<char>,
))
    ensures
        all_white(around.0),
        all_white(around.1),
        transcript_contents(transcript).len() > 0,
        transcript_contents(transcript).last() == '\n',
        transcript == around.0 + transcript_contents(transcript).drop_last() + around.1,
{
    let around = text_laws::law_only_white_space_is_trimmed(transcript);
    assert(transcript_contents(transcript).drop_last() =~= text::trimmed(transcript));
    around
}

/// Publishing a transcript leaves its text, in UTF-8 and with a line feed behind it, in the file
/// of the source's name with the extension of a text file. What was written aside is gone, and
/// every other file is as it was.
pub proof fn law_published_transcript_is_whole(
    directory: Map<Seq<char>, Seq<u8>>,
    source_index: nat,
    url: Seq<char>,
    before: Seq<char>,
    core: Seq<char>,
    after: Seq<char>,
    format: MetadataFormat,
)
    requires
        all_white(before),
        all_white(after),
        core.len() == 0 || (!text::white_space(core[0]) && !text::white_space(core.last())),
    ensures
        ({
            let name = file_stem(source_index, url) + seq!['.', 't', 'x', 't'];
            let aside = name + seq!['.', 'p', 'a', 'r', 't'];
            &&& transcript_name(source_index, url) == name
            &&& partial_transcript_name(source_index, url) == aside
            &&& after_steps(
                directory,
                transcript_publication(source_index, url, before + core + after),
                format,
            ) == directory.remove(aside).insert(name, encode_utf8(core + seq!['\n']))
        }),
{
    law_transcript_is_written_whole(before, core, after);
    reveal_strlit(".txt");
    reveal_strlit(".txt.part");
    let name = file_stem(source_index, url) + seq!['.', 't', 'x', 't'];
    let aside = name + seq!['.', 'p', 'a', 'r', 't'];
    assert(transcript_name(source_index, url) =~= name);
    assert(partial_transcript_name(source_index, url) =~= aside);
    assert(aside.len() != name.len());
    let steps = transcript_publication(source_index, url, before + core + after);
    assert(steps.drop_last().drop_last() =~= Seq::<Step>::empty());
    assert(after_steps(directory, Seq::<Step>::empty(), format) == directory);
    assert(steps.drop_last().last() == steps[0]);
    let written = after_steps(directory, steps.drop_last(), format);
    assert(written == after_step(directory, steps[0], format));
    assert(after_steps(directory, steps, format) == after_step(written, steps[1], format));
    assert(after_steps(directory, steps, format) =~= directory.remove(aside).insert(
        name,
        encode_utf8(core + seq!['\n']),
    ));
}

/// An error stops a sweep that goes on after errors exactly where it contains one of the four
/// texts that tell of a session without authentication, and the cache process exactly where it
/// contains one of the first two.
pub proof fn law_only_systemic_errors_stop(error: Seq<char>)
    ensures
        failure_action(error, false) == FailureAction::Stop,
        !text::contains(error, "Sign in to confirm you’re not a bot"@) && !text::contains(
            error,
            "Sign in to confirm you're not a bot"@,
        ) && !text::contains(error, "cannot decrypt v10 cookies"@) && !text::contains(
            error,
            "find-generic-password failed"@,
        ) ==> failure_action(error, true) == FailureAction::ReportAndContinue
            && !systemic_auth_error(error),
        text::contains(error, "Sign in to confirm you’re not a bot"@) || text::contains(
            error,
            "Sign in to confirm you're not a bot"@,
        ) || text::contains(error, "cannot decrypt v10 cookies"@) || text::contains(
            error,
            "find-generic-password failed"@,
        ) ==> failure_action(error, true) == FailureAction::ReportAndStop && systemic_auth_error(
            error,
        ),
        systemic_cache_error(error) <==> text::contains(
            error,
            "Sign in to confirm you’re not a bot"@,
        ) || text::contains(error, "Sign in to confirm you're not a bot"@),
{
}

/// An error stops a sweep wherever in it one of the four texts stands.
pub proof fn law_systemic_error_is_found_anywhere(before: Seq<char>, after: Seq<char>)
    ensures
        failure_action(before + "Sign in to confirm you’re not a bot"@ + after, true)
            == FailureAction::ReportAndStop,
        failure_action(before + "Sign in to confirm you're not a bot"@ + after, true)
            == FailureAction::ReportAndStop,
        failure_action(before + "cannot decrypt v10 cookies"@ + after, true)
            == FailureAction::ReportAndStop,
        failure_action(before + "find-generic-password failed"@ + after, true)
            == FailureAction::ReportAndStop,
        systemic_cache_error(before + "Sign in to confirm you’re not a bot"@ + after),
        systemic_cache_error(before + "Sign in to confirm you're not a bot"@ + after),
{
    text_laws::law_contains(before, "Sign in to confirm you’re not a bot"@, after, before);
    text_laws::law_contains(before, "Sign in to confirm you're not a bot"@, after, before);
    text_laws::law_contains(before, "cannot decrypt v10 cookies"@, after, before);
    text_laws::law_contains(before, "find-generic-password failed"@, after, before);
}

/// The last source of a sweep is pending behind the others exactly where it is not completed,
/// and whether it is there does not change which of the others are.
pub proof fn law_last_source_is_pending(
    urls: Seq<Seq<char>>,
    url: Seq<char>,
    done: Set<Seq<char>>,
)
    ensures
        pending(Seq::<Seq<char>>::empty(), done) == Seq::<(nat, Seq<char>)>::empty(),
        pending(urls + seq![url], done) == if done.contains(url) {
            pending(urls, done)
        } else {
            pending(urls, done) + seq![(urls.len(), url)]
        },
{
    let all = urls + seq![url];
    assert(all.drop_last() =~= urls);
    assert(pending(urls, done).push((urls.len(), url)) =~= pending(urls, done) + seq![
        (urls.len(), url),
    ]);
}

/// Whether a field of a content type is this one, but for case and white space around it.
pub open spec fn is_field(field: Seq<char>, wanted: Seq<char>) -> bool {
    text::lower_case(text::trimmed(field)) == wanted
}

/// Whether one of the parameters of a content type is this one.
pub open spec fn has_parameter(fields: Seq<Seq<char>>, wanted: Seq<char>) -> bool {
    exists|i: int| 1 <= i < fields.len() && is_field(#[trigger] fields[i], wanted)
}

proof fn lemma_parameter(content_type: Seq<char>, fields: Seq<Seq<char>>, wanted: Seq<char>)
    requires
        fields.len() > 0,
        text::pieces(content_type, Separator::Semicolon) == fields,
    ensures
        content_fields(content_type).skip(1).contains(wanted) == has_parameter(fields, wanted),
        is_field(fields[0], wanted) == (content_fields(content_type)[0] == wanted),
{
    let all = content_fields(content_type);
    if has_parameter(fields, wanted) {
        let at = choose|i: int| 1 <= i < fields.len() && is_field(#[trigger] fields[i], wanted);
        assert(all[at] == wanted);
        assert(all.skip(1)[at - 1] == wanted);
    }
    if all.skip(1).contains(wanted) {
        let at = choose|i: int| 0 <= i < all.skip(1).len() && all.skip(1)[i] == wanted;
        assert(all[at + 1] == wanted);
        assert(is_field(fields[at + 1], wanted));
    }
}

/// Audio is sent as the benchmark's raw format exactly where its content type is raw audio and
/// has the three parameters of that format, in any order and among any others.
pub proof fn law_raw_format_is_recognised(fields: Seq<Seq<char>>)
    requires
        fields.len() > 0,
        forall|i: int| 0 <= i < fields.len() ==> !(#[trigger] fields[i]).contains(';'),
    ensures
        benchmark_pcm(text::joined(fields, seq![';'])) <==> (is_field(fields[0], "audio/x-raw"@)
            && has_parameter(fields, "format=s16le"@) && has_parameter(fields, "rate=16000"@)
            && has_parameter(fields, "channels=1"@)),
{
    let separator = Separator::Semicolon;
    let content_type = text::joined(fields, seq![';']);
    assert forall|i: int| 0 <= i < fields.len() implies text::uncut(
        #[trigger] fields[i],
        separator,
    ) by {
        let field = fields[i];
        assert forall|j: int| 0 <= j < field.len() implies !separator.cuts(#[trigger] field[j]) by {
            assert(field.contains(field[j]));
        }
    }
    text_laws::law_joined_is_cut_again(fields, separator, ';');
    lemma_parameter(content_type, fields, "audio/x-raw"@);
    lemma_parameter(content_type, fields, "format=s16le"@);
    lemma_parameter(content_type, fields, "rate=16000"@);
    lemma_parameter(content_type, fields, "channels=1"@);
}

/// The address has the parameters of every request, that for interim results where these are
/// asked for, and those of raw audio where the audio is of that format.
pub proof fn law_listen_address(content_type: Seq<char>, interim: bool)
    ensures
        listen_address(content_type, interim)
            == "/v1/listen?utterances=true&paragraphs=true&timestamps=true"@ + (if interim {
            "&interim_results=true"@
        } else {
            Seq::empty()
        }) + "&language=en_US"@ + (if benchmark_pcm(content_type) {
            "&encoding=linear16"@ + "&sample_rate=16000"@ + "&channels=1"@
        } else {
            Seq::empty()
        }),
{
    reveal_strlit(
        "/v1/listen?utterances=true&paragraphs=true&timestamps=true&interim_results=true&language=en_US",
    );
    reveal_strlit("/v1/listen?utterances=true&paragraphs=true&timestamps=true&language=en_US");
    reveal_strlit("&encoding=linear16&sample_rate=16000&channels=1");
    reveal_strlit("/v1/listen?utterances=true&paragraphs=true&timestamps=true");
    reveal_strlit("&interim_results=true");
    reveal_strlit("&language=en_US");
    reveal_strlit("&encoding=linear16");
    reveal_strlit("&sample_rate=16000");
    reveal_strlit("&channels=1");
    let start = "/v1/listen?utterances=true&paragraphs=true&timestamps=true"@;
    assert(start + "&interim_results=true"@ + "&language=en_US"@
        =~= "/v1/listen?utterances=true&paragraphs=true&timestamps=true&interim_results=true&language=en_US"@);
    assert(start + Seq::empty() + "&language=en_US"@
        =~= "/v1/listen?utterances=true&paragraphs=true&timestamps=true&language=en_US"@);
    assert("&encoding=linear16"@ + "&sample_rate=16000"@ + "&channels=1"@
        =~= "&encoding=linear16&sample_rate=16000&channels=1"@);
    assert(listen_address(content_type, interim) + Seq::empty() =~= listen_address(
        content_type,
        interim,
    ));
}

/// Audio is sent as what its transfer was, or else as what its source is, or else as bytes.
pub proof fn law_sent_content_type(metadata: Metadata)
    ensures
        metadata.content_type is Some ==> Some(sent_content_type(metadata))
            == metadata.content_type,
        metadata.content_type is None && metadata.source_mime_type is Some ==> Some(
            sent_content_type(metadata),
        ) == metadata.source_mime_type,
        metadata.content_type is None && metadata.source_mime_type is None ==> sent_content_type(
            metadata,
        ) == "application/octet-stream"@,
{
}

/// The address at which a video is watched.
pub open spec fn watch_address(id: Seq<char>) -> Seq<char> {
    "https://www.youtube.com/watch?v="@ + id
}

/// A sweep's sources are those of its URL file, whatever its list is; without a file those of its
/// list; without either the six default ones. A sweep without a source is refused.
pub proof fn law_sources_of_a_sweep(file: Seq<char>, list: Option<Seq<char>>, listed: Seq<char>)
    ensures
        match urls_of_file(file) {
            Ok(urls) => sweep_urls(Some(file), list) == if urls.len() > 0 {
                Ok::<Seq<Seq<char>>, SourcesFault>(urls)
            } else {
                Err::<Seq<Seq<char>>, SourcesFault>(SourcesFault::NoUrls)
            },
            Err(fault) => sweep_urls(Some(file), list) == Err::<Seq<Seq<char>>, SourcesFault>(
                SourcesFault::File(fault),
            ),
        },
        sweep_urls(None, Some(listed)) == if listed_urls(listed).len() > 0 {
            Ok::<Seq<Seq<char>>, SourcesFault>(listed_urls(listed))
        } else {
            Err::<Seq<Seq<char>>, SourcesFault>(SourcesFault::NoUrls)
        },
        sweep_urls(None, None) == Ok::<Seq<Seq<char>>, SourcesFault>(
            seq![
                watch_address("Szv32PCJfs0"@),
                watch_address("d8hA8eOMxCY"@),
                watch_address("XXCPQe4qzpc"@),
                watch_address("M88T8jFL2uU"@),
                watch_address("ZHXD-BlKyL8"@),
                watch_address("9VmjOIid2C4"@),
            ],
        ),
{
    reveal_strlit("https://www.youtube.com/watch?v=");
    reveal_strlit("Szv32PCJfs0");
    reveal_strlit("https://www.youtube.com/watch?v=Szv32PCJfs0");
    assert(default_urls()[0] =~= watch_address("Szv32PCJfs0"@));
    reveal_strlit("d8hA8eOMxCY");
    reveal_strlit("https://www.youtube.com/watch?v=d8hA8eOMxCY");
    assert(default_urls()[1] =~= watch_address("d8hA8eOMxCY"@));
    reveal_strlit("XXCPQe4qzpc");
    reveal_strlit("https://www.youtube.com/watch?v=XXCPQe4qzpc");
    assert(default_urls()[2] =~= watch_address("XXCPQe4qzpc"@));
    reveal_strlit("M88T8jFL2uU");
    reveal_strlit("https://www.youtube.com/watch?v=M88T8jFL2uU");
    assert(default_urls()[3] =~= watch_address("M88T8jFL2uU"@));
    reveal_strlit("ZHXD-BlKyL8");
    reveal_strlit("https://www.youtube.com/watch?v=ZHXD-BlKyL8");
    assert(default_urls()[4] =~= watch_address("ZHXD-BlKyL8"@));
    reveal_strlit("9VmjOIid2C4");
    reveal_strlit("https://www.youtube.com/watch?v=9VmjOIid2C4");
    assert(default_urls()[5] =~= watch_address("9VmjOIid2C4"@));
    assert(default_urls() =~= seq![
        watch_address("Szv32PCJfs0"@),
        watch_address("d8hA8eOMxCY"@),
        watch_address("XXCPQe4qzpc"@),
        watch_address("M88T8jFL2uU"@),
        watch_address("ZHXD-BlKyL8"@),
        watch_address("9VmjOIid2C4"@),
    ]);
}

/// A streamed source is described by what the resolver tells of it: its length where the header
/// is a number, the header's content type before the resolver's.
pub proof fn law_streamed_source_is_described(
    audio: StreamedAudio,
    url: Seq<char>,
    duration_seconds: u64,
    length: u64,
)
    ensures
        ({
            let described = streamed_metadata(audio, url, duration_seconds);
            &&& described.source_url == url
            &&& described.duration_seconds == duration_seconds
            &&& audio.content_length is None ==> described.content_length is None
            &&& audio.content_length is Some && audio.content_length->0@ == text::decimal(
                length as nat,
            ) ==> described.content_length == Some(length)
            &&& audio.content_length is Some && audio.content_length->0@.len() == 0
                ==> described.content_length is None
            &&& audio.content_type is Some ==> described.content_type == Some(
                audio.content_type->0@,
            )
            &&& audio.mime_type is Some ==> described.source_mime_type == Some(audio.mime_type->0@)
            &&& audio.mime_type is None ==> described.source_mime_type is None
            &&& audio.content_type is None ==> described.content_type == described.source_mime_type
            &&& described.resolver == audio.resolver@
            &&& described.itag == audio.itag
            &&& !described.cached
        }),
{
    text_laws::law_numbers_are_read(length as nat, u64::MAX as nat, Seq::empty());
    if audio.content_length is Some && audio.content_length->0@.len() == 0 {
        assert(audio.content_length->0@ =~= Seq::<char>::empty());
    }
}

} // verus!
