//! What holds of reports, stated over the members of their rows and over their lines.

use crate::json::{self, JsonTree};
use crate::json_laws::{holds, lacks};
use crate::report::{
    cache_failure, cached, cached_members, completed, count_list, failure, failure_members,
    optional_count, optional_text, settings_members, success, success_members, ReportFault,
    Transcribed,
};
use crate::research_cache::Metadata;
use crate::settings::Benchmark;
use crate::text;
use crate::text_laws::{self, all_white};
use vstd::prelude::*;

verus! {

/// Whether a document is the list of these numbers.
pub open spec fn lists_numbers(document: JsonTree, numbers: Seq<usize>) -> bool {
    &&& document matches JsonTree::Array(items)
    &&& items.len() == numbers.len()
    &&& forall|i: int|
        0 <= i < items.len() ==> #[trigger] items[i] == JsonTree::Number(
            text::decimal(numbers[i] as nat),
        )
}

proof fn lemma_numbers_are_listed(numbers: Seq<usize>)
    ensures
        lists_numbers(count_list(numbers), numbers),
{
}

/// Whether a row holds this number under this key.
pub open spec fn counts(row: JsonTree, key: Seq<char>, number: nat) -> bool {
    holds(row, key, JsonTree::Number(text::decimal(number)))
}

/// Whether a row holds this number, or nothing, under this key.
pub open spec fn tells_number(row: JsonTree, key: Seq<char>, number: Option<u64>) -> bool {
    match number {
        Some(found) => counts(row, key, found as nat),
        None => holds(row, key, JsonTree::Null),
    }
}

/// Whether a row holds this text, or nothing, under this key.
pub open spec fn tells_text(row: JsonTree, key: Seq<char>, value: Option<Seq<char>>) -> bool {
    match value {
        Some(found) => holds(row, key, JsonTree::Text(found)),
        None => holds(row, key, JsonTree::Null),
    }
}

proof fn lemma_one_more_member(
    members: Seq<(Seq<char>, JsonTree)>,
    key: Seq<char>,
    value: JsonTree,
) -> (more: Seq<(Seq<char>, JsonTree)>)
    ensures
        more == members.push((key, value)),
        json::collected(more) == json::collected(members).insert(key, value),
{
    let more = members.push((key, value));
    assert(more.drop_last() =~= members);
    more
}

proof fn lemma_keys_differ()
    ensures
        "asr_backend"@.len() == 11,
        "device_ids"@.len() == 10,
        "onnx_sessions"@.len() == 13,
        "asr_concurrency"@.len() == 15,
        "worker_instances"@.len() == 16,
        "metrics_schema"@.len() == 14,
        "index"@.len() == 5,
        "run_processed_sources"@.len() == 21,
        "content_length"@.len() == 14,
        "content_type"@.len() == 12,
        "source_mime_type"@.len() == 16,
        "resolver"@.len() == 8,
        "itag"@.len() == 4,
        "cached_audio"@.len() == 12,
        "transport"@.len() == 9,
        "transcript_chars"@.len() == 16,
        "transcript_words"@.len() == 16,
        "transcript_path"@.len() == 15,
        "source_url"@.len() == 10,
        "status"@.len() == 6,
        "wall_seconds"@.len() == 12,
        "error"@.len() == 5,
        "reused"@.len() == 6,
        "duration_seconds"@.len() == 16,
        "mime_type"@.len() == 9,
        "device_ids"@ != "source_url"@,
        "asr_concurrency"@ != "transcript_path"@,
        "worker_instances"@ != "source_mime_type"@,
        "worker_instances"@ != "transcript_chars"@,
        "worker_instances"@ != "transcript_words"@,
        "worker_instances"@ != "duration_seconds"@,
        "metrics_schema"@ != "content_length"@,
        "index"@ != "error"@,
        "content_type"@ != "cached_audio"@,
        "content_type"@ != "wall_seconds"@,
        "source_mime_type"@ != "transcript_chars"@,
        "source_mime_type"@ != "transcript_words"@,
        "source_mime_type"@ != "duration_seconds"@,
        "cached_audio"@ != "wall_seconds"@,
        "transport"@ != "mime_type"@,
        "transcript_chars"@ != "transcript_words"@,
        "transcript_chars"@ != "duration_seconds"@,
        "transcript_words"@ != "duration_seconds"@,
        "status"@ != "reused"@,
{
    reveal_strlit("asr_backend");
    reveal_strlit("device_ids");
    reveal_strlit("onnx_sessions");
    reveal_strlit("asr_concurrency");
    reveal_strlit("worker_instances");
    reveal_strlit("metrics_schema");
    reveal_strlit("index");
    reveal_strlit("run_processed_sources");
    reveal_strlit("content_length");
    reveal_strlit("content_type");
    reveal_strlit("source_mime_type");
    reveal_strlit("resolver");
    reveal_strlit("itag");
    reveal_strlit("cached_audio");
    reveal_strlit("transport");
    reveal_strlit("transcript_chars");
    reveal_strlit("transcript_words");
    reveal_strlit("transcript_path");
    reveal_strlit("source_url");
    reveal_strlit("status");
    reveal_strlit("wall_seconds");
    reveal_strlit("error");
    reveal_strlit("reused");
    reveal_strlit("duration_seconds");
    reveal_strlit("mime_type");
    assert("device_ids"@[0] != "source_url"@[0]);
    assert("asr_concurrency"@[0] != "transcript_path"@[0]);
    assert("worker_instances"@[0] != "source_mime_type"@[0]);
    assert("worker_instances"@[0] != "transcript_chars"@[0]);
    assert("worker_instances"@[0] != "transcript_words"@[0]);
    assert("worker_instances"@[0] != "duration_seconds"@[0]);
    assert("metrics_schema"@[0] != "content_length"@[0]);
    assert("index"@[0] != "error"@[0]);
    assert("content_type"@[1] != "cached_audio"@[1]);
    assert("content_type"@[0] != "wall_seconds"@[0]);
    assert("source_mime_type"@[0] != "transcript_chars"@[0]);
    assert("source_mime_type"@[0] != "transcript_words"@[0]);
    assert("source_mime_type"@[0] != "duration_seconds"@[0]);
    assert("cached_audio"@[0] != "wall_seconds"@[0]);
    assert("transport"@[0] != "mime_type"@[0]);
    assert("transcript_chars"@[11] != "transcript_words"@[11]);
    assert("transcript_chars"@[0] != "duration_seconds"@[0]);
    assert("transcript_words"@[0] != "duration_seconds"@[0]);
    assert("status"@[0] != "reused"@[0]);
}

/// The row of a transcribed source holds what is known of the source, of its transcript and of the
/// run, and what was measured under every other key.
pub proof fn law_success_row(
    source: Transcribed,
    url: Seq<char>,
    settings: Benchmark,
    measurements: Seq<(Seq<char>, JsonTree)>,
    key: Seq<char>,
)
    ensures
        ({
            let row = success(source, url, settings, measurements);
            &&& row is Object
            &&& holds(row, "asr_backend"@, JsonTree::Text(settings.backend))
            &&& row->Object_0.dom().contains("device_ids"@)
            &&& lists_numbers(row->Object_0["device_ids"@], settings.device_ids)
            &&& counts(row, "onnx_sessions"@, settings.onnx_sessions)
            &&& counts(row, "asr_concurrency"@, settings.asr_concurrency)
            &&& counts(row, "worker_instances"@, settings.worker_instances)
            &&& counts(row, "metrics_schema"@, 2)
            &&& counts(row, "index"@, source.index)
            &&& counts(row, "run_processed_sources"@, source.processed)
            &&& tells_number(row, "content_length"@, source.metadata.content_length)
            &&& tells_text(row, "content_type"@, source.metadata.content_type)
            &&& tells_text(row, "source_mime_type"@, source.metadata.source_mime_type)
            &&& holds(row, "resolver"@, JsonTree::Text(source.metadata.resolver))
            &&& tells_number(row, "itag"@, source.metadata.itag)
            &&& holds(row, "cached_audio"@, JsonTree::Bool(source.metadata.cached))
            &&& holds(row, "transport"@, JsonTree::Text("in-process"@))
            &&& counts(row, "transcript_chars"@, source.transcript.len())
            &&& counts(row, "transcript_words"@, text::word_count(source.transcript))
            &&& tells_text(row, "transcript_path"@, source.transcript_path)
            &&& holds(row, "source_url"@, JsonTree::Text(url))
            &&& holds(row, "status"@, JsonTree::Text("ok"@))
            &&& key != "asr_backend"@ && key != "device_ids"@ && key != "onnx_sessions"@
                && key != "asr_concurrency"@ && key != "worker_instances"@
                && key != "metrics_schema"@ && key != "index"@
                && key != "run_processed_sources"@ && key != "content_length"@
                && key != "content_type"@ && key != "source_mime_type"@
                && key != "resolver"@ && key != "itag"@ && key != "cached_audio"@
                && key != "transport"@ && key != "transcript_chars"@
                && key != "transcript_words"@ && key != "transcript_path"@
                && key != "source_url"@ && key != "status"@ ==> row.member(
                key,
            ) == JsonTree::Object(json::collected(measurements)).member(key)
        }),
{
    lemma_keys_differ();
    let row = success(source, url, settings, measurements);
    let members = measurements;
    let members = lemma_one_more_member(members, "asr_backend"@, JsonTree::Text(settings.backend));
    let members = lemma_one_more_member(members, "device_ids"@, count_list(settings.device_ids));
    let members = lemma_one_more_member(
        members,
        "onnx_sessions"@,
        JsonTree::Number(text::decimal(settings.onnx_sessions)),
    );
    let members = lemma_one_more_member(
        members,
        "asr_concurrency"@,
        JsonTree::Number(text::decimal(settings.asr_concurrency)),
    );
    let members = lemma_one_more_member(
        members,
        "worker_instances"@,
        JsonTree::Number(text::decimal(settings.worker_instances)),
    );
    let members = lemma_one_more_member(
        members,
        "metrics_schema"@,
        JsonTree::Number(text::decimal(2)),
    );
    let members = lemma_one_more_member(
        members,
        "index"@,
        JsonTree::Number(text::decimal(source.index)),
    );
    let members = lemma_one_more_member(
        members,
        "run_processed_sources"@,
        JsonTree::Number(text::decimal(source.processed)),
    );
    let members = lemma_one_more_member(
        members,
        "content_length"@,
        optional_count(source.metadata.content_length),
    );
    let members = lemma_one_more_member(
        members,
        "content_type"@,
        optional_text(source.metadata.content_type),
    );
    let members = lemma_one_more_member(
        members,
        "source_mime_type"@,
        optional_text(source.metadata.source_mime_type),
    );
    let members = lemma_one_more_member(
        members,
        "resolver"@,
        JsonTree::Text(source.metadata.resolver),
    );
    let members = lemma_one_more_member(members, "itag"@, optional_count(source.metadata.itag));
    let members = lemma_one_more_member(
        members,
        "cached_audio"@,
        JsonTree::Bool(source.metadata.cached),
    );
    let members = lemma_one_more_member(members, "transport"@, JsonTree::Text("in-process"@));
    let members = lemma_one_more_member(
        members,
        "transcript_chars"@,
        JsonTree::Number(text::decimal(source.transcript.len())),
    );
    let members = lemma_one_more_member(
        members,
        "transcript_words"@,
        JsonTree::Number(text::decimal(text::word_count(source.transcript))),
    );
    let members = lemma_one_more_member(
        members,
        "transcript_path"@,
        optional_text(source.transcript_path),
    );
    let members = lemma_one_more_member(members, "source_url"@, JsonTree::Text(url));
    let members = lemma_one_more_member(members, "status"@, JsonTree::Text("ok"@));
    assert(success_members(source, url, settings, measurements) =~= members);
    assert(row->Object_0 == json::collected(members));
    lemma_numbers_are_listed(settings.device_ids);
}

/// The row of a source that a sweep failed on holds the error, the time that it took, the source
/// and the settings of the run, and nothing else.
pub proof fn law_failure_row(
    index: nat,
    url: Seq<char>,
    error: Seq<char>,
    settings: Benchmark,
    wall_seconds: JsonTree,
    key: Seq<char>,
)
    ensures
        ({
            let row = failure(index, url, error, settings, wall_seconds);
            &&& row is Object
            &&& holds(row, "wall_seconds"@, wall_seconds)
            &&& holds(row, "asr_backend"@, JsonTree::Text(settings.backend))
            &&& row->Object_0.dom().contains("device_ids"@)
            &&& lists_numbers(row->Object_0["device_ids"@], settings.device_ids)
            &&& counts(row, "onnx_sessions"@, settings.onnx_sessions)
            &&& counts(row, "asr_concurrency"@, settings.asr_concurrency)
            &&& counts(row, "worker_instances"@, settings.worker_instances)
            &&& counts(row, "index"@, index)
            &&& holds(row, "error"@, JsonTree::Text(error))
            &&& holds(row, "source_url"@, JsonTree::Text(url))
            &&& holds(row, "status"@, JsonTree::Text("error"@))
            &&& key != "wall_seconds"@ && key != "asr_backend"@ && key != "device_ids"@
                && key != "onnx_sessions"@ && key != "asr_concurrency"@
                && key != "worker_instances"@ && key != "index"@ && key != "error"@
                && key != "source_url"@ && key != "status"@ ==> lacks(
                row,
                key,
            )
        }),
{
    lemma_keys_differ();
    let row = failure(index, url, error, settings, wall_seconds);
    let members = Seq::<(Seq<char>, JsonTree)>::empty();
    let members = lemma_one_more_member(members, "wall_seconds"@, wall_seconds);
    let members = lemma_one_more_member(members, "asr_backend"@, JsonTree::Text(settings.backend));
    let members = lemma_one_more_member(members, "device_ids"@, count_list(settings.device_ids));
    let members = lemma_one_more_member(
        members,
        "onnx_sessions"@,
        JsonTree::Number(text::decimal(settings.onnx_sessions)),
    );
    let members = lemma_one_more_member(
        members,
        "asr_concurrency"@,
        JsonTree::Number(text::decimal(settings.asr_concurrency)),
    );
    let members = lemma_one_more_member(
        members,
        "worker_instances"@,
        JsonTree::Number(text::decimal(settings.worker_instances)),
    );
    let members = lemma_one_more_member(members, "index"@, JsonTree::Number(text::decimal(index)));
    let members = lemma_one_more_member(members, "error"@, JsonTree::Text(error));
    let members = lemma_one_more_member(members, "source_url"@, JsonTree::Text(url));
    let members = lemma_one_more_member(members, "status"@, JsonTree::Text("error"@));
    let all = failure_members(
        index,
        url,
        error,
        seq![("wall_seconds"@, wall_seconds)] + settings_members(settings),
    );
    assert(all =~= members);
    assert(row->Object_0 == json::collected(members));
    lemma_numbers_are_listed(settings.device_ids);
}

/// The row of a source that could not be cached holds the error and the source, and nothing else.
pub proof fn law_cache_failure_row(
    index: nat,
    url: Seq<char>,
    error: Seq<char>,
    key: Seq<char>,
)
    ensures
        ({
            let row = cache_failure(index, url, error);
            &&& row is Object
            &&& counts(row, "index"@, index)
            &&& holds(row, "error"@, JsonTree::Text(error))
            &&& holds(row, "source_url"@, JsonTree::Text(url))
            &&& holds(row, "status"@, JsonTree::Text("error"@))
            &&& key != "index"@ && key != "error"@ && key != "source_url"@
                && key != "status"@ ==> lacks(
                row,
                key,
            )
        }),
{
    lemma_keys_differ();
    let row = cache_failure(index, url, error);
    let members = Seq::<(Seq<char>, JsonTree)>::empty();
    let members = lemma_one_more_member(members, "index"@, JsonTree::Number(text::decimal(index)));
    let members = lemma_one_more_member(members, "error"@, JsonTree::Text(error));
    let members = lemma_one_more_member(members, "source_url"@, JsonTree::Text(url));
    let members = lemma_one_more_member(members, "status"@, JsonTree::Text("error"@));
    assert(failure_members(index, url, error, Seq::empty()) =~= members);
    assert(row->Object_0 == json::collected(members));
}

/// The row of a cached source holds what is known of its media file, and what was measured under
/// every other key.
pub proof fn law_cached_row(
    index: nat,
    url: Seq<char>,
    metadata: Metadata,
    reused: bool,
    measurements: Seq<(Seq<char>, JsonTree)>,
    key: Seq<char>,
)
    ensures
        ({
            let row = cached(index, url, metadata, reused, measurements);
            &&& row is Object
            &&& counts(row, "index"@, index)
            &&& holds(row, "reused"@, JsonTree::Bool(reused))
            &&& counts(row, "duration_seconds"@, metadata.duration_seconds as nat)
            &&& metadata.content_length is Some ==> counts(
                row,
                "content_length"@,
                metadata.content_length->0 as nat,
            )
            &&& metadata.content_length is None ==> counts(row, "content_length"@, 0)
            &&& tells_number(row, "itag"@, metadata.itag)
            &&& tells_text(row, "mime_type"@, metadata.source_mime_type)
            &&& holds(row, "source_url"@, JsonTree::Text(url))
            &&& holds(row, "status"@, JsonTree::Text("ok"@))
            &&& key != "index"@ && key != "reused"@ && key != "duration_seconds"@
                && key != "content_length"@ && key != "itag"@ && key != "mime_type"@
                && key != "source_url"@ && key != "status"@ ==> row.member(
                key,
            ) == JsonTree::Object(json::collected(measurements)).member(key)
        }),
{
    lemma_keys_differ();
    let row = cached(index, url, metadata, reused, measurements);
    let members = measurements;
    let members = lemma_one_more_member(members, "index"@, JsonTree::Number(text::decimal(index)));
    let members = lemma_one_more_member(members, "reused"@, JsonTree::Bool(reused));
    let members = lemma_one_more_member(
        members,
        "duration_seconds"@,
        JsonTree::Number(text::decimal(metadata.duration_seconds as nat)),
    );
    let length: nat = match metadata.content_length {
        Some(length) => length as nat,
        None => 0,
    };
    let members = lemma_one_more_member(
        members,
        "content_length"@,
        JsonTree::Number(text::decimal(length)),
    );
    let members = lemma_one_more_member(members, "itag"@, optional_count(metadata.itag));
    let members = lemma_one_more_member(
        members,
        "mime_type"@,
        optional_text(metadata.source_mime_type),
    );
    let members = lemma_one_more_member(members, "source_url"@, JsonTree::Text(url));
    let members = lemma_one_more_member(members, "status"@, JsonTree::Text("ok"@));
    assert(cached_members(index, url, metadata, reused, measurements) =~= members);
    assert(row->Object_0 == json::collected(members));
}

/// A line of a report completes the source under its `source_url`, unless it has a status other
/// than `ok`. A blank line completes none, and the first line that is no document is what the
/// report is refused with, whatever comes behind it.
pub proof fn law_every_row_is_read(lines: Seq<Seq<char>>, line: Seq<char>, url: Seq<char>)
    ensures
        completed(Seq::<Seq<char>>::empty()) == Ok::<Set<Seq<char>>, ReportFault>(Set::empty()),
        completed(lines) is Err ==> completed(lines + seq![line]) == completed(lines),
        completed(lines) is Ok && all_white(line) ==> completed(lines + seq![line]) == completed(
            lines,
        ),
        completed(lines) is Ok && !all_white(line) ==> {
            let before = completed(lines)->Ok_0;
            match json::parsed_text(line) {
                Err(message) => completed(lines + seq![line]) == Err::<
                    Set<Seq<char>>,
                    ReportFault,
                >(ReportFault { line: lines.len() + 1, message }),
                Ok(row) => {
                    let refused = row matches JsonTree::Object(members) && members.dom().contains(
                        "status"@,
                    ) && members["status"@] is Text && members["status"@] != JsonTree::Text("ok"@);
                    let named = row matches JsonTree::Object(members) && members.dom().contains(
                        "source_url"@,
                    ) && members["source_url"@] is Text;
                    &&& refused || !named ==> completed(lines + seq![line]) == Ok::<
                        Set<Seq<char>>,
                        ReportFault,
                    >(before)
                    &&& !refused && holds(row, "source_url"@, JsonTree::Text(url)) ==> completed(
                        lines + seq![line],
                    ) == Ok::<Set<Seq<char>>, ReportFault>(before.insert(url))
                },
            }
        },
{
    let all = lines + seq![line];
    assert(all.drop_last() =~= lines);
    let nothing = Seq::<char>::empty();
    if all_white(line) {
        text_laws::law_trimmed_is_the_middle(line, nothing, nothing);
        assert(line + nothing + nothing =~= line);
    } else {
        let around = text_laws::law_only_white_space_is_trimmed(line);
        if text::trimmed(line).len() == 0 {
            assert forall|i: int| 0 <= i < line.len() implies text::white_space(
                #[trigger] line[i],
            ) by {
                if i < around.0.len() {
                    assert(line[i] == around.0[i]);
                } else {
                    assert(line[i] == around.1[i - around.0.len()]);
                }
            }
        }
    }
}

} // verus!
