//! The progress log of a sweep: what of each response event is kept on record, and the
//! transcript that the events of a response add up to.

use crate::json::{self, put_member, take_member, Json, JsonTree};
use crate::research_cache::text_of;
use crate::text::{self, chars_of, count_words, join, same_text, text_of_bytes, trim};
use crate::transcript::{flag_or, streaming_path, streaming_transcript};
use vstd::prelude::*;
use vstd::slice::slice_subrange;

verus! {

/// The transcript of an alternative, empty where it has none.
pub open spec fn alternative_transcript(entries: Map<Seq<char>, JsonTree>) -> Seq<char> {
    match json::lookup(entries, "transcript"@) {
        Some(value) => match value.text() {
            Some(transcript) => transcript,
            None => Seq::empty(),
        },
        None => Seq::empty(),
    }
}

/// The number of words of an alternative: of its word list, or else of its transcript.
pub open spec fn alternative_words(entries: Map<Seq<char>, JsonTree>) -> nat {
    match json::lookup(entries, "words"@) {
        Some(value) => match value.items() {
            Some(words) => words.len(),
            None => text::word_count(alternative_transcript(entries)),
        },
        None => text::word_count(alternative_transcript(entries)),
    }
}

/// An alternative without its text: the number of its characters and of its words stand in
/// place of transcript, words and paragraphs.
pub open spec fn redacted_alternative(alternative: JsonTree) -> JsonTree {
    match alternative {
        JsonTree::Object(entries) => JsonTree::Object(
            entries.remove("transcript"@).remove("words"@).remove("paragraphs"@).insert(
                "transcript_chars"@,
                JsonTree::Number(text::decimal(alternative_transcript(entries).len())),
            ).insert(
                "transcript_words"@,
                JsonTree::Number(text::decimal(alternative_words(entries))),
            ),
        ),
        _ => alternative,
    }
}

/// The alternatives of a channel, each redacted.
pub open spec fn redacted_alternatives(alternatives: JsonTree) -> JsonTree {
    match alternatives {
        JsonTree::Array(items) => JsonTree::Array(
            items.map_values(|item: JsonTree| redacted_alternative(item)),
        ),
        JsonTree::Object(entries) => JsonTree::Object(
            entries.map_values(|entry: JsonTree| redacted_alternative(entry)),
        ),
        _ => alternatives,
    }
}

/// A channel with its alternatives redacted.
pub open spec fn redacted_channel(channel: JsonTree) -> JsonTree {
    match channel {
        JsonTree::Object(entries) => match json::lookup(entries, "alternatives"@) {
            Some(alternatives) => JsonTree::Object(
                entries.insert("alternatives"@, redacted_alternatives(alternatives)),
            ),
            None => channel,
        },
        _ => channel,
    }
}

/// The channels of a complete response, each redacted.
pub open spec fn redacted_channels(channels: JsonTree) -> JsonTree {
    match channels {
        JsonTree::Array(items) => JsonTree::Array(
            items.map_values(|item: JsonTree| redacted_channel(item)),
        ),
        JsonTree::Object(entries) => JsonTree::Object(
            entries.map_values(|entry: JsonTree| redacted_channel(entry)),
        ),
        _ => channels,
    }
}

/// The results of a complete response with their channels redacted and without utterances.
pub open spec fn redacted_results(results: JsonTree) -> JsonTree {
    match results {
        JsonTree::Object(entries) => JsonTree::Object(
            (match json::lookup(entries, "channels"@) {
                Some(channels) => entries.insert("channels"@, redacted_channels(channels)),
                None => entries,
            }).remove("utterances"@),
        ),
        _ => results,
    }
}

/// A response event without its text: every alternative of its channel and of the channels of
/// its results is redacted, and neither the event nor its results have utterances.
pub open spec fn redacted(event: JsonTree) -> JsonTree {
    match event {
        JsonTree::Object(entries) => {
            let with_channel = match json::lookup(entries, "channel"@) {
                Some(channel) => entries.insert("channel"@, redacted_channel(channel)),
                None => entries,
            };
            let with_results = match json::lookup(entries, "results"@) {
                Some(results) => with_channel.insert("results"@, redacted_results(results)),
                None => with_channel,
            };
            JsonTree::Object(with_results.remove("utterances"@))
        },
        _ => event,
    }
}

/// What is kept on record of a response event.
pub open spec fn recorded(event: JsonTree, store_transcripts: bool) -> JsonTree {
    if store_transcripts {
        event
    } else {
        redacted(event)
    }
}

fn redact_alternative(alternative: Json) -> (rest: Json)
    ensures
        rest@ == redacted_alternative(alternative@),
{
    match alternative {
        Json::Object(members) => {
            let ghost entries = json::collected(json::entry_trees(members@));
            let (members, transcript) = take_member(members, "transcript");
            let chars = match &transcript {
                Some(Json::Text(transcript)) => chars_of(transcript.as_str()),
                _ => Vec::new(),
            };
            assert(chars@ =~= alternative_transcript(entries));
            proof {
                reveal_strlit("transcript");
                reveal_strlit("words");
            }
            assert("transcript"@.len() != "words"@.len());
            let (members, words) = take_member(members, "words");
            let word_count = match &words {
                Some(Json::Array(items)) => items.len(),
                _ => count_words(chars.as_slice()),
            };
            assert(word_count == alternative_words(entries));
            let (members, _) = take_member(members, "paragraphs");
            let members = put_member(
                members,
                "transcript_chars",
                Json::count(chars.len() as u64),
            );
            Json::Object(put_member(members, "transcript_words", Json::count(word_count as u64)))
        },
        other => other,
    }
}

fn redact_alternatives(alternatives: Json) -> (rest: Json)
    ensures
        rest@ == redacted_alternatives(alternatives@),
{
    match alternatives {
        Json::Array(items) => {
            let ghost trees = json::item_trees(items@);
            let mut kept: Vec<Json> = Vec::new();
            for item in remaining: items
                invariant
                    json::item_trees(remaining.seq()) == trees,
                    kept@.len() == remaining.index(),
                    forall|i: int|
                        0 <= i < kept@.len() ==> (#[trigger] kept@[i])@ == redacted_alternative(
                            trees[i],
                        ),
            {
                assert(trees[remaining.index() as int] == item@);
                kept.push(redact_alternative(item));
            }
            assert(json::item_trees(kept@) =~= trees.map_values(
                |item: JsonTree| redacted_alternative(item),
            ));
            Json::Array(kept)
        },
        Json::Object(members) => {
            let ghost entries = json::entry_trees(members@);
            let mut kept: Vec<(String, Json)> = Vec::new();
            for member in remaining: members
                invariant
                    json::entry_trees(remaining.seq()) == entries,
                    kept@.len() == remaining.index(),
                    forall|i: int|
                        0 <= i < kept@.len() ==> (#[trigger] kept@[i]).0@ == entries[i].0
                            && kept@[i].1@ == redacted_alternative(entries[i].1),
            {
                assert(entries[remaining.index() as int] == (member.0@, member.1@));
                kept.push((member.0, redact_alternative(member.1)));
            }
            proof {
                let after = json::entry_trees(kept@);
                let all = json::collected(entries);
                assert(forall|i: int|
                    0 <= i < entries.len() ==> (#[trigger] entries[i]).0 == after[i].0);
                assert forall|key: Seq<char>|
                    all.dom().contains(key) == #[trigger] json::collected(after).dom().contains(
                        key,
                    ) && (all.dom().contains(key) ==> json::collected(after)[key]
                        == redacted_alternative(all[key])) by {
                    let at = json::lemma_collected_alongside(entries, after, key);
                    if all.dom().contains(key) {
                        assert(after[at] == (kept@[at].0@, kept@[at].1@));
                    }
                }
                assert(json::collected(after) =~= all.map_values(
                    |entry: JsonTree| redacted_alternative(entry),
                ));
            }
            Json::Object(kept)
        },
        other => other,
    }
}

fn redact_channel(channel: Json) -> (rest: Json)
    ensures
        rest@ == redacted_channel(channel@),
{
    match channel {
        Json::Object(members) => {
            let ghost entries = json::collected(json::entry_trees(members@));
            let (members, alternatives) = take_member(members, "alternatives");
            match alternatives {
                Some(found) => {
                    let kept = redact_alternatives(found);
                    assert(entries.remove("alternatives"@).insert("alternatives"@, kept@)
                        =~= entries.insert("alternatives"@, kept@));
                    Json::Object(put_member(members, "alternatives", kept))
                },
                None => {
                    assert(entries.remove("alternatives"@) =~= entries);
                    Json::Object(members)
                },
            }
        },
        other => other,
    }
}

fn redact_channels(channels: Json) -> (rest: Json)
    ensures
        rest@ == redacted_channels(channels@),
{
    match channels {
        Json::Array(items) => {
            let ghost trees = json::item_trees(items@);
            let mut kept: Vec<Json> = Vec::new();
            for item in remaining: items
                invariant
                    json::item_trees(remaining.seq()) == trees,
                    kept@.len() == remaining.index(),
                    forall|i: int|
                        0 <= i < kept@.len() ==> (#[trigger] kept@[i])@ == redacted_channel(
                            trees[i],
                        ),
            {
                assert(trees[remaining.index() as int] == item@);
                kept.push(redact_channel(item));
            }
            assert(json::item_trees(kept@) =~= trees.map_values(
                |item: JsonTree| redacted_channel(item),
            ));
            Json::Array(kept)
        },
        Json::Object(members) => {
            let ghost entries = json::entry_trees(members@);
            let mut kept: Vec<(String, Json)> = Vec::new();
            for member in remaining: members
                invariant
                    json::entry_trees(remaining.seq()) == entries,
                    kept@.len() == remaining.index(),
                    forall|i: int|
                        0 <= i < kept@.len() ==> (#[trigger] kept@[i]).0@ == entries[i].0
                            && kept@[i].1@ == redacted_channel(entries[i].1),
            {
                assert(entries[remaining.index() as int] == (member.0@, member.1@));
                kept.push((member.0, redact_channel(member.1)));
            }
            proof {
                let after = json::entry_trees(kept@);
                let all = json::collected(entries);
                assert(forall|i: int|
                    0 <= i < entries.len() ==> (#[trigger] entries[i]).0 == after[i].0);
                assert forall|key: Seq<char>|
                    all.dom().contains(key) == #[trigger] json::collected(after).dom().contains(
                        key,
                    ) && (all.dom().contains(key) ==> json::collected(after)[key]
                        == redacted_channel(all[key])) by {
                    let at = json::lemma_collected_alongside(entries, after, key);
                    if all.dom().contains(key) {
                        assert(after[at] == (kept@[at].0@, kept@[at].1@));
                    }
                }
                assert(json::collected(after) =~= all.map_values(
                    |entry: JsonTree| redacted_channel(entry),
                ));
            }
            Json::Object(kept)
        },
        other => other,
    }
}

fn redact_results(results: Json) -> (rest: Json)
    ensures
        rest@ == redacted_results(results@),
{
    match results {
        Json::Object(members) => {
            let ghost entries = json::collected(json::entry_trees(members@));
            let (members, channels) = take_member(members, "channels");
            let members = match channels {
                Some(found) => {
                    let kept = redact_channels(found);
                    assert(entries.remove("channels"@).insert("channels"@, kept@)
                        =~= entries.insert("channels"@, kept@));
                    put_member(members, "channels", kept)
                },
                None => {
                    assert(entries.remove("channels"@) =~= entries);
                    members
                },
            };
            let (members, _) = take_member(members, "utterances");
            Json::Object(members)
        },
        other => other,
    }
}

/// What is kept on record of a response event: all of it where transcripts are stored, and
/// otherwise everything but the text of its alternatives and its utterances.
pub fn progress_event(event: &Json, store_transcripts: bool) -> (kept: Json)
    ensures
        kept@ == recorded(event@, store_transcripts),
        store_transcripts ==> kept@ == event@,
{
    let kept = event.clone();
    if store_transcripts {
        return kept;
    }
    match kept {
        Json::Object(members) => {
            let ghost entries = json::collected(json::entry_trees(members@));
            proof {
                lemma_names_differ();
            }
            let (members, channel) = take_member(members, "channel");
            let (members, results) = take_member(members, "results");
            let members = match channel {
                Some(found) => put_member(members, "channel", redact_channel(found)),
                None => members,
            };
            let members = match results {
                Some(found) => put_member(members, "results", redact_results(found)),
                None => members,
            };
            let (members, _) = take_member(members, "utterances");
            let rest = Json::Object(members);
            assert(rest@->Object_0 =~= redacted(event@)->Object_0);
            rest
        },
        other => other,
    }
}

/// A document with another value at a pointer.
pub open spec fn with_value_at(document: JsonTree, path: Seq<Seq<char>>, value: JsonTree) -> JsonTree
    decreases path.len(),
{
    if path.len() == 0 {
        value
    } else {
        match document.child(path[0]) {
            Some(child) => document.with_child(path[0], with_value_at(child, path.skip(1), value)),
            None => document,
        }
    }
}

/// A pointer leads through the child that its first token names.
proof fn lemma_at_through_child(document: JsonTree, path: Seq<Seq<char>>)
    requires
        path.len() > 0,
    ensures
        document.at(path) == match document.child(path[0]) {
            Some(child) => child.at(path.skip(1)),
            None => None,
        },
    decreases path.len(),
{
    if path.len() == 1 {
        assert(path.drop_last() =~= Seq::<Seq<char>>::empty());
        assert(path.skip(1) =~= Seq::<Seq<char>>::empty());
        assert(document.at(path.drop_last()) == Some(document));
    } else {
        lemma_at_through_child(document, path.drop_last());
        assert(path.drop_last().skip(1) =~= path.skip(1).drop_last());
        assert(path.skip(1).last() == path.last());
    }
}

/// Where a response event holds alternatives: in its channel, or in a channel of its results.
pub open spec fn is_alternative_path(path: Seq<Seq<char>>) -> bool {
    ||| path.len() == 3 && path[0] == "channel"@ && path[1] == "alternatives"@
    ||| path.len() == 5 && path[0] == "results"@ && path[1] == "channels"@ && path[3]
        == "alternatives"@
}

proof fn lemma_names_differ()
    ensures
        "transcript"@ != "words"@,
        "transcript"@ != "paragraphs"@,
        "transcript"@ != "transcript_chars"@,
        "transcript"@ != "transcript_words"@,
        "words"@ != "paragraphs"@,
        "words"@ != "transcript_chars"@,
        "words"@ != "transcript_words"@,
        "paragraphs"@ != "transcript_chars"@,
        "paragraphs"@ != "transcript_words"@,
        "channel"@ != "utterances"@,
        "channel"@ != "results"@,
        "results"@ != "utterances"@,
        "channels"@ != "utterances"@,
        json::array_index("alternatives"@) is None,
{
    reveal_strlit("transcript");
    reveal_strlit("words");
    reveal_strlit("paragraphs");
    reveal_strlit("transcript_chars");
    reveal_strlit("transcript_words");
    reveal_strlit("channel");
    reveal_strlit("channels");
    reveal_strlit("results");
    reveal_strlit("utterances");
    reveal_strlit("alternatives");
    assert("transcript"@[0] == 't' && "paragraphs"@[0] == 'p');
    assert("transcript"@.len() == 10 && "words"@.len() == 5 && "paragraphs"@.len() == 10);
    assert("transcript_chars"@.len() == 16 && "transcript_words"@.len() == 16);
    assert("channel"@[0] == 'c' && "results"@[0] == 'r');
    assert("channel"@.len() == 7 && "results"@.len() == 7 && "utterances"@.len() == 10);
    assert("channels"@.len() == 8);
    assert("alternatives"@[0] == 'a' && !text::is_digit("alternatives"@[0]));
}

proof fn lemma_alternatives_child(alternatives: JsonTree, token: Seq<char>)
    ensures
        redacted_alternatives(alternatives).child(token) == match alternatives.child(token) {
            Some(alternative) => Some(redacted_alternative(alternative)),
            None => None,
        },
{
}

proof fn lemma_channel_child(channel: JsonTree)
    ensures
        redacted_channel(channel).child("alternatives"@) == match channel.child(
            "alternatives"@,
        ) {
            Some(alternatives) => Some(redacted_alternatives(alternatives)),
            None => None,
        },
{
    lemma_names_differ();
}

proof fn lemma_channels_child(channels: JsonTree, token: Seq<char>)
    ensures
        redacted_channels(channels).child(token) == match channels.child(token) {
            Some(channel) => Some(redacted_channel(channel)),
            None => None,
        },
{
}

proof fn lemma_channel_pointer(channel: JsonTree, path: Seq<Seq<char>>)
    requires
        path.len() == 2,
        path[0] == "alternatives"@,
    ensures
        redacted_channel(channel).at(path) == match channel.at(path) {
            Some(alternative) => Some(redacted_alternative(alternative)),
            None => None,
        },
{
    let rest = path.skip(1);
    assert(rest.skip(1) =~= Seq::<Seq<char>>::empty());
    lemma_channel_child(channel);
    lemma_at_through_child(channel, path);
    lemma_at_through_child(redacted_channel(channel), path);
    if let Some(alternatives) = channel.child("alternatives"@) {
        lemma_at_through_child(alternatives, rest);
        lemma_at_through_child(redacted_alternatives(alternatives), rest);
        lemma_alternatives_child(alternatives, rest[0]);
    }
}

/// Redaction reaches every alternative of an event, and does to it what redacting an
/// alternative is.
pub proof fn lemma_redacted_at_pointer(event: JsonTree, path: Seq<Seq<char>>)
    requires
        is_alternative_path(path),
    ensures
        redacted(event).at(path) == match event.at(path) {
            Some(alternative) => Some(redacted_alternative(alternative)),
            None => None,
        },
{
    lemma_names_differ();
    lemma_channel_names();
    let rest = path.skip(1);
    lemma_at_through_child(event, path);
    lemma_at_through_child(redacted(event), path);
    if path.len() == 3 {
        if let Some(channel) = event.child("channel"@) {
            lemma_channel_pointer(channel, rest);
        }
    } else {
        let channels_path = rest.skip(1);
        let channel_path = channels_path.skip(1);
        if let Some(results) = event.child("results"@) {
            lemma_at_through_child(results, rest);
            lemma_at_through_child(redacted_results(results), rest);
            if let Some(channels) = results.child("channels"@) {
                lemma_at_through_child(channels, channels_path);
                lemma_at_through_child(redacted_channels(channels), channels_path);
                lemma_channels_child(channels, channels_path[0]);
                if let Some(channel) = channels.child(channels_path[0]) {
                    lemma_channel_pointer(channel, channel_path);
                }
            }
        }
    }
}

proof fn lemma_channel_names()
    ensures
        json::array_index("channel"@) is None,
        json::array_index("results"@) is None,
        json::array_index("channels"@) is None,
{
    reveal_strlit("channel");
    reveal_strlit("results");
    reveal_strlit("channels");
    assert(!text::is_digit("channel"@[0]));
    assert(!text::is_digit("results"@[0]));
    assert(!text::is_digit("channels"@[0]));
}

/// No alternative of a redacted event has a transcript, words or paragraphs, wherever the event
/// holds it, and neither the event nor its results have utterances.
pub proof fn law_every_alternative_is_redacted(event: JsonTree, path: Seq<Seq<char>>)
    requires
        is_alternative_path(path),
    ensures
        recorded(event, false) == redacted(event),
        redacted(event).member("utterances"@) is None,
        match redacted(event).member("results"@) {
            Some(results) => results.member("utterances"@) is None,
            None => true,
        },
        match redacted(event).at(path) {
            Some(JsonTree::Object(entries)) => {
                &&& !entries.dom().contains("transcript"@)
                &&& !entries.dom().contains("words"@)
                &&& !entries.dom().contains("paragraphs"@)
            },
            _ => true,
        },
{
    lemma_names_differ();
    lemma_redacted_at_pointer(event, path);
}

/// Redaction touches nothing but text: every other key of an event keeps its value, and so does
/// every other key of its channel, of its results and of an alternative, besides the two counts.
/// There is an alternative exactly where there was one.
pub proof fn law_redaction_keeps_the_rest(event: JsonTree, path: Seq<Seq<char>>, key: Seq<char>)
    requires
        is_alternative_path(path),
    ensures
        recorded(event, false) == redacted(event),
        key != "channel"@ && key != "results"@ && key != "utterances"@ ==> redacted(event).member(
            key,
        ) == event.member(key),
        match event.member("channel"@) {
            Some(channel) => {
                &&& redacted(event).member("channel"@) is Some
                &&& key != "alternatives"@ ==> redacted(event).member("channel"@)->0.member(key)
                    == channel.member(key)
            },
            None => redacted(event).member("channel"@) is None,
        },
        match event.member("results"@) {
            Some(results) => {
                &&& redacted(event).member("results"@) is Some
                &&& key != "channels"@ && key != "utterances"@ ==> redacted(event).member(
                    "results"@,
                )->0.member(key) == results.member(key)
            },
            None => redacted(event).member("results"@) is None,
        },
        match event.at(path) {
            Some(alternative) => match alternative {
                JsonTree::Object(entries) => key != "transcript"@ && key != "words"@ && key
                    != "paragraphs"@ && key != "transcript_chars"@ && key != "transcript_words"@ ==> {
                    &&& redacted(event).at(path) is Some
                    &&& redacted(event).at(path)->0.member(key) == json::lookup(entries, key)
                },
                _ => redacted(event).at(path) == Some(alternative),
            },
            None => redacted(event).at(path) is None,
        },
{
    lemma_names_differ();
    lemma_redacted_at_pointer(event, path);
}

proof fn lemma_alternatives_replaced(
    alternatives: JsonTree,
    token: Seq<char>,
    first: JsonTree,
    second: JsonTree,
)
    requires
        alternatives.child(token) is Some,
        redacted_alternative(first) == redacted_alternative(second),
    ensures
        redacted_alternatives(alternatives.with_child(token, first)) == redacted_alternatives(
            alternatives.with_child(token, second),
        ),
{
    match alternatives {
        JsonTree::Array(items) => {
            let index = json::array_index(token)->0 as int;
            assert(items.update(index, first).map_values(
                |item: JsonTree| redacted_alternative(item),
            ) =~= items.update(index, second).map_values(
                |item: JsonTree| redacted_alternative(item),
            ));
        },
        JsonTree::Object(entries) => {
            assert(entries.insert(token, first).map_values(
                |entry: JsonTree| redacted_alternative(entry),
            ) =~= entries.insert(token, second).map_values(
                |entry: JsonTree| redacted_alternative(entry),
            ));
        },
        _ => {},
    }
}

proof fn lemma_channels_replaced(
    channels: JsonTree,
    token: Seq<char>,
    first: JsonTree,
    second: JsonTree,
)
    requires
        channels.child(token) is Some,
        redacted_channel(first) == redacted_channel(second),
    ensures
        redacted_channels(channels.with_child(token, first)) == redacted_channels(
            channels.with_child(token, second),
        ),
{
    match channels {
        JsonTree::Array(items) => {
            let index = json::array_index(token)->0 as int;
            assert(items.update(index, first).map_values(|item: JsonTree| redacted_channel(item))
                =~= items.update(index, second).map_values(
                |item: JsonTree| redacted_channel(item),
            ));
        },
        JsonTree::Object(entries) => {
            assert(entries.insert(token, first).map_values(
                |entry: JsonTree| redacted_channel(entry),
            ) =~= entries.insert(token, second).map_values(
                |entry: JsonTree| redacted_channel(entry),
            ));
        },
        _ => {},
    }
}

proof fn lemma_channel_replaced(
    channel: JsonTree,
    path: Seq<Seq<char>>,
    first: JsonTree,
    second: JsonTree,
)
    requires
        path.len() == 2,
        path[0] == "alternatives"@,
        channel.at(path) is Some,
        redacted_alternative(first) == redacted_alternative(second),
    ensures
        redacted_channel(with_value_at(channel, path, first)) == redacted_channel(
            with_value_at(channel, path, second),
        ),
{
    lemma_names_differ();
    let rest = path.skip(1);
    assert(rest.skip(1) =~= Seq::<Seq<char>>::empty());
    lemma_at_through_child(channel, path);
    let alternatives = channel.child("alternatives"@)->0;
    lemma_at_through_child(alternatives, rest);
    lemma_alternatives_replaced(alternatives, rest[0], first, second);
    let one = alternatives.with_child(rest[0], first);
    let other = alternatives.with_child(rest[0], second);
    let alternative = alternatives.child(rest[0])->0;
    assert(with_value_at(alternative, rest.skip(1), first) == first);
    assert(with_value_at(alternative, rest.skip(1), second) == second);
    assert(with_value_at(alternatives, rest, first) == one);
    assert(with_value_at(alternatives, rest, second) == other);
    let entries = channel->Object_0;
    assert(channel is Object);
    assert(with_value_at(channel, path, first) == JsonTree::Object(
        entries.insert("alternatives"@, one),
    ));
    assert(with_value_at(channel, path, second) == JsonTree::Object(
        entries.insert("alternatives"@, other),
    ));
    assert(entries.insert("alternatives"@, one).insert(
        "alternatives"@,
        redacted_alternatives(one),
    ) =~= entries.insert("alternatives"@, other).insert(
        "alternatives"@,
        redacted_alternatives(other),
    ));
}

proof fn lemma_results_replaced(
    results: JsonTree,
    path: Seq<Seq<char>>,
    first: JsonTree,
    second: JsonTree,
)
    requires
        path.len() == 4,
        path[0] == "channels"@,
        path[2] == "alternatives"@,
        results.at(path) is Some,
        redacted_alternative(first) == redacted_alternative(second),
    ensures
        redacted_results(with_value_at(results, path, first)) == redacted_results(
            with_value_at(results, path, second),
        ),
{
    lemma_channel_names();
    let rest = path.skip(1);
    let channel_path = rest.skip(1);
    lemma_at_through_child(results, path);
    let channels = results.child("channels"@)->0;
    lemma_at_through_child(channels, rest);
    let channel = channels.child(rest[0])->0;
    lemma_channel_replaced(channel, channel_path, first, second);
    lemma_channels_replaced(
        channels,
        rest[0],
        with_value_at(channel, channel_path, first),
        with_value_at(channel, channel_path, second),
    );
    let one = with_value_at(channels, rest, first);
    let other = with_value_at(channels, rest, second);
    let entries = results->Object_0;
    assert(results is Object);
    assert(with_value_at(results, path, first) == JsonTree::Object(
        entries.insert("channels"@, one),
    ));
    assert(with_value_at(results, path, second) == JsonTree::Object(
        entries.insert("channels"@, other),
    ));
    assert(entries.insert("channels"@, one).insert("channels"@, redacted_channels(one))
        =~= entries.insert("channels"@, other).insert("channels"@, redacted_channels(other)));
}

/// What is kept of an event does not depend on its text: two alternatives of as many characters
/// and as many words that agree in everything but transcript, words and paragraphs leave the
/// same record, wherever the event holds them.
pub proof fn law_record_does_not_depend_on_text(
    event: JsonTree,
    path: Seq<Seq<char>>,
    first: Map<Seq<char>, JsonTree>,
    second: Map<Seq<char>, JsonTree>,
)
    requires
        is_alternative_path(path),
        event.at(path) is Some,
        alternative_transcript(first).len() == alternative_transcript(second).len(),
        alternative_words(first) == alternative_words(second),
        first.remove("transcript"@).remove("words"@).remove("paragraphs"@) == second.remove(
            "transcript"@,
        ).remove("words"@).remove("paragraphs"@),
    ensures
        recorded(with_value_at(event, path, JsonTree::Object(first)), false) == recorded(
            with_value_at(event, path, JsonTree::Object(second)),
            false,
        ),
{
    lemma_names_differ();
    lemma_channel_names();
    let rest = path.skip(1);
    let name = path[0];
    lemma_at_through_child(event, path);
    let part = event.child(name)->0;
    let entries = event->Object_0;
    assert(event is Object);
    let one = with_value_at(part, rest, JsonTree::Object(first));
    let other = with_value_at(part, rest, JsonTree::Object(second));
    assert(with_value_at(event, path, JsonTree::Object(first)) == JsonTree::Object(
        entries.insert(name, one),
    ));
    assert(with_value_at(event, path, JsonTree::Object(second)) == JsonTree::Object(
        entries.insert(name, other),
    ));
    if path.len() == 3 {
        lemma_channel_replaced(part, rest, JsonTree::Object(first), JsonTree::Object(second));
    } else {
        lemma_results_replaced(part, rest, JsonTree::Object(first), JsonTree::Object(second));
    }
    assert(redacted(JsonTree::Object(entries.insert(name, one)))->Object_0 =~= redacted(
        JsonTree::Object(entries.insert(name, other)),
    )->Object_0);
}

/// What is kept of an event does not depend on its utterances, nor on whether it has any, and
/// neither does it on those of its results.
pub proof fn law_record_does_not_depend_on_utterances(
    entries: Map<Seq<char>, JsonTree>,
    results: Map<Seq<char>, JsonTree>,
    utterances: JsonTree,
)
    ensures
        recorded(JsonTree::Object(entries.insert("utterances"@, utterances)), false) == recorded(
            JsonTree::Object(entries.remove("utterances"@)),
            false,
        ),
        recorded(
            JsonTree::Object(
                entries.insert(
                    "results"@,
                    JsonTree::Object(results.insert("utterances"@, utterances)),
                ),
            ),
            false,
        ) == recorded(
            JsonTree::Object(
                entries.insert("results"@, JsonTree::Object(results.remove("utterances"@))),
            ),
            false,
        ),
{
    lemma_names_differ();
    let first = JsonTree::Object(entries.insert("utterances"@, utterances));
    let second = JsonTree::Object(entries.remove("utterances"@));
    assert(redacted(first)->Object_0 =~= redacted(second)->Object_0);
    let with = JsonTree::Object(results.insert("utterances"@, utterances));
    let without = JsonTree::Object(results.remove("utterances"@));
    assert(redacted_results(with)->Object_0 =~= redacted_results(without)->Object_0);
    let third = JsonTree::Object(entries.insert("results"@, with));
    let fourth = JsonTree::Object(entries.insert("results"@, without));
    assert(redacted(third)->Object_0 =~= redacted(fourth)->Object_0);
}

/// Whether a byte is ASCII white space.
pub open spec fn ascii_space(byte: u8) -> bool {
    byte == 9 || byte == 10 || byte == 12 || byte == 13 || byte == 32
}

/// A run of bytes without its leading ASCII white space.
pub open spec fn bytes_trim_start(s: Seq<u8>) -> Seq<u8>
    decreases s.len(),
{
    if s.len() > 0 && ascii_space(s[0]) {
        bytes_trim_start(s.skip(1))
    } else {
        s
    }
}

/// A run of bytes without its trailing ASCII white space.
pub open spec fn bytes_trim_end(s: Seq<u8>) -> Seq<u8>
    decreases s.len(),
{
    if s.len() > 0 && ascii_space(s.last()) {
        bytes_trim_end(s.drop_last())
    } else {
        s
    }
}

/// A run of bytes without the ASCII white space around it.
pub open spec fn bytes_trimmed(s: Seq<u8>) -> Seq<u8> {
    bytes_trim_end(bytes_trim_start(s))
}

fn is_ascii_space(byte: u8) -> (found: bool)
    ensures
        found == ascii_space(byte),
{
    byte == 9 || byte == 10 || byte == 12 || byte == 13 || byte == 32
}

/// The part of a line between the ASCII white space around it.
pub fn trim_ascii(line: &[u8]) -> (inner: &[u8])
    ensures
        inner@ == bytes_trimmed(line@),
{
    let length = line.len();
    let mut start: usize = 0;
    assert(line@.skip(0) =~= line@);
    while start < length && is_ascii_space(line[start])
        invariant
            start <= length == line@.len(),
            bytes_trim_start(line@) == bytes_trim_start(line@.skip(start as int)),
        decreases length - start,
    {
        assert(line@.skip(start as int).skip(1) =~= line@.skip(start + 1));
        start = start + 1;
    }
    let ghost rest = line@.skip(start as int);
    let mut end: usize = length;
    assert(rest.take(end - start) =~= rest);
    while start < end && is_ascii_space(line[end - 1])
        invariant
            start <= end <= length == line@.len(),
            rest == line@.skip(start as int),
            bytes_trim_end(rest) == bytes_trim_end(rest.take(end - start)),
        decreases end,
    {
        assert(rest.take(end - start).drop_last() =~= rest.take(end - start - 1));
        end = end - 1;
    }
    assert(rest.take(end - start) =~= line@.subrange(start as int, end as int));
    slice_subrange(line, start, end)
}

/// The pieces of a stream of bytes between its line feeds. The last one is not complete yet.
pub open spec fn byte_lines(s: Seq<u8>) -> Seq<Seq<u8>>
    decreases s.len(),
{
    if s.len() == 0 {
        seq![Seq::<u8>::empty()]
    } else {
        let before = byte_lines(s.drop_last());
        if s.last() == 10 {
            before.push(Seq::<u8>::empty())
        } else {
            before.drop_last().push(before.last().push(s.last()))
        }
    }
}

/// The complete lines of a stream of bytes.
pub open spec fn complete_lines(s: Seq<u8>) -> Seq<Seq<u8>> {
    byte_lines(s).drop_last()
}

/// The bytes behind the last line feed of a stream.
pub open spec fn open_line(s: Seq<u8>) -> Seq<u8> {
    byte_lines(s).last()
}

/// A stream that is continued has the lines that it had, and then those of its open line and
/// what follows.
pub proof fn lemma_byte_lines_continue(s: Seq<u8>, more: Seq<u8>)
    ensures
        byte_lines(s).len() > 0,
        complete_lines(s + more) == complete_lines(s) + complete_lines(open_line(s) + more),
        open_line(s + more) == open_line(open_line(s) + more),
    decreases more.len(),
{
    lemma_open_line_is_open(s);
    if more.len() == 0 {
        assert(s + more =~= s);
        assert(open_line(s) + more =~= open_line(s));
        lemma_one_line(open_line(s));
        assert(complete_lines(s) + complete_lines(open_line(s)) =~= complete_lines(s));
    } else {
        let shorter = more.drop_last();
        lemma_byte_lines_continue(s, shorter);
        lemma_open_line_is_open(open_line(s) + shorter);
        lemma_open_line_is_open(s + shorter);
        assert((s + more).drop_last() =~= s + shorter);
        assert((open_line(s) + more).drop_last() =~= open_line(s) + shorter);
        let whole = byte_lines(s + shorter);
        let part = byte_lines(open_line(s) + shorter);
        assert(whole.last() == part.last());
        if more.last() == 10 {
            assert(byte_lines(s + more).drop_last() =~= whole);
            assert(byte_lines(open_line(s) + more).drop_last() =~= part);
            assert(whole =~= whole.drop_last().push(whole.last()));
            assert(part =~= part.drop_last().push(part.last()));
            assert(whole =~= complete_lines(s) + part);
        } else {
            assert(byte_lines(s + more).drop_last() =~= whole.drop_last());
            assert(byte_lines(open_line(s) + more).drop_last() =~= part.drop_last());
        }
    }
}

proof fn lemma_open_line_is_open(s: Seq<u8>)
    ensures
        byte_lines(s).len() > 0,
        !open_line(s).contains(10),
    decreases s.len(),
{
    if s.len() > 0 {
        lemma_open_line_is_open(s.drop_last());
        if s.last() != 10 {
            let before = open_line(s.drop_last());
            assert forall|i: int| 0 <= i < open_line(s).len() implies open_line(s)[i] != 10 by {
                if i < before.len() {
                    assert(before.contains(before[i]));
                }
            }
        }
    }
}

proof fn lemma_one_line(s: Seq<u8>)
    requires
        !s.contains(10),
    ensures
        byte_lines(s) == seq![s],
    decreases s.len(),
{
    if s.len() > 0 {
        let shorter = s.drop_last();
        assert forall|i: int| 0 <= i < shorter.len() implies shorter[i] != 10 by {
            assert(s.contains(s[i]));
        }
        lemma_one_line(shorter);
        assert(s.contains(s.last()));
        assert(byte_lines(s) =~~= seq![s]);
    } else {
        assert(byte_lines(s) =~~= seq![s]);
    }
}

/// The response event of a line: what it parses to, or else a report of the parser's error.
pub open spec fn line_event(line: Seq<u8>) -> JsonTree {
    match json::parsed_bytes(line) {
        Ok(event) => event,
        Err(message) => JsonTree::Object(
            json::collected(
                seq![
                    ("type"@, JsonTree::Text("ParseError"@)),
                    ("error"@, JsonTree::Text(message)),
                    ("raw_bytes"@, JsonTree::Number(text::decimal(line.len()))),
                ],
            ),
        ),
    }
}

fn event_of_line(line: &[u8]) -> (event: Json)
    ensures
        event@ == line_event(line@),
{
    match Json::parse_bytes(line) {
        Ok(event) => event,
        Err(message) => {
            let ghost text = message@;
            let mut members: Vec<(String, Json)> = Vec::new();
            members.push(("type".to_owned(), Json::string("ParseError")));
            members.push(("error".to_owned(), Json::Text(message)));
            members.push(("raw_bytes".to_owned(), Json::count(line.len() as u64)));
            assert(json::entry_trees(members@) =~= seq![
                ("type"@, JsonTree::Text("ParseError"@)),
                ("error"@, JsonTree::Text(text)),
                ("raw_bytes"@, JsonTree::Number(text::decimal(line@.len()))),
            ]);
            Json::Object(members)
        },
    }
}

/// The source that a progress log belongs to, and whether the log keeps transcripts.
pub struct Origin {
    pub source_index: nat,
    pub source_url: Seq<char>,
    pub store_transcripts: bool,
}

/// The entry of a progress log.
pub open spec fn log_entry(origin: Origin, event: JsonTree) -> JsonTree {
    JsonTree::Object(
        json::collected(
            seq![
                ("source_index"@, JsonTree::Number(text::decimal(origin.source_index))),
                ("source_url"@, JsonTree::Text(origin.source_url)),
                ("event"@, event),
            ],
        ),
    )
}

/// The event that stands in a progress log for the head of a response.
pub open spec fn head_event(status: u16, content_type: Option<Seq<char>>) -> JsonTree {
    JsonTree::Object(
        json::collected(
            seq![
                ("type"@, JsonTree::Text("ResponseHead"@)),
                ("status"@, JsonTree::Number(text::decimal(status as nat))),
                (
                    "content_type"@,
                    match content_type {
                        Some(value) => JsonTree::Text(value),
                        None => JsonTree::Null,
                    },
                ),
            ],
        ),
    )
}

/// Whether a status is one of success.
pub open spec fn success(status: u16) -> bool {
    200 <= status < 300
}

/// What the events of a response have added up to.
#[verifier::ext_equal]
pub struct Progress {
    /// The status of the response's head, once it came.
    pub status: Option<u16>,
    /// The number of events, as far as a machine word counts.
    pub events: usize,
    /// The final transcripts, in order.
    pub final_segments: Seq<Seq<char>>,
    /// The last interim transcript.
    pub last_interim: Option<Seq<char>>,
    /// The lines of a failed response.
    pub error_body: Seq<u8>,
    /// The bytes behind the last complete line.
    pub pending: Seq<u8>,
}

/// The transcript of a result event, empty where it has none.
pub open spec fn result_transcript(event: JsonTree) -> Seq<char> {
    match json::text_at(event, streaming_path()) {
        Some(transcript) => text::trimmed(transcript),
        None => Seq::empty(),
    }
}

/// Whether a result event is final. One that does not say so is not.
pub open spec fn result_is_final(event: JsonTree) -> bool {
    match event.member("is_final"@) {
        Some(value) => match value.flag() {
            Some(flag) => flag,
            None => false,
        },
        None => false,
    }
}

impl Progress {
    /// Nothing has come yet.
    pub open spec fn fresh() -> Progress {
        Progress {
            status: None,
            events: 0,
            final_segments: Seq::empty(),
            last_interim: None,
            error_body: Seq::empty(),
            pending: Seq::empty(),
        }
    }

    /// Whether the response has failed.
    pub open spec fn failed(self) -> bool {
        match self.status {
            Some(status) => !success(status),
            None => false,
        }
    }

    /// What has come once an event of a response that has not failed is added.
    pub open spec fn after_event(self, event: JsonTree) -> Progress {
        let events = if self.events == usize::MAX {
            usize::MAX
        } else {
            (self.events + 1) as usize
        };
        let counted = Progress { events, ..self };
        if json::text_member(event, "type"@) != Some("Results"@) || result_transcript(event).len()
            == 0 {
            counted
        } else if result_is_final(event) {
            Progress {
                final_segments: self.final_segments.push(result_transcript(event)),
                ..counted
            }
        } else {
            Progress { last_interim: Some(result_transcript(event)), ..counted }
        }
    }

    /// What has come once a line is added. A blank line adds nothing; a line of a failed
    /// response adds to its error.
    pub open spec fn after_line(self, raw: Seq<u8>) -> Progress {
        let line = bytes_trimmed(raw);
        if line.len() == 0 {
            self
        } else if self.failed() {
            Progress {
                error_body: if self.error_body.len() == 0 {
                    line
                } else {
                    self.error_body.push(10) + line
                },
                ..self
            }
        } else {
            self.after_event(line_event(line))
        }
    }

    /// What has come once several lines are added.
    pub open spec fn after_lines(self, lines: Seq<Seq<u8>>) -> Progress
        decreases lines.len(),
    {
        if lines.len() == 0 {
            self
        } else {
            self.after_lines(lines.drop_last()).after_line(lines.last())
        }
    }

    /// What has come once bytes are added.
    pub open spec fn after_data(self, data: Seq<u8>) -> Progress {
        let stream = self.pending + data;
        Progress { pending: open_line(stream), ..self.after_lines(complete_lines(stream)) }
    }

    /// What has come once the response is at its end: an open line is complete.
    pub open spec fn after_end(self) -> Progress {
        Progress { pending: Seq::empty(), ..self.after_line(self.pending) }
    }

    /// What is held back is not a complete line, and no transcript is blank or has white
    /// space around it.
    pub open spec fn well_formed(self) -> bool {
        &&& !self.pending.contains(10)
        &&& forall|i: int|
            0 <= i < self.final_segments.len() ==> text::clean(#[trigger] self.final_segments[i])
        &&& match self.last_interim {
            Some(transcript) => text::clean(transcript),
            None => true,
        }
    }
}

/// The entries that lines add to a progress log: none for a blank line.
pub open spec fn line_entries(origin: Origin, lines: Seq<Seq<u8>>) -> Seq<(Seq<char>, JsonTree)>
    decreases lines.len(),
{
    if lines.len() == 0 {
        Seq::empty()
    } else {
        let before = line_entries(origin, lines.drop_last());
        let line = bytes_trimmed(lines.last());
        if line.len() == 0 {
            before
        } else {
            let event = line_event(line);
            before.push(
                (
                    json::written_text(
                        log_entry(origin, recorded(event, origin.store_transcripts)),
                    ),
                    event,
                ),
            )
        }
    }
}

/// A line for the progress log, and the event that it is about.
#[derive(Debug, PartialEq)]
pub struct ProgressEntry {
    pub line: String,
    pub event: Json,
}

/// The values of a list of progress entries.
pub open spec fn entries_of(entries: Seq<ProgressEntry>) -> Seq<(Seq<char>, JsonTree)> {
    entries.map_values(|entry: ProgressEntry| (entry.line@, entry.event@))
}

/// Why a response gives no transcript.
#[derive(Debug, PartialEq, Eq)]
pub enum TranscriptError {
    /// The response has failed; its status and its lines.
    Failed { status: u16, body: String },
    /// The response had no head.
    NoResponseHead,
    /// The response had no transcript among so many events.
    NoTranscript { events: usize },
}

/// The mathematical value of a `TranscriptError`.
pub enum TranscriptFault {
    Failed(u16, Seq<char>),
    NoResponseHead,
    NoTranscript(usize),
}

impl View for TranscriptError {
    type V = TranscriptFault;

    open spec fn view(&self) -> TranscriptFault {
        match self {
            TranscriptError::Failed { status, body } => TranscriptFault::Failed(*status, body@),
            TranscriptError::NoResponseHead => TranscriptFault::NoResponseHead,
            TranscriptError::NoTranscript { events } => TranscriptFault::NoTranscript(*events),
        }
    }
}

impl Progress {
    /// The transcript of the response: its final segments joined by spaces, or else its last
    /// interim transcript, or else, where that is allowed, an empty one.
    pub open spec fn transcript(self, allow_empty: bool) -> Result<Seq<char>, TranscriptFault> {
        let joined = text::joined(self.final_segments, " "@);
        match self.status {
            None => Err(TranscriptFault::NoResponseHead),
            Some(status) => if !success(status) {
                Err(TranscriptFault::Failed(status, text::lossy_text(self.error_body)))
            } else if text::trimmed(joined).len() > 0 {
                Ok(joined)
            } else if self.last_interim is Some && self.last_interim->0.len() > 0 {
                Ok(self.last_interim->0)
            } else if allow_empty {
                Ok(Seq::empty())
            } else {
                Err(TranscriptFault::NoTranscript(self.events))
            },
        }
    }
}

/// Whether a text is a single line.
pub open spec fn single_line(s: Seq<char>) -> bool {
    !s.contains('\n') && !s.contains('\r')
}

/// The progress log of the response to one source.
pub struct ProgressLog {
    source_index: usize,
    source_url: String,
    store_transcripts: bool,
    pending: Vec<u8>,
    status: Option<u16>,
    events: usize,
    final_segments: Vec<String>,
    last_interim: Option<String>,
    error_body: Vec<u8>,
}

impl View for ProgressLog {
    type V = Progress;

    closed spec fn view(&self) -> Progress {
        Progress {
            status: self.status,
            events: self.events,
            final_segments: text::texts(self.final_segments@),
            last_interim: text_of(self.last_interim),
            error_body: self.error_body@,
            pending: self.pending@,
        }
    }
}

impl ProgressLog {
    /// The source that the log belongs to.
    pub closed spec fn origin(self) -> Origin {
        Origin {
            source_index: self.source_index as nat,
            source_url: self.source_url@,
            store_transcripts: self.store_transcripts,
        }
    }

    /// The log of a source, before anything has come.
    pub fn new(source_index: usize, source_url: &str, store_transcripts: bool) -> (log: ProgressLog)
        ensures
            log@ == Progress::fresh(),
            log@.well_formed(),
            log.origin() == (Origin {
                source_index: source_index as nat,
                source_url: source_url@,
                store_transcripts,
            }),
    {
        let log = ProgressLog {
            source_index,
            source_url: source_url.to_owned(),
            store_transcripts,
            pending: Vec::new(),
            status: None,
            events: 0,
            final_segments: Vec::new(),
            last_interim: None,
            error_body: Vec::new(),
        };
        assert(log@ =~= Progress::fresh());
        log
    }

    fn entry_line(&self, event: Json) -> (line: String)
        ensures
            line@ == json::written_text(log_entry(self.origin(), event@)),
            single_line(line@),
    {
        let ghost tree = event@;
        let mut members: Vec<(String, Json)> = Vec::new();
        members.push(("source_index".to_owned(), Json::count(self.source_index as u64)));
        members.push(("source_url".to_owned(), Json::Text(self.source_url.clone())));
        members.push(("event".to_owned(), event));
        assert(json::entry_trees(members@) =~= seq![
            ("source_index"@, JsonTree::Number(text::decimal(self.origin().source_index))),
            ("source_url"@, JsonTree::Text(self.origin().source_url)),
            ("event"@, tree),
        ]);
        Json::Object(members).to_line()
    }

    /// Takes the head of the response in, and gives the line for the log.
    pub fn send_response(&mut self, status: u16, content_type: Option<String>) -> (line: String)
        requires
            old(self)@.well_formed(),
        ensures
            final(self)@.well_formed(),
            final(self)@ == (Progress { status: Some(status), ..old(self)@ }),
            final(self).origin() == old(self).origin(),
            line@ == json::written_text(
                log_entry(old(self).origin(), head_event(status, text_of(content_type))),
            ),
            single_line(line@),
    {
        self.status = Some(status);
        let ghost media_type = text_of(content_type);
        let mut members: Vec<(String, Json)> = Vec::new();
        members.push(("type".to_owned(), Json::string("ResponseHead")));
        members.push(("status".to_owned(), Json::count(status as u64)));
        members.push(
            (
                "content_type".to_owned(),
                match content_type {
                    Some(value) => Json::Text(value),
                    None => Json::Null,
                },
            ),
        );
        assert(json::entry_trees(members@) =~= seq![
            ("type"@, JsonTree::Text("ResponseHead"@)),
            ("status"@, JsonTree::Number(text::decimal(status as nat))),
            (
                "content_type"@,
                match media_type {
                    Some(value) => JsonTree::Text(value),
                    None => JsonTree::Null,
                },
            ),
        ]);
        self.entry_line(Json::Object(members))
    }

    fn record_event(&mut self, event: &Json)
        ensures
            final(self)@ == old(self)@.after_event(event@),
            final(self).origin() == old(self).origin(),
    {
        let ghost before = self@;
        self.events = self.events.saturating_add(1);
        let is_result = match event.get("type") {
            Some(value) => match value.as_text() {
                Some(name) => same_text(name.as_str(), "Results"),
                None => false,
            },
            None => false,
        };
        if is_result {
            let transcript = match streaming_transcript(event) {
                Some(found) => found,
                None => String::new(),
            };
            if !transcript.as_str().is_empty() {
                if flag_or(event, "is_final", false) {
                    let ghost segments = self.final_segments@;
                    self.final_segments.push(transcript);
                    assert(text::texts(self.final_segments@) =~= text::texts(segments).push(
                        transcript@,
                    ));
                } else {
                    self.last_interim = Some(transcript);
                }
            }
        }
        assert(self@ =~= before.after_event(event@));
    }

    fn process_line(&mut self, raw: &[u8]) -> (entry: Option<ProgressEntry>)
        ensures
            final(self)@ == old(self)@.after_line(raw@),
            final(self).origin() == old(self).origin(),
            match entry {
                Some(found) => {
                    &&& bytes_trimmed(raw@).len() > 0
                    &&& found.event@ == line_event(bytes_trimmed(raw@))
                    &&& found.line@ == json::written_text(
                        log_entry(
                            old(self).origin(),
                            recorded(found.event@, old(self).origin().store_transcripts),
                        ),
                    )
                    &&& single_line(found.line@)
                },
                None => bytes_trimmed(raw@).len() == 0,
            },
    {
        let ghost before = self@;
        let line = trim_ascii(raw);
        if line.len() == 0 {
            return None;
        }
        let event = event_of_line(line);
        let kept = progress_event(&event, self.store_transcripts);
        let text = self.entry_line(kept);
        let failed = match self.status {
            Some(status) => status < 200 || 300 <= status,
            None => false,
        };
        if failed {
            if self.error_body.len() > 0 {
                self.error_body.push(10);
            }
            self.error_body.extend_from_slice(line);
            assert(self.error_body@ =~= if before.error_body.len() == 0 {
                line@
            } else {
                before.error_body.push(10) + line@
            });
            assert(self@ =~= before.after_line(raw@));
        } else {
            self.record_event(&event);
        }
        Some(ProgressEntry { line: text, event })
    }

    /// Takes bytes of the response's body in, and gives the entries of the lines that they
    /// complete.
    pub fn send_data(&mut self, data: &[u8]) -> (entries: Vec<ProgressEntry>)
        requires
            old(self)@.well_formed(),
        ensures
            final(self)@ == old(self)@.after_data(data@),
            final(self)@.well_formed(),
            final(self).origin() == old(self).origin(),
            entries_of(entries@) == line_entries(
                old(self).origin(),
                complete_lines(old(self)@.pending + data@),
            ),
            forall|i: int| 0 <= i < entries@.len() ==> single_line(#[trigger] entries@[i].line@),
    {
        let ghost start = self@;
        let ghost origin = self.origin();
        let mut entries: Vec<ProgressEntry> = Vec::new();
        let mut current: Vec<u8> = Vec::new();
        std::mem::swap(&mut current, &mut self.pending);
        proof {
            lemma_one_line(start.pending);
            assert(start.pending + data@.take(0) =~= start.pending);
            assert(complete_lines(start.pending) =~= Seq::<Seq<u8>>::empty());
            assert(self@ =~= Progress { pending: Seq::empty(), ..start });
            assert(entries_of(entries@) =~= line_entries(origin, Seq::empty()));
        }
        for i in 0..data.len()
            invariant
                self.origin() == origin,
                current@ == open_line(start.pending + data@.take(i as int)),
                self@ == (Progress {
                    pending: Seq::empty(),
                    ..start.after_lines(complete_lines(start.pending + data@.take(i as int)))
                }),
                entries_of(entries@) == line_entries(
                    origin,
                    complete_lines(start.pending + data@.take(i as int)),
                ),
                forall|j: int|
                    0 <= j < entries@.len() ==> single_line(#[trigger] entries@[j].line@),
        {
            let ghost stream = start.pending + data@.take(i as int);
            let ghost longer = start.pending + data@.take(i + 1);
            assert(longer.drop_last() =~= stream);
            assert(longer.last() == data@[i as int]);
            proof {
                lemma_open_line_is_open(stream);
            }
            if data[i] == 10 {
                let ghost held = self@;
                assert(complete_lines(longer) =~= byte_lines(stream));
                assert(byte_lines(stream).drop_last() =~= complete_lines(stream));
                let ghost reached = start.after_lines(complete_lines(stream));
                let ghost before = entries@;
                proof {
                    lemma_pending_is_carried(reached, Seq::empty(), current@);
                }
                match self.process_line(current.as_slice()) {
                    Some(entry) => {
                        entries.push(entry);
                        assert(entries_of(entries@) =~= entries_of(before).push(
                            (entry.line@, entry.event@),
                        ));
                    },
                    None => {},
                }
                current = Vec::new();
                assert(current@ =~= open_line(longer));
            } else {
                current.push(data[i]);
                assert(complete_lines(longer) =~= complete_lines(stream));
                assert(current@ =~= open_line(longer));
            }
        }
        assert(data@.take(data@.len() as int) =~= data@);
        proof {
            lemma_open_line_is_open(start.pending + data@);
            lemma_lines_keep_form(start, complete_lines(start.pending + data@));
        }
        let ghost reached = self@;
        self.pending = current;
        assert(self@ =~= Progress { pending: current@, ..reached });
        assert(self@ =~= start.after_data(data@));
        entries
    }

    /// Takes the end of the response in, and gives the entry of a line that was still open.
    pub fn finish(&mut self) -> (entry: Option<ProgressEntry>)
        requires
            old(self)@.well_formed(),
        ensures
            final(self)@ == old(self)@.after_end(),
            final(self)@.well_formed(),
            final(self).origin() == old(self).origin(),
            match entry {
                Some(found) => {
                    &&& line_entries(old(self).origin(), seq![old(self)@.pending]) == seq![
                        (found.line@, found.event@),
                    ]
                    &&& single_line(found.line@)
                },
                None => line_entries(old(self).origin(), seq![old(self)@.pending]) == Seq::<
                    (Seq<char>, JsonTree),
                >::empty(),
            },
    {
        let ghost start = self@;
        let mut current: Vec<u8> = Vec::new();
        std::mem::swap(&mut current, &mut self.pending);
        assert(self@ =~= Progress { pending: Seq::empty(), ..start });
        proof {
            lemma_pending_is_carried(start, Seq::empty(), current@);
            lemma_line_keeps_form(start, current@);
            assert(seq![current@].drop_last() =~= Seq::<Seq<u8>>::empty());
            assert(line_entries(self.origin(), Seq::<Seq<u8>>::empty()) =~= Seq::<
                (Seq<char>, JsonTree),
            >::empty());
        }
        let entry = self.process_line(current.as_slice());
        assert(self@ =~= start.after_end());
        entry
    }

    /// The transcript of the response.
    pub fn transcript(&self, allow_empty: bool) -> (transcript: Result<String, TranscriptError>)
        ensures
            match transcript {
                Ok(found) => self@.transcript(allow_empty) == Ok::<Seq<char>, TranscriptFault>(
                    found@,
                ),
                Err(error) => self@.transcript(allow_empty) == Err::<Seq<char>, TranscriptFault>(
                    error@,
                ),
            },
    {
        match self.status {
            Some(status) => if status < 200 || 300 <= status {
                return Err(
                    TranscriptError::Failed {
                        status,
                        body: text_of_bytes(self.error_body.as_slice()),
                    },
                );
            },
            None => {
                return Err(TranscriptError::NoResponseHead);
            },
        }
        let joined = join(&self.final_segments, " ");
        let chars = chars_of(joined.as_str());
        if trim(chars.as_slice()).len() > 0 {
            return Ok(joined);
        }
        if let Some(interim) = &self.last_interim {
            if !interim.as_str().is_empty() {
                return Ok(interim.clone());
            }
        }
        if allow_empty {
            Ok(String::new())
        } else {
            Err(TranscriptError::NoTranscript { events: self.events })
        }
    }
}

/// What a line adds does not depend on the bytes that are held back.
proof fn lemma_pending_is_carried(progress: Progress, pending: Seq<u8>, line: Seq<u8>)
    ensures
        (Progress { pending, ..progress }).after_line(line) == (Progress {
            pending,
            ..progress.after_line(line)
        }),
        progress.after_line(line).pending == progress.pending,
{
}

proof fn lemma_pending_is_carried_through(
    progress: Progress,
    pending: Seq<u8>,
    lines: Seq<Seq<u8>>,
)
    ensures
        (Progress { pending, ..progress }).after_lines(lines) == (Progress {
            pending,
            ..progress.after_lines(lines)
        }),
    decreases lines.len(),
{
    if lines.len() > 0 {
        lemma_pending_is_carried_through(progress, pending, lines.drop_last());
        lemma_pending_is_carried(
            progress.after_lines(lines.drop_last()),
            pending,
            lines.last(),
        );
    }
}

proof fn lemma_after_lines_continue(progress: Progress, first: Seq<Seq<u8>>, second: Seq<Seq<u8>>)
    ensures
        progress.after_lines(first + second) == progress.after_lines(first).after_lines(second),
    decreases second.len(),
{
    if second.len() == 0 {
        assert(first + second =~= first);
    } else {
        lemma_after_lines_continue(progress, first, second.drop_last());
        assert((first + second).drop_last() =~= first + second.drop_last());
    }
}

proof fn lemma_line_entries_continue(origin: Origin, first: Seq<Seq<u8>>, second: Seq<Seq<u8>>)
    ensures
        line_entries(origin, first + second) == line_entries(origin, first) + line_entries(
            origin,
            second,
        ),
    decreases second.len(),
{
    if second.len() == 0 {
        assert(first + second =~= first);
        assert(line_entries(origin, first) + line_entries(origin, second) =~= line_entries(
            origin,
            first,
        ));
    } else {
        lemma_line_entries_continue(origin, first, second.drop_last());
        assert((first + second).drop_last() =~= first + second.drop_last());
        assert(line_entries(origin, first + second) =~= line_entries(origin, first) + line_entries(
            origin,
            second,
        ));
    }
}

/// It does not matter where a response's body is cut into chunks: two chunks lead to the same
/// progress and to the same log entries as the two in one.
pub proof fn law_chunking_does_not_matter(
    progress: Progress,
    origin: Origin,
    first: Seq<u8>,
    second: Seq<u8>,
)
    ensures
        progress.after_data(first).after_data(second) == progress.after_data(first + second),
        line_entries(origin, complete_lines(progress.pending + first)) + line_entries(
            origin,
            complete_lines(progress.after_data(first).pending + second),
        ) == line_entries(origin, complete_lines(progress.pending + (first + second))),
{
    let stream = progress.pending + first;
    assert(stream + second =~= progress.pending + (first + second));
    lemma_byte_lines_continue(stream, second);
    let opened = complete_lines(stream);
    let rest = complete_lines(open_line(stream) + second);
    lemma_line_entries_continue(origin, opened, rest);
    lemma_after_lines_continue(progress, opened, rest);
    lemma_pending_is_carried_through(progress.after_lines(opened), open_line(stream), rest);
}

proof fn lemma_line_keeps_form(progress: Progress, line: Seq<u8>)
    requires
        progress.well_formed(),
    ensures
        progress.after_line(line).well_formed(),
{
    let event = line_event(bytes_trimmed(line));
    if let Some(transcript) = json::text_at(event, streaming_path()) {
        text::lemma_trimmed_is_clean(transcript);
    }
}

proof fn lemma_lines_keep_form(progress: Progress, lines: Seq<Seq<u8>>)
    requires
        progress.well_formed(),
    ensures
        progress.after_lines(lines).well_formed(),
    decreases lines.len(),
{
    if lines.len() > 0 {
        lemma_lines_keep_form(progress, lines.drop_last());
        lemma_line_keeps_form(progress.after_lines(lines.drop_last()), lines.last());
    }
}

/// A response that has failed, or that had no head, gives no transcript, whatever else came.
pub proof fn law_failed_response_gives_no_transcript(progress: Progress, allow_empty: bool)
    requires
        progress.failed() || progress.status is None,
    ensures
        progress.transcript(allow_empty) is Err,
{
}

/// The transcript of a successful response is made of all its final segments where there is
/// one, of the last interim transcript where there is none, and is missing only where nothing
/// was transcribed and an empty transcript is not allowed. There is no white space around it.
pub proof fn law_final_segments_come_first(progress: Progress, allow_empty: bool)
    requires
        progress.well_formed(),
        progress.status is Some,
        !progress.failed(),
    ensures
        progress.final_segments.len() > 0 ==> progress.transcript(allow_empty) == Ok::<
            Seq<char>,
            TranscriptFault,
        >(text::joined(progress.final_segments, " "@)),
        progress.final_segments.len() == 0 && progress.last_interim is Some
            ==> progress.transcript(allow_empty) == Ok::<Seq<char>, TranscriptFault>(
            progress.last_interim->0,
        ),
        progress.transcript(allow_empty) is Err <==> progress.final_segments.len() == 0
            && progress.last_interim is None && !allow_empty,
        match progress.transcript(allow_empty) {
            Ok(transcript) => transcript.len() > 0 ==> text::clean(transcript),
            Err(_) => true,
        },
{
    let segments = progress.final_segments;
    if segments.len() > 0 {
        text::lemma_joined_is_clean(segments, " "@);
        text::lemma_clean_is_trimmed(text::joined(segments, " "@));
    }
}

/// The number of characters that a preview shows.
pub const PREVIEW_LIMIT: usize = 220;

/// The beginning of a transcript, with an ellipsis where there is more.
pub open spec fn preview(transcript: Seq<char>) -> Seq<char> {
    if transcript.len() > PREVIEW_LIMIT {
        transcript.take(PREVIEW_LIMIT as int) + "..."@
    } else {
        transcript
    }
}

/// The beginning of a transcript.
pub fn transcript_preview(transcript: &str) -> (shown: String)
    ensures
        shown@ == preview(transcript@),
{
    let chars = chars_of(transcript);
    if chars.len() > PREVIEW_LIMIT {
        let mut shown = text::string_of(slice_subrange(chars.as_slice(), 0, PREVIEW_LIMIT));
        shown.append("...");
        assert(transcript@.take(PREVIEW_LIMIT as int) =~= transcript@.subrange(
            0,
            PREVIEW_LIMIT as int,
        ));
        shown
    } else {
        text::string_of(chars.as_slice())
    }
}

} // verus!
