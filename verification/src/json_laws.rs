//! What holds of JSON documents, stated over the members and the items of their trees.

use crate::json::{self, array_index, collected, JsonTree};
use crate::text;
use crate::text_laws;
use crate::transcript::{complete_path, streaming_path};
use vstd::prelude::*;

verus! {

/// Whether a document is an object with this value under this key.
pub open spec fn holds(document: JsonTree, key: Seq<char>, value: JsonTree) -> bool {
    &&& document matches JsonTree::Object(members)
    &&& members.dom().contains(key)
    &&& members[key] == value
}

/// Whether a document has no value under this key.
pub open spec fn lacks(document: JsonTree, key: Seq<char>) -> bool {
    document matches JsonTree::Object(members) ==> !members.dom().contains(key)
}

/// The first item of a list, or what an object holds under the key of that place.
pub open spec fn first_of(document: JsonTree) -> Option<JsonTree> {
    match document {
        JsonTree::Array(items) => if items.len() > 0 {
            Some(items[0])
        } else {
            None
        },
        JsonTree::Object(members) => if members.dom().contains("0"@) {
            Some(members["0"@])
        } else {
            None
        },
        _ => None,
    }
}

/// Whether the first of a channel's alternatives has this transcript.
pub open spec fn first_alternative_says(channel: JsonTree, transcript: Seq<char>) -> bool {
    &&& channel matches JsonTree::Object(members)
    &&& members.dom().contains("alternatives"@)
    &&& first_of(members["alternatives"@]) matches Some(first)
    &&& holds(first, "transcript"@, JsonTree::Text(transcript))
}

/// Whether an event of a streamed response has this transcript.
pub open spec fn event_says(event: JsonTree, transcript: Seq<char>) -> bool {
    &&& event matches JsonTree::Object(members)
    &&& members.dom().contains("channel"@)
    &&& first_alternative_says(members["channel"@], transcript)
}

/// Whether a complete response has this transcript.
pub open spec fn body_says(body: JsonTree, transcript: Seq<char>) -> bool {
    &&& body matches JsonTree::Object(members)
    &&& members.dom().contains("results"@)
    &&& members["results"@] matches JsonTree::Object(results)
    &&& results.dom().contains("channels"@)
    &&& first_of(results["channels"@]) matches Some(first)
    &&& first_alternative_says(first, transcript)
}

/// Whether the first of a channel's alternatives, if there is one, has no transcript.
pub open spec fn first_alternative_is_silent(channel: JsonTree) -> bool {
    match channel {
        JsonTree::Object(members) => !members.dom().contains("alternatives"@) || match first_of(
            members["alternatives"@],
        ) {
            Some(JsonTree::Object(first)) => !first.dom().contains("transcript"@)
                || !(first["transcript"@] is Text),
            _ => true,
        },
        _ => true,
    }
}

/// Whether an event of a streamed response has no transcript.
pub open spec fn event_is_silent(event: JsonTree) -> bool {
    event matches JsonTree::Object(members) ==> !members.dom().contains("channel"@)
        || first_alternative_is_silent(members["channel"@])
}

/// Whether a complete response has no transcript.
pub open spec fn body_is_silent(body: JsonTree) -> bool {
    match body {
        JsonTree::Object(members) => !members.dom().contains("results"@) || match
            members["results"@] {
            JsonTree::Object(results) => !results.dom().contains("channels"@) || match first_of(
                results["channels"@],
            ) {
                Some(first) => first_alternative_is_silent(first),
                None => true,
            },
            _ => true,
        },
        _ => true,
    }
}

proof fn lemma_first_item()
    ensures
        array_index("0"@) == Some(0nat),
        array_index("channel"@) is None,
        array_index("results"@) is None,
        array_index("channels"@) is None,
        array_index("alternatives"@) is None,
        array_index("transcript"@) is None,
{
    reveal_strlit("0");
    reveal_strlit("channel");
    reveal_strlit("results");
    reveal_strlit("channels");
    reveal_strlit("alternatives");
    reveal_strlit("transcript");
    text_laws::law_numbers_are_read(0, usize::MAX as nat, "channels"@);
    text_laws::law_numbers_are_read(0, usize::MAX as nat, "alternatives"@);
    text_laws::law_numbers_are_read(0, usize::MAX as nat, "transcript"@);
    assert("channels"@[0] == 'c');
    assert("alternatives"@[0] == 'a');
    assert("transcript"@[0] == 't');
    assert("0"@ =~= text::decimal(0));
    text_laws::law_numbers_are_read(0, usize::MAX as nat, "0"@);
    text_laws::law_numbers_are_read(0, usize::MAX as nat, "channel"@);
    text_laws::law_numbers_are_read(0, usize::MAX as nat, "results"@);
    assert("channel"@[0] == 'c');
    assert("results"@[0] == 'r');
}

/// The pointer to the transcript of a streamed event leads to the first alternative of its
/// channel, and to nothing where that has no transcript.
pub proof fn law_event_transcript_is_found(event: JsonTree, transcript: Seq<char>)
    ensures
        event_says(event, transcript) ==> json::text_at(event, streaming_path()) == Some(
            transcript,
        ),
        event_is_silent(event) ==> json::text_at(event, streaming_path()) is None,
{
    lemma_first_item();
    let path = streaming_path();
    let three = path.drop_last();
    let two = three.drop_last();
    let one = two.drop_last();
    assert(one.drop_last() =~= Seq::<Seq<char>>::empty());
    assert(event.at(one.drop_last()) == Some(event));
    assert(event.at(one) == event.child("channel"@));
    assert(event.at(two) == match event.at(one) {
        Some(parent) => parent.child("alternatives"@),
        None => None,
    });
    assert(event.at(three) == match event.at(two) {
        Some(parent) => parent.child("0"@),
        None => None,
    });
    assert(event.at(path) == match event.at(three) {
        Some(parent) => parent.child("transcript"@),
        None => None,
    });
}

/// The pointer to the transcript of a complete response leads to the first alternative of its
/// first channel, and to nothing where that has no transcript.
pub proof fn law_body_transcript_is_found(body: JsonTree, transcript: Seq<char>)
    ensures
        body_says(body, transcript) ==> json::text_at(body, complete_path()) == Some(transcript),
        body_is_silent(body) ==> json::text_at(body, complete_path()) is None,
{
    lemma_first_item();
    let path = complete_path();
    let five = path.drop_last();
    let four = five.drop_last();
    let three = four.drop_last();
    let two = three.drop_last();
    let one = two.drop_last();
    assert(one.drop_last() =~= Seq::<Seq<char>>::empty());
    assert(body.at(one.drop_last()) == Some(body));
    assert(body.at(one) == body.child("results"@));
    assert(body.at(two) == match body.at(one) {
        Some(parent) => parent.child("channels"@),
        None => None,
    });
    assert(body.at(three) == match body.at(two) {
        Some(parent) => parent.child("0"@),
        None => None,
    });
    assert(body.at(four) == match body.at(three) {
        Some(parent) => parent.child("alternatives"@),
        None => None,
    });
    assert(body.at(five) == match body.at(four) {
        Some(parent) => parent.child("0"@),
        None => None,
    });
    assert(body.at(path) == match body.at(five) {
        Some(parent) => parent.child("transcript"@),
        None => None,
    });
}

/// A pointer token names the item of an array at its numeral, or an object's member.
pub proof fn law_pointer_tokens(
    items: Seq<JsonTree>,
    index: nat,
    members: Map<Seq<char>, JsonTree>,
    key: Seq<char>,
)
    requires
        index <= usize::MAX,
    ensures
        JsonTree::Array(items).child(text::decimal(index)) == if index < items.len() {
            Some(items[index as int])
        } else {
            None
        },
        JsonTree::Object(members).child(key) == if members.dom().contains(key) {
            Some(members[key])
        } else {
            None
        },
        JsonTree::Object(members).member(key) == JsonTree::Object(members).child(key),
        JsonTree::Array(items).member(key) is None,
        JsonTree::Array(items).child(seq!['+'] + key) is None,
        key.len() > 0 ==> JsonTree::Array(items).child(seq!['0'] + key) is None,
        JsonTree::Text(key).child(key) is None,
        JsonTree::Null.child(key) is None,
{
    text_laws::law_numerals(index);
    text_laws::law_numbers_are_read(index, usize::MAX as nat, text::decimal(index));
    let numeral = text::decimal(index);
    assert('0' <= numeral[0] <= '9');
    if index == 0 {
        assert(numeral.len() == 1);
    }
}

/// Of the entries of an object the last one under a key is its value there, and a key that no
/// entry has is not in the object.
pub proof fn law_last_entry_counts(
    before: Seq<(Seq<char>, JsonTree)>,
    key: Seq<char>,
    value: JsonTree,
    after: Seq<(Seq<char>, JsonTree)>,
)
    requires
        forall|i: int| 0 <= i < after.len() ==> (#[trigger] after[i]).0 != key,
    ensures
        collected(before.push((key, value)) + after).dom().contains(key),
        collected(before.push((key, value)) + after)[key] == value,
        !collected(after).dom().contains(key),
    decreases after.len(),
{
    let whole = before.push((key, value)) + after;
    if after.len() == 0 {
        assert(whole =~= before.push((key, value)));
    } else {
        let shorter = after.drop_last();
        assert forall|i: int| 0 <= i < shorter.len() implies (#[trigger] shorter[i]).0 != key by {
            assert(shorter[i] == after[i]);
        }
        law_last_entry_counts(before, key, value, shorter);
        assert(whole.drop_last() =~= before.push((key, value)) + shorter);
        assert(after[after.len() - 1].0 != key);
    }
}

} // verus!
