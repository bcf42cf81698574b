//! What holds of URL files and of the names of cache files, stated over the documents, lines
//! and URLs that they are read from.

use crate::files::{after_steps, MetadataFormat};
use crate::json::{self, JsonTree};
use crate::json_laws::holds;
use crate::research_cache::{
    cached_metadata, entry_names, file_stem, first_non_empty, listed_urls, manifest_urls,
    padded, preparation, published_metadata, required_mime_type, sanitized, source_id, urls_of_file,
    urls_of_lines, CacheFault, Download, FileNames, MediaState, Metadata, MetadataState,
    UrlFileFault,
};
use crate::text::{self, Separator};
use crate::text_laws::{self, all_white};
use vstd::prelude::*;

verus! {

/// Whether an entry of a manifest gives this URL: it is the URL itself, or an object with the
/// URL under `url`, whatever else the object holds.
pub open spec fn entry_gives(entry: JsonTree, url: Seq<char>) -> bool {
    entry == JsonTree::Text(url) || holds(entry, "url"@, JsonTree::Text(url))
}

/// A manifest with a `videos` array, or one that is itself an array, yields exactly the URLs of
/// the array's entries, one for each and in their order.
pub proof fn law_manifest_yields_its_urls(
    manifest: JsonTree,
    entries: Seq<JsonTree>,
    urls: Seq<Seq<char>>,
)
    requires
        holds(manifest, "videos"@, JsonTree::Array(entries)) || manifest == JsonTree::Array(
            entries,
        ),
        entries.len() == urls.len(),
        forall|i: int| 0 <= i < entries.len() ==> entry_gives(#[trigger] entries[i], urls[i]),
    ensures
        manifest_urls(manifest) == Ok::<Seq<Seq<char>>, UrlFileFault>(urls),
{
    let found = manifest_urls(manifest);
    assert forall|i: int| 0 <= i < entries.len() implies crate::research_cache::entry_url(
        #[trigger] entries[i],
    ) == Some(urls[i]) by {
        assert(entry_gives(entries[i], urls[i]));
    }
    assert(found->Ok_0 =~= urls);
}

/// A manifest is refused where it is no array and has no `videos` array, and where an entry of
/// its array is neither a string nor an object with a string under `url`.
pub proof fn law_manifest_is_refused(manifest: JsonTree, entries: Seq<JsonTree>, at: int)
    ensures
        !(manifest is Array) && !(manifest matches JsonTree::Object(members)
            && members.dom().contains("videos"@) && members["videos"@] is Array)
            ==> manifest_urls(manifest) == Err::<Seq<Seq<char>>, UrlFileFault>(
            UrlFileFault::NoVideos,
        ),
        (holds(manifest, "videos"@, JsonTree::Array(entries)) || manifest == JsonTree::Array(
            entries,
        )) && 0 <= at < entries.len() && (forall|url: Seq<char>| !#[trigger] entry_gives(
            entries[at],
            url,
        )) ==> manifest_urls(manifest) == Err::<Seq<Seq<char>>, UrlFileFault>(
            UrlFileFault::EntryWithoutUrl,
        ),
{
    if let Some(url) = crate::research_cache::entry_url(entries[at]) {
        assert(entry_gives(entries[at], url));
    }
}

/// A file whose first character is a brace or a bracket, white space aside, is read as a JSON
/// document, and the parser's message is what it is refused with.
pub proof fn law_document_is_a_manifest(before: Seq<char>, document: Seq<char>, after: Seq<char>)
    requires
        all_white(before),
        all_white(after),
        document.len() > 0,
        document[0] == '{' || document[0] == '[',
        !text::white_space(document.last()),
    ensures
        match json::parsed_text(document) {
            Ok(manifest) => urls_of_file(before + document + after) == manifest_urls(manifest),
            Err(message) => urls_of_file(before + document + after) == Err::<
                Seq<Seq<char>>,
                UrlFileFault,
            >(UrlFileFault::InvalidJson(message)),
        },
{
    text_laws::law_trimmed_is_the_middle(before, document, after);
}

/// Any other file is a plain list, of which no line is left out.
pub proof fn law_other_files_are_lists(before: Seq<char>, rest: Seq<char>)
    requires
        all_white(before),
        rest.len() == 0 || (!text::white_space(rest[0]) && rest[0] != '{' && rest[0] != '['),
    ensures
        urls_of_file(before + rest) == Ok::<Seq<Seq<char>>, UrlFileFault>(
            urls_of_lines(text::lines(before + rest)),
        ),
{
    let nothing = Seq::<char>::empty();
    if rest.len() == 0 {
        text_laws::law_trimmed_is_the_middle(before, nothing, nothing);
        assert(before + rest =~= before + nothing + nothing);
    } else {
        let around = text_laws::law_only_white_space_is_trimmed(rest);
        let core = text::trimmed(rest);
        assert(rest == around.0 + core + around.1);
        if core.len() == 0 {
            let all = around.0 + around.1;
            assert(rest =~= all);
            assert(rest[0] == if around.0.len() > 0 {
                around.0[0]
            } else {
                around.1[0]
            });
        } else {
            if around.0.len() > 0 {
                assert(rest[0] == around.0[0]);
            }
            assert(around.0.len() == 0);
            assert(around.0 + core =~= core);
            assert(rest[0] == core[0]);
            assert(before + rest =~= before + core + around.1);
            text_laws::law_trimmed_is_the_middle(before, core, around.1);
        }
    }
}

/// A line of a plain list adds its URLs behind those of the lines before it. A comment, which
/// begins with a number sign, and a blank line add none.
pub proof fn law_every_line_is_read(
    lines: Seq<Seq<char>>,
    before: Seq<char>,
    core: Seq<char>,
    after: Seq<char>,
)
    requires
        all_white(before),
        all_white(after),
        core.len() == 0 || (!text::white_space(core[0]) && !text::white_space(core.last())),
    ensures
        urls_of_lines(lines + seq![before + core + after]) == if core.len() == 0 || core[0]
            == '#' {
            urls_of_lines(lines)
        } else {
            urls_of_lines(lines) + listed_urls(core)
        },
        urls_of_lines(Seq::<Seq<char>>::empty()) == Seq::<Seq<char>>::empty(),
{
    text_laws::law_trimmed_is_the_middle(before, core, after);
    let line = before + core + after;
    assert((lines + seq![line]).drop_last() =~= lines);
}

/// A text of which nothing separates URLs is one URL, and an empty one is none.
pub proof fn law_single_url_is_listed(url: Seq<char>)
    requires
        forall|i: int|
            0 <= i < url.len() ==> #[trigger] url[i] != ',' && !text::white_space(url[i]),
    ensures
        listed_urls(url) == if url.len() == 0 {
            Seq::<Seq<char>>::empty()
        } else {
            seq![url]
        },
{
    let separator = Separator::CommaOrWhiteSpace;
    let nothing = Seq::<char>::empty();
    assert(text::uncut(url, separator));
    text::lemma_uncut_is_one_piece(url, separator);
    if url.len() > 0 {
        assert(url[0] != ',' && url[url.len() - 1] != ',');
    }
    text_laws::law_trimmed_is_the_middle(nothing, url, nothing);
    assert(nothing + url + nothing =~= url);
    assert(crate::research_cache::all_trimmed(seq![url]) =~= seq![url]);
    text_laws::law_non_empty_keeps_the_rest(
        Seq::<Seq<char>>::empty(),
        url,
        Seq::<Seq<char>>::empty(),
    );
    assert(Seq::<Seq<char>>::empty().push(url) + Seq::<Seq<char>>::empty() =~= seq![url]);
    if url.len() == 0 {
        assert(listed_urls(url) =~= Seq::<Seq<char>>::empty());
    } else {
        assert(listed_urls(url) =~= seq![url]);
    }
}

/// Whether two characters are the same ASCII letter in either case, or the same character.
pub open spec fn same_letter(first: char, second: char) -> bool {
    ||| first == second
    ||| 65 <= first as u32 <= 90 && second as u32 == first as u32 + 32
    ||| 65 <= second as u32 <= 90 && first as u32 == second as u32 + 32
}

/// Whether two texts are the same but for the case of their ASCII letters.
pub open spec fn same_letters(first: Seq<char>, second: Seq<char>) -> bool {
    &&& first.len() == second.len()
    &&& forall|i: int| 0 <= i < first.len() ==> same_letter(#[trigger] first[i], second[i])
}

proof fn lemma_same_letters(first: Seq<char>, second: Seq<char>)
    ensures
        same_letters(first, second) <==> text::lower_case(first) == text::lower_case(second),
{
    let left = text::lower_case(first);
    let right = text::lower_case(second);
    assert(left.len() == first.len() && right.len() == second.len());
    if same_letters(first, second) {
        assert forall|i: int| 0 <= i < left.len() implies left[i] == right[i] by {
            text_laws::law_lower_case(first, i);
            text_laws::law_lower_case(second, i);
            assert(same_letter(first[i], second[i]));
        }
        assert(left =~= right);
    }
    if left == right {
        assert forall|i: int| 0 <= i < first.len() implies same_letter(
            #[trigger] first[i],
            second[i],
        ) by {
            text_laws::law_lower_case(first, i);
            text_laws::law_lower_case(second, i);
            assert(left[i] == right[i]);
        }
    }
}

/// Media is of a type exactly where the type on record, up to its first semicolon and without
/// the white space around it, is that type but for the case of ASCII letters. The source's type
/// counts, and the transfer's only where the source has none.
pub proof fn law_media_type_matches(
    metadata: Metadata,
    before: Seq<char>,
    core: Seq<char>,
    after: Seq<char>,
    parameters: Seq<char>,
    required: Seq<char>,
)
    requires
        all_white(before),
        all_white(after),
        core.len() == 0 || (!text::white_space(core[0]) && !text::white_space(core.last())),
        !core.contains(';'),
    ensures
        ({
            let bare = before + core + after;
            let recorded = match metadata.source_mime_type {
                Some(found) => Some(found),
                None => metadata.content_type,
            };
            &&& recorded == Some(bare) || recorded == Some(bare + seq![';'] + parameters)
                ==> metadata.has_mime_type(required) == same_letters(core, required)
            &&& recorded is None ==> !metadata.has_mime_type(required)
        }),
        metadata.matches_required(None),
        metadata.matches_required(Some(required)) == metadata.has_mime_type(required),
{
    let bare = before + core + after;
    let separator = Separator::Semicolon;
    assert(text::uncut(bare, separator)) by {
        assert forall|i: int| 0 <= i < bare.len() implies !separator.cuts(#[trigger] bare[i]) by {
            if i < before.len() {
                assert(bare[i] == before[i]);
                assert(text::white_space(before[i]));
            } else if i < before.len() + core.len() {
                assert(bare[i] == core[i - before.len()]);
                assert(core.contains(core[i - before.len()]));
            } else {
                assert(bare[i] == after[i - before.len() - core.len()]);
                assert(text::white_space(after[i - before.len() - core.len()]));
            }
        }
    }
    text::lemma_uncut_is_one_piece(bare, separator);
    text::lemma_pieces_around(bare, ';', parameters, separator);
    assert(bare.push(';') =~= bare + seq![';']);
    text_laws::law_trimmed_is_the_middle(before, core, after);
    lemma_same_letters(core, required);
}

/// The media type that a setting requires is the setting in lower case, without the white space
/// around it; one that is absent or blank requires none.
pub proof fn law_required_media_type(before: Seq<char>, core: Seq<char>, after: Seq<char>)
    requires
        all_white(before),
        all_white(after),
        core.len() == 0 || (!text::white_space(core[0]) && !text::white_space(core.last())),
    ensures
        required_mime_type(None) is None,
        core.len() == 0 ==> required_mime_type(Some(before + core + after)) is None,
        core.len() > 0 ==> required_mime_type(Some(before + core + after)) == Some(
            text::lower_case(core),
        ),
{
    text_laws::law_trimmed_is_the_middle(before, core, after);
}

/// An entry is served exactly where it is of the URL and of the required media type and its
/// media file is there, is not empty and has the length on record, if there is one. It is served
/// with that file's size and otherwise as it is on record.
pub proof fn law_entry_is_served(
    metadata: Metadata,
    size: u64,
    message: Seq<char>,
    url: Seq<char>,
    required: Option<Seq<char>>,
)
    ensures
        ({
            let meant = metadata.source_url == url && metadata.matches_required(required);
            let whole = size > 0 && (metadata.content_length is None || metadata.content_length
                == Some(size));
            &&& meant && whole ==> cached_metadata(
                MetadataState::Parsed(metadata),
                MediaState::Size(size),
                url,
                required,
            ) == Ok::<Option<Metadata>, CacheFault>(
                Some(
                    Metadata {
                        source_url: url,
                        duration_seconds: metadata.duration_seconds,
                        content_length: Some(size),
                        content_type: metadata.content_type,
                        source_mime_type: metadata.source_mime_type,
                        resolver: metadata.resolver,
                        itag: metadata.itag,
                        cached: true,
                    },
                ),
            )
            &&& !(meant && whole) ==> cached_metadata(
                MetadataState::Parsed(metadata),
                MediaState::Size(size),
                url,
                required,
            ) == Ok::<Option<Metadata>, CacheFault>(None)
            &&& cached_metadata(
                MetadataState::Parsed(metadata),
                MediaState::Missing,
                url,
                required,
            ) == Ok::<Option<Metadata>, CacheFault>(None)
            &&& cached_metadata(
                MetadataState::Parsed(metadata),
                MediaState::Unreadable(message),
                url,
                required,
            ) == if meant {
                Err::<Option<Metadata>, CacheFault>(CacheFault::MediaUnreadable(message))
            } else {
                Ok::<Option<Metadata>, CacheFault>(None)
            }
        }),
        forall|media: MediaState|
            {
                &&& #[trigger] cached_metadata(MetadataState::Missing, media, url, required)
                    == Ok::<Option<Metadata>, CacheFault>(None)
                &&& cached_metadata(MetadataState::Unreadable(message), media, url, required)
                    == Err::<Option<Metadata>, CacheFault>(CacheFault::MetadataUnreadable(message))
                &&& cached_metadata(MetadataState::Malformed(message), media, url, required)
                    == Err::<Option<Metadata>, CacheFault>(CacheFault::MetadataMalformed(message))
            },
{
}

/// A download is published with what its resolver tells of it, and is refused where its duration
/// is not known or where its media is not of the required type.
pub proof fn law_download_is_published_as_told(
    url: Seq<char>,
    download: Download,
    required: Option<Seq<char>>,
)
    ensures
        download.duration_seconds is None ==> published_metadata(url, download, required) == Err::<
            Metadata,
            CacheFault,
        >(CacheFault::DurationMissing),
        download.duration_seconds is Some ==> {
            let told = Metadata {
                source_url: url,
                duration_seconds: download.duration_seconds->0,
                content_length: Some(download.content_length),
                content_type: download.mime_type,
                source_mime_type: download.mime_type,
                resolver: download.resolver,
                itag: download.itag,
                cached: true,
            };
            match required {
                None => published_metadata(url, download, required) == Ok::<Metadata, CacheFault>(
                    told,
                ),
                Some(expected) => published_metadata(url, download, required)
                    == if told.has_mime_type(expected) {
                    Ok::<Metadata, CacheFault>(told)
                } else {
                    Err::<Metadata, CacheFault>(
                        CacheFault::WrongMimeType { found: download.mime_type, expected },
                    )
                },
            }
        },
{
}

/// Before a download neither its partial media nor its partial metadata is left, and every other
/// file is as it was.
pub proof fn law_preparation_clears_the_way(
    directory: Map<Seq<char>, Seq<u8>>,
    names: FileNames,
    format: MetadataFormat,
)
    ensures
        after_steps(directory, preparation(names), format) == directory.remove(
            names.partial_media,
        ).remove(names.partial_metadata),
{
    reveal_with_fuel(after_steps, 3);
    let steps = preparation(names);
    assert(steps.drop_last().drop_last() =~= Seq::empty());
}

proof fn lemma_delimiters_are_skipped(delimiters: Seq<char>, rest: Seq<char>, fallback: Seq<char>)
    requires
        forall|i: int|
            0 <= i < delimiters.len() ==> (#[trigger] delimiters[i] == '&' || delimiters[i] == '?'
                || delimiters[i] == '#' || delimiters[i] == '/'),
    ensures
        first_non_empty(text::pieces(delimiters + rest, Separator::UrlDelimiter), fallback)
            == first_non_empty(text::pieces(rest, Separator::UrlDelimiter), fallback),
    decreases delimiters.len(),
{
    let separator = Separator::UrlDelimiter;
    if delimiters.len() == 0 {
        assert(delimiters + rest =~= rest);
    } else {
        let fewer = delimiters.skip(1);
        assert forall|i: int| 0 <= i < fewer.len() implies (#[trigger] fewer[i] == '&' || fewer[i]
            == '?' || fewer[i] == '#' || fewer[i] == '/') by {
            assert(fewer[i] == delimiters[i + 1]);
        }
        lemma_delimiters_are_skipped(fewer, rest, fallback);
        let nothing = Seq::<char>::empty();
        let cut = delimiters[0];
        assert(separator.cuts(cut));
        assert(nothing.push(cut) + (fewer + rest) =~= delimiters + rest);
        text::lemma_pieces_around(nothing, cut, fewer + rest, separator);
        assert(text::uncut(nothing, separator));
        text::lemma_uncut_is_one_piece(nothing, separator);
        let behind = text::pieces(fewer + rest, separator);
        assert((seq![nothing] + behind).skip(1) =~= behind);
        assert((seq![nothing] + behind)[0] == nothing);
    }
}

/// Whether a text holds no delimiter of URLs.
pub open spec fn undelimited(s: Seq<char>) -> bool {
    forall|i: int|
        0 <= i < s.len() ==> #[trigger] s[i] != '&' && s[i] != '?' && s[i] != '#' && s[i] != '/'
}

/// Whether every character of a text is a delimiter of URLs.
pub open spec fn delimiting(s: Seq<char>) -> bool {
    forall|i: int|
        0 <= i < s.len() ==> (#[trigger] s[i] == '&' || s[i] == '?' || s[i] == '#' || s[i] == '/')
}

proof fn lemma_first_piece(
    delimiters: Seq<char>,
    id: Seq<char>,
    rest: Seq<char>,
    fallback: Seq<char>,
)
    requires
        delimiting(delimiters),
        undelimited(id),
        rest.len() == 0 || delimiting(seq![rest[0]]),
    ensures
        id.len() > 0 ==> first_non_empty(
            text::pieces(delimiters + id + rest, Separator::UrlDelimiter),
            fallback,
        ) == id,
        id.len() == 0 && rest.len() == 0 ==> first_non_empty(
            text::pieces(delimiters + id + rest, Separator::UrlDelimiter),
            fallback,
        ) == fallback,
{
    let separator = Separator::UrlDelimiter;
    assert(delimiters + id + rest =~= delimiters + (id + rest));
    lemma_delimiters_are_skipped(delimiters, id + rest, fallback);
    assert(text::uncut(id, separator));
    text::lemma_uncut_is_one_piece(id, separator);
    if rest.len() == 0 {
        assert(id + rest =~= id);
        if id.len() == 0 {
            let none = Seq::<Seq<char>>::empty();
            assert(seq![id].skip(1) =~= none);
            assert(first_non_empty(none, fallback) == fallback);
            assert(first_non_empty(seq![id], fallback) == fallback);
        }
    } else if id.len() > 0 {
        assert(seq![rest[0]][0] == rest[0]);
        assert(separator.cuts(rest[0]));
        assert(id.push(rest[0]) + rest.skip(1) =~= id + rest);
        text::lemma_pieces_around(id, rest[0], rest.skip(1), separator);
        assert((seq![id] + text::pieces(rest.skip(1), separator))[0] == id);
    }
}

/// A source is known by what follows the first `v=` of its URL, up to the next delimiter, and by
/// the word `source` where nothing does.
pub proof fn law_video_id_names_the_source(
    before: Seq<char>,
    delimiters: Seq<char>,
    id: Seq<char>,
    rest: Seq<char>,
)
    requires
        !text::contains(before.push('v'), seq!['v', '=']),
        delimiting(delimiters),
        undelimited(id),
        rest.len() == 0 || delimiting(seq![rest[0]]),
    ensures
        id.len() > 0 ==> source_id(before + seq!['v', '='] + (delimiters + id + rest)) == id,
        id.len() == 0 && rest.len() == 0 ==> source_id(
            before + seq!['v', '='] + (delimiters + id + rest),
        ) == seq!['s', 'o', 'u', 'r', 'c', 'e'],
{
    reveal_strlit("v=");
    reveal_strlit("source");
    let needle = seq!['v', '='];
    assert("v="@ =~= needle);
    assert("source"@ =~= seq!['s', 'o', 'u', 'r', 'c', 'e']);
    let tail = delimiters + id + rest;
    lemma_found_behind(before, needle, tail);
    lemma_first_piece(delimiters, id, rest, "source"@);
}

proof fn lemma_found_behind(before: Seq<char>, needle: Seq<char>, tail: Seq<char>)
    requires
        needle == seq!['v', '='],
        !text::contains(before.push('v'), needle),
    ensures
        text::after_first(before + needle + tail, needle) == Some(tail),
    decreases before.len(),
{
    let whole = before + needle + tail;
    if before.len() == 0 {
        assert(whole.subrange(0, 2) =~= needle);
        assert(text::occurs_at(whole, needle, 0));
        assert(whole.skip(2) =~= tail);
    } else {
        if text::occurs_at(whole, needle, 0) {
            let start = before.push('v');
            assert(whole.subrange(0, 2)[0] == 'v' && whole.subrange(0, 2)[1] == '=');
            assert(whole[0] == 'v' && whole[1] == '=');
            assert(start.subrange(0, 2) =~= needle);
            assert(text::occurs_at(start, needle, 0));
        }
        let shorter = before.skip(1);
        if text::contains(shorter.push('v'), needle) {
            let at = choose|at: int| text::occurs_at(shorter.push('v'), needle, at);
            assert(shorter.push('v').subrange(at, at + 2) =~= before.push('v').subrange(
                at + 1,
                at + 3,
            ));
            assert(text::occurs_at(before.push('v'), needle, at + 1));
        }
        assert(whole.skip(1) =~= shorter + needle + tail);
        lemma_found_behind(shorter, needle, tail);
    }
}

/// A source without `v=` in its URL is known by the first part of the URL that is not empty
/// between its delimiters, and by the word `source` where there is none.
pub proof fn law_other_source_is_named(delimiters: Seq<char>, id: Seq<char>, rest: Seq<char>)
    requires
        !text::contains(delimiters + id + rest, seq!['v', '=']),
        delimiting(delimiters),
        undelimited(id),
        rest.len() == 0 || delimiting(seq![rest[0]]),
    ensures
        id.len() > 0 ==> source_id(delimiters + id + rest) == id,
        id.len() == 0 && rest.len() == 0 ==> source_id(delimiters + id + rest) == seq![
            's',
            'o',
            'u',
            'r',
            'c',
            'e',
        ],
{
    reveal_strlit("v=");
    reveal_strlit("source");
    assert("v="@ =~= seq!['v', '=']);
    assert("source"@ =~= seq!['s', 'o', 'u', 'r', 'c', 'e']);
    let url = delimiters + id + rest;
    text_laws::law_first_occurrence(url, "v="@);
    if let Some(tail) = text::after_first(url, "v="@) {
        let at = url.len() - tail.len() - 2;
        text_laws::law_contains(url.take(at), "v="@, tail, url);
    }
    lemma_first_piece(delimiters, id, rest, "source"@);
}

/// In a file name each character that is no ASCII letter, digit, hyphen or underscore is
/// replaced by an underscore, and every other one stands as it is.
pub proof fn law_names_are_sanitized(s: Seq<char>, i: int)
    requires
        0 <= i < s.len(),
    ensures
        sanitized(s).len() == s.len(),
        ({
            let c = s[i];
            let kept = 'a' <= c <= 'z' || 'A' <= c <= 'Z' || '0' <= c <= '9' || c == '-' || c
                == '_';
            sanitized(s)[i] == if kept {
                s[i]
            } else {
                '_'
            }
        }),
{
    assert(sanitized(s)[i] == if crate::research_cache::file_safe(s[i]) {
        s[i]
    } else {
        '_'
    });
}

proof fn lemma_zeros(numeral: Seq<char>)
    ensures
        numeral.len() >= 4 ==> padded(numeral) == numeral,
        numeral.len() < 4 ==> padded(numeral).len() == 4 && padded(numeral) == padded(
            numeral,
        ).take(4 - numeral.len()) + numeral && forall|i: int|
            0 <= i < 4 - numeral.len() ==> #[trigger] padded(numeral)[i] == '0',
    decreases 4 - numeral.len(),
{
    if numeral.len() < 4 {
        let longer = seq!['0'] + numeral;
        lemma_zeros(longer);
        let whole = padded(numeral);
        assert(whole == padded(longer));
        if longer.len() < 4 {
            assert(whole == whole.take(4 - longer.len()) + longer);
            assert(whole.take(4 - numeral.len()) + numeral =~= whole);
            assert(whole[4 - longer.len()] == longer[0]);
        } else {
            assert(whole.take(1) + numeral =~= whole);
        }
    }
}

/// The files of a source are named after its position, counted from one and written with at
/// least four digits, a hyphen and its identifier.
pub proof fn law_files_are_named_after_the_source(source_index: nat, url: Seq<char>) -> (zeros: Seq<
    char,
>)
    ensures
        forall|i: int| 0 <= i < zeros.len() ==> #[trigger] zeros[i] == '0',
        zeros.len() == if text::decimal(source_index + 1).len() < 4 {
            4 - text::decimal(source_index + 1).len()
        } else {
            0
        },
        file_stem(source_index, url) == zeros + text::decimal(source_index + 1) + seq!['-']
            + sanitized(source_id(url)),
        ({
            let stem = file_stem(source_index, url);
            let names = entry_names(source_index, url);
            &&& names.media == stem + seq!['.', 'a', 'u', 'd', 'i', 'o']
            &&& names.partial_media == names.media + seq![
                '.',
                'd',
                'o',
                'w',
                'n',
                'l',
                'o',
                'a',
                'd',
            ]
            &&& names.metadata == stem + seq!['.', 'j', 's', 'o', 'n']
            &&& names.partial_metadata == names.metadata + seq!['.', 'p', 'a', 'r', 't']
        }),
{
    let numeral = text::decimal(source_index + 1);
    lemma_zeros(numeral);
    reveal_strlit(".audio");
    reveal_strlit(".audio.download");
    reveal_strlit(".json");
    reveal_strlit(".json.part");
    let names = entry_names(source_index, url);
    let stem = file_stem(source_index, url);
    assert(names.media =~= stem + seq!['.', 'a', 'u', 'd', 'i', 'o']);
    assert(names.partial_media =~= names.media + seq!['.', 'd', 'o', 'w', 'n', 'l', 'o', 'a', 'd']);
    assert(names.metadata =~= stem + seq!['.', 'j', 's', 'o', 'n']);
    assert(names.partial_metadata =~= names.metadata + seq!['.', 'p', 'a', 'r', 't']);
    let zeros = if numeral.len() < 4 {
        padded(numeral).take(4 - numeral.len())
    } else {
        Seq::empty()
    };
    assert(padded(numeral) =~= zeros + numeral);
    zeros
}

} // verus!
