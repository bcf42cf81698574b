//! What the media cache promises: entries are published atomically and reused, and the
//! sources of a run do not get into each other's way.

use crate::files::{
    after_step, after_steps, lemma_untouched_file, touches, MetadataFormat, Step,
};
use crate::research_cache::{
    cached_metadata, entry_names, file_safe, file_stem, first_non_empty, padded, preparation,
    publication, published_metadata, sanitized, source_id, CacheFault, Download, FileNames,
    MediaState, Metadata, MetadataState,
};
use crate::text::{self, Separator};
use vstd::prelude::*;

verus! {

/// What reading the metadata file of this name gives.
pub open spec fn metadata_state(
    directory: Map<Seq<char>, Seq<u8>>,
    name: Seq<char>,
    format: MetadataFormat,
) -> MetadataState {
    if directory.dom().contains(name) {
        match (format.decode)(directory[name]) {
            Ok(metadata) => MetadataState::Parsed(metadata),
            Err(message) => MetadataState::Malformed(message),
        }
    } else {
        MetadataState::Missing
    }
}

/// What looking at the media file of this name gives.
pub open spec fn media_state(directory: Map<Seq<char>, Seq<u8>>, name: Seq<char>) -> MediaState {
    if directory.dom().contains(name) {
        MediaState::Size(directory[name].len() as u64)
    } else {
        MediaState::Missing
    }
}

/// A reader of the cache: what it asks a cache entry for.
pub struct Reader {
    pub source_index: nat,
    pub url: Seq<char>,
    pub required: Option<Seq<char>>,
    pub format: MetadataFormat,
}

impl Reader {
    /// The names of the files of the entry.
    pub open spec fn names(self) -> FileNames {
        entry_names(self.source_index, self.url)
    }

    /// What opening the entry gives, where the directory holds these files.
    pub open spec fn opens(self, directory: Map<Seq<char>, Seq<u8>>) -> Result<
        Option<Metadata>,
        CacheFault,
    > {
        cached_metadata(
            metadata_state(directory, self.names().metadata, self.format),
            media_state(directory, self.names().media),
            self.url,
            self.required,
        )
    }
}

/// The four files of an entry have four different names.
pub proof fn law_entry_names_differ(source_index: nat, url: Seq<char>)
    ensures
        ({
            let names = entry_names(source_index, url);
            &&& names.media != names.partial_media
            &&& names.media != names.metadata
            &&& names.media != names.partial_metadata
            &&& names.partial_media != names.metadata
            &&& names.partial_media != names.partial_metadata
            &&& names.metadata != names.partial_metadata
        }),
{
    reveal_strlit(".audio");
    reveal_strlit(".audio.download");
    reveal_strlit(".json");
    reveal_strlit(".json.part");
    let names = entry_names(source_index, url);
    let stem = file_stem(source_index, url);
    assert(names.media.len() == stem.len() + 6);
    assert(names.partial_media.len() == stem.len() + 15);
    assert(names.metadata.len() == stem.len() + 5);
    assert(names.partial_metadata.len() == stem.len() + 10);
}

/// While a download is prepared and its data arrives, whatever that is, the entry opens as
/// before.
pub proof fn law_download_does_not_disturb_entry(
    reader: Reader,
    directory: Map<Seq<char>, Seq<u8>>,
    arrived: Seq<u8>,
)
    ensures
        ({
            let prepared = after_steps(directory, preparation(reader.names()), reader.format);
            &&& reader.opens(prepared) == reader.opens(directory)
            &&& reader.opens(prepared.insert(reader.names().partial_media, arrived))
                == reader.opens(directory)
        }),
{
    let names = reader.names();
    law_entry_names_differ(reader.source_index, reader.url);
    let steps = preparation(names);
    assert forall|i: int| 0 <= i < steps.len() implies !touches(
        #[trigger] steps[i],
        names.media,
    ) && !touches(steps[i], names.metadata) by {
        assert(i == 0 || i == 1);
    }
    lemma_untouched_file(directory, steps, reader.format, names.media);
    lemma_untouched_file(directory, steps, reader.format, names.metadata);
}

/// Publication is atomic. As soon as its first step is made, between any two of its steps, and
/// also while the metadata is only partly written, the entry is either not there, or it is
/// there with all of the new media: there is neither an error nor a source with anything else
/// in its media file. Before that step the entry is as it was. The metadata is the new one once
/// the last step is made; until then it is that of the former entry, which is found only where
/// it tells of a file of the same length.
pub proof fn law_publication_is_atomic(
    reader: Reader,
    directory: Map<Seq<char>, Seq<u8>>,
    download: Download,
    downloaded: Seq<u8>,
    done: int,
    half_written: Seq<u8>,
)
    requires
        reader.opens(directory) is Ok,
        published_metadata(reader.url, download, reader.required) is Ok,
        directory.dom().contains(reader.names().partial_media),
        directory[reader.names().partial_media] == downloaded,
        reader.format.faithful(),
        0 <= done <= 3,
    ensures
        ({
            let metadata = published_metadata(reader.url, download, reader.required)->Ok_0;
            let steps = publication(reader.names(), metadata).take(done);
            let now = after_steps(directory, steps, reader.format);
            let torn = now.insert(reader.names().partial_metadata, half_written);
            &&& reader.opens(torn) == reader.opens(now)
            &&& done == 0 ==> reader.opens(now) == reader.opens(directory)
            &&& done > 0 ==> match reader.opens(now) {
                Ok(Some(found)) => {
                    &&& found.source_url == reader.url
                    &&& found.matches_required(reader.required)
                    &&& now.dom().contains(reader.names().media)
                    &&& now[reader.names().media] == downloaded
                    &&& done < 3 ==> {
                        let former = metadata_state(
                            directory,
                            reader.names().metadata,
                            reader.format,
                        );
                        &&& former is Parsed
                        &&& former->Parsed_0.describes_size(downloaded.len() as u64)
                        &&& found == former->Parsed_0.cached_with_size(downloaded.len() as u64)
                    }
                    &&& done == 3 ==> found == metadata
                },
                Ok(None) => true,
                Err(_) => false,
            }
        }),
{
    lemma_publication_states(reader, directory, download, downloaded);
    let names = reader.names();
    law_entry_names_differ(reader.source_index, reader.url);
    let metadata = published_metadata(reader.url, download, reader.required)->Ok_0;
    let all = publication(names, metadata);
    if done == 0 {
        assert(all.take(0) =~= Seq::<Step>::empty());
    } else if done == 3 {
        assert(all.take(3) =~= all);
    }
}

proof fn lemma_publication_states(
    reader: Reader,
    directory: Map<Seq<char>, Seq<u8>>,
    download: Download,
    downloaded: Seq<u8>,
)
    requires
        published_metadata(reader.url, download, reader.required) is Ok,
        directory.dom().contains(reader.names().partial_media),
        directory[reader.names().partial_media] == downloaded,
    ensures
        ({
            let names = reader.names();
            let metadata = published_metadata(reader.url, download, reader.required)->Ok_0;
            let all = publication(names, metadata);
            let first = directory.remove(names.partial_media).insert(names.media, downloaded);
            let encoded = (reader.format.encode)(metadata);
            let second = first.insert(names.partial_metadata, encoded);
            &&& after_steps(directory, all.take(1), reader.format) == first
            &&& after_steps(directory, all.take(2), reader.format) == second
            &&& after_steps(directory, all, reader.format) == second.remove(
                names.partial_metadata,
            ).insert(names.metadata, encoded)
        }),
{
    let names = reader.names();
    law_entry_names_differ(reader.source_index, reader.url);
    let metadata = published_metadata(reader.url, download, reader.required)->Ok_0;
    let all = publication(names, metadata);
    assert(all.take(1).drop_last() =~= Seq::<Step>::empty());
    assert(all.take(2).drop_last() =~= all.take(1));
    assert(all.drop_last() =~= all.take(2));
    assert(after_steps(directory, Seq::<Step>::empty(), reader.format) == directory);
    assert(all.take(1).last() == all[0]);
    assert(all.take(2).last() == all[1]);
    assert(all.last() == all[2]);
    let first = after_steps(directory, all.take(1), reader.format);
    assert(first == after_step(directory, all[0], reader.format));
    let second = after_steps(directory, all.take(2), reader.format);
    assert(second == after_step(first, all[1], reader.format));
    assert(after_steps(directory, all, reader.format) == after_step(second, all[2], reader.format));
}

/// A published source is served from the cache from there on, with the metadata that it was
/// published with, where the whole of a file that is not empty was downloaded.
pub proof fn law_published_source_is_reused(
    reader: Reader,
    directory: Map<Seq<char>, Seq<u8>>,
    download: Download,
    downloaded: Seq<u8>,
)
    requires
        published_metadata(reader.url, download, reader.required) is Ok,
        directory.dom().contains(reader.names().partial_media),
        directory[reader.names().partial_media] == downloaded,
        downloaded.len() == download.content_length,
        downloaded.len() > 0,
        reader.format.faithful(),
    ensures
        ({
            let metadata = published_metadata(reader.url, download, reader.required)->Ok_0;
            let published = after_steps(
                directory,
                publication(reader.names(), metadata),
                reader.format,
            );
            &&& reader.opens(published) == Ok::<Option<Metadata>, CacheFault>(Some(metadata))
            &&& published[reader.names().media] == downloaded
            &&& !published.dom().contains(reader.names().partial_media)
            &&& !published.dom().contains(reader.names().partial_metadata)
        }),
{
    lemma_publication_states(reader, directory, download, downloaded);
    law_entry_names_differ(reader.source_index, reader.url);
    let metadata = published_metadata(reader.url, download, reader.required)->Ok_0;
    assert(metadata.cached_with_size(download.content_length) == metadata);
}

/// An entry whose media is not of the type that the reader requires is no entry to it, so that
/// the source is downloaded anew; what is then published is of that type.
pub proof fn law_incompatible_entry_is_replaced(
    reader: Reader,
    directory: Map<Seq<char>, Seq<u8>>,
    download: Download,
)
    requires
        metadata_state(directory, reader.names().metadata, reader.format) is Parsed,
        !metadata_state(
            directory,
            reader.names().metadata,
            reader.format,
        )->Parsed_0.matches_required(reader.required),
    ensures
        reader.opens(directory) == Ok::<Option<Metadata>, CacheFault>(None),
        match published_metadata(reader.url, download, reader.required) {
            Ok(metadata) => metadata.matches_required(reader.required),
            Err(_) => true,
        },
{
}

proof fn lemma_leading_zero(s: Seq<char>)
    ensures
        text::decimal_value(seq!['0'] + s) == text::decimal_value(s),
    decreases s.len(),
{
    if s.len() == 0 {
        assert(seq!['0'] + s =~= seq!['0']);
        assert(seq!['0'].drop_last() =~= Seq::<char>::empty());
        assert(text::decimal_value(Seq::<char>::empty()) == 0);
    } else {
        lemma_leading_zero(s.drop_last());
        assert((seq!['0'] + s).drop_last() =~= seq!['0'] + s.drop_last());
    }
}

proof fn lemma_padded(numeral: Seq<char>)
    requires
        text::all_digits(numeral),
    ensures
        text::all_digits(padded(numeral)),
        text::decimal_value(padded(numeral)) == text::decimal_value(numeral),
        padded(numeral).len() >= 4,
    decreases 4 - numeral.len(),
{
    if numeral.len() < 4 {
        let longer = seq!['0'] + numeral;
        assert forall|i: int| 0 <= i < longer.len() implies text::is_digit(
            #[trigger] longer[i],
        ) by {
            if i > 0 {
                assert(longer[i] == numeral[i - 1]);
            }
        }
        lemma_leading_zero(numeral);
        lemma_padded(longer);
    }
}

proof fn lemma_numbered_names_differ(
    first_index: nat,
    first_rest: Seq<char>,
    second_index: nat,
    second_rest: Seq<char>,
)
    requires
        first_index != second_index,
    ensures
        padded(text::decimal(first_index + 1)) + seq!['-'] + first_rest != padded(
            text::decimal(second_index + 1),
        ) + seq!['-'] + second_rest,
{
    let first = padded(text::decimal(first_index + 1));
    let second = padded(text::decimal(second_index + 1));
    text::lemma_decimal_round_trip(first_index + 1);
    text::lemma_decimal_round_trip(second_index + 1);
    lemma_padded(text::decimal(first_index + 1));
    lemma_padded(text::decimal(second_index + 1));
    let left = first + seq!['-'] + first_rest;
    let right = second + seq!['-'] + second_rest;
    if left == right {
        if first.len() < second.len() {
            assert(left[first.len() as int] == '-');
            assert(right[first.len() as int] == second[first.len() as int]);
            assert(text::is_digit(second[first.len() as int]));
        } else if second.len() < first.len() {
            assert(right[second.len() as int] == '-');
            assert(left[second.len() as int] == first[second.len() as int]);
            assert(text::is_digit(first[second.len() as int]));
        } else {
            assert(left.take(first.len() as int) =~= first);
            assert(right.take(first.len() as int) =~= second);
        }
    }
}

/// The names of an entry's files.
pub open spec fn is_entry_name(names: FileNames, name: Seq<char>) -> bool {
    ||| name == names.media
    ||| name == names.partial_media
    ||| name == names.metadata
    ||| name == names.partial_metadata
}

/// Sources at different positions of a run have no file in common, whatever their URLs are.
pub proof fn law_sources_do_not_share_files(
    first_index: nat,
    first_url: Seq<char>,
    second_index: nat,
    second_url: Seq<char>,
    name: Seq<char>,
)
    requires
        first_index != second_index,
    ensures
        !(is_entry_name(entry_names(first_index, first_url), name) && is_entry_name(
            entry_names(second_index, second_url),
            name,
        )),
        file_stem(first_index, first_url) != file_stem(second_index, second_url),
{
    lemma_numbered_names_differ(
        first_index,
        sanitized(source_id(first_url)),
        second_index,
        sanitized(source_id(second_url)),
    );
    if is_entry_name(entry_names(first_index, first_url), name) && is_entry_name(
        entry_names(second_index, second_url),
        name,
    ) {
        let first_extension = lemma_name_has_stem(first_index, first_url, name);
        let second_extension = lemma_name_has_stem(second_index, second_url, name);
        lemma_numbered_names_differ(
            first_index,
            sanitized(source_id(first_url)) + first_extension,
            second_index,
            sanitized(source_id(second_url)) + second_extension,
        );
    }
}

proof fn lemma_name_has_stem(source_index: nat, url: Seq<char>, name: Seq<char>) -> (extension: Seq<
    char,
>)
    requires
        is_entry_name(entry_names(source_index, url), name),
    ensures
        name == padded(text::decimal(source_index + 1)) + seq!['-'] + (sanitized(source_id(url))
            + extension),
{
    let names = entry_names(source_index, url);
    let extension = if name == names.media {
        ".audio"@
    } else if name == names.partial_media {
        ".audio.download"@
    } else if name == names.metadata {
        ".json"@
    } else {
        ".json.part"@
    };
    assert(file_stem(source_index, url) + extension =~= padded(text::decimal(source_index + 1))
        + seq!['-'] + (sanitized(source_id(url)) + extension));
    extension
}

/// Putting one source into the cache does not change what the sources at other positions open
/// as: not while it is prepared, nor while its data arrives, nor at any step of its
/// publication.
pub proof fn law_sources_are_cached_independently(
    reader: Reader,
    source_index: nat,
    url: Seq<char>,
    directory: Map<Seq<char>, Seq<u8>>,
    metadata: Metadata,
    arrived: Seq<u8>,
    done: int,
)
    requires
        source_index != reader.source_index,
        0 <= done <= 3,
    ensures
        ({
            let names = entry_names(source_index, url);
            let prepared = after_steps(directory, preparation(names), reader.format);
            let published = after_steps(
                directory,
                publication(names, metadata).take(done),
                reader.format,
            );
            &&& reader.opens(prepared) == reader.opens(directory)
            &&& reader.opens(directory.insert(names.partial_media, arrived)) == reader.opens(
                directory,
            )
            &&& reader.opens(published) == reader.opens(directory)
        }),
{
    let names = entry_names(source_index, url);
    let media = reader.names().media;
    let kept = reader.names().metadata;
    law_sources_do_not_share_files(
        reader.source_index,
        reader.url,
        source_index,
        url,
        media,
    );
    law_sources_do_not_share_files(
        reader.source_index,
        reader.url,
        source_index,
        url,
        kept,
    );
    let first = preparation(names);
    let second = publication(names, metadata).take(done);
    assert forall|i: int| 0 <= i < first.len() implies !touches(#[trigger] first[i], media)
        && !touches(first[i], kept) by {
        assert(i == 0 || i == 1);
    }
    assert forall|i: int| 0 <= i < second.len() implies !touches(#[trigger] second[i], media)
        && !touches(second[i], kept) by {
        assert(second[i] == publication(names, metadata)[i]);
        assert(i == 0 || i == 1 || i == 2);
    }
    lemma_untouched_file(directory, first, reader.format, media);
    lemma_untouched_file(directory, first, reader.format, kept);
    lemma_untouched_file(directory, second, reader.format, media);
    lemma_untouched_file(directory, second, reader.format, kept);
}

proof fn lemma_first_non_empty(parts: Seq<Seq<char>>, fallback: Seq<char>)
    requires
        fallback.len() > 0,
    ensures
        first_non_empty(parts, fallback).len() > 0,
    decreases parts.len(),
{
    if parts.len() > 0 && parts[0].len() == 0 {
        lemma_first_non_empty(parts.skip(1), fallback);
    }
}

proof fn lemma_source_id_is_not_empty(url: Seq<char>)
    ensures
        source_id(url).len() > 0,
{
    reveal_strlit("source");
    let rest = match text::after_first(url, "v="@) {
        Some(value) => value,
        None => url,
    };
    lemma_first_non_empty(text::pieces(rest, Separator::UrlDelimiter), "source"@);
}

/// The name of a source's files is made of ASCII letters, digits, hyphens and underscores
/// only, begins with at least four digits, and has an identifier behind them, so it names a
/// file of the directory itself.
pub proof fn law_stem_is_file_safe(source_index: nat, url: Seq<char>)
    ensures
        file_stem(source_index, url).len() >= 6,
        forall|i: int|
            0 <= i < file_stem(source_index, url).len() ==> file_safe(
                #[trigger] file_stem(source_index, url)[i],
            ),
        forall|i: int|
            0 <= i < 4 ==> text::is_digit(#[trigger] file_stem(source_index, url)[i]),
{
    text::lemma_decimal_round_trip(source_index + 1);
    lemma_padded(text::decimal(source_index + 1));
    let number = padded(text::decimal(source_index + 1));
    let id = sanitized(source_id(url));
    let stem = file_stem(source_index, url);
    lemma_source_id_is_not_empty(url);
    assert forall|i: int| 0 <= i < stem.len() implies file_safe(#[trigger] stem[i]) by {
        if i < number.len() {
            assert(stem[i] == number[i]);
            assert(text::is_digit(number[i]));
        } else if i > number.len() {
            assert(stem[i] == id[i - number.len() - 1]);
        }
    }
    assert forall|i: int| 0 <= i < 4 implies text::is_digit(#[trigger] stem[i]) by {
        assert(stem[i] == number[i]);
    }
}

} // verus!
