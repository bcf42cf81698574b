//! What holds of URL lists and of media types.

use crate::research_cache::{
    all_trimmed, essence, holds_urls, listed_urls, urls_of_lines, Metadata,
};
use crate::text::{self, Separator};
use vstd::prelude::*;

verus! {

/// Whether a text can stand in a URL list as one URL: it is not empty and has neither a comma
/// nor white space in it.
pub open spec fn listable(url: Seq<char>) -> bool {
    url.len() > 0 && text::uncut(url, Separator::CommaOrWhiteSpace)
}

proof fn lemma_uncut_is_trimmed(s: Seq<char>)
    requires
        text::uncut(s, Separator::CommaOrWhiteSpace),
    ensures
        text::trimmed(s) == s,
{
    if s.len() > 0 {
        assert(!Separator::CommaOrWhiteSpace.cuts(s[0]));
        assert(!Separator::CommaOrWhiteSpace.cuts(s[s.len() - 1]));
        text::lemma_clean_is_trimmed(s);
    }
}

/// Every URL that is read from a list is one that could stand in it: there is neither a comma
/// nor white space in it, and it is not empty.
pub proof fn law_listed_urls_are_listable(s: Seq<char>, at: int)
    requires
        0 <= at < listed_urls(s).len(),
    ensures
        listable(listed_urls(s)[at]),
{
    let cut = text::pieces(s, Separator::CommaOrWhiteSpace);
    text::lemma_non_empty_is_listed(all_trimmed(cut), at);
    let found = choose|i: int|
        0 <= i < all_trimmed(cut).len() && all_trimmed(cut)[i] == listed_urls(s)[at];
    text::lemma_pieces_are_uncut(s, Separator::CommaOrWhiteSpace, found);
    lemma_uncut_is_trimmed(cut[found]);
}

/// A comma, or a white space character, between two lists makes one list of them: the URLs of
/// the first and then those of the second.
pub proof fn law_lists_are_joined_by_separators(
    first: Seq<char>,
    separator: char,
    second: Seq<char>,
)
    requires
        separator == ',' || text::white_space(separator),
    ensures
        listed_urls(first.push(separator) + second) == listed_urls(first) + listed_urls(second),
{
    text::lemma_pieces_around(first, separator, second, Separator::CommaOrWhiteSpace);
    let before = text::pieces(first, Separator::CommaOrWhiteSpace);
    let after = text::pieces(second, Separator::CommaOrWhiteSpace);
    assert(all_trimmed(before + after) =~= all_trimmed(before) + all_trimmed(after));
    text::lemma_non_empty_of_both(all_trimmed(before), all_trimmed(after));
}

/// Whether a text consists of commas and white space, and is not empty.
pub open spec fn separates(separator: Seq<char>) -> bool {
    &&& separator.len() > 0
    &&& forall|i: int|
        0 <= i < separator.len() ==> Separator::CommaOrWhiteSpace.cuts(#[trigger] separator[i])
}

proof fn lemma_empty_list()
    ensures
        listed_urls(Seq::<char>::empty()) == Seq::<Seq<char>>::empty(),
{
    let nothing = Seq::<char>::empty();
    text::lemma_uncut_is_one_piece(nothing, Separator::CommaOrWhiteSpace);
    assert(all_trimmed(seq![nothing]) =~= seq![nothing]);
    assert(seq![nothing].drop_last() =~= Seq::<Seq<char>>::empty());
    assert(text::non_empty(Seq::<Seq<char>>::empty()) =~= Seq::<Seq<char>>::empty());
}

proof fn lemma_lists_around(first: Seq<char>, separator: Seq<char>, second: Seq<char>)
    requires
        separates(separator),
    ensures
        listed_urls(first + separator + second) == listed_urls(first) + listed_urls(second),
    decreases separator.len(),
{
    let cut = separator[0];
    let rest = separator.skip(1);
    assert(Separator::CommaOrWhiteSpace.cuts(cut));
    assert(first + separator + second =~= first.push(cut) + (rest + second));
    law_lists_are_joined_by_separators(first, cut, rest + second);
    if rest.len() == 0 {
        assert(rest + second =~= second);
    } else {
        let nothing = Seq::<char>::empty();
        assert forall|i: int| 0 <= i < rest.len() implies Separator::CommaOrWhiteSpace.cuts(
            #[trigger] rest[i],
        ) by {
            assert(rest[i] == separator[i + 1]);
        }
        lemma_lists_around(nothing, rest, second);
        lemma_empty_list();
        assert(nothing + rest + second =~= rest + second);
        assert(listed_urls(nothing) + listed_urls(second) =~= listed_urls(second));
    }
}

/// URLs that are written as a list are read back, whatever commas and white space stand between
/// each two of them.
pub proof fn law_url_list_round_trip(urls: Seq<Seq<char>>, separator: Seq<char>)
    requires
        forall|i: int| 0 <= i < urls.len() ==> listable(#[trigger] urls[i]),
        separates(separator),
    ensures
        listed_urls(text::joined(urls, separator)) == urls,
    decreases urls.len(),
{
    if urls.len() == 0 {
        lemma_empty_list();
        assert(urls =~= Seq::<Seq<char>>::empty());
    } else {
        let shorter = urls.drop_last();
        let last = urls[urls.len() - 1];
        assert(listable(last));
        lemma_single_url(last);
        if urls.len() == 1 {
            assert(urls =~= seq![last]);
        } else {
            assert forall|i: int| 0 <= i < shorter.len() implies listable(
                #[trigger] shorter[i],
            ) by {
                assert(shorter[i] == urls[i]);
            }
            law_url_list_round_trip(shorter, separator);
            lemma_lists_around(text::joined(shorter, separator), separator, last);
            assert(urls =~= shorter + seq![last]);
        }
    }
}

proof fn lemma_single_url(url: Seq<char>)
    requires
        listable(url),
    ensures
        listed_urls(url) == seq![url],
{
    text::lemma_uncut_is_one_piece(url, Separator::CommaOrWhiteSpace);
    lemma_uncut_is_trimmed(url);
    assert(all_trimmed(seq![url]) =~= seq![url]);
    assert(seq![url].drop_last() =~= Seq::<Seq<char>>::empty());
    assert(text::non_empty(Seq::<Seq<char>>::empty()) =~= Seq::<Seq<char>>::empty());
    assert(text::non_empty(seq![url]) =~= seq![url]);
}

/// The URLs of a list of lines are those of its beginning and then those of its rest, and a
/// blank line or a comment adds none.
pub proof fn law_url_lines_add_up(first: Seq<Seq<char>>, second: Seq<Seq<char>>, line: Seq<char>)
    ensures
        urls_of_lines(first + second) == urls_of_lines(first) + urls_of_lines(second),
        !holds_urls(text::trimmed(line)) ==> urls_of_lines(first.push(line) + second)
            == urls_of_lines(first + second),
{
    lemma_lines_add_up(first, second);
    lemma_lines_add_up(first.push(line), second);
    assert(first.push(line).drop_last() =~= first);
}

proof fn lemma_lines_add_up(first: Seq<Seq<char>>, second: Seq<Seq<char>>)
    ensures
        urls_of_lines(first + second) == urls_of_lines(first) + urls_of_lines(second),
    decreases second.len(),
{
    if second.len() == 0 {
        assert(first + second =~= first);
        assert(urls_of_lines(first) + urls_of_lines(second) =~= urls_of_lines(first));
    } else {
        lemma_lines_add_up(first, second.drop_last());
        assert((first + second).drop_last() =~= first + second.drop_last());
        assert(urls_of_lines(first + second) =~= urls_of_lines(first) + urls_of_lines(second));
    }
}

proof fn lemma_lower_case_twice(s: Seq<char>)
    ensures
        text::lower_case(text::lower_case(s)) == text::lower_case(s),
{
    assert forall|i: int| 0 <= i < s.len() implies text::ascii_lower(
        #[trigger] text::ascii_lower(s[i]),
    ) == text::ascii_lower(s[i]) by {}
    assert(text::lower_case(text::lower_case(s)) =~= text::lower_case(s));
}

/// Parameters behind the semicolon of a media type, and the case of the type that is asked
/// for, make no difference to whether media is of that type.
pub proof fn law_mime_type_ignores_parameters_and_case(
    metadata: Metadata,
    base: Seq<char>,
    parameters: Seq<char>,
    required: Seq<char>,
)
    requires
        text::uncut(base, Separator::Semicolon),
        metadata.source_mime_type == Some(base.push(';') + parameters),
    ensures
        metadata.has_mime_type(required) == (Metadata {
            source_mime_type: Some(base),
            ..metadata
        }).has_mime_type(required),
        metadata.has_mime_type(text::lower_case(required)) == metadata.has_mime_type(required),
{
    text::lemma_pieces_around(base, ';', parameters, Separator::Semicolon);
    text::lemma_uncut_is_one_piece(base, Separator::Semicolon);
    text::lemma_pieces_non_empty(parameters, Separator::Semicolon);
    assert(essence(base.push(';') + parameters) == essence(base));
    lemma_lower_case_twice(required);
}

} // verus!
