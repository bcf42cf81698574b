//! What holds of text operations, stated over the characters of the texts.

use crate::text::{
    after_first, all_digits, ascii_lower, contains, decimal, decimal_value,
    ends_in_line_feed, joined, lemma_decimal_round_trip, lemma_pieces_around,
    lemma_pieces_are_uncut, lemma_pieces_non_empty, lemma_uncut_is_one_piece, lines, lower_case,
    non_empty, occurs_at, pieces, trim_end, trim_start, trimmed, uncut, unsigned_number,
    white_space, word_count, Separator,
};
use vstd::prelude::*;

verus! {

/// Whether every character of a text is white space.
pub open spec fn all_white(s: Seq<char>) -> bool {
    forall|i: int| 0 <= i < s.len() ==> white_space(#[trigger] s[i])
}

/// White space is what Unicode lists as such: twenty-five characters and no other.
pub proof fn law_white_space(c: char)
    ensures
        white_space(c) <==> (9 <= c as u32 <= 13 || 0x2000 <= c as u32 <= 0x200a || seq![
            0x20u32,
            0x85,
            0xa0,
            0x1680,
            0x2028,
            0x2029,
            0x202f,
            0x205f,
            0x3000,
        ].contains(c as u32)),
{
    let single = seq![
        0x20u32,
        0x85,
        0xa0,
        0x1680,
        0x2028,
        0x2029,
        0x202f,
        0x205f,
        0x3000,
    ];
    assert(single[0] == 0x20 && single[1] == 0x85 && single[2] == 0xa0 && single[3] == 0x1680
        && single[4] == 0x2028 && single[5] == 0x2029 && single[6] == 0x202f && single[7] == 0x205f
        && single[8] == 0x3000);
}

proof fn lemma_trim_start_past(before: Seq<char>, rest: Seq<char>)
    requires
        all_white(before),
    ensures
        trim_start(before + rest) == trim_start(rest),
    decreases before.len(),
{
    if before.len() == 0 {
        assert(before + rest =~= rest);
    } else {
        assert(white_space(before[0]));
        assert((before + rest)[0] == before[0]);
        assert((before + rest).skip(1) =~= before.skip(1) + rest);
        assert forall|i: int| 0 <= i < before.skip(1).len() implies white_space(
            #[trigger] before.skip(1)[i],
        ) by {
            assert(before.skip(1)[i] == before[i + 1]);
        }
        lemma_trim_start_past(before.skip(1), rest);
    }
}

proof fn lemma_trim_end_past(rest: Seq<char>, after: Seq<char>)
    requires
        all_white(after),
    ensures
        trim_end(rest + after) == trim_end(rest),
    decreases after.len(),
{
    if after.len() == 0 {
        assert(rest + after =~= rest);
    } else {
        assert(white_space(after[after.len() - 1]));
        assert((rest + after).last() == after.last());
        assert((rest + after).drop_last() =~= rest + after.drop_last());
        assert forall|i: int| 0 <= i < after.drop_last().len() implies white_space(
            #[trigger] after.drop_last()[i],
        ) by {
            assert(after.drop_last()[i] == after[i]);
        }
        lemma_trim_end_past(rest, after.drop_last());
    }
}

/// Trimming takes the white space around a text away, and nothing else: of white space, a text
/// that is empty or has none around it, and white space again, that text is left whole.
pub proof fn law_trimmed_is_the_middle(before: Seq<char>, inner: Seq<char>, after: Seq<char>)
    requires
        all_white(before),
        all_white(after),
        inner.len() == 0 || (!white_space(inner[0]) && !white_space(inner.last())),
    ensures
        trimmed(before + inner + after) == inner,
{
    assert(before + inner + after =~= before + (inner + after));
    lemma_trim_start_past(before, inner + after);
    if inner.len() > 0 {
        assert((inner + after)[0] == inner[0]);
        lemma_trim_end_past(inner, after);
    } else {
        assert(inner + after =~= after);
        let nothing = Seq::<char>::empty();
        assert(after + nothing =~= after);
        lemma_trim_start_past(after, nothing);
        assert(inner =~= nothing);
    }
}

proof fn lemma_trim_start_splits(s: Seq<char>) -> (before: Seq<char>)
    ensures
        all_white(before),
        s == before + trim_start(s),
    decreases s.len(),
{
    if s.len() > 0 && white_space(s[0]) {
        let rest = lemma_trim_start_splits(s.skip(1));
        let before = seq![s[0]] + rest;
        let left = trim_start(s.skip(1));
        assert(seq![s[0]] + s.skip(1) =~= s);
        assert(seq![s[0]] + (rest + left) =~= before + left);
        before
    } else {
        let before = Seq::<char>::empty();
        assert(s =~= before + s);
        before
    }
}

proof fn lemma_trim_end_splits(s: Seq<char>) -> (after: Seq<char>)
    ensures
        all_white(after),
        s == trim_end(s) + after,
    decreases s.len(),
{
    if s.len() > 0 && white_space(s.last()) {
        let rest = lemma_trim_end_splits(s.drop_last());
        let after = rest.push(s.last());
        let left = trim_end(s.drop_last());
        assert(s.drop_last().push(s.last()) =~= s);
        assert((left + rest).push(s.last()) =~= left + after);
        after
    } else {
        let after = Seq::<char>::empty();
        assert(s =~= s + after);
        after
    }
}

/// Every text is what trimming leaves of it, with white space around that.
pub proof fn law_only_white_space_is_trimmed(s: Seq<char>) -> (around: (Seq<char>, Seq<char>))
    ensures
        all_white(around.0),
        all_white(around.1),
        s == around.0 + trimmed(s) + around.1,
        trimmed(s).len() == 0 || (!white_space(trimmed(s)[0]) && !white_space(trimmed(s).last())),
{
    let before = lemma_trim_start_splits(s);
    let after = lemma_trim_end_splits(trim_start(s));
    assert(s =~= before + trimmed(s) + after);
    crate::text::lemma_trimmed_is_clean(s);
    (before, after)
}

proof fn lemma_joined_extended(parts: Seq<Seq<char>>, glue: Seq<char>, c: char)
    requires
        parts.len() > 0,
    ensures
        joined(parts.drop_last().push(parts.last().push(c)), glue) == joined(parts, glue).push(c),
{
    let longer = parts.drop_last().push(parts.last().push(c));
    assert(longer.drop_last() =~= parts.drop_last());
    assert(joined(longer, glue) =~= joined(parts, glue).push(c));
}

/// The character at which a text of this kind is cut, where there is only one.
pub open spec fn only_separator(separator: Separator, c: char) -> bool {
    forall|other: char| #[trigger] separator.cuts(other) == (other == c)
}

/// A text is what its pieces are joined to by the separator, and no piece holds it.
pub proof fn law_pieces_are_joined_again(s: Seq<char>, separator: Separator, c: char)
    requires
        only_separator(separator, c),
    ensures
        joined(pieces(s, separator), seq![c]) == s,
        forall|i: int|
            0 <= i < pieces(s, separator).len() ==> !(#[trigger] pieces(s, separator)[i]).contains(
                c,
            ),
    decreases s.len(),
{
    if s.len() == 0 {
        assert(joined(pieces(s, separator), seq![c]) =~= s);
    } else {
        let shorter = s.drop_last();
        law_pieces_are_joined_again(shorter, separator, c);
        lemma_pieces_non_empty(shorter, separator);
        let before = pieces(shorter, separator);
        if separator.cuts(s.last()) {
            let all = before.push(Seq::<char>::empty());
            assert(all.drop_last() =~= before);
            assert(joined(all, seq![c]) =~= shorter.push(c));
        } else {
            lemma_joined_extended(before, seq![c], s.last());
        }
        assert(shorter.push(s.last()) =~= s);
    }
    assert forall|i: int| 0 <= i < pieces(s, separator).len() implies !(
    #[trigger] pieces(s, separator)[i]).contains(c) by {
        lemma_pieces_are_uncut(s, separator, i);
        let piece = pieces(s, separator)[i];
        if piece.contains(c) {
            let at = choose|j: int| 0 <= j < piece.len() && piece[j] == c;
            assert(!separator.cuts(piece[at]));
        }
    }
}

/// Texts without the separator that are joined by it are the pieces of what they make.
pub proof fn law_joined_is_cut_again(parts: Seq<Seq<char>>, separator: Separator, c: char)
    requires
        separator.cuts(c),
        parts.len() > 0,
        forall|i: int| 0 <= i < parts.len() ==> uncut(#[trigger] parts[i], separator),
    ensures
        pieces(joined(parts, seq![c]), separator) == parts,
    decreases parts.len(),
{
    let last = parts[parts.len() - 1];
    assert(uncut(last, separator));
    lemma_uncut_is_one_piece(last, separator);
    if parts.len() == 1 {
        assert(joined(parts, seq![c]) =~= last);
        assert(parts =~= seq![last]);
    } else {
        let shorter = parts.drop_last();
        assert forall|i: int| 0 <= i < shorter.len() implies uncut(
            #[trigger] shorter[i],
            separator,
        ) by {
            assert(shorter[i] == parts[i]);
        }
        law_joined_is_cut_again(shorter, separator, c);
        let before = joined(shorter, seq![c]);
        assert(joined(parts, seq![c]) =~= before.push(c) + last);
        lemma_pieces_around(before, c, last, separator);
        assert(shorter + seq![last] =~= parts);
    }
}

/// The characters at which the kinds of text are cut.
pub proof fn law_separators(c: char)
    ensures
        only_separator(Separator::Comma, ','),
        only_separator(Separator::Semicolon, ';'),
        only_separator(Separator::LineFeed, '\n'),
        Separator::CommaOrWhiteSpace.cuts(c) <==> c == ',' || white_space(c),
        Separator::UrlDelimiter.cuts(c) <==> seq!['&', '?', '#', '/'].contains(c),
{
    let delimiters = seq!['&', '?', '#', '/'];
    assert(delimiters[0] == '&' && delimiters[1] == '?' && delimiters[2] == '#' && delimiters[3]
        == '/');
}

proof fn lemma_pieces_of_line(line: Seq<char>)
    requires
        !line.contains('\n'),
    ensures
        pieces(line, Separator::LineFeed) == seq![line],
        pieces(line.push('\n'), Separator::LineFeed) == seq![line, Seq::<char>::empty()],
{
    let nothing = Seq::<char>::empty();
    assert forall|i: int| 0 <= i < line.len() implies !Separator::LineFeed.cuts(
        #[trigger] line[i],
    ) by {
        assert(line.contains(line[i]));
    }
    lemma_uncut_is_one_piece(line, Separator::LineFeed);
    lemma_uncut_is_one_piece(nothing, Separator::LineFeed);
    lemma_pieces_around(line, '\n', nothing, Separator::LineFeed);
    assert(line.push('\n') + nothing =~= line.push('\n'));
    assert(seq![line] + seq![nothing] =~= seq![line, nothing]);
}

/// The lines of a text are what stands before its line endings, whole: a line feed ends a line,
/// and so does one behind a carriage return, which is not part of the line. What stands behind
/// the last ending is a line where there is anything.
pub proof fn law_lines_are_whole(s: Seq<char>, line: Seq<char>)
    requires
        ends_in_line_feed(s),
        !line.contains('\n'),
    ensures
        lines(Seq::<char>::empty()) == Seq::<Seq<char>>::empty(),
        (line.len() == 0 || line.last() != '\r') ==> lines(s + line.push('\n')) == lines(s).push(
            line,
        ),
        lines(s + line.push('\r').push('\n')) == lines(s).push(line),
        line.len() > 0 ==> lines(s + line) == lines(s).push(line),
        lines(s + Seq::<char>::empty()) == lines(s),
{
    let nothing = Seq::<char>::empty();
    assert(!nothing.contains('\n'));
    lemma_pieces_of_line(nothing);
    assert(lines(nothing) =~= Seq::<Seq<char>>::empty());
    assert(s + nothing =~= s);
    if line.len() == 0 || line.last() != '\r' {
        lemma_line_behind(s, line, line.push('\n'), line);
    }
    let longer = line.push('\r');
    assert(!longer.contains('\n')) by {
        if longer.contains('\n') {
            let at = choose|i: int| 0 <= i < longer.len() && longer[i] == '\n';
            assert(line[at] == '\n');
        }
    }
    assert(longer.drop_last() =~= line);
    lemma_line_behind(s, longer, longer.push('\n'), line);
    if line.len() > 0 {
        lemma_line_behind(s, line, line, line);
    }
}

proof fn lemma_line_behind(s: Seq<char>, cut: Seq<char>, more: Seq<char>, line: Seq<char>)
    requires
        ends_in_line_feed(s),
        !cut.contains('\n'),
        more == cut.push('\n') && line == (if cut.len() > 0 && cut.last() == '\r' {
            cut.drop_last()
        } else {
            cut
        }) || (more == cut && line == cut && cut.len() > 0),
    ensures
        lines(s + more) == lines(s).push(line),
{
    let nothing = Seq::<char>::empty();
    lemma_pieces_of_line(cut);
    let tail = pieces(more, Separator::LineFeed);
    if s.len() == 0 {
        assert(s + more =~= more);
        assert(pieces(s, Separator::LineFeed) =~= seq![nothing]);
        assert(lines(s) =~= Seq::<Seq<char>>::empty());
        assert(lines(more) =~= seq![line]);
        assert(lines(s).push(line) =~= seq![line]);
    } else {
        let before = pieces(s.drop_last(), Separator::LineFeed);
        assert(s =~= s.drop_last().push('\n'));
        lemma_pieces_around(s.drop_last(), '\n', more, Separator::LineFeed);
        lemma_pieces_around(s.drop_last(), '\n', nothing, Separator::LineFeed);
        assert(s + nothing =~= s);
        assert(!nothing.contains('\n'));
        lemma_pieces_of_line(nothing);
        assert(before + seq![nothing] =~= before.push(nothing));
        assert(before.push(nothing).drop_last() =~= before);
        assert((before + tail).drop_last() =~= before + tail.drop_last());
        assert(lines(s + more) =~= lines(s).push(line));
    }
}

/// What follows the first occurrence of a needle is the rest of the text behind it, and the
/// needle does not occur earlier.
pub proof fn law_first_occurrence(s: Seq<char>, needle: Seq<char>)
    requires
        needle.len() > 0,
    ensures
        match after_first(s, needle) {
            Some(rest) => {
                let at = s.len() - rest.len() - needle.len();
                &&& 0 <= at
                &&& s == s.take(at) + needle + rest
                &&& forall|i: int| 0 <= i < at ==> !#[trigger] occurs_at(s, needle, i)
            },
            None => forall|i: int|
                0 <= i <= s.len() - needle.len() ==> #[trigger] s.subrange(i, i + needle.len())
                    != needle,
        },
    decreases s.len(),
{
    crate::text::lemma_after_first_finds(s, needle);
    if occurs_at(s, needle, 0) {
        let rest = s.skip(needle.len() as int);
        assert(s.take(0) + needle + rest =~= s);
    } else if s.len() > 0 {
        let shorter = s.skip(1);
        law_first_occurrence(shorter, needle);
        if let Some(rest) = after_first(s, needle) {
            let at = s.len() - rest.len() - needle.len();
            assert(after_first(shorter, needle) == Some(rest));
            assert(0 <= at - 1);
            assert(shorter.take(at - 1).len() == at - 1);
            assert(seq![s[0]] + shorter.take(at - 1) =~= s.take(at));
            assert(s =~= seq![s[0]] + shorter);
            assert(s =~= s.take(at) + needle + rest);
            assert forall|i: int| 0 <= i < at implies !#[trigger] occurs_at(s, needle, i) by {
                if i > 0 {
                    assert(!occurs_at(shorter, needle, i - 1));
                    assert(shorter.subrange(i - 1, i - 1 + needle.len()) =~= s.subrange(
                        i,
                        i + needle.len(),
                    ));
                }
            }
        }
    }
    if after_first(s, needle) is None {
        assert forall|i: int| 0 <= i <= s.len() - needle.len() implies #[trigger] s.subrange(
            i,
            i + needle.len(),
        ) != needle by {
            if s.subrange(i, i + needle.len()) == needle {
                assert(occurs_at(s, needle, i));
            }
        }
    }
}

/// A text contains a needle exactly where it has a part before it and a part behind it.
pub proof fn law_contains(before: Seq<char>, needle: Seq<char>, after: Seq<char>, s: Seq<char>)
    ensures
        contains(before + needle + after, needle),
        contains(s, needle) ==> exists|at: int|
            0 <= at <= s.len() - needle.len() && #[trigger] s.subrange(at, at + needle.len())
                == needle,
{
    let whole = before + needle + after;
    let at = before.len() as int;
    assert(whole.subrange(at, at + needle.len()) =~= needle);
    assert(occurs_at(whole, needle, at));
    if contains(s, needle) {
        let found = choose|at: int| occurs_at(s, needle, at);
        assert(s.subrange(found, found + needle.len()) == needle);
    }
}

/// Putting a text into lower case changes each ASCII capital to the small letter, which stands
/// 32 places behind it, and no other character.
pub proof fn law_lower_case(s: Seq<char>, i: int)
    requires
        0 <= i < s.len(),
    ensures
        lower_case(s).len() == s.len(),
        65 <= s[i] as u32 <= 90 ==> lower_case(s)[i] as u32 == s[i] as u32 + 32,
        !(65 <= s[i] as u32 <= 90) ==> lower_case(s)[i] == s[i],
{
    assert(lower_case(s)[i] == ascii_lower(s[i]));
}

/// A number is read from its numeral, with or without a plus sign before it, where it is in
/// range, and from nothing else than digits.
pub proof fn law_numbers_are_read(number: nat, max: nat, s: Seq<char>)
    ensures
        unsigned_number(decimal(number), max) == if number <= max {
            Some(number)
        } else {
            None
        },
        unsigned_number(seq!['+'] + decimal(number), max) == unsigned_number(decimal(number), max),
        unsigned_number(Seq::<char>::empty(), max) is None,
        match unsigned_number(s, max) {
            Some(found) => {
                &&& found <= max
                &&& exists|i: int| 0 <= i < s.len() && '0' <= #[trigger] s[i] <= '9'
                &&& forall|i: int|
                    0 <= i < s.len() ==> '0' <= #[trigger] s[i] <= '9' || (i == 0 && s[i] == '+')
            },
            None => true,
        },
{
    lemma_decimal_round_trip(number);
    let digits = decimal(number);
    assert(crate::text::is_digit(digits[0]));
    let signed = seq!['+'] + digits;
    assert(signed.skip(1) =~= digits);
    if unsigned_number(s, max) is Some {
        let rest = if s.len() > 0 && s[0] == '+' {
            s.skip(1)
        } else {
            s
        };
        assert(crate::text::is_digit(rest[0]));
        assert forall|i: int| 0 <= i < s.len() implies '0' <= #[trigger] s[i] <= '9' || (i == 0
            && s[i] == '+') by {
            if s[0] == '+' {
                if i > 0 {
                    assert(crate::text::is_digit(rest[i - 1]));
                }
            } else {
                assert(crate::text::is_digit(rest[i]));
            }
        }
        if s[0] == '+' {
            assert(rest[0] == s[1]);
            assert('0' <= s[1] <= '9');
        } else {
            assert('0' <= s[0] <= '9');
        }
    }
}

/// The number of a run of digits goes by their places, leading zeros and a plus sign aside: one
/// more digit makes it ten times as large and adds the digit. Nothing but its range limits it.
pub proof fn law_numbers_go_by_places(s: Seq<char>, c: char, max: nat)
    requires
        s.len() > 0,
        forall|i: int| 0 <= i < s.len() ==> '0' <= #[trigger] s[i] <= '9',
        '0' <= c <= '9',
    ensures
        unsigned_number(seq![c], max) == if c as int - 48 <= max {
            Some((c as int - 48) as nat)
        } else {
            None
        },
        match unsigned_number(s, max) {
            Some(number) => unsigned_number(s.push(c), max) == if 10 * number + (c as int - 48)
                <= max {
                Some((10 * number + (c as int - 48)) as nat)
            } else {
                None
            },
            None => unsigned_number(s.push(c), max) is None,
        },
        unsigned_number(seq!['+'] + s, max) == unsigned_number(s, max),
        unsigned_number(seq!['+', '+'] + s, max) is None,
{
    let longer = s.push(c);
    assert(longer.drop_last() =~= s);
    assert(all_digits(s));
    assert(all_digits(longer));
    assert(s[0] != '+');
    assert(longer[0] == s[0]);
    assert(all_digits(seq![c]));
    assert(seq![c].drop_last() =~= Seq::<char>::empty());
    assert(decimal_value(Seq::<char>::empty()) == 0);
    assert((seq!['+'] + s).skip(1) =~= s);
    let twice = seq!['+', '+'] + s;
    assert(twice.skip(1)[0] == '+');
    assert(!crate::text::is_digit(twice.skip(1)[0]));
}

/// A numeral is made of digits, has the place value of its number, and has no leading zero but
/// that of zero itself.
pub proof fn law_numerals(number: nat)
    ensures
        decimal(number).len() > 0,
        forall|i: int|
            0 <= i < decimal(number).len() ==> '0' <= #[trigger] decimal(number)[i] <= '9',
        number >= 10 ==> decimal(number) == decimal(number / 10).push(
            (48 + number % 10) as char,
        ),
        number < 10 ==> decimal(number) == seq![(48 + number) as char],
        number > 0 ==> decimal(number)[0] != '0',
    decreases number,
{
    lemma_decimal_round_trip(number);
    assert forall|i: int| 0 <= i < decimal(number).len() implies '0' <= #[trigger] decimal(
        number,
    )[i] <= '9' by {
        assert(crate::text::is_digit(decimal(number)[i]));
    }
    if number >= 10 {
        law_numerals(number / 10);
        assert(decimal(number)[0] == decimal(number / 10)[0]);
    }
}

/// Joining two lists is joining each and putting the glue between; one text is joined to itself,
/// and none to nothing.
pub proof fn law_joined_splits(
    first: Seq<Seq<char>>,
    second: Seq<Seq<char>>,
    glue: Seq<char>,
    part: Seq<char>,
)
    requires
        first.len() > 0,
        second.len() > 0,
    ensures
        joined(first + second, glue) == joined(first, glue) + glue + joined(second, glue),
        joined(seq![part], glue) == part,
        joined(Seq::<Seq<char>>::empty(), glue) == Seq::<char>::empty(),
    decreases second.len(),
{
    let all = first + second;
    assert(all.last() == second.last());
    assert(all.drop_last() =~= first + second.drop_last());
    if second.len() == 1 {
        assert(first + second.drop_last() =~= first);
        assert(joined(all, glue) =~= joined(first, glue) + glue + joined(second, glue));
    } else {
        law_joined_splits(first, second.drop_last(), glue, part);
        assert(joined(all, glue) =~= joined(first, glue) + glue + joined(second, glue));
    }
}

/// The words of two texts with white space between them are those of the two, and a text
/// without white space is one word, where it is not empty.
pub proof fn law_words_add_up(first: Seq<char>, space: char, second: Seq<char>)
    requires
        white_space(space),
    ensures
        word_count(first.push(space) + second) == word_count(first) + word_count(second),
        word_count(Seq::<char>::empty()) == 0,
    decreases second.len(),
{
    let whole = first.push(space) + second;
    if second.len() == 0 {
        assert(whole =~= first.push(space));
        assert(whole.drop_last() =~= first);
    } else {
        law_words_add_up(first, space, second.drop_last());
        assert(whole.drop_last() =~= first.push(space) + second.drop_last());
        assert(whole.last() == second.last());
        if second.len() == 1 {
            assert(whole[whole.len() - 2] == space);
        } else {
            assert(whole[whole.len() - 2] == second[second.len() - 2]);
        }
    }
}

/// A text without white space that is not empty is one word.
pub proof fn law_one_word(word: Seq<char>)
    requires
        word.len() > 0,
        forall|i: int| 0 <= i < word.len() ==> !white_space(#[trigger] word[i]),
    ensures
        word_count(word) == 1,
    decreases word.len(),
{
    assert(!white_space(word[word.len() - 1]));
    if word.len() == 1 {
        assert(word.drop_last() =~= Seq::<char>::empty());
        assert(word_count(Seq::<char>::empty()) == 0);
    } else {
        assert(!white_space(word[word.len() - 2]));
        assert forall|i: int| 0 <= i < word.drop_last().len() implies !white_space(
            #[trigger] word.drop_last()[i],
        ) by {
            assert(word.drop_last()[i] == word[i]);
        }
        law_one_word(word.drop_last());
    }
}

/// Of a list the empty texts are left out, and every other text is kept in its place.
pub proof fn law_non_empty_keeps_the_rest(
    first: Seq<Seq<char>>,
    part: Seq<char>,
    second: Seq<Seq<char>>,
)
    ensures
        non_empty(first.push(part) + second) == if part.len() == 0 {
            non_empty(first) + non_empty(second)
        } else {
            non_empty(first).push(part) + non_empty(second)
        },
        non_empty(Seq::<Seq<char>>::empty()) == Seq::<Seq<char>>::empty(),
{
    crate::text::lemma_non_empty_of_both(first.push(part), second);
    assert(first.push(part).drop_last() =~= first);
}

} // verus!
