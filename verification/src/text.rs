//! Character-level text operations: the white space, line, separator and number
//! rules that the rest of the library is stated in.

use vstd::prelude::*;
use vstd::slice::slice_subrange;
use vstd::utf8::{decode_utf8, valid_utf8};

verus! {

/// `String::push` appends one character to the end of the string.
pub assume_specification[ String::push ](string: &mut String, character: char)
    ensures
        final(string)@ == old(string)@.push(character),
;

/// The text that `String::from_utf8_lossy` makes of a run of bytes.
pub uninterp spec fn lossy_text(bytes: Seq<u8>) -> Seq<char>;

/// Calls `String::from_utf8_lossy`. The text is the one that `lossy_text` names for these
/// bytes; where the bytes are valid UTF-8 it is the text that they encode.
#[verifier::external_body]
pub(crate) fn text_of_bytes(bytes: &[u8]) -> (decoded: String)
    ensures
        decoded@ == lossy_text(bytes@),
        valid_utf8(bytes@) ==> decoded@ == decode_utf8(bytes@),
{
    String::from_utf8_lossy(bytes).into_owned()
}

/// The characters with Unicode's White_Space property.
pub open spec fn white_space(c: char) -> bool {
    ||| '\u{9}' <= c <= '\u{d}'
    ||| c == '\u{20}'
    ||| c == '\u{85}'
    ||| c == '\u{a0}'
    ||| c == '\u{1680}'
    ||| '\u{2000}' <= c <= '\u{200a}'
    ||| c == '\u{2028}'
    ||| c == '\u{2029}'
    ||| c == '\u{202f}'
    ||| c == '\u{205f}'
    ||| c == '\u{3000}'
}

/// Whether a character is white space.
pub fn is_white_space(c: char) -> (found: bool)
    ensures
        found == white_space(c),
{
    ('\u{9}' <= c && c <= '\u{d}') || c == '\u{20}' || c == '\u{85}' || c == '\u{a0}' || c
        == '\u{1680}' || ('\u{2000}' <= c && c <= '\u{200a}') || c == '\u{2028}' || c == '\u{2029}'
        || c == '\u{202f}' || c == '\u{205f}' || c == '\u{3000}'
}

/// The characters of a string.
pub fn chars_of(text: &str) -> (chars: Vec<char>)
    ensures
        chars@ == text@,
{
    let mut chars: Vec<char> = Vec::new();
    for c in characters: text.chars()
        invariant
            characters.seq() == text@,
            chars@ == characters.seq().take(characters.index() as int),
    {
        chars.push(c);
    }
    assert(text@.take(text@.len() as int) =~= text@);
    chars
}

/// The string of a run of characters.
pub fn string_of(chars: &[char]) -> (text: String)
    ensures
        text@ == chars@,
{
    let mut text = String::new();
    for i in 0..chars.len()
        invariant
            text@ == chars@.take(i as int),
    {
        text.push(chars[i]);
        assert(chars@.take(i + 1) =~= chars@.take(i as int).push(chars@[i as int]));
    }
    assert(chars@.take(chars@.len() as int) =~= chars@);
    text
}

/// A text without its leading white space.
pub open spec fn trim_start(s: Seq<char>) -> Seq<char>
    decreases s.len(),
{
    if s.len() > 0 && white_space(s[0]) {
        trim_start(s.skip(1))
    } else {
        s
    }
}

/// A text without its trailing white space.
pub open spec fn trim_end(s: Seq<char>) -> Seq<char>
    decreases s.len(),
{
    if s.len() > 0 && white_space(s.last()) {
        trim_end(s.drop_last())
    } else {
        s
    }
}

/// A text without the white space around it.
pub open spec fn trimmed(s: Seq<char>) -> Seq<char> {
    trim_end(trim_start(s))
}

/// The part of `chars` between its leading and its trailing white space.
pub fn trim(chars: &[char]) -> (inner: &[char])
    ensures
        inner@ == trimmed(chars@),
{
    let length = chars.len();
    let mut start: usize = 0;
    assert(chars@.skip(0) =~= chars@);
    while start < length && is_white_space(chars[start])
        invariant
            start <= length == chars@.len(),
            trim_start(chars@) == trim_start(chars@.skip(start as int)),
        decreases length - start,
    {
        assert(chars@.skip(start as int).skip(1) =~= chars@.skip(start + 1));
        start = start + 1;
    }
    let ghost rest = chars@.skip(start as int);
    assert(trim_start(chars@) == rest);
    let mut end: usize = length;
    assert(rest.take(end - start) =~= rest);
    while start < end && is_white_space(chars[end - 1])
        invariant
            start <= end <= length == chars@.len(),
            rest == chars@.skip(start as int),
            trim_end(rest) == trim_end(rest.take(end - start)),
        decreases end,
    {
        assert(rest.take(end - start).drop_last() =~= rest.take(end - start - 1));
        end = end - 1;
    }
    assert(rest.take(end - start) =~= chars@.subrange(start as int, end as int));
    slice_subrange(chars, start, end)
}

/// Whether a text is not empty and has no white space around it.
pub open spec fn clean(s: Seq<char>) -> bool {
    s.len() > 0 && !white_space(s[0]) && !white_space(s.last())
}

proof fn lemma_trim_end_keeps_start(s: Seq<char>)
    requires
        s.len() > 0,
        !white_space(s[0]),
    ensures
        clean(trim_end(s)),
        trim_end(s)[0] == s[0],
    decreases s.len(),
{
    if white_space(s.last()) {
        lemma_trim_end_keeps_start(s.drop_last());
    }
}

/// What is left of a text is clean, unless nothing is left.
pub proof fn lemma_trimmed_is_clean(s: Seq<char>)
    ensures
        trimmed(s).len() > 0 ==> clean(trimmed(s)),
    decreases s.len(),
{
    if s.len() > 0 && white_space(s[0]) {
        lemma_trimmed_is_clean(s.skip(1));
    } else if s.len() > 0 {
        lemma_trim_end_keeps_start(s);
    }
}

/// A clean text is left as it is.
pub proof fn lemma_clean_is_trimmed(s: Seq<char>)
    requires
        clean(s),
    ensures
        trimmed(s) == s,
{
}

/// The characters at which a text is cut into pieces.
#[derive(Clone, Copy)]
pub enum Separator {
    Comma,
    Semicolon,
    LineFeed,
    CommaOrWhiteSpace,
    UrlDelimiter,
}

impl Separator {
    /// Whether the text is cut at this character.
    pub open spec fn cuts(self, c: char) -> bool {
        match self {
            Separator::Comma => c == ',',
            Separator::Semicolon => c == ';',
            Separator::LineFeed => c == '\n',
            Separator::CommaOrWhiteSpace => c == ',' || white_space(c),
            Separator::UrlDelimiter => c == '&' || c == '?' || c == '#' || c == '/',
        }
    }

    fn cuts_at(self, c: char) -> (found: bool)
        ensures
            found == self.cuts(c),
    {
        match self {
            Separator::Comma => c == ',',
            Separator::Semicolon => c == ';',
            Separator::LineFeed => c == '\n',
            Separator::CommaOrWhiteSpace => c == ',' || is_white_space(c),
            Separator::UrlDelimiter => c == '&' || c == '?' || c == '#' || c == '/',
        }
    }
}

/// The pieces of a text between its separators: each separator starts a new
/// piece, every other character extends the last one.
pub open spec fn pieces(s: Seq<char>, separator: Separator) -> Seq<Seq<char>>
    decreases s.len(),
{
    if s.len() == 0 {
        seq![Seq::<char>::empty()]
    } else {
        let before = pieces(s.drop_last(), separator);
        if separator.cuts(s.last()) {
            before.push(Seq::<char>::empty())
        } else {
            before.drop_last().push(before.last().push(s.last()))
        }
    }
}

/// There is always at least one piece.
pub proof fn lemma_pieces_non_empty(s: Seq<char>, separator: Separator)
    ensures
        pieces(s, separator).len() > 0,
    decreases s.len(),
{
    if s.len() > 0 {
        lemma_pieces_non_empty(s.drop_last(), separator);
    }
}

/// The pieces on both sides of a separator are those of the two sides.
pub proof fn lemma_pieces_around(s: Seq<char>, cut: char, rest: Seq<char>, separator: Separator)
    requires
        separator.cuts(cut),
    ensures
        pieces(s.push(cut) + rest, separator) == pieces(s, separator) + pieces(rest, separator),
    decreases rest.len(),
{
    let whole = s.push(cut) + rest;
    if rest.len() == 0 {
        assert(whole =~= s.push(cut));
        assert(whole.drop_last() =~= s);
        assert(pieces(whole, separator) =~= pieces(s, separator) + pieces(rest, separator));
    } else {
        let shorter = rest.drop_last();
        lemma_pieces_around(s, cut, shorter, separator);
        lemma_pieces_non_empty(shorter, separator);
        assert(whole.drop_last() =~= s.push(cut) + shorter);
        let before = pieces(s, separator);
        let after = pieces(shorter, separator);
        assert((before + after).drop_last() =~= before + after.drop_last());
        assert(pieces(whole, separator) =~= before + pieces(rest, separator));
    }
}

/// Whether no character of a text is a separator.
pub open spec fn uncut(s: Seq<char>, separator: Separator) -> bool {
    forall|i: int| 0 <= i < s.len() ==> !separator.cuts(#[trigger] s[i])
}

/// A text without separators is its only piece.
pub proof fn lemma_uncut_is_one_piece(s: Seq<char>, separator: Separator)
    requires
        uncut(s, separator),
    ensures
        pieces(s, separator) == seq![s],
    decreases s.len(),
{
    if s.len() == 0 {
        assert(s =~= Seq::<char>::empty());
    } else {
        assert forall|i: int| 0 <= i < s.drop_last().len() implies !separator.cuts(
            #[trigger] s.drop_last()[i],
        ) by {
            assert(s.drop_last()[i] == s[i]);
        }
        lemma_uncut_is_one_piece(s.drop_last(), separator);
        assert(!separator.cuts(s[s.len() - 1]));
        assert(s.drop_last().push(s.last()) =~= s);
        assert(pieces(s, separator) =~= seq![s]);
    }
}

/// No piece has a separator in it.
pub proof fn lemma_pieces_are_uncut(s: Seq<char>, separator: Separator, at: int)
    requires
        0 <= at < pieces(s, separator).len(),
    ensures
        uncut(pieces(s, separator)[at], separator),
    decreases s.len(),
{
    if s.len() > 0 {
        lemma_pieces_non_empty(s.drop_last(), separator);
        let before = pieces(s.drop_last(), separator);
        if at < before.len() {
            lemma_pieces_are_uncut(s.drop_last(), separator, at);
        }
    }
}

/// The texts that a vector of character vectors stands for.
pub open spec fn runs(parts: Seq<Vec<char>>) -> Seq<Seq<char>> {
    parts.map_values(|part: Vec<char>| part@)
}

/// The texts that a vector of strings stands for.
pub open spec fn texts(parts: Seq<String>) -> Seq<Seq<char>> {
    parts.map_values(|part: String| part@)
}

/// Cuts a text into its pieces.
pub fn split(chars: &[char], separator: Separator) -> (parts: Vec<Vec<char>>)
    ensures
        runs(parts@) == pieces(chars@, separator),
{
    let mut parts: Vec<Vec<char>> = Vec::new();
    let mut current: Vec<char> = Vec::new();
    for i in 0..chars.len()
        invariant
            runs(parts@).push(current@) == pieces(chars@.take(i as int), separator),
    {
        let c = chars[i];
        let ghost seen = chars@.take(i as int);
        let ghost done = runs(parts@);
        assert(chars@.take(i + 1).drop_last() =~= seen);
        assert(pieces(seen, separator).drop_last() =~= done);
        if separator.cuts_at(c) {
            parts.push(current);
            assert(runs(parts@) =~= done.push(current@));
            current = Vec::new();
            assert(current@ =~= Seq::<char>::empty());
        } else {
            current.push(c);
        }
    }
    let ghost done = runs(parts@);
    parts.push(current);
    assert(runs(parts@) =~= done.push(current@));
    assert(chars@.take(chars@.len() as int) =~= chars@);
    parts
}

/// A line without the carriage return of its line ending.
pub open spec fn without_carriage_return(line: Seq<char>) -> Seq<char> {
    if line.len() > 0 && line.last() == '\r' {
        line.drop_last()
    } else {
        line
    }
}

/// The lines of a text. A line ends with a line feed, or with a carriage return and a
/// line feed, and is taken without that ending; the ending of the last line is optional.
pub open spec fn lines(s: Seq<char>) -> Seq<Seq<char>> {
    let cut = pieces(s, Separator::LineFeed);
    let ended = cut.drop_last().map_values(|line: Seq<char>| without_carriage_return(line));
    if cut.last().len() == 0 {
        ended
    } else {
        ended.push(cut.last())
    }
}

/// Whether a text consists of whole lines.
pub open spec fn ends_in_line_feed(s: Seq<char>) -> bool {
    s.len() == 0 || s.last() == '\n'
}

/// A line that is appended to a text of whole lines is its last line, and leaves the others
/// as they are.
pub proof fn lemma_appended_line(s: Seq<char>, line: Seq<char>)
    requires
        ends_in_line_feed(s),
        !line.contains('\n'),
        !line.contains('\r'),
    ensures
        lines(s + line.push('\n')) == lines(s).push(line),
        ends_in_line_feed(s + line.push('\n')),
{
    let nothing = Seq::<char>::empty();
    assert forall|i: int| 0 <= i < line.len() implies !Separator::LineFeed.cuts(
        #[trigger] line[i],
    ) by {
        assert(line.contains(line[i]));
    }
    if line.len() > 0 {
        assert(line.contains(line[line.len() - 1]));
    }
    lemma_uncut_is_one_piece(line, Separator::LineFeed);
    lemma_pieces_around(line, '\n', nothing, Separator::LineFeed);
    assert(line.push('\n') + nothing =~= line.push('\n'));
    assert(pieces(line.push('\n'), Separator::LineFeed) =~= seq![line, nothing]);
    if s.len() == 0 {
        assert(s + line.push('\n') =~= line.push('\n'));
        assert(pieces(s, Separator::LineFeed) =~= seq![nothing]);
        assert(lines(s) =~= Seq::<Seq<char>>::empty());
        assert(lines(line.push('\n')) =~= seq![line]);
        assert(lines(s).push(line) =~= seq![line]);
    } else {
        let before = pieces(s.drop_last(), Separator::LineFeed);
        assert(s =~= s.drop_last().push('\n'));
        lemma_pieces_around(s.drop_last(), '\n', line.push('\n'), Separator::LineFeed);
        assert(pieces(s + line.push('\n'), Separator::LineFeed) =~= before + seq![line, nothing]);
        assert(pieces(s, Separator::LineFeed) =~= before.push(nothing));
        let all = before + seq![line, nothing];
        assert(all.drop_last() =~= before.push(line));
        assert(before.push(nothing).drop_last() =~= before);
        assert(lines(s + line.push('\n')) =~= lines(s).push(line));
    }
}

/// Cuts a text into its lines.
pub fn split_lines(chars: &[char]) -> (found: Vec<Vec<char>>)
    ensures
        runs(found@) == lines(chars@),
{
    let mut cut = split(chars, Separator::LineFeed);
    let ghost all = pieces(chars@, Separator::LineFeed);
    proof {
        lemma_pieces_non_empty(chars@, Separator::LineFeed);
        assert(runs(cut@).len() == cut@.len());
    }
    let last_line = match cut.pop() {
        Some(line) => line,
        None => Vec::new(),
    };
    assert(runs(cut@) =~= all.drop_last());
    assert(last_line@ == all.last());
    let ghost ended = all.drop_last().map_values(|line: Seq<char>| without_carriage_return(line));
    let mut found: Vec<Vec<char>> = Vec::new();
    for line in ended_lines: cut
        invariant
            runs(ended_lines.seq()) == all.drop_last(),
            ended == all.drop_last().map_values(|line: Seq<char>| without_carriage_return(line)),
            runs(found@) == ended.take(ended_lines.index() as int),
    {
        let ghost before = found@;
        let ghost at = ended_lines.index() as int;
        assert(runs(ended_lines.seq())[at] == line@);
        let mut line = line;
        if line.len() > 0 && line[line.len() - 1] == '\r' {
            line.pop();
        }
        assert(line@ =~= ended[at]);
        found.push(line);
        assert(runs(found@) =~= runs(before).push(line@));
        assert(ended.take(at + 1) =~= ended.take(at).push(ended[at]));
    }
    assert(ended.take(ended.len() as int) =~= ended);
    if last_line.len() > 0 {
        let ghost before = found@;
        found.push(last_line);
        assert(runs(found@) =~= runs(before).push(last_line@));
    }
    found
}

/// Whether `needle` stands in `s` at position `at`.
pub open spec fn occurs_at(s: Seq<char>, needle: Seq<char>, at: int) -> bool {
    &&& 0 <= at <= s.len() - needle.len()
    &&& s.subrange(at, at + needle.len()) == needle
}

/// Whether `needle` stands anywhere in `s`.
pub open spec fn contains(s: Seq<char>, needle: Seq<char>) -> bool {
    exists|at: int| occurs_at(s, needle, at)
}

/// What follows the first occurrence of `needle` in `s`.
pub open spec fn after_first(s: Seq<char>, needle: Seq<char>) -> Option<Seq<char>>
    decreases s.len(),
{
    if occurs_at(s, needle, 0) {
        Some(s.skip(needle.len() as int))
    } else if s.len() == 0 {
        None
    } else {
        after_first(s.skip(1), needle)
    }
}

/// A needle has a first occurrence exactly where it occurs at all.
pub proof fn lemma_after_first_finds(s: Seq<char>, needle: Seq<char>)
    ensures
        after_first(s, needle) is Some <==> contains(s, needle),
    decreases s.len(),
{
    if occurs_at(s, needle, 0) {
    } else if s.len() == 0 {
    } else {
        let rest = s.skip(1);
        lemma_after_first_finds(rest, needle);
        if contains(s, needle) {
            let at = choose|at: int| occurs_at(s, needle, at);
            assert(rest.subrange(at - 1, at - 1 + needle.len()) =~= s.subrange(
                at,
                at + needle.len(),
            ));
            assert(occurs_at(rest, needle, at - 1));
        }
        if contains(rest, needle) {
            let at = choose|at: int| occurs_at(rest, needle, at);
            assert(s.subrange(at + 1, at + 1 + needle.len()) =~= rest.subrange(
                at,
                at + needle.len(),
            ));
            assert(occurs_at(s, needle, at + 1));
        }
    }
}

/// Whether two runs of characters are the same.
pub fn same_chars(left: &[char], right: &[char]) -> (same: bool)
    ensures
        same == (left@ == right@),
{
    if left.len() != right.len() {
        return false;
    }
    for i in 0..left.len()
        invariant
            left@.len() == right@.len(),
            left@.take(i as int) =~= right@.take(i as int),
    {
        if left[i] != right[i] {
            assert(left@[i as int] != right@[i as int]);
            return false;
        }
        assert(left@.take(i + 1) =~= left@.take(i as int).push(left@[i as int]));
        assert(right@.take(i + 1) =~= right@.take(i as int).push(right@[i as int]));
    }
    assert(left@.take(left@.len() as int) =~= left@);
    assert(right@.take(right@.len() as int) =~= right@);
    true
}

/// Whether two texts are the same.
pub fn same_text(left: &str, right: &str) -> (same: bool)
    ensures
        same == (left@ == right@),
{
    let left_chars = chars_of(left);
    let right_chars = chars_of(right);
    same_chars(left_chars.as_slice(), right_chars.as_slice())
}

/// The part of a text behind the first occurrence of `needle`.
pub fn skip_past<'a>(chars: &'a [char], needle: &[char]) -> (rest: Option<&'a [char]>)
    ensures
        match rest {
            Some(found) => after_first(chars@, needle@) == Some(found@),
            None => after_first(chars@, needle@) is None,
        },
{
    let length = chars.len();
    let width = needle.len();
    let mut at: usize = 0;
    assert(chars@.skip(0) =~= chars@);
    loop
        invariant
            at <= length == chars@.len(),
            width == needle@.len(),
            after_first(chars@, needle@) == after_first(chars@.skip(at as int), needle@),
        decreases length - at,
    {
        let ghost rest = chars@.skip(at as int);
        if width <= length - at {
            let here = slice_subrange(chars, at, at + width);
            assert(here@ =~= rest.subrange(0, width as int));
            if same_chars(here, needle) {
                let found = slice_subrange(chars, at + width, length);
                assert(found@ =~= rest.skip(width as int));
                return Some(found);
            }
        }
        if at == length {
            return None;
        }
        assert(rest.skip(1) =~= chars@.skip(at + 1));
        at = at + 1;
    }
}

/// Whether `needle` occurs in a text.
pub fn contains_text(text: &str, needle: &str) -> (found: bool)
    ensures
        found == contains(text@, needle@),
{
    let chars = chars_of(text);
    let wanted = chars_of(needle);
    proof {
        lemma_after_first_finds(text@, needle@);
    }
    skip_past(chars.as_slice(), wanted.as_slice()).is_some()
}

/// The lower-case form of an ASCII letter; every other character as it is.
pub open spec fn ascii_lower(c: char) -> char {
    if 'A' <= c <= 'Z' {
        (c as u8 + 32) as char
    } else {
        c
    }
}

/// A text with its ASCII letters in lower case.
pub open spec fn lower_case(s: Seq<char>) -> Seq<char> {
    s.map_values(|c: char| ascii_lower(c))
}

/// Puts the ASCII letters of a text into lower case.
pub fn to_lower_case(chars: &[char]) -> (lowered: Vec<char>)
    ensures
        lowered@ == lower_case(chars@),
{
    let mut lowered: Vec<char> = Vec::new();
    for i in 0..chars.len()
        invariant
            lowered@ =~= lower_case(chars@).take(i as int),
    {
        let c = chars[i];
        if 'A' <= c && c <= 'Z' {
            lowered.push((c as u8 + 32) as char);
        } else {
            lowered.push(c);
        }
    }
    assert(lower_case(chars@).take(chars@.len() as int) =~= lower_case(chars@));
    lowered
}

/// The character of a decimal digit.
pub open spec fn digit(value: nat) -> char {
    (48 + value) as char
}

/// The decimal numeral of a number, without leading zeros.
pub open spec fn decimal(value: nat) -> Seq<char>
    decreases value,
{
    if value < 10 {
        seq![digit(value)]
    } else {
        decimal(value / 10).push(digit(value % 10))
    }
}

/// Whether a character is a decimal digit.
pub open spec fn is_digit(c: char) -> bool {
    '0' <= c <= '9'
}

/// Whether every character of a text is a decimal digit.
pub open spec fn all_digits(s: Seq<char>) -> bool {
    forall|i: int| 0 <= i < s.len() ==> is_digit(#[trigger] s[i])
}

/// The number that a run of decimal digits stands for.
pub open spec fn decimal_value(s: Seq<char>) -> nat
    decreases s.len(),
{
    if s.len() == 0 {
        0
    } else {
        (decimal_value(s.drop_last()) * 10 + (s.last() as int - 48)) as nat
    }
}

/// A numeral consists of digits and stands for its number.
pub proof fn lemma_decimal_round_trip(value: nat)
    ensures
        decimal(value).len() > 0,
        all_digits(decimal(value)),
        decimal_value(decimal(value)) == value,
    decreases value,
{
    if value < 10 {
        assert(decimal(value).drop_last() =~= Seq::<char>::empty());
        assert(decimal_value(Seq::<char>::empty()) == 0);
    } else {
        lemma_decimal_round_trip(value / 10);
        assert(decimal(value).drop_last() =~= decimal(value / 10));
    }
}

/// The digits of a number.
pub fn decimal_chars(value: u64) -> (digits: Vec<char>)
    ensures
        digits@ == decimal(value as nat),
    decreases value,
{
    let last = (48 + (value % 10) as u8) as char;
    if value < 10 {
        let mut digits: Vec<char> = Vec::new();
        digits.push(last);
        assert(digits@ =~= seq![digit(value as nat)]);
        digits
    } else {
        let mut digits = decimal_chars(value / 10);
        digits.push(last);
        digits
    }
}

/// The number that a text denotes: an optional plus sign and decimal digits, where the
/// number is at most `max`.
pub open spec fn unsigned_number(s: Seq<char>, max: nat) -> Option<nat> {
    let digits = if s.len() > 0 && s[0] == '+' {
        s.skip(1)
    } else {
        s
    };
    if digits.len() > 0 && all_digits(digits) && decimal_value(digits) <= max {
        Some(decimal_value(digits))
    } else {
        None
    }
}

proof fn lemma_decimal_value_grows(s: Seq<char>, length: int)
    requires
        all_digits(s),
        0 <= length <= s.len(),
    ensures
        decimal_value(s.take(length)) <= decimal_value(s),
    decreases s.len(),
{
    if length == s.len() {
        assert(s.take(length) =~= s);
    } else {
        let shorter = s.drop_last();
        assert(shorter.take(length) =~= s.take(length));
        lemma_decimal_value_grows(shorter, length);
        assert(is_digit(s.last()));
    }
}

/// Reads an unsigned 64-bit number.
pub fn parse_u64(chars: &[char]) -> (number: Option<u64>)
    ensures
        match number {
            Some(value) => unsigned_number(chars@, u64::MAX as nat) == Some(value as nat),
            None => unsigned_number(chars@, u64::MAX as nat) is None,
        },
{
    let start: usize = if chars.len() > 0 && chars[0] == '+' {
        1
    } else {
        0
    };
    if start == chars.len() {
        return None;
    }
    let ghost digits = chars@.skip(start as int);
    assert(start == 0 ==> digits =~= chars@);
    let mut value: u64 = 0;
    let mut at: usize = start;
    assert(digits.take(0) =~= Seq::<char>::empty());
    while at < chars.len()
        invariant
            start <= at <= chars@.len(),
            digits == chars@.skip(start as int),
            all_digits(digits.take(at - start)),
            value == decimal_value(digits.take(at - start)),
            all_digits(digits) && decimal_value(digits) <= u64::MAX ==> unsigned_number(
                chars@,
                u64::MAX as nat,
            ) is Some,
            !(all_digits(digits) && decimal_value(digits) <= u64::MAX) ==> unsigned_number(
                chars@,
                u64::MAX as nat,
            ) is None,
        decreases chars@.len() - at,
    {
        let c = chars[at];
        let ghost seen = digits.take(at - start);
        let ghost longer = digits.take(at - start + 1);
        assert(longer.drop_last() =~= seen);
        assert(longer.last() == c);
        assert(digits[at - start] == c);
        if c < '0' || '9' < c {
            assert(!is_digit(digits[at - start]));
            return None;
        }
        let next = (c as u8 - 48) as u64;
        assert(decimal_value(longer) == value * 10 + next);
        if value > (u64::MAX - next) / 10 {
            proof {
                if all_digits(digits) {
                    lemma_decimal_value_grows(digits, at - start + 1);
                }
            }
            return None;
        }
        value = value * 10 + next;
        assert(all_digits(longer)) by {
            assert forall|i: int| 0 <= i < longer.len() implies is_digit(#[trigger] longer[i]) by {
                if i < seen.len() {
                    assert(longer[i] == seen[i]);
                }
            }
        }
        at = at + 1;
    }
    assert(digits.take(at - start) =~= digits);
    Some(value)
}

/// Reads an unsigned number of the machine's word size.
pub fn parse_usize(chars: &[char]) -> (number: Option<usize>)
    ensures
        match number {
            Some(value) => unsigned_number(chars@, usize::MAX as nat) == Some(value as nat),
            None => unsigned_number(chars@, usize::MAX as nat) is None,
        },
{
    match parse_u64(chars) {
        Some(value) => if value <= usize::MAX as u64 {
            Some(value as usize)
        } else {
            None
        },
        None => None,
    }
}

/// The texts joined in order, with `glue` between each two.
pub open spec fn joined(parts: Seq<Seq<char>>, glue: Seq<char>) -> Seq<char>
    decreases parts.len(),
{
    if parts.len() == 0 {
        Seq::empty()
    } else if parts.len() == 1 {
        parts[0]
    } else {
        joined(parts.drop_last(), glue) + glue + parts.last()
    }
}

/// Joins strings.
pub fn join(parts: &Vec<String>, glue: &str) -> (text: String)
    ensures
        text@ == joined(texts(parts@), glue@),
{
    let mut text = String::new();
    let ghost all = texts(parts@);
    assert(all.take(0) =~= Seq::<Seq<char>>::empty());
    for i in 0..parts.len()
        invariant
            all == texts(parts@),
            text@ == joined(all.take(i as int), glue@),
    {
        assert(all.take(i + 1).drop_last() =~= all.take(i as int));
        if i > 0 {
            text.append(glue);
        }
        text.append(parts[i].as_str());
        assert(all[i as int] == parts@[i as int]@);
        assert(i == 0 ==> text@ =~= all[0]);
    }
    assert(all.take(all.len() as int) =~= all);
    text
}

/// A joined text begins with the first part.
pub proof fn lemma_joined_starts(parts: Seq<Seq<char>>, glue: Seq<char>)
    requires
        parts.len() > 0,
    ensures
        joined(parts, glue).len() >= parts[0].len(),
        joined(parts, glue).take(parts[0].len() as int) == parts[0],
    decreases parts.len(),
{
    if parts.len() > 1 {
        lemma_joined_starts(parts.drop_last(), glue);
        assert(joined(parts, glue).take(parts[0].len() as int) =~= joined(
            parts.drop_last(),
            glue,
        ).take(parts[0].len() as int));
    } else {
        assert(parts[0].take(parts[0].len() as int) =~= parts[0]);
    }
}

/// Clean parts are joined to a clean text.
pub proof fn lemma_joined_is_clean(parts: Seq<Seq<char>>, glue: Seq<char>)
    requires
        parts.len() > 0,
        forall|i: int| 0 <= i < parts.len() ==> clean(#[trigger] parts[i]),
    ensures
        clean(joined(parts, glue)),
{
    lemma_joined_starts(parts, glue);
    assert(clean(parts[0]));
    assert(clean(parts[parts.len() - 1]));
    let whole = joined(parts, glue);
    assert(whole.take(parts[0].len() as int)[0] == parts[0][0]);
    assert(whole.last() == parts.last().last());
}

/// The number of words: the maximal runs of characters that are not white space.
pub open spec fn word_count(s: Seq<char>) -> nat
    decreases s.len(),
{
    if s.len() == 0 {
        0
    } else if !white_space(s.last()) && (s.len() == 1 || white_space(s[s.len() - 2])) {
        word_count(s.drop_last()) + 1
    } else {
        word_count(s.drop_last())
    }
}

/// Counts the words of a text.
pub fn count_words(chars: &[char]) -> (count: usize)
    ensures
        count == word_count(chars@),
{
    let mut count: usize = 0;
    let mut after_space = true;
    for i in 0..chars.len()
        invariant
            count <= i,
            count == word_count(chars@.take(i as int)),
            after_space == (i == 0 || white_space(chars@[i - 1])),
    {
        let space = is_white_space(chars[i]);
        assert(chars@.take(i + 1).drop_last() =~= chars@.take(i as int));
        if !space && after_space {
            count = count + 1;
        }
        after_space = space;
    }
    assert(chars@.take(chars@.len() as int) =~= chars@);
    count
}

/// The texts that are not empty, in order.
pub open spec fn non_empty(parts: Seq<Seq<char>>) -> Seq<Seq<char>>
    decreases parts.len(),
{
    if parts.len() == 0 {
        Seq::empty()
    } else if parts.last().len() == 0 {
        non_empty(parts.drop_last())
    } else {
        non_empty(parts.drop_last()).push(parts.last())
    }
}

/// The non-empty texts of two lists are those of the first and then those of the second.
pub proof fn lemma_non_empty_of_both(first: Seq<Seq<char>>, second: Seq<Seq<char>>)
    ensures
        non_empty(first + second) == non_empty(first) + non_empty(second),
    decreases second.len(),
{
    if second.len() == 0 {
        assert(first + second =~= first);
        assert(non_empty(first) + non_empty(second) =~= non_empty(first));
    } else {
        lemma_non_empty_of_both(first, second.drop_last());
        assert((first + second).drop_last() =~= first + second.drop_last());
        assert(non_empty(first + second) =~= non_empty(first) + non_empty(second));
    }
}

/// A text among the non-empty ones is one of the list, and is not empty.
pub proof fn lemma_non_empty_is_listed(parts: Seq<Seq<char>>, at: int)
    requires
        0 <= at < non_empty(parts).len(),
    ensures
        parts.contains(non_empty(parts)[at]),
        non_empty(parts)[at].len() > 0,
    decreases parts.len(),
{
    let shorter = parts.drop_last();
    if at < non_empty(shorter).len() {
        lemma_non_empty_is_listed(shorter, at);
        let found = choose|i: int| 0 <= i < shorter.len() && shorter[i] == non_empty(parts)[at];
        assert(parts[found] == non_empty(parts)[at]);
    } else {
        assert(parts[parts.len() - 1] == non_empty(parts)[at]);
    }
}

} // verus!
