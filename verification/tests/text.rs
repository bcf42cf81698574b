use media_research_stack::text::{
    chars_of, contains_text, count_words, decimal_chars, is_white_space, join, parse_u64,
    parse_usize, same_text, skip_past, split, split_lines, string_of, to_lower_case, trim,
    Separator,
};

fn strings(parts: Vec<Vec<char>>) -> Vec<String> {
    parts.into_iter().map(|part| part.into_iter().collect()).collect()
}

#[test]
fn white_space_is_that_of_char() {
    for code in 0..=0x10ffffu32 {
        if let Some(c) = char::from_u32(code) {
            assert_eq!(is_white_space(c), c.is_whitespace());
        }
    }
}

#[test]
fn texts_are_trimmed_like_str() {
    for text in ["", " ", "a", "  a b\u{a0}", "\u{2028}x\n", "\r\n"] {
        assert_eq!(string_of(trim(&chars_of(text))), text.trim());
    }
}

#[test]
fn lines_are_those_of_str() {
    for text in ["", "\n", "a", "a\n", "a\r\nb", "\r\n\r\n", "a\r", "a\r\r\nb\n\nc\r"] {
        let expected: Vec<String> = text.lines().map(|line| line.to_string()).collect();
        assert_eq!(strings(split_lines(&chars_of(text))), expected);
    }
}

#[test]
fn texts_are_cut_at_separators() {
    assert_eq!(strings(split(&chars_of("a,,b"), Separator::Comma)), vec!["a", "", "b"]);
    assert_eq!(strings(split(&chars_of(""), Separator::Comma)), vec![""]);
    assert_eq!(
        strings(split(&chars_of("a?b&c#d/e"), Separator::UrlDelimiter)),
        vec!["a", "b", "c", "d", "e"]
    );
    assert_eq!(
        strings(split(&chars_of("a, b\u{2003}c"), Separator::CommaOrWhiteSpace)),
        vec!["a", "", "b", "c"]
    );
}

#[test]
fn numbers_are_read_like_parse() {
    for text in ["", "+", "0", "+7", "007", "-1", " 1", "18446744073709551615", "18446744073709551616", "1x", "٣"] {
        assert_eq!(parse_u64(&chars_of(text)), text.parse::<u64>().ok());
        assert_eq!(parse_usize(&chars_of(text)), text.parse::<usize>().ok());
    }
}

#[test]
fn numbers_are_written_in_decimal() {
    for number in [0u64, 9, 10, 1_234_567, u64::MAX] {
        assert_eq!(string_of(&decimal_chars(number)), number.to_string());
        assert_eq!(parse_u64(&decimal_chars(number)), Some(number));
    }
}

#[test]
fn words_are_counted_like_split_whitespace() {
    for text in ["", " ", "a", " a  b\tc\n", "one two three", "\u{3000}x\u{3000}y"] {
        assert_eq!(count_words(&chars_of(text)), text.split_whitespace().count());
    }
}

#[test]
fn needles_are_found() {
    assert!(contains_text("abcabd", "abd"));
    assert!(contains_text("abc", ""));
    assert!(!contains_text("ab", "abc"));
    assert!(!contains_text("", "a"));
    let chars = chars_of("a=b=c");
    let needle = chars_of("=");
    assert_eq!(skip_past(&chars, &needle).map(string_of), Some("b=c".to_string()));
    assert!(skip_past(&chars, &chars_of("x")).is_none());
}

#[test]
fn only_ascii_letters_are_lowered() {
    assert_eq!(string_of(&to_lower_case(&chars_of("ÄBZ[@a"))), "Äbz[@a");
}

#[test]
fn texts_are_joined_with_glue() {
    assert_eq!(join(&vec![], " "), "");
    assert_eq!(join(&vec!["a".to_string()], " "), "a");
    assert_eq!(join(&vec!["a".to_string(), "".to_string(), "b".to_string()], "--"), "a----b");
}

#[test]
fn texts_are_compared_by_characters() {
    assert!(same_text("aé", "aé"));
    assert!(!same_text("a", "A"));
    assert!(!same_text("a", "ab"));
}
