use dnsmark::text::{
    char_digit, char_is_space, chars_are, chars_of, find_char, find_space, has_text, parse_number,
    same_chars, split_fields, split_lines, split_words, string_of, strip_prefix, trimmed,
    trimmed_end_char,
};

fn strings(v: Vec<Vec<char>>) -> Vec<String> {
    v.iter().map(|c| string_of(c)).collect()
}

#[test]
fn texts_are_taken_apart_as_std_does() {
    for s in [
        "",
        "a",
        "\n",
        "a\nb",
        "a\r\nb\n",
        "\n\nx\r",
        " two  words\t ",
        "\u{3000}wide\u{a0}blank",
        "x,,y,",
    ] {
        let c = chars_of(s);
        assert_eq!(strings(split_lines(&c)), s.lines().collect::<Vec<_>>(), "{s:?}");
        assert_eq!(strings(split_words(&c)), s.split_whitespace().collect::<Vec<_>>(), "{s:?}");
        assert_eq!(strings(split_fields(&c, ',')), s.split(',').collect::<Vec<_>>(), "{s:?}");
        assert_eq!(string_of(&trimmed(&c)), s.trim(), "{s:?}");
        assert_eq!(string_of(&trimmed_end_char(&c, ',')), s.trim_end_matches(','), "{s:?}");
    }
}

#[test]
fn blanks_are_those_of_std() {
    for n in 0..0x11_0000u32 {
        if let Some(c) = char::from_u32(n) {
            assert_eq!(char_is_space(c), c.is_whitespace(), "{n:#x}");
        }
    }
}

#[test]
fn numbers_are_read_as_std_does() {
    for s in ["0", "7", "+7", "-7", "", "+", "18446744073709551615", "18446744073709551616", "1_0", " 1"] {
        assert_eq!(parse_number(&chars_of(s), 10, u64::MAX), s.parse::<u64>().ok(), "{s:?}");
    }
    assert_eq!(parse_number(&chars_of("ffFF"), 16, 0xFFFF), Some(0xFFFF));
    assert_eq!(parse_number(&chars_of("10000"), 16, 0xFFFF), None);
    assert_eq!(parse_number(&chars_of("000000000000000000000000001"), 10, 1), Some(1));
    assert_eq!(char_digit('g', 16), None);
    assert_eq!(char_digit('F', 16), Some(15));
}

#[test]
fn parts_are_found() {
    let c = chars_of("hello");
    assert_eq!(find_char(&c, 0, 'l'), 2);
    assert_eq!(find_char(&c, 4, 'l'), 5);
    assert_eq!(find_space(&chars_of("ab cd"), 0, true), 2);
    assert!(same_chars(&c, &chars_of("hello")));
    assert!(chars_are(&c, "hello"));
    assert!(!chars_are(&c, "hell"));
    assert_eq!(strip_prefix(&c, "he"), Some(vec!['l', 'l', 'o']));
    assert_eq!(strip_prefix(&c, "el"), None);
    assert!(has_text(&c, "ell"));
    assert!(has_text(&c, ""));
    assert!(has_text(&c, "hello"));
    assert!(!has_text(&c, "hello!"));
    assert!(!has_text(&c, "lle"));
}
