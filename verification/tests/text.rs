use mini_lmk::text::{
    any_ascii_letter, any_letter, ascii_word, char_count, contains, contains_char, find_char, find_text, from_bytes,
    is_ascii_space, is_white_space, next_line, next_word, parse_i32, parse_u32, parse_u64, same, split_chars, split_once,
    starts_with, starts_with_char, take_before, trim, trim_end_matches, trim_matches,
};

const SAMPLES: [&str; 12] = [
    "",
    " ",
    "a",
    "  com.example.app  ",
    "\u{e9}t\u{e9} \u{1f600}x",
    "\u{3000}\u{2003}wide\u{a0}",
    "a,b,,c",
    "line one\r\nline two\n\nlast\r",
    "\n",
    "xx::yy::zz",
    "--- begin",
    "\u{b}\u{c}tab\t",
];

#[test]
fn white_space_is_that_of_the_standard_library() {
    for v in 0u32..=0x10ffff {
        if let Some(c) = char::from_u32(v) {
            assert_eq!(is_white_space(c), c.is_whitespace(), "{:x}", v);
            assert_eq!(is_ascii_space(c), c.is_ascii_whitespace(), "{:x}", v);
        }
    }
}

#[test]
fn letters_are_those_of_the_standard_library() {
    for s in SAMPLES {
        assert_eq!(any_letter(s), s.chars().any(|c| c.is_alphabetic()), "{:?}", s);
        assert_eq!(any_ascii_letter(s), s.chars().any(|c| c.is_ascii_alphabetic()), "{:?}", s);
    }
    for v in 0u32..0x3000 {
        if let Some(c) = char::from_u32(v) {
            assert_eq!(any_letter(&c.to_string()), c.is_alphabetic(), "{:x}", v);
        }
    }
    assert!(any_letter("1\u{e9}"));
    assert!(!any_letter("1\u{20ac}"));
}

#[test]
fn trimming_is_that_of_the_standard_library() {
    for s in SAMPLES {
        assert_eq!(trim(s), s.trim(), "{:?}", s);
        assert_eq!(trim_matches(s, &['x', '-', 'a']), s.trim_matches(['x', '-', 'a']), "{:?}", s);
        assert_eq!(trim_end_matches(s, 'z'), s.trim_end_matches('z'), "{:?}", s);
    }
    assert_eq!(trim_matches("{{a}}", &['{', '}']), "a");
    assert_eq!(trim_matches("{}{}", &['{', '}']), "");
    assert_eq!(trim_end_matches("///", '/'), "");
}

#[test]
fn searching_is_that_of_the_standard_library() {
    for s in SAMPLES {
        for pat in ["", "a", "::", "\u{e9} ", "line", "zz", "last\r", "missing"] {
            assert_eq!(find_text(s, pat).map(|i| split_chars(s, i).0.len()), s.find(pat), "{:?} {:?}", s, pat);
            assert_eq!(contains(s, pat), s.contains(pat));
            assert_eq!(starts_with(s, pat), s.starts_with(pat));
            assert_eq!(same(s, pat), s == pat);
        }
        for c in ['a', ':', '\u{e9}', '\u{1f600}', '\n'] {
            assert_eq!(find_char(s, c).map(|i| split_chars(s, i).0.len()), s.find(c));
            assert_eq!(contains_char(s, c), s.contains(c));
            assert_eq!(starts_with_char(s, c), s.starts_with(c));
            assert_eq!(split_once(s, c), s.split_once(c));
            assert_eq!(take_before(s, c), s.split(c).next().unwrap());
        }
        assert_eq!(char_count(s), s.chars().count());
    }
}

#[test]
fn splitting_is_that_of_the_standard_library() {
    for s in SAMPLES {
        let mut rest = s;
        let mut lines = Vec::new();
        while let Some((line, tail)) = next_line(rest) {
            lines.push(line);
            rest = tail;
        }
        assert_eq!(lines, s.lines().collect::<Vec<_>>(), "{:?}", s);

        let mut rest = s;
        let mut words = Vec::new();
        while let Some((word, tail)) = next_word(rest) {
            words.push(word);
            rest = tail;
        }
        assert_eq!(words, s.split_whitespace().collect::<Vec<_>>(), "{:?}", s);

        for i in 0..4 {
            assert_eq!(ascii_word(s, i), s.split_ascii_whitespace().nth(i), "{:?}", s);
        }
    }
}

#[test]
fn numbers_are_those_of_the_standard_library() {
    for s in [
        "", "+", "-", "0", "-0", "+0", "007", "1 ", " 1", "1_0", "++1", "+-1", "12a", "4294967295", "4294967296",
        "18446744073709551615", "18446744073709551616", "2147483647", "2147483648", "-2147483648", "-2147483649",
        "99999999999999999999999999", "\u{661}",
    ] {
        assert_eq!(parse_u32(s), s.parse::<u32>().ok(), "{:?}", s);
        assert_eq!(parse_u64(s), s.parse::<u64>().ok(), "{:?}", s);
        assert_eq!(parse_i32(s), s.parse::<i32>().ok(), "{:?}", s);
    }
}

#[test]
fn bytes_become_text_where_they_are_valid() {
    for bytes in [&b""[..], b"abc", "\u{e9}\u{1f600}".as_bytes(), b"\xff", b"\xc3", b"a\xe2\x82", b"\xed\xa0\x80", b"\xf4\x90\x80\x80"] {
        assert_eq!(from_bytes(bytes), std::str::from_utf8(bytes).ok(), "{:?}", bytes);
    }
}
