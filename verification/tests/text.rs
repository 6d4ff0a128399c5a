use curseforge::text::{
    byte_len, contains, ends_with, from_chars, i32_to_decimal, is_blank, is_whitespace,
    parse_u32, push_padded, remove_all, split_lines, split_on, split_on_text, split_whitespace,
    starts_with, to_chars, trim, u32_to_decimal,
};

fn chars(s: &str) -> Vec<char> {
    s.chars().collect()
}

fn text(v: &Vec<char>) -> String {
    v.iter().collect()
}

fn texts(v: &Vec<Vec<char>>) -> Vec<String> {
    v.iter().map(text).collect()
}

const SAMPLES: [&str; 12] = [
    "",
    " ",
    "abc",
    "  abc  ",
    "\ta b\u{2003}c\r\n",
    "a\nb\r\nc\r",
    "\n\n",
    "line\r\n\r\nlast",
    "## Title: |cff00ff00Addon|r [x]",
    "héllo wörld ✓",
    "v.1.2v.3",
    "a,b,,c,",
];

#[test]
fn conversions_round_trip() {
    for s in SAMPLES {
        assert_eq!(to_chars(s), chars(s));
        assert_eq!(from_chars(&chars(s)), s);
    }
}

#[test]
fn is_whitespace_agrees_on_every_character() {
    for code in 0..=0x10FFFFu32 {
        if let Some(c) = char::from_u32(code) {
            assert_eq!(is_whitespace(c), c.is_whitespace(), "U+{:04X}", code);
        }
    }
}

#[test]
fn trim_agrees_with_the_standard_library() {
    for s in SAMPLES {
        assert_eq!(text(&trim(&chars(s))), s.trim());
        assert_eq!(is_blank(&chars(s)), s.trim().is_empty());
    }
}

#[test]
fn split_whitespace_agrees_with_the_standard_library() {
    for s in SAMPLES {
        let expected: Vec<&str> = s.split_whitespace().collect();
        assert_eq!(texts(&split_whitespace(&chars(s))), expected);
    }
}

#[test]
fn split_lines_agrees_with_the_standard_library() {
    for s in SAMPLES {
        let expected: Vec<&str> = s.lines().collect();
        assert_eq!(texts(&split_lines(&chars(s))), expected, "{:?}", s);
    }
}

#[test]
fn split_on_agrees_with_the_standard_library() {
    for s in SAMPLES {
        let expected: Vec<&str> = s.split(',').collect();
        assert_eq!(texts(&split_on(&chars(s), ',')), expected);
        let expected: Vec<&str> = s.split("v.").collect();
        assert_eq!(texts(&split_on_text(&chars(s), &chars("v."))), expected);
    }
}

#[test]
fn remove_all_agrees_with_the_standard_library() {
    for s in SAMPLES {
        for pattern in ["|r", "[", "## Title:", "aa", "\n"] {
            assert_eq!(text(&remove_all(&chars(s), &chars(pattern))), s.replace(pattern, ""));
        }
    }
    assert_eq!(text(&remove_all(&chars("aaa"), &chars("aa"))), "a");
}

#[test]
fn searching_agrees_with_the_standard_library() {
    for s in SAMPLES {
        for pattern in ["", "a", "abc", "c\r", "## ", "ld ✓"] {
            assert_eq!(starts_with(&chars(s), &chars(pattern)), s.starts_with(pattern));
            assert_eq!(ends_with(&chars(s), &chars(pattern)), s.ends_with(pattern));
            assert_eq!(contains(&chars(s), &chars(pattern)), s.contains(pattern));
        }
    }
}

#[test]
fn parse_u32_agrees_with_the_standard_library() {
    for s in [
        "", "+", "-", "0", "007", "+42", "-1", "12a", " 1", "4294967295", "4294967296",
        "99999999999999999999999", "١٢٣", "1_000",
    ] {
        assert_eq!(parse_u32(&chars(s)), s.parse::<u32>().ok(), "{:?}", s);
    }
}

#[test]
fn decimal_text_agrees_with_the_standard_library() {
    for n in [0u32, 7, 10, 999, 1000, 1232053, u32::MAX] {
        assert_eq!(text(&u32_to_decimal(n)), n.to_string());
        assert_eq!(parse_u32(&u32_to_decimal(n)), Some(n));
    }
    for n in [0i32, 1, -1, 42, -2147483648, 2147483647] {
        assert_eq!(text(&i32_to_decimal(n)), n.to_string());
    }
}

#[test]
fn padding_fills_to_the_width() {
    let mut out = chars(">");
    push_padded(&mut out, &chars("ab"), 5);
    assert_eq!(text(&out), ">ab   ");
    let mut out = Vec::new();
    push_padded(&mut out, &chars("abcdef"), 3);
    assert_eq!(text(&out), "abcdef");
    let mut out = Vec::new();
    push_padded(&mut out, &chars("é✓"), 4);
    assert_eq!(text(&out), format!("{:<4}", "é✓"));
}

#[test]
fn byte_len_is_the_length_in_utf8() {
    for s in SAMPLES {
        assert_eq!(byte_len(&chars(s)), s.len());
    }
    assert_eq!(byte_len(&chars("a\u{7f}\u{80}\u{7ff}\u{800}\u{ffff}\u{10000}")), 1 + 1 + 2 + 2 + 3 + 3 + 4);
}

#[test]
fn words_are_never_empty() {
    for text in ["", " ", "a", " a  b\t\tc \n", "\u{a0}x\u{2003}y"] {
        let all = split_whitespace(&to_chars(text));
        assert!(all.iter().all(|word| !word.is_empty()), "{:?}", text);
        assert_eq!(all.len(), text.split_whitespace().count(), "{:?}", text);
    }
}
