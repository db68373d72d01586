use embeddenator_workspace::lines::{is_space, split_lines, trim};
use embeddenator_workspace::text::{
    chars_last_index_of, chars_of, contains, join, parse_u64, starts_with, str_eq, str_lex_le,
    u64_to_string, usize_to_string,
};

fn chars(s: &str) -> Vec<char> {
    s.chars().collect()
}

#[test]
fn numbers_are_written_in_decimal() {
    assert_eq!(u64_to_string(0), "0");
    assert_eq!(u64_to_string(7), "7");
    assert_eq!(u64_to_string(10), "10");
    assert_eq!(u64_to_string(1234567890), "1234567890");
    assert_eq!(u64_to_string(u64::MAX), "18446744073709551615");
    assert_eq!(usize_to_string(305), "305");
}

#[test]
fn numbers_are_read_like_the_standard_library_reads_them() {
    for text in [
        "0",
        "7",
        "007",
        "+5",
        "+",
        "",
        "-1",
        "12a",
        " 1",
        "18446744073709551615",
        "18446744073709551616",
        "99999999999999999999999",
        "١",
        "++1",
    ] {
        assert_eq!(parse_u64(&chars(text)), text.parse::<u64>().ok(), "{}", text);
    }
}

#[test]
fn text_predicates_agree_with_the_standard_library() {
    let samples = ["", "a", "ab", "abc", "embeddenator", "embeddenator-vsa", "/x/crates/y", "é", "ñandú"];
    for a in samples {
        assert_eq!(chars_of(a), chars(a));
        for b in samples {
            assert_eq!(str_eq(a, b), a == b, "{} {}", a, b);
            assert_eq!(starts_with(a, b), a.starts_with(b), "{} {}", a, b);
            assert_eq!(contains(a, b), a.contains(b), "{} {}", a, b);
            assert_eq!(str_lex_le(a, b), a <= b, "{} {}", a, b);
        }
    }
}

#[test]
fn last_index_and_join() {
    assert_eq!(chars_last_index_of(&chars("a.b.c"), '.'), Some(3));
    assert_eq!(chars_last_index_of(&chars("abc"), '.'), None);
    assert_eq!(chars_last_index_of(&chars(""), '.'), None);
    assert_eq!(chars_last_index_of(&chars("."), '.'), Some(0));
    let parts = vec!["a".to_string(), "".to_string(), "c".to_string()];
    assert_eq!(join(&parts, ", "), "a, , c");
    assert_eq!(join(&Vec::new(), ", "), "");
    assert_eq!(join(&vec!["x".to_string()], ", "), "x");
}

#[test]
fn lines_and_trimming_agree_with_the_standard_library() {
    for text in [
        "",
        "\n",
        "a",
        "a\n",
        "a\nb",
        "a\r\nb\r\n",
        "a\rb\r",
        "\r\n\r\n",
        "\n\na\n\n",
        "  x  \n\ty\u{a0}\n",
        "last\r",
    ] {
        let expected: Vec<Vec<char>> = text.lines().map(|l| l.chars().collect()).collect();
        assert_eq!(split_lines(&chars(text)), expected, "{:?}", text);
    }
    for text in ["", " ", "a", "  a b  ", "\t\n x \u{3000}", "\u{2003}y\u{85}", "x\u{200b}"] {
        assert_eq!(trim(&chars(text)), chars(text.trim()), "{:?}", text);
    }
    for code in 0..0x3100u32 {
        if let Some(c) = char::from_u32(code) {
            assert_eq!(is_space(c), c.is_whitespace(), "{:x}", code);
        }
    }
}
