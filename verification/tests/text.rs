//! Texts and numbers, held against the standard library.

use llm_api::number::{parse_signed, parse_unsigned, to_decimal};
use llm_api::text::{
    from_chars, has_suffix, index_at_byte, is_whitespace, occurrences, search, search_from,
    split_lines, text_bytes, to_chars, trimmed, width, without,
};

fn samples() -> Vec<&'static str> {
    vec![
        "", " ", "a", "aa", "aaa", "abab", " a b ", "\t\n x \r\n", "é€😀", "\u{3000}x\u{a0}",
        "line\nline\r\n\nlast", "end\n", "\r", "a\rb", "\r\n",
    ]
}

#[test]
fn whitespace_is_that_of_std() {
    for u in 0..=0x10ffffu32 {
        if let Some(c) = char::from_u32(u) {
            assert_eq!(is_whitespace(c), c.is_whitespace());
            assert_eq!(width(c), c.len_utf8());
        }
    }
}

#[test]
fn searching_is_that_of_std() {
    for s in samples() {
        let chars = to_chars(s);
        assert_eq!(from_chars(&chars), s);
        assert_eq!(text_bytes(s), s.len());
        assert_eq!(from_chars(trimmed(&chars)), s.trim());
        for p in ["a", "aa", "ab", "\n", "é", "x\r", "zz"] {
            let pat = to_chars(p);
            let at = search(&chars, &pat).map(|i| chars[..i].iter().map(|c| c.len_utf8()).sum());
            assert_eq!(at, s.find(p));
            assert_eq!(from_chars(&without(&chars, p)), s.replace(p, ""));
            assert_eq!(occurrences(&chars, p), s.matches(p).count());
            assert_eq!(has_suffix(&chars, &pat), s.ends_with(p));
        }
        let lines: Vec<String> = split_lines(&chars).iter().map(|l| from_chars(l)).collect();
        let expected: Vec<String> = s.lines().map(|l| l.to_string()).collect();
        assert_eq!(lines, expected);
    }
    assert_eq!(search_from(&to_chars("abab"), &to_chars("ab"), 1), Some(2));
    assert_eq!(search_from(&to_chars("abab"), &to_chars("ab"), 3), None);
}

#[test]
fn byte_offsets_are_those_of_std() {
    let s = "aé€😀b";
    let chars = to_chars(s);
    for (k, (n, _)) in s.char_indices().enumerate() {
        assert_eq!(index_at_byte(&chars, n), k);
    }
    assert_eq!(index_at_byte(&chars, s.len()), 5);
}

#[test]
fn numbers_are_those_of_std() {
    for n in [0u64, 1, 9, 10, 99, 100, 12345, u64::MAX] {
        assert_eq!(to_decimal(n), format!("{}", n));
    }
    for s in ["", "0", "007", "+5", "-5", "4294967295", "4294967296", " 1", "1 ", "１", "a", "+", "-"] {
        let expected = s.parse::<u32>().ok().map(u64::from);
        assert_eq!(parse_unsigned(s, u32::MAX as u64), expected, "{:?}", s);
        assert_eq!(parse_unsigned(s, u64::MAX), s.parse::<u64>().ok(), "{:?}", s);
        assert_eq!(parse_signed(s), s.parse::<i32>().ok(), "{:?}", s);
    }
    for s in ["18446744073709551615", "18446744073709551616", "18446744073709551625"] {
        assert_eq!(parse_unsigned(s, u64::MAX), s.parse::<u64>().ok(), "{:?}", s);
    }
    for s in ["2147483647", "2147483648", "-2147483648", "-2147483649", "+-1", "-0"] {
        assert_eq!(parse_signed(s), s.parse::<i32>().ok(), "{:?}", s);
    }
}
