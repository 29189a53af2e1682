use rustybar::text::{
    char_is_space, chars_of, decimal_string, parse_decimal, prefix_before, split_on, split_words,
    trim_end_chars, ParseIntError,
};

fn chars(s: &str) -> Vec<char> {
    s.chars().collect()
}

fn text(v: &[char]) -> String {
    v.iter().collect()
}

#[test]
fn chars_of_keeps_every_character() {
    assert_eq!(chars_of("añ ß\n京"), vec!['a', 'ñ', ' ', 'ß', '\n', '京']);
    assert_eq!(chars_of(""), Vec::<char>::new());
}

#[test]
fn white_space_is_unicode_white_space() {
    for u in 0u32..=0x10ffff {
        if let Some(c) = char::from_u32(u) {
            assert_eq!(char_is_space(c), c.is_whitespace(), "{:x}", u);
        }
    }
}

#[test]
fn trim_end_matches_std() {
    for s in ["", "abc", "abc \n", " \t\u{3000}", "a b\u{a0}", "x\u{2009}y\u{85}\r\n"] {
        assert_eq!(text(&trim_end_chars(&chars(s))), s.trim_end());
    }
}

#[test]
fn split_words_matches_std() {
    for s in ["", "   ", "MemTotal:       16314452 kB", " a  b\tc\n", "one", "x\u{3000}y"] {
        let ws: Vec<String> = split_words(&chars(s)).iter().map(|w| text(w)).collect();
        let expected: Vec<String> = s.split_whitespace().map(String::from).collect();
        assert_eq!(ws, expected);
    }
}

#[test]
fn split_on_matches_std() {
    for s in ["", "\n", "a\nb", "a\n\nb\n", "no newline"] {
        let ps: Vec<String> = split_on(&chars(s), '\n').iter().map(|p| text(p)).collect();
        let expected: Vec<String> = s.split('\n').map(String::from).collect();
        assert_eq!(ps, expected);
    }
}

#[test]
fn prefix_before_first_occurrence() {
    let (p, found) = prefix_before(&chars("0.52 0.58"), ' ');
    assert_eq!(text(&p), "0.52");
    assert!(found);
    let (p, found) = prefix_before(&chars("nospace"), ' ');
    assert_eq!(text(&p), "nospace");
    assert!(!found);
    let (p, found) = prefix_before(&chars(" lead"), ' ');
    assert_eq!(text(&p), "");
    assert!(found);
}

#[test]
fn decimal_string_writes_like_display() {
    for n in [0u64, 7, 9, 10, 99, 100, 1234567890, u64::MAX] {
        assert_eq!(decimal_string(n), n.to_string());
    }
}

#[test]
fn parse_decimal_errors() {
    assert_eq!(parse_decimal(&chars(""), u64::MAX), Err(ParseIntError::Empty));
    assert_eq!(parse_decimal(&chars("+"), u64::MAX), Err(ParseIntError::InvalidDigit));
    assert_eq!(parse_decimal(&chars("-"), u64::MAX), Err(ParseIntError::InvalidDigit));
    assert_eq!(parse_decimal(&chars("-5"), u64::MAX), Err(ParseIntError::InvalidDigit));
    assert_eq!(parse_decimal(&chars("12a"), u64::MAX), Err(ParseIntError::InvalidDigit));
    assert_eq!(parse_decimal(&chars(" 1"), u64::MAX), Err(ParseIntError::InvalidDigit));
    assert_eq!(
        parse_decimal(&chars("18446744073709551616"), u64::MAX),
        Err(ParseIntError::PosOverflow)
    );
    assert_eq!(parse_decimal(&chars("4294967296"), 0xffff_ffff), Err(ParseIntError::PosOverflow));
}

#[test]
fn parse_decimal_values() {
    assert_eq!(parse_decimal(&chars("0"), u64::MAX), Ok(0));
    assert_eq!(parse_decimal(&chars("+12"), u64::MAX), Ok(12));
    assert_eq!(parse_decimal(&chars("007"), u64::MAX), Ok(7));
    assert_eq!(parse_decimal(&chars("18446744073709551615"), u64::MAX), Ok(u64::MAX));
    assert_eq!(parse_decimal(&chars("4294967295"), 0xffff_ffff), Ok(4294967295));
}

#[test]
fn parse_decimal_agrees_with_std() {
    for s in [
        "", "+", "-", "0", "+0", "-0", "42", "+42", "4x", "x4", "99999999999999999999", "9".repeat(19).as_str(),
        "18446744073709551615", "18446744073709551616", "1 ", "١٢", "+-1",
    ] {
        let ours = parse_decimal(&chars(s), u64::MAX);
        let std = s.parse::<u64>();
        match (ours, std) {
            (Ok(a), Ok(b)) => assert_eq!(a, b, "{:?}", s),
            (Err(ParseIntError::Empty), Err(e)) => {
                assert_eq!(*e.kind(), std::num::IntErrorKind::Empty, "{:?}", s)
            }
            (Err(ParseIntError::InvalidDigit), Err(e)) => {
                assert_eq!(*e.kind(), std::num::IntErrorKind::InvalidDigit, "{:?}", s)
            }
            (Err(ParseIntError::PosOverflow), Err(e)) => {
                assert_eq!(*e.kind(), std::num::IntErrorKind::PosOverflow, "{:?}", s)
            }
            (a, b) => panic!("{:?}: {:?} vs {:?}", s, a, b),
        }
    }
}

#[test]
fn parse_reads_back_decimal() {
    for n in [0u64, 1, 10, 255, 65536, 4000000000, u64::MAX - 1, u64::MAX] {
        assert_eq!(parse_decimal(&chars(&decimal_string(n)), u64::MAX), Ok(n));
    }
}
