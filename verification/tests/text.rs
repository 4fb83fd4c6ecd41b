use dsa_cli::text::{
    chars_of, contains_range, digit_of, eq_ignore_ascii_case, is_space, lower_code, parse_i64,
    parse_integer, parse_unsigned, range_eq_ignore_ascii_case, stands_at, str_equal, trim_range,
};

fn chars(text: &str) -> Vec<char> {
    text.chars().collect()
}

#[test]
fn chars_of_lists_the_characters() {
    assert_eq!(chars_of(""), Vec::<char>::new());
    assert_eq!(chars_of("aß𝄞"), vec!['a', 'ß', '𝄞']);
}

#[test]
fn digits_have_their_value() {
    assert_eq!(digit_of('0'), Some(0));
    assert_eq!(digit_of('7'), Some(7));
    assert_eq!(digit_of('9'), Some(9));
    assert_eq!(digit_of('/'), None);
    assert_eq!(digit_of(':'), None);
    assert_eq!(digit_of('a'), None);
    assert_eq!(digit_of('٣'), None);
}

#[test]
fn white_space_is_what_unicode_calls_white_space() {
    for code in 0..=0x3100u32 {
        if let Some(c) = char::from_u32(code) {
            assert_eq!(is_space(c), c.is_whitespace(), "character {:#x}", code);
        }
    }
}

#[test]
fn trimming_takes_white_space_from_both_ends() {
    let text = chars("  \t3 d6\u{a0}\n");
    let (from, to) = trim_range(&text, 0, text.len());
    assert_eq!(&text[from..to], &chars("3 d6")[..]);
    let (from, to) = trim_range(&text, 4, 5);
    assert_eq!((from, to), (5, 5));
    let blank = chars("   ");
    let (from, to) = trim_range(&blank, 0, 3);
    assert_eq!(from, to);
    let (from, to) = trim_range(&blank, 1, 1);
    assert_eq!((from, to), (1, 1));
}

#[test]
fn unsigned_numbers_are_read_up_to_the_limit() {
    let text = chars("x0123y");
    assert_eq!(parse_unsigned(&text, 1, 5, 1000), Some(123));
    assert_eq!(parse_unsigned(&text, 1, 5, 123), Some(123));
    assert_eq!(parse_unsigned(&text, 1, 5, 122), None);
    assert_eq!(parse_unsigned(&text, 0, 5, 1000), None);
    assert_eq!(parse_unsigned(&text, 1, 6, 1000), None);
    assert_eq!(parse_unsigned(&text, 2, 2, 1000), None);
    let big = chars("18446744073709551615");
    assert_eq!(parse_unsigned(&big, 0, big.len(), u64::MAX), Some(u64::MAX));
    let bigger = chars("18446744073709551616");
    assert_eq!(parse_unsigned(&bigger, 0, bigger.len(), u64::MAX), None);
    let long = chars("000000000000000000000000000000000000000042");
    assert_eq!(parse_unsigned(&long, 0, long.len(), 42), Some(42));
}

#[test]
fn integers_are_read_as_the_standard_library_reads_them() {
    for text in [
        "0", "-0", "+0", "17", "-17", "+17", "0017", "9223372036854775807",
        "9223372036854775808", "-9223372036854775808", "-9223372036854775809", "", "+", "-",
        "++1", "+-1", "1-", " 1", "1 ", "1_0", "0x10", "1e3", "１２", "99999999999999999999999",
    ] {
        assert_eq!(parse_integer(text), text.parse::<i64>().ok(), "text {:?}", text);
    }
    let text = chars("a-12b");
    assert_eq!(parse_i64(&text, 1, 4), Some(-12));
    assert_eq!(parse_i64(&text, 2, 4), Some(12));
    assert_eq!(parse_i64(&text, 1, 2), None);
    assert_eq!(parse_i64(&text, 0, 4), None);
}

#[test]
fn comparison_ignores_the_case_of_ascii_letters_only() {
    for (a, b) in [
        ("", ""), ("mut", "MUT"), ("Mut", "mUt"), ("mut", "mu"), ("mut", "mat"), ("ä", "Ä"),
        ("a1@[", "A1@["), ("@", "`"), ("[", "{"), ("z", "Z"), ("Gewandtheit", "gewandtheit"),
    ] {
        assert_eq!(eq_ignore_ascii_case(a, b), a.eq_ignore_ascii_case(b), "{:?} {:?}", a, b);
    }
    assert_eq!(lower_code('A'), 'a' as u32);
    assert_eq!(lower_code('Z'), 'z' as u32);
    assert_eq!(lower_code('a'), 'a' as u32);
    assert_eq!(lower_code('@'), '@' as u32);
    let text = chars("xxMuTyy");
    assert!(range_eq_ignore_ascii_case(&text, 2, 5, &chars("mut")));
    assert!(!range_eq_ignore_ascii_case(&text, 2, 6, &chars("mut")));
    assert!(!range_eq_ignore_ascii_case(&text, 1, 4, &chars("mut")));
}

#[test]
fn texts_are_equal_when_their_characters_are() {
    assert!(str_equal("", ""));
    assert!(str_equal("mut", "mut"));
    assert!(!str_equal("mut", "Mut"));
    assert!(!str_equal("mut", "mu"));
}

#[test]
fn searching_one_text_in_another() {
    let hay = chars("klettern");
    let needle = chars("_ett_");
    assert!(contains_range(&hay, &needle, 1, 4));
    assert!(!contains_range(&hay, &needle, 0, 4));
    assert!(contains_range(&hay, &needle, 2, 2));
    assert!(contains_range(&chars(""), &needle, 2, 2));
    assert!(!contains_range(&chars("et"), &needle, 1, 4));
    assert!(stands_at(&hay, &needle, 1, 4, 2));
    assert!(!stands_at(&hay, &needle, 1, 4, 1));
    assert!(!stands_at(&hay, &needle, 1, 4, 6));
    assert!(stands_at(&hay, &needle, 1, 1, 8));
    assert!(!stands_at(&hay, &needle, 1, 1, 9));
    assert!(contains_range(&hay, &chars("rn"), 0, 2));
    assert!(contains_range(&hay, &chars("kl"), 0, 2));
}
