use wmts_service::numbers::{decimal_chars, parse_u32, parse_u8};
use wmts_service::text::{chars_of, replace_all, string_of};

#[test]
fn replace_all_replaces_every_placeholder() {
    assert_eq!(replace_all("a{X}b{X}c", "{X}", "1"), "a1b1c");
    assert_eq!(replace_all("no placeholder", "{X}", "1"), "no placeholder");
    assert_eq!(replace_all("", "{X}", "1"), "");
}

#[test]
fn replace_all_takes_leftmost_matches_without_overlap() {
    assert_eq!(replace_all("aaa", "aa", "b"), "ba");
    assert_eq!(replace_all("aaaa", "aa", "b"), "bb");
    assert_eq!(replace_all("aaa", "aa", "b"), "aaa".replace("aa", "b"));
}

#[test]
fn replace_all_with_empty_pattern_matches_std() {
    assert_eq!(replace_all("ab", "", "X"), "XaXbX");
    assert_eq!(replace_all("", "", "X"), "X");
    assert_eq!(replace_all("ab", "", "X"), "ab".replace("", "X"));
}

#[test]
fn replace_all_does_not_rescan_inserted_text() {
    assert_eq!(replace_all("{A}", "{A}", "{A}{A}"), "{A}{A}");
    assert_eq!(replace_all("xéy", "é", "e"), "xey");
}

#[test]
fn chars_and_strings_round_trip() {
    let cs = chars_of("héllo");
    assert_eq!(cs, vec!['h', 'é', 'l', 'l', 'o']);
    assert_eq!(string_of(&cs), "héllo");
}

#[test]
fn decimal_text_of_numbers() {
    let text = |n: u64| decimal_chars(n).into_iter().collect::<String>();
    assert_eq!(text(0), "0");
    assert_eq!(text(7), "7");
    assert_eq!(text(256), "256");
    assert_eq!(text(u64::MAX), u64::MAX.to_string());
}

#[test]
fn parse_u8_accepts_what_std_accepts() {
    assert_eq!(parse_u8("03"), Some(3));
    assert_eq!(parse_u8("+7"), Some(7));
    assert_eq!(parse_u8("255"), Some(255));
    assert_eq!(parse_u8("0"), Some(0));
}

#[test]
fn parse_u8_refuses_what_std_refuses() {
    for s in ["", "+", "-1", "-0", "256", " 1", "1 ", "1a", "++1", "999999999999"] {
        assert_eq!(parse_u8(s), None, "{s}");
        assert!(s.parse::<u8>().is_err());
    }
}

#[test]
fn parse_u32_bounds() {
    assert_eq!(parse_u32("4294967295"), Some(u32::MAX));
    assert_eq!(parse_u32("4294967296"), None);
    assert_eq!(parse_u32("0000000000012"), Some(12));
    assert_eq!(parse_u32("12x"), None);
}

#[test]
fn parse_reads_back_decimal_text() {
    for n in [0u32, 1, 9, 10, 99, 100, 65535, 1_000_000, u32::MAX] {
        let text: String = decimal_chars(n as u64).into_iter().collect();
        assert_eq!(parse_u32(&text), Some(n));
    }
}

#[test]
fn replacing_a_pattern_by_itself_changes_nothing() {
    for s in ["", "a{X}b{X}", "{X}{X}", "{X", "aaa"] {
        assert_eq!(replace_all(s, "{X}", "{X}"), s);
        assert_eq!(replace_all(s, "", ""), s);
    }
}
