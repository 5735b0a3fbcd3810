use aura_core::text::{
    chars_of, contains, joined, parse_u32, parse_u64, push_decimal, remove_first, split_chars,
    starts_with, string_of, trim,
};

fn decimal_string(n: u64) -> String {
    let mut text = String::new();
    push_decimal(&mut text, n as u128);
    text
}

#[test]
fn decimal_numbers_are_parsed_like_the_standard_library() {
    let samples = [
        "0", "7", "007", "1000", "+5", "+", "", "-1", "-0", " 5", "5 ", "1_000", "12a", "a12",
        "18446744073709551615", "18446744073709551616", "99999999999999999999999", "+018",
        "++1", "1+", "０",
    ];
    for s in samples {
        assert_eq!(parse_u64(s), s.parse::<u64>().ok(), "u64 from {:?}", s);
        assert_eq!(parse_u32(s), s.parse::<u32>().ok(), "u32 from {:?}", s);
    }
    assert_eq!(parse_u64("1000"), Some(1000));
    assert_eq!(parse_u32("4294967295"), Some(u32::MAX));
    assert_eq!(parse_u32("4294967296"), None);
    assert_eq!(parse_u64("18446744073709551615"), Some(u64::MAX));
}

#[test]
fn decimal_numbers_are_written_without_padding() {
    assert_eq!(decimal_string(0), "0");
    assert_eq!(decimal_string(9), "9");
    assert_eq!(decimal_string(10), "10");
    assert_eq!(decimal_string(1234567890), "1234567890");
    assert_eq!(decimal_string(u64::MAX), "18446744073709551615");
    let mut text = "n=".to_string();
    push_decimal(&mut text, u128::MAX);
    assert_eq!(text, "n=340282366920938463463374607431768211455");
}

#[test]
fn written_numbers_read_back() {
    for n in [0u64, 1, 9, 10, 99, 100, 4096, u32::MAX as u64, u64::MAX] {
        assert_eq!(parse_u64(&decimal_string(n)), Some(n));
    }
}

#[test]
fn trimming_agrees_with_the_standard_library() {
    let samples = [
        "",
        " ",
        "  a b \n",
        "\t\r\nx\u{000B}\u{000C}",
        "\u{3000}x\u{00A0}",
        "\u{0085}y\u{1680}",
        "\u{2000}\u{200A}z\u{2028}\u{2029}\u{202F}\u{205F}",
        "\u{200B}zero width space stays\u{200B}",
        "\u{001C}not white space\u{001F}",
        "inner  blanks   stay",
    ];
    for s in samples {
        assert_eq!(trim(s), s.trim(), "trim of {:?}", s);
    }
    assert_eq!(trim("  a b \n"), "a b");
}

#[test]
fn substrings_are_found() {
    assert!(contains("error: ExpiredLink", "ExpiredLink"));
    assert!(contains("abc", ""));
    assert!(contains("", ""));
    assert!(!contains("", "a"));
    assert!(!contains("Expired Link", "ExpiredLink"));
    assert!(contains("aab", "ab"));
    assert!(starts_with("http://x", "http"));
    assert!(!starts_with("/anime.php", "http"));
    assert!(!starts_with("htt", "http"));
}

#[test]
fn first_occurrence_is_removed() {
    assert_eq!(remove_first("https://animeheaven.me/a", "https://animeheaven.me"), "/a");
    assert_eq!(remove_first("abcabc", "bc"), "aabc");
    assert_eq!(remove_first("abc", "x"), "abc");
    assert_eq!(remove_first("abc", "abcd"), "abc");
    assert_eq!(remove_first("abc", "abc"), "");
    for (s, p) in [("a--b--c", "--"), ("xx", "x"), ("ééé", "é")] {
        assert_eq!(remove_first(s, p), s.replacen(p, "", 1));
    }
}

#[test]
fn splitting_agrees_with_the_standard_library() {
    for s in ["", "a", "a,b", "a,,b", ",", ",a,", "1-4, 6"] {
        let pieces: Vec<String> =
            split_chars(&chars_of(s), ',').iter().map(|p| string_of(p)).collect();
        let expected: Vec<String> = s.split(',').map(|p| p.to_string()).collect();
        assert_eq!(pieces, expected, "split of {:?}", s);
    }
}

#[test]
fn strings_are_joined() {
    assert_eq!(joined("key=", "abc"), "key=abc");
    assert_eq!(joined("", ""), "");
    assert_eq!(string_of(&chars_of("héllo")), "héllo");
}
