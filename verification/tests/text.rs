use cutter::text::{
    after_last_in, chars_of, contains_char, contains_str, decimal_string, digit_of,
    first_index_in, parse_number, same_text,
};

fn parse(s: &str) -> Option<u32> {
    let chars = chars_of(s);
    parse_number(&chars, 0, chars.len())
}

#[test]
fn chars_are_kept_in_order() {
    assert_eq!(chars_of("aé漢"), vec!['a', 'é', '漢']);
    assert_eq!(chars_of(""), Vec::<char>::new());
}

#[test]
fn decimal_string_matches_std() {
    for n in [0u32, 1, 9, 10, 19, 20, 99, 100, 12345, 4294967295] {
        assert_eq!(decimal_string(n), n.to_string());
    }
    assert_eq!(decimal_string(1080), "1080");
}

#[test]
fn parse_number_matches_std_parse() {
    let cases = [
        "0", "1", "200", "007", "+5", "+", "", "-5", "++5", "5+", " 5", "5 ", "4294967295",
        "4294967296", "99999999999999999999", "00000000000000000000000000001", "1_000", "12a",
        "a12", "+0", "٣", "1.0",
    ];
    for s in cases {
        assert_eq!(parse(s), s.parse::<u32>().ok(), "parsing {:?}", s);
    }
}

#[test]
fn parse_number_reads_a_part_of_the_text() {
    let chars = chars_of("ab1920x1080");
    assert_eq!(parse_number(&chars, 2, 6), Some(1920));
    assert_eq!(parse_number(&chars, 7, 11), Some(1080));
    assert_eq!(parse_number(&chars, 2, 11), None);
    assert_eq!(parse_number(&chars, 3, 3), None);
}

#[test]
fn digit_of_knows_the_ten_digits() {
    assert_eq!(digit_of('0'), Some(0));
    assert_eq!(digit_of('9'), Some(9));
    assert_eq!(digit_of('x'), None);
    assert_eq!(digit_of('/'), None);
    assert_eq!(digit_of(':'), None);
    assert_eq!(digit_of('٣'), None);
}

#[test]
fn searching_finds_characters_and_substrings() {
    assert!(contains_char("a_b", '_'));
    assert!(!contains_char("ab", '_'));
    assert!(contains_str("img_200.jpg", "_200"));
    assert!(contains_str("img_200.jpg", ""));
    assert!(contains_str("", ""));
    assert!(contains_str("_200", "_200"));
    assert!(!contains_str("_20", "_200"));
    assert!(!contains_str("img_2_00.jpg", "_200"));
    assert!(contains_str("aab", "ab"));
    for (s, pat) in [("abcabc", "cab"), ("abc", "abcd"), ("xyz", "z"), ("ééé", "éé"), ("a", "b")] {
        assert_eq!(contains_str(s, pat), s.contains(pat));
    }
}

#[test]
fn same_text_compares_character_by_character() {
    assert!(same_text("", ""));
    assert!(same_text("s3", "s3"));
    assert!(!same_text("s3", "s4"));
    assert!(!same_text("s3", "s3 "));
}

#[test]
fn first_and_last_occurrences() {
    let chars = chars_of("a/b/c");
    assert_eq!(first_index_in(&chars, '/'), 1);
    assert_eq!(first_index_in(&chars, 'x'), 5);
    assert_eq!(after_last_in(&chars, 5, '/'), 4);
    assert_eq!(after_last_in(&chars, 3, '/'), 2);
    assert_eq!(after_last_in(&chars, 1, '/'), 0);
    assert_eq!(after_last_in(&chars, 5, 'x'), 0);
}
