use barblocks::scan::{find_char, parse_bool, parse_u32, parse_u64, strip_leading, strip_one_quote, take_first_line, trim, trim_char};

#[test]
fn u64_parsing_matches_the_standard_reading() {
    assert_eq!(parse_u64("0"), Some(0));
    assert_eq!(parse_u64("42"), Some(42));
    assert_eq!(parse_u64("+42"), Some(42));
    assert_eq!(parse_u64("007"), Some(7));
    assert_eq!(parse_u64("18446744073709551615"), Some(u64::MAX));
    assert_eq!(parse_u64("18446744073709551616"), None);
    assert_eq!(parse_u64(""), None);
    assert_eq!(parse_u64("+"), None);
    assert_eq!(parse_u64("-1"), None);
    assert_eq!(parse_u64("4 2"), None);
    assert_eq!(parse_u64("1e3"), None);
}

#[test]
fn u32_parsing_rejects_what_overflows_its_range() {
    assert_eq!(parse_u32("4294967295"), Some(u32::MAX));
    assert_eq!(parse_u32("4294967296"), None);
    assert_eq!(parse_u32("+7"), Some(7));
}

#[test]
fn booleans_are_exactly_true_or_false() {
    assert_eq!(parse_bool("true"), Some(true));
    assert_eq!(parse_bool("false"), Some(false));
    assert_eq!(parse_bool("True"), None);
    assert_eq!(parse_bool("yes"), None);
    assert_eq!(parse_bool(""), None);
}

#[test]
fn trimming_removes_blanks_and_decoration() {
    assert_eq!(trim("  key\t"), "key");
    assert_eq!(trim(""), "");
    assert_eq!(trim(" \t "), "");
    assert_eq!(strip_leading("**key", '*'), "key");
    assert_eq!(strip_leading("key*", '*'), "key*");
    assert_eq!(trim_char("##aa##", '#'), "aa");
    assert_eq!(trim_char("a#a", '#'), "a#a");
}

#[test]
fn only_one_trailing_quote_is_stripped() {
    assert_eq!(strip_one_quote("'v''"), "'v'");
    assert_eq!(strip_one_quote("v"), "v");
    assert_eq!(strip_one_quote(""), "");
}

#[test]
fn the_first_line_stops_at_the_first_break() {
    assert_eq!(take_first_line("one\ntwo\nthree"), "one");
    assert_eq!(take_first_line("whole"), "whole");
    assert_eq!(take_first_line("\nrest"), "");
}

#[test]
fn find_char_reports_the_length_when_absent() {
    assert_eq!(find_char("a:b", ':'), 1);
    assert_eq!(find_char("ab", ':'), 2);
    assert_eq!(find_char("", ':'), 0);
}
