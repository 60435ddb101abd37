use bpond::color_arg::{parse_bg_arg, parse_hex_rgb};

fn args(parts: &[&str]) -> Vec<String> {
    parts.iter().map(|s| (*s).to_string()).collect()
}

#[test]
fn parse_hex_accepts_six_digit_lowercase() {
    assert_eq!(parse_hex_rgb("1a2b3c"), Some((0x1a, 0x2b, 0x3c)));
}

#[test]
fn parse_hex_accepts_leading_hash_and_uppercase() {
    assert_eq!(parse_hex_rgb("#FFAA00"), Some((0xff, 0xaa, 0x00)));
}

#[test]
fn parse_hex_rejects_short_strings() {
    assert_eq!(parse_hex_rgb("12345"), None);
    assert_eq!(parse_hex_rgb("#1a2"), None);
}

#[test]
fn parse_hex_rejects_non_hex() {
    assert_eq!(parse_hex_rgb("1a2zzz"), None);
}

#[test]
fn parse_bg_finds_space_separated_value() {
    let argv = args(&["bpond", "--bg", "1a2434", "--debug"]);
    assert_eq!(parse_bg_arg(&argv), Some((0x1a, 0x24, 0x34)));
}

#[test]
fn parse_bg_finds_equals_separated_value() {
    let argv = args(&["bpond", "--bg=#1a2434"]);
    assert_eq!(parse_bg_arg(&argv), Some((0x1a, 0x24, 0x34)));
}

#[test]
fn parse_bg_ignores_invalid_hex() {
    let argv = args(&["bpond", "--bg", "notacolor"]);
    assert_eq!(parse_bg_arg(&argv), None);
}

#[test]
fn parse_bg_returns_none_when_flag_missing() {
    let argv = args(&["bpond", "--debug"]);
    assert_eq!(parse_bg_arg(&argv), None);
}
