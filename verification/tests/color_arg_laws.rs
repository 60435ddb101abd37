use bpond::color_arg::{parse_bg_arg, parse_hex_rgb};

fn args(parts: &[&str]) -> Vec<String> {
    parts.iter().map(|s| (*s).to_string()).collect()
}

#[test]
fn hex_roundtrip_lower_and_upper() {
    for &(r, g, b) in &[(0u8, 0u8, 0u8), (255, 255, 255), (0x12, 0xab, 0x7f), (1, 2, 3)] {
        let lower = format!("{:02x}{:02x}{:02x}", r, g, b);
        let upper = format!("#{:02X}{:02X}{:02X}", r, g, b);
        assert_eq!(parse_hex_rgb(&lower), Some((r, g, b)));
        assert_eq!(parse_hex_rgb(&upper), Some((r, g, b)));
    }
}

#[test]
fn hex_rejects_two_hashes_and_long_values() {
    assert_eq!(parse_hex_rgb("##123456"), None);
    assert_eq!(parse_hex_rgb("1234567"), None);
    assert_eq!(parse_hex_rgb(""), None);
    assert_eq!(parse_hex_rgb("#"), None);
}

#[test]
fn hex_rejects_non_ascii_and_signs() {
    assert_eq!(parse_hex_rgb("+12345"), None);
    assert_eq!(parse_hex_rgb("12345é"), None);
    assert_eq!(parse_hex_rgb("1a2b3c "), None);
}

#[test]
fn bg_forms_agree() {
    let a = parse_bg_arg(&args(&["bpond", "--debug", "--bg=0a0b0c", "x"]));
    let b = parse_bg_arg(&args(&["bpond", "--debug", "--bg", "0a0b0c", "y"]));
    assert_eq!(a, Some((10, 11, 12)));
    assert_eq!(a, b);
}

#[test]
fn bg_first_option_decides_even_when_invalid() {
    let argv = args(&["bpond", "--bg", "zz", "--bg", "112233"]);
    assert_eq!(parse_bg_arg(&argv), None);
    let argv = args(&["bpond", "--bg=#010203", "--bg", "112233"]);
    assert_eq!(parse_bg_arg(&argv), Some((1, 2, 3)));
}

#[test]
fn bg_flag_without_value_gives_none() {
    assert_eq!(parse_bg_arg(&args(&["bpond", "--bg"])), None);
}

#[test]
fn bg_needs_exact_flag() {
    assert_eq!(parse_bg_arg(&args(&["--bgx", "112233"])), None);
    assert_eq!(parse_bg_arg(&args(&["-bg", "112233"])), None);
    assert_eq!(parse_bg_arg(&args(&[])), None);
}
