use tether::parse::parse_u32;
use tether::text::{chars_of, concat_str, decimal_of, hex_lower, replace_char_of, string_of};
use tether::tmux::capture_text;

#[test]
fn hex_lower_matches_format() {
    let bytes = [0x00u8, 0x0f, 0xa0, 0xff, 0x7b];
    let expected: String = bytes.iter().map(|b| format!("{:02x}", b)).collect();
    assert_eq!(hex_lower(&bytes), expected);
    assert_eq!(hex_lower(&[0xde, 0xad, 0xbe, 0xef]), "deadbeef");
    assert_eq!(hex_lower(&[]), "");
}

#[test]
fn decimal_matches_format() {
    for n in [0u64, 7, 10, 99, 100, 604800, u64::MAX] {
        assert_eq!(decimal_of(n), n.to_string());
    }
}

#[test]
fn decimal_round_trips_through_parse() {
    for n in [0u32, 1, 42, 65535, u32::MAX] {
        assert_eq!(parse_u32(&chars_of(&decimal_of(n as u64))), Some(n));
    }
}

#[test]
fn replace_dots() {
    assert_eq!(replace_char_of("work:0.1", '.', '_'), "work:0_1");
    assert_eq!(replace_char_of("", '.', '_'), "");
}

#[test]
fn lossy_decoding_replaces_bad_bytes() {
    assert_eq!(capture_text(b"ok"), "ok");
    assert_eq!(capture_text(&[0x61, 0xff, 0x62]), "a\u{FFFD}b");
}

#[test]
fn string_pieces() {
    let v = chars_of("h\u{e9}llo");
    assert_eq!(v.len(), 5);
    assert_eq!(string_of(&v, 1, 3), "\u{e9}l");
    assert_eq!(concat_str("ab", "cd"), "abcd");
}
