use abar::color::{ParseHexRgbaError, parse_hex_rgba, parse_hex_rgba_to_bgra, rgba_to_bgra};

#[test]
fn parses_opaque_white() {
    assert_eq!(parse_hex_rgba("#FFFFFFFF").unwrap(), [255, 255, 255, 255]);
}

#[test]
fn parses_black_full_alpha() {
    assert_eq!(parse_hex_rgba("#000000FF").unwrap(), [0, 0, 0, 255]);
}

#[test]
fn parses_lowercase() {
    assert_eq!(parse_hex_rgba("#161925ff").unwrap(), [22, 25, 37, 255]);
}

#[test]
fn rejects_rgb_only() {
    assert_eq!(parse_hex_rgba("#161925"), Err(ParseHexRgbaError::InvalidFormat));
}

#[test]
fn rgba_to_bgra_reorders_channels() {
    assert_eq!(rgba_to_bgra([0x16, 0x19, 0x25, 255]), [0x25, 0x19, 0x16, 255]);
}

#[test]
fn parse_hex_to_bgra_matches_manual() {
    assert_eq!(
        parse_hex_rgba_to_bgra("#161925FF").unwrap(),
        rgba_to_bgra(parse_hex_rgba("#161925FF").unwrap()),
    );
}

#[test]
fn rejects_missing_hash() {
    assert_eq!(parse_hex_rgba("161925ff"), Err(ParseHexRgbaError::InvalidFormat));
}

#[test]
fn parses_mixed_case_digits() {
    assert_eq!(parse_hex_rgba("#aBcDeF01").unwrap(), [0xab, 0xcd, 0xef, 0x01]);
}

#[test]
fn rejects_non_hex_digit() {
    assert_eq!(parse_hex_rgba("#12345G78"), Err(ParseHexRgbaError::InvalidFormat));
}

#[test]
fn rejects_too_long() {
    assert_eq!(parse_hex_rgba("#1234567890"), Err(ParseHexRgbaError::InvalidFormat));
    assert_eq!(parse_hex_rgba_to_bgra(""), Err(ParseHexRgbaError::InvalidFormat));
}

#[test]
fn bgra_twice_is_identity() {
    let c = [1, 2, 3, 4];
    assert_eq!(rgba_to_bgra(rgba_to_bgra(c)), c);
}

#[test]
fn rgba_rows_to_bgra_with_padding() {
    let rgba: Vec<u8> = (1..=16).collect();
    let out = abar::color::rgba_to_bgra_rows(&rgba, 2, 12);
    assert_eq!(out, vec![3, 2, 1, 4, 7, 6, 5, 8, 0, 0, 0, 0, 11, 10, 9, 12, 15, 14, 13, 16, 0, 0, 0, 0]);
    assert!(abar::color::rgba_to_bgra_rows(&[], 0, 0).is_empty());
}

#[test]
fn pack_rows_drops_row_padding() {
    let data: Vec<u8> = vec![1, 2, 9, 3, 4, 9];
    assert_eq!(abar::color::pack_rows(data.clone(), 3, 2, 2), vec![1, 2, 3, 4]);
    assert_eq!(abar::color::pack_rows(data.clone(), 2, 2, 3), data);
    assert_eq!(abar::color::pack_rows(vec![1, 2], 3, 2, 2), vec![1, 2]);
}
