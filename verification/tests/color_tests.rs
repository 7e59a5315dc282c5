use checkbox_frontend::color::hex_color_channels;

#[test]
fn hex_color_black() {
    assert_eq!(hex_color_channels("#000000"), (0, 0, 0));
}

#[test]
fn hex_color_mixed_case() {
    assert_eq!(hex_color_channels("#FF8000"), (255, 128, 0));
    assert_eq!(hex_color_channels("#ff80Aa"), (255, 128, 170));
}

#[test]
fn hex_color_without_or_with_many_hashes() {
    assert_eq!(hex_color_channels("102030"), (16, 32, 48));
    assert_eq!(hex_color_channels("###102030"), (16, 32, 48));
}

#[test]
fn hex_color_invalid_fields_read_as_zero() {
    assert_eq!(hex_color_channels("#zz10-1"), (0, 16, 0));
}

#[test]
fn hex_color_plus_sign_field() {
    assert_eq!(hex_color_channels("#+f+a0c"), (15, 10, 12));
}

#[test]
fn hex_color_extra_bytes_ignored() {
    assert_eq!(hex_color_channels("#a0b0c0dd"), (160, 176, 192));
}

#[test]
fn hex_color_matches_from_str_radix() {
    for s in ["#12+4-6", "#0aG0ff", "#é0a1b", "#ab+c+d"] {
        let t = s.trim_start_matches('#');
        if t.len() >= 6 && t.is_char_boundary(2) && t.is_char_boundary(4) && t.is_char_boundary(6) {
            let want = (
                u8::from_str_radix(&t[0..2], 16).unwrap_or(0),
                u8::from_str_radix(&t[2..4], 16).unwrap_or(0),
                u8::from_str_radix(&t[4..6], 16).unwrap_or(0),
            );
            assert_eq!(hex_color_channels(s), want, "{s}");
        }
    }
}
