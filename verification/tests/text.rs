use visualizer::single::Single;
use visualizer::text::{
    contains_text, decimal_text, is_white, pad_right, parse_number, same_text, to_chars, trim,
};

#[test]
fn trims_like_the_standard_library() {
    for s in ["", " ", " a b\t", "\u{2003}x\u{85}", "\r\n", "é ", "\u{200b}z"] {
        assert_eq!(trim(s), s.trim());
    }
}

#[test]
fn white_space_is_that_of_unicode() {
    for v in 0..0x11_0000u32 {
        if let Some(c) = char::from_u32(v) {
            assert_eq!(is_white(c), c.is_whitespace());
        }
    }
}

#[test]
fn decimal_numbers() {
    for n in [0u64, 7, 10, 99, 100, 4294967295, u64::MAX] {
        assert_eq!(decimal_text(n), n.to_string());
        assert_eq!(parse_number(&decimal_text(n), u64::MAX), Some(n));
    }
}

#[test]
fn parses_like_the_standard_library() {
    for s in ["", "+", "-0", "-1", "0", "+0", "00255", "255", "256", "1 ", "x", "1_0", "٣", "++1"] {
        assert_eq!(parse_number(s, 255), s.parse::<u8>().ok().map(|v| v as u64), "{s}");
        assert_eq!(parse_number(s, u64::MAX), s.parse::<u64>().ok(), "{s}");
    }
    assert_eq!(parse_number("18446744073709551616", u64::MAX), None);
    assert_eq!(parse_number("18446744073709551615", u64::MAX), Some(u64::MAX));
    assert_eq!(parse_number("8", 7), None);
}

#[test]
fn searches_text() {
    assert!(contains_text("Audio/Sink", "Audio/Sink"));
    assert!(contains_text("xAudio/Sinky", "Audio/Sink"));
    assert!(!contains_text("Audio/Sin", "Audio/Sink"));
    assert!(contains_text("aab", "ab"));
    assert!(contains_text("", ""));
    assert!(!contains_text("", "a"));
}

#[test]
fn pads_on_the_right() {
    assert_eq!(pad_right("42", 5), format!("{:<5}", 42));
    assert_eq!(pad_right("123456", 5), "123456");
    assert_eq!(pad_right("é", 3), "é  ");
}

#[test]
fn compares_and_lists_characters() {
    assert!(same_text("a", "a"));
    assert!(!same_text("a", "A"));
    assert_eq!(to_chars("aé—"), vec!['a', 'é', '—']);
}

fn single(x: f32) -> Single {
    Single { bits: x.to_bits() }
}

#[test]
fn singles_compare_as_numbers() {
    let values = [
        0.0f32,
        -0.0,
        1.0,
        -1.0,
        1.3,
        -1.3,
        f32::MIN_POSITIVE,
        1e-45,
        -1e-45,
        f32::MAX,
        f32::MIN,
        f32::INFINITY,
        f32::NEG_INFINITY,
        f32::NAN,
        -f32::NAN,
    ];
    for a in values {
        assert_eq!(single(a).is_nan(), a.is_nan());
        for b in values {
            assert_eq!(single(a).lt(single(b)), a < b);
            assert_eq!(single(a).le(single(b)), a <= b);
            let m = f32::from_bits(single(a).max(single(b)).bits);
            assert!(m == a.max(b) || (m.is_nan() && a.is_nan() && b.is_nan()));
        }
        let c = f32::from_bits(single(a).clamp(single(0.4), single(4.0)).bits);
        assert!(c == a.clamp(0.4, 4.0) || (c.is_nan() && a.is_nan()));
    }
}
