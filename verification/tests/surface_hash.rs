use native_tauri_surface::SurfaceHash;

#[test]
fn to_string_is_decimal() {
    assert_eq!(SurfaceHash(0).to_string(), "0");
    assert_eq!(SurfaceHash(7).to_string(), "7");
    assert_eq!(SurfaceHash(10).to_string(), "10");
    assert_eq!(SurfaceHash(1234567890).to_string(), "1234567890");
    assert_eq!(SurfaceHash(u64::MAX).to_string(), "18446744073709551615");
}

#[test]
fn to_string_matches_std_formatting() {
    for v in [0u64, 1, 9, 99, 100, 4096, 987654321012345678, u64::MAX - 1, u64::MAX] {
        assert_eq!(SurfaceHash(v).to_string(), v.to_string());
    }
}

#[test]
fn parse_reads_decimal_text() {
    assert_eq!(SurfaceHash::parse("42"), Some(SurfaceHash(42)));
    assert_eq!(SurfaceHash::parse("0"), Some(SurfaceHash(0)));
    assert_eq!(SurfaceHash::parse("007"), Some(SurfaceHash(7)));
    assert_eq!(SurfaceHash::parse("+15"), Some(SurfaceHash(15)));
    assert_eq!(
        SurfaceHash::parse("18446744073709551615"),
        Some(SurfaceHash(u64::MAX))
    );
}

#[test]
fn parse_rejects_what_u64_parse_rejects() {
    for text in ["", "+", "-", "-1", "12a", " 1", "1 ", "18446744073709551616", "99999999999999999999", "1.5", "++1"] {
        assert_eq!(SurfaceHash::parse(text), None, "{text:?}");
        assert!(text.parse::<u64>().is_err());
    }
}

#[test]
fn parse_agrees_with_u64_parse() {
    for text in ["0", "1", "+0", "000", "4294967296", "18446744073709551615", "18446744073709551616", "x", "-0"] {
        assert_eq!(SurfaceHash::parse(text).map(|h| h.value()), text.parse::<u64>().ok());
    }
}

#[test]
fn text_round_trip() {
    for v in [0u64, 5, 10, 255, 65536, 1 << 40, u64::MAX] {
        let h = SurfaceHash::from(v);
        assert_eq!(SurfaceHash::parse(&h.to_string()), Some(h));
        assert_eq!(SurfaceHash::from_decimal(h.to_string()), h);
    }
}

#[test]
fn from_u64_and_deref() {
    let h: SurfaceHash = 99u64.into();
    assert_eq!(h, SurfaceHash(99));
    assert_eq!(*h, 99);
    assert_eq!(h.value(), 99);
}
