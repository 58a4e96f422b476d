use unicode_norm::is_combining_mark;
use unicode_norm::nfc;
use unicode_norm::nfc_stream_safe;
use unicode_norm::nfd;
use unicode_norm::nfd_stream_safe;
use unicode_norm::nfkc;
use unicode_norm::nfkd;

#[test]
fn test_nfd() {
    assert_eq!(nfd("abc"), "abc");
    assert_eq!(nfd("\u{1e0b}\u{1c4}"), "d\u{307}\u{1c4}");
    assert_eq!(nfd("\u{2026}"), "\u{2026}");
    assert_eq!(nfd("\u{2126}"), "\u{3a9}");
    assert_eq!(nfd("\u{1e0b}\u{323}"), "d\u{323}\u{307}");
    assert_eq!(nfd("\u{1e0d}\u{307}"), "d\u{323}\u{307}");
    assert_eq!(nfd("a\u{301}"), "a\u{301}");
    assert_eq!(nfd("\u{301}a"), "\u{301}a");
    assert_eq!(nfd("\u{d4db}"), "\u{1111}\u{1171}\u{11b6}");
    assert_eq!(nfd("\u{ac1c}"), "\u{1100}\u{1162}");
    assert_eq!(
        nfd("\u{E1}\u{325}\u{E1}\u{325}"),
        "a\u{325}\u{301}a\u{325}\u{301}"
    );
    let input = format!("\u{E1}{}", "\u{301}".repeat(31));
    let expected = format!("a{}", "\u{301}".repeat(32));
    assert_eq!(nfd(&input), expected);
    let input = format!("\u{E1}{}", "\u{301}".repeat(61));
    let expected = format!("a{}", "\u{301}".repeat(62));
    assert_eq!(nfd(&input), expected);
}

#[test]
fn test_nfd_stream_safe() {
    assert_eq!(nfd_stream_safe("abc"), "abc");
    assert_eq!(nfd_stream_safe("\u{1e0b}\u{1c4}"), "d\u{307}\u{1c4}");
    assert_eq!(nfd_stream_safe("\u{2026}"), "\u{2026}");
    assert_eq!(nfd_stream_safe("\u{2126}"), "\u{3a9}");
    assert_eq!(nfd_stream_safe("\u{1e0b}\u{323}"), "d\u{323}\u{307}");
    assert_eq!(nfd_stream_safe("\u{1e0d}\u{307}"), "d\u{323}\u{307}");
    assert_eq!(nfd_stream_safe("a\u{301}"), "a\u{301}");
    assert_eq!(nfd_stream_safe("\u{301}a"), "\u{301}a");
    assert_eq!(nfd_stream_safe("\u{d4db}"), "\u{1111}\u{1171}\u{11b6}");
    assert_eq!(nfd_stream_safe("\u{ac1c}"), "\u{1100}\u{1162}");
    let bounded = format!(
        "a{}\u{34f}{}",
        "\u{301}".repeat(30),
        "\u{301}".repeat(2)
    );
    let input = format!("a{}", "\u{301}".repeat(32));
    assert_eq!(nfd_stream_safe(&input), bounded);
    let input = format!("\u{E1}{}", "\u{301}".repeat(31));
    assert_eq!(nfd_stream_safe(&input), bounded);
    let input = format!("\u{E1}{}", "\u{301}".repeat(61));
    let expected = format!(
        "a{}\u{34f}{}\u{34f}{}",
        "\u{301}".repeat(30),
        "\u{301}".repeat(30),
        "\u{301}".repeat(2)
    );
    assert_eq!(nfd_stream_safe(&input), expected);
}

#[test]
fn test_nfkd() {
    assert_eq!(nfkd("abc"), "abc");
    assert_eq!(nfkd("\u{1e0b}\u{1c4}"), "d\u{307}DZ\u{30c}");
    assert_eq!(nfkd("\u{2026}"), "...");
    assert_eq!(nfkd("\u{2126}"), "\u{3a9}");
    assert_eq!(nfkd("\u{1e0b}\u{323}"), "d\u{323}\u{307}");
    assert_eq!(nfkd("\u{1e0d}\u{307}"), "d\u{323}\u{307}");
    assert_eq!(nfkd("a\u{301}"), "a\u{301}");
    assert_eq!(nfkd("\u{301}a"), "\u{301}a");
    assert_eq!(nfkd("\u{d4db}"), "\u{1111}\u{1171}\u{11b6}");
    assert_eq!(nfkd("\u{ac1c}"), "\u{1100}\u{1162}");
}

#[test]
fn test_nfc() {
    assert_eq!(nfc("abc"), "abc");
    assert_eq!(nfc("\u{1e0b}\u{1c4}"), "\u{1e0b}\u{1c4}");
    assert_eq!(nfc("\u{2026}"), "\u{2026}");
    assert_eq!(nfc("\u{2126}"), "\u{3a9}");
    assert_eq!(nfc("\u{1e0b}\u{323}"), "\u{1e0d}\u{307}");
    assert_eq!(nfc("\u{1e0d}\u{307}"), "\u{1e0d}\u{307}");
    assert_eq!(nfc("a\u{301}"), "\u{e1}");
    assert_eq!(nfc("\u{301}a"), "\u{301}a");
    assert_eq!(nfc("\u{d4db}"), "\u{d4db}");
    assert_eq!(nfc("\u{ac1c}"), "\u{ac1c}");
    assert_eq!(nfc("a\u{300}\u{305}\u{315}\u{5ae}b"), "\u{e0}\u{5ae}\u{305}\u{315}b");
    // U+0325 is sorted to the front (class 220 before 230) and then
    // composes with the `a` into U+1E01.
    let input = format!("a{}\u{325}", "\u{301}".repeat(32));
    let expected = format!("\u{1E01}{}", "\u{301}".repeat(32));
    assert_eq!(nfc(&input), expected);
}

#[test]
fn test_nfc_stream_safe() {
    assert_eq!(nfc_stream_safe("abc"), "abc");
    assert_eq!(nfc_stream_safe("\u{1e0b}\u{1c4}"), "\u{1e0b}\u{1c4}");
    assert_eq!(nfc_stream_safe("\u{2026}"), "\u{2026}");
    assert_eq!(nfc_stream_safe("\u{2126}"), "\u{3a9}");
    assert_eq!(nfc_stream_safe("\u{1e0b}\u{323}"), "\u{1e0d}\u{307}");
    assert_eq!(nfc_stream_safe("\u{1e0d}\u{307}"), "\u{1e0d}\u{307}");
    assert_eq!(nfc_stream_safe("a\u{301}"), "\u{e1}");
    assert_eq!(nfc_stream_safe("\u{301}a"), "\u{301}a");
    assert_eq!(nfc_stream_safe("\u{d4db}"), "\u{d4db}");
    assert_eq!(nfc_stream_safe("\u{ac1c}"), "\u{ac1c}");
    assert_eq!(
        nfc_stream_safe("a\u{300}\u{305}\u{315}\u{5ae}b"),
        "\u{e0}\u{5ae}\u{305}\u{315}b"
    );
    // In stream-safe mode a COMBINING GRAPHEME JOINER is inserted after 30
    // combining characters, which breaks up the sort, so the U+0325 is not
    // sorted next to the `a`; the `a` composes with a U+0301 instead.
    let input = format!("a{}\u{325}", "\u{301}".repeat(32));
    let expected = format!(
        "\u{E1}{}\u{34F}\u{325}{}",
        "\u{301}".repeat(29),
        "\u{301}".repeat(2)
    );
    assert_eq!(nfc_stream_safe(&input), expected);
}

#[test]
fn test_nfkc() {
    assert_eq!(nfkc("abc"), "abc");
    assert_eq!(nfkc("\u{1e0b}\u{1c4}"), "\u{1e0b}D\u{17d}");
    assert_eq!(nfkc("\u{2026}"), "...");
    assert_eq!(nfkc("\u{2126}"), "\u{3a9}");
    assert_eq!(nfkc("\u{1e0b}\u{323}"), "\u{1e0d}\u{307}");
    assert_eq!(nfkc("\u{1e0d}\u{307}"), "\u{1e0d}\u{307}");
    assert_eq!(nfkc("a\u{301}"), "\u{e1}");
    assert_eq!(nfkc("\u{301}a"), "\u{301}a");
    assert_eq!(nfkc("\u{d4db}"), "\u{d4db}");
    assert_eq!(nfkc("\u{ac1c}"), "\u{ac1c}");
    assert_eq!(nfkc("a\u{300}\u{305}\u{315}\u{5ae}b"), "\u{e0}\u{5ae}\u{305}\u{315}b");
}

#[test]
fn test_official() {
    // Records in the layout of the Unicode normalization conformance data:
    // (c1, c2, c3, c4, c5) with c2 = NFC(c1..c3), c3 = NFD(c1..c3),
    // c4 = NFKC(c1..c5), c5 = NFKD(c1..c5).
    let records: Vec<(&str, &str, &str, &str, &str)> = vec![
        ("\u{1E0A}", "\u{1E0A}", "D\u{0307}", "\u{1E0A}", "D\u{0307}"),
        ("\u{00C5}", "\u{00C5}", "A\u{030A}", "\u{00C5}", "A\u{030A}"),
        ("\u{212B}", "\u{00C5}", "A\u{030A}", "\u{00C5}", "A\u{030A}"),
        ("\u{2126}", "\u{3A9}", "\u{3A9}", "\u{3A9}", "\u{3A9}"),
        ("\u{FB01}", "\u{FB01}", "\u{FB01}", "fi", "fi"),
        (
            "\u{1E0B}\u{0323}",
            "\u{1E0D}\u{0307}",
            "d\u{0323}\u{0307}",
            "\u{1E0D}\u{0307}",
            "d\u{0323}\u{0307}",
        ),
        ("\u{AC1C}", "\u{AC1C}", "\u{1100}\u{1162}", "\u{AC1C}", "\u{1100}\u{1162}"),
    ];
    for &(s1, s2, s3, s4, s5) in &records {
        assert_eq!(nfc(s1), s2);
        assert_eq!(nfc(s2), s2);
        assert_eq!(nfc(s3), s2);
        assert_eq!(nfc(s4), s4);
        assert_eq!(nfc(s5), s4);

        assert_eq!(nfd(s1), s3);
        assert_eq!(nfd(s2), s3);
        assert_eq!(nfd(s3), s3);
        assert_eq!(nfd(s4), s5);
        assert_eq!(nfd(s5), s5);

        assert_eq!(nfkc(s1), s4);
        assert_eq!(nfkc(s2), s4);
        assert_eq!(nfkc(s3), s4);
        assert_eq!(nfkc(s4), s4);
        assert_eq!(nfkc(s5), s4);

        assert_eq!(nfkd(s1), s5);
        assert_eq!(nfkd(s2), s5);
        assert_eq!(nfkd(s3), s5);
        assert_eq!(nfkd(s4), s5);
        assert_eq!(nfkd(s5), s5);
    }
}

#[test]
fn test_is_combining_mark_ascii() {
    for cp in 0..0x7f {
        assert!(!is_combining_mark(char::from_u32(cp).unwrap()));
    }
}

#[test]
fn test_is_combining_mark_misc() {
    // U+11C3A BHAIKSUKI VOWEL SIGN O and U+11C3F BHAIKSUKI SIGN VIRAMA,
    // both nonspacing marks.
    assert!(is_combining_mark('\u{11C3A}'));
    assert!(is_combining_mark('\u{11C3F}'));
}
