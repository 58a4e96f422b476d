use unicode_norm::canonical_combining_class;
use unicode_norm::compose;
use unicode_norm::decompose_canonical;
use unicode_norm::decompose_compatible;
use unicode_norm::hangul_compose;
use unicode_norm::hangul_decompose;
use unicode_norm::nfc;
use unicode_norm::nfc_stream_safe;
use unicode_norm::nfd;
use unicode_norm::nfd_stream_safe;
use unicode_norm::nfkc;
use unicode_norm::nfkd;
use unicode_norm::stream_safe;
use unicode_norm::to_codepoint_seq;

fn samples() -> Vec<String> {
    vec![
        String::new(),
        "abc".to_string(),
        "a\u{301}".to_string(),
        "\u{e1}\u{325}".to_string(),
        "\u{1e0b}\u{323}".to_string(),
        "\u{2126}\u{212b}".to_string(),
        "\u{ac1c}\u{d4db}".to_string(),
        "\u{1100}\u{1162}\u{11b6}".to_string(),
        "\u{301}a\u{fb01}".to_string(),
        format!("a{}\u{325}", "\u{301}".repeat(40)),
    ]
}

#[test]
fn test_idempotence() {
    for s in samples() {
        let d = nfd(&s);
        assert_eq!(nfd(&d), d);
        let c = nfc(&s);
        assert_eq!(nfc(&c), c);
        let kd = nfkd(&s);
        assert_eq!(nfkd(&kd), kd);
        let kc = nfkc(&s);
        assert_eq!(nfkc(&kc), kc);
    }
}

#[test]
fn test_decomposition_composition_duality() {
    // Canonically equivalent strings have the same NFD, so the NFD of the
    // NFC of a string is the NFD of the string itself.
    for s in samples() {
        let c = nfc(&s);
        assert_eq!(nfd(&c), nfd(&s));
    }
}

#[test]
fn test_nfd_runs_non_decreasing() {
    for s in samples() {
        let d = nfd(&s);
        let classes: Vec<u8> = d.chars().map(canonical_combining_class).collect();
        for w in classes.windows(2) {
            assert!(w[1] == 0 || w[0] <= w[1]);
        }
    }
}

#[test]
fn test_stream_safe_run_bound() {
    // A starter followed by 31 marks of class 230: the 31st mark ends up
    // preceded by an inserted COMBINING GRAPHEME JOINER.
    let input = format!("a{}", "\u{301}".repeat(31));
    let expected = format!("a{}\u{34f}\u{301}", "\u{301}".repeat(30));
    assert_eq!(nfd_stream_safe(&input), expected);
    // No run of consecutive non-starters in any stream-safe output is
    // longer than 30.
    for s in samples() {
        let out = stream_safe(&s);
        let mut run = 0;
        for c in out.chars() {
            if canonical_combining_class(c) != 0 {
                run += 1;
            } else {
                run = 0;
            }
            assert!(run <= 30);
        }
    }
}

#[test]
fn test_char_primitives() {
    assert_eq!(compose('a', '\u{301}'), Some('\u{e1}'));
    assert_eq!(compose('\u{41}', '\u{30a}'), Some('\u{c5}'));
    assert_eq!(compose('a', 'b'), None);
    // An excluded composite is never produced: U+0958 is in the
    // composition exclusions.
    assert_eq!(compose('\u{915}', '\u{93c}'), None);
    assert_eq!(canonical_combining_class('\u{301}'), 230);
    assert_eq!(canonical_combining_class('\u{323}'), 220);
    assert_eq!(canonical_combining_class('a'), 0);
    assert_eq!(canonical_combining_class('\u{34f}'), 0);
    assert_eq!(decompose_canonical('\u{e1}'), vec!['a', '\u{301}']);
    assert_eq!(decompose_canonical('\u{2126}'), vec!['\u{3a9}']);
    assert_eq!(decompose_canonical('x'), vec!['x']);
    assert_eq!(decompose_compatible('\u{fb01}'), vec!['f', 'i']);
    assert_eq!(decompose_compatible('\u{2026}'), vec!['.', '.', '.']);
}

#[test]
fn test_hangul_arithmetic() {
    assert_eq!(hangul_decompose('\u{ac1c}'), vec!['\u{1100}', '\u{1162}']);
    assert_eq!(hangul_decompose('\u{d4db}'), vec!['\u{1111}', '\u{1171}', '\u{11b6}']);
    assert_eq!(hangul_compose('\u{1100}', '\u{1162}'), Some('\u{ac1c}'));
    assert_eq!(hangul_compose('\u{d4cc}', '\u{11b6}'), Some('\u{d4db}'));
    assert_eq!(hangul_compose('\u{1100}', 'a'), None);
    // An LVT syllable does not take another trailing consonant.
    assert_eq!(hangul_compose('\u{ac1d}', '\u{11a8}'), None);
    // Decomposed jamo recompose through the full pipeline as well.
    assert_eq!(nfc("\u{1100}\u{1162}"), "\u{ac1c}");
    assert_eq!(nfc("\u{1111}\u{1171}\u{11b6}"), "\u{d4db}");
}

#[test]
fn test_to_codepoint_seq() {
    assert_eq!(to_codepoint_seq("A\u{301}".to_string()), "U+0041 U+0301 ");
    assert_eq!(to_codepoint_seq(String::new()), "");
    assert_eq!(to_codepoint_seq("\u{11C3A}".to_string()), "U+11C3A ");
    assert_eq!(to_codepoint_seq("\u{0}".to_string()), "U+0000 ");
}
