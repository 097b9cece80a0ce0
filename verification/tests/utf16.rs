use icu::icu_str::collect_icu_chars;
use icu::icu_str::IcuCursor;
use icu::icu_str::IcuStartError;
use icu::icu_str::IcuStrRef;
use icu::utf16::as_utf16_type;
use icu::utf16::Utf16Type;

#[test]
fn bmp_only() {
    let v: Vec<u16> = vec![65, 66, 67, 68, 69];
    let out: Vec<(usize, char)> = collect_icu_chars(v.as_slice(), 0);
    assert_eq!(out, vec![(0, 'A'), (1, 'B'), (2, 'C'), (3, 'D'), (4, 'E')]);
}

#[test]
fn surrogate_pairs() {
    let v: Vec<u16> = vec![0x5B, 0xD801, 0xDC37, 0xD852, 0xDF62, 0x5D];
    let out: Vec<(usize, char)> = collect_icu_chars(v.as_slice(), 0);
    assert_eq!(
        out,
        vec![(0, '['), (1, '\u{10437}'), (3, '\u{24B62}'), (5, ']')]
    );
}

#[test]
fn surrogate_pairs_unpaired_high() {
    let v: Vec<u16> = vec![0x5B, 0xD801, 0x5D];
    let out: Vec<(usize, char)> = collect_icu_chars(v.as_slice(), 0);
    assert_eq!(out, vec![(0, '['), (1, '\u{FFFD}'), (2, ']')]);
}

#[test]
fn surrogate_pairs_trailing_high() {
    let v: Vec<u16> = vec![0x5B, 0xD801];
    let out: Vec<(usize, char)> = collect_icu_chars(v.as_slice(), 0);
    assert_eq!(out, vec![(0, '['), (1, '\u{FFFD}')]);
}

#[test]
fn surrogate_pairs_unpaired_low() {
    let v: Vec<u16> = vec![0x5B, 0xDC37, 0x5D];
    let out: Vec<(usize, char)> = collect_icu_chars(v.as_slice(), 0);
    assert_eq!(out, vec![(0, '['), (1, '\u{FFFD}'), (2, ']')]);
}

#[test]
fn surrogate_pairs_trailing_low() {
    let v: Vec<u16> = vec![0x5B, 0xDC37];
    let out: Vec<(usize, char)> = collect_icu_chars(v.as_slice(), 0);
    assert_eq!(out, vec![(0, '['), (1, '\u{FFFD}')]);
}

#[test]
fn utf16_relative_offset() {
    let v: Vec<u16> = vec![65, 66, 67, 68, 69];
    let out: Vec<(usize, char)> = collect_icu_chars(v.as_slice(), 2);
    assert_eq!(out, vec![(0, 'C'), (1, 'D'), (2, 'E')]);
}

#[test]
fn utf16_empty() {
    let v: Vec<u16> = vec![];
    let out: Vec<(usize, char)> = collect_icu_chars(v.as_slice(), 0);
    assert_eq!(out, vec![]);
}

#[test]
fn utf16_start_at_end() {
    let v: Vec<u16> = vec![65, 66, 67, 68, 69];
    let out: Vec<(usize, char)> = collect_icu_chars(v.as_slice(), 5);
    assert_eq!(out, vec![]);
}

#[test]
fn utf16_try_splits_pair() {
    // Offset 2 splits the surrogate pair at positions 1 and 2.
    let v: Vec<u16> = vec![0x5B, 0xD801, 0xDC37, 0x5D];
    let r = v.as_slice().try_icu_chars(2);
    assert!(matches!(r, Err(IcuStartError::SplitsCharacter)));
}

#[test]
fn utf16_try_out_of_range() {
    let v: Vec<u16> = vec![65, 66, 67, 68, 69];
    let r = v.as_slice().try_icu_chars(6);
    assert!(matches!(r, Err(IcuStartError::OutOfRange)));
}

#[test]
fn utf16_try_ok_at_end() {
    // Starting exactly at the length is valid and yields nothing, even when
    // the buffer ends in a high surrogate.
    let v: Vec<u16> = vec![65, 0xD801];
    let mut it = v.as_slice().try_icu_chars(2).unwrap_or_else(|_| panic!());
    assert_eq!(it.next(), None);
}

#[test]
fn utf16_pair_consumes_two_units() {
    // A matching pair yields one code point and the next offset is two
    // units further on.
    let v: Vec<u16> = vec![0xD801, 0xDC37, 65];
    let mut it = v.as_slice().icu_chars(0);
    assert_eq!(it.next(), Some((0, '\u{10437}')));
    assert_eq!(it.next(), Some((2, 'A')));
    assert_eq!(it.next(), None);
}

#[test]
fn utf16_resume_at_yielded_offset() {
    // Every yielded offset, added to the iteration's starting offset, is a
    // valid place to resume, and the resumed pass continues the first one.
    let v: Vec<u16> = vec![0x5B, 0xD801, 0xDC37, 0xD852, 0xDF62, 0xDC00, 0x5D];
    let all: Vec<(usize, char)> = collect_icu_chars(v.as_slice(), 0);
    for k in 0..all.len() {
        let (off, _) = all[k];
        let rest: Vec<(usize, char)> = collect_icu_chars(v.as_slice(), off);
        let expect: Vec<(usize, char)> =
            all[k..].iter().map(|&(o, c)| (o - off, c)).collect();
        assert_eq!(rest, expect);
    }
}

#[test]
fn utf16_split_pass_matches_full_pass() {
    // Decoding in one pass and decoding split at a valid boundary yield the
    // same code points.
    let v: Vec<u16> = vec![0x5B, 0xD801, 0xDC37, 0xD801, 0x5D];
    let full: Vec<char> = collect_icu_chars(v.as_slice(), 0)
        .into_iter()
        .map(|(_, c)| c)
        .collect();
    for k in [0usize, 1, 3, 4, 5] {
        let front: Vec<char> = collect_icu_chars(&v[..k], 0)
            .into_iter()
            .map(|(_, c)| c)
            .collect();
        let back: Vec<char> = collect_icu_chars(v.as_slice(), k)
            .into_iter()
            .map(|(_, c)| c)
            .collect();
        let joined: Vec<char> = front.into_iter().chain(back.into_iter()).collect();
        assert_eq!(joined, full);
    }
}

#[test]
fn classify_code_units() {
    assert!(matches!(as_utf16_type(0x41), Utf16Type::Normal('A')));
    assert!(matches!(as_utf16_type(0xFFFD), Utf16Type::Normal('\u{FFFD}')));
    assert!(matches!(
        as_utf16_type(0xD800),
        Utf16Type::HighSurrogate(0xD800)
    ));
    assert!(matches!(
        as_utf16_type(0xDBFF),
        Utf16Type::HighSurrogate(0xDBFF)
    ));
    assert!(matches!(
        as_utf16_type(0xDC00),
        Utf16Type::LowSurrogate(0xDC00)
    ));
    assert!(matches!(
        as_utf16_type(0xDFFF),
        Utf16Type::LowSurrogate(0xDFFF)
    ));
}
