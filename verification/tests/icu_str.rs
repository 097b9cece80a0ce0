use icu::icu_str::collect_icu_chars;
use icu::icu_str::IcuCursor;
use icu::icu_str::IcuStartError;
use icu::icu_str::IcuStrRef;

#[test]
fn ascii_only() {
    let out: Vec<(usize, char)> = collect_icu_chars("ABCDE", 0);
    assert_eq!(out, vec![(0, 'A'), (1, 'B'), (2, 'C'), (3, 'D'), (4, 'E')]);
}

#[test]
fn multi_byte() {
    // UTF-8 chars of 1, 2, 3 and 4 bytes.
    let out: Vec<(usize, char)> = collect_icu_chars("[$\u{A2}\u{20AC}\u{10348}]", 0);
    assert_eq!(
        out,
        vec![
            (0, '['),
            (1, '$'),
            (2, '\u{A2}'),
            (4, '\u{20AC}'),
            (7, '\u{10348}'),
            (11, ']')
        ]
    );
}

#[test]
fn icu_str_relative_offset() {
    let out: Vec<(usize, char)> =
        collect_icu_chars("\u{1F496}\u{1F1F7}\u{1F1FA}\u{1F1F8}\u{1F1F9}", 8);
    assert_eq!(out, vec![(0, '\u{1F1FA}'), (4, '\u{1F1F8}'), (8, '\u{1F1F9}')]);
}

#[test]
fn icu_str_empty() {
    let out: Vec<(usize, char)> = collect_icu_chars("", 0);
    assert_eq!(out, vec![]);
}

#[test]
fn icu_str_start_at_end() {
    let out: Vec<(usize, char)> =
        collect_icu_chars("\u{1F496}\u{1F1F7}\u{1F1FA}\u{1F1F8}\u{1F1F9}", 20);
    assert_eq!(out, vec![]);
}

#[test]
fn icu_str_try_splits_character() {
    // Offset 2 falls inside the 4-byte encoding of the first char.
    let r = "\u{1F496}".try_icu_chars(2);
    assert!(matches!(r, Err(IcuStartError::SplitsCharacter)));
}

#[test]
fn icu_str_try_out_of_range() {
    let r = "\u{1F496}".try_icu_chars(5);
    assert!(matches!(r, Err(IcuStartError::OutOfRange)));
}

#[test]
fn icu_str_try_ok_at_end() {
    // Starting exactly at the length is valid and yields nothing.
    let mut it = "\u{1F496}".try_icu_chars(4).unwrap_or_else(|_| panic!());
    assert_eq!(it.next(), None);
}

#[test]
fn icu_str_cursor_steps() {
    let mut it = "a\u{A2}b".icu_chars(0);
    assert_eq!(it.next(), Some((0, 'a')));
    assert_eq!(it.next(), Some((1, '\u{A2}')));
    assert_eq!(it.next(), Some((3, 'b')));
    assert_eq!(it.next(), None);
    assert_eq!(it.next(), None);
}

#[test]
fn icu_str_resume_at_yielded_offset() {
    // Every yielded offset, added to the iteration's starting offset, is a
    // valid place to resume, and the resumed pass continues the first one.
    let s = "[$\u{A2}\u{20AC}\u{10348}]";
    let all: Vec<(usize, char)> = collect_icu_chars(s, 0);
    for k in 0..all.len() {
        let (off, _) = all[k];
        let rest: Vec<(usize, char)> = collect_icu_chars(s, off);
        let expect: Vec<(usize, char)> =
            all[k..].iter().map(|&(o, c)| (o - off, c)).collect();
        assert_eq!(rest, expect);
    }
}
